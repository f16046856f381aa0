//! What the host and an out-of-process plugin say to each other.
//!
//! Newline-delimited JSON over the plugin child's stdin and stdout: the host
//! writes one `PluginEvent` per line, the plugin writes one `PluginCommand`
//! per line. A line is the framing, so nothing may emit an embedded newline.
//!
//! The two sides are separate builds: a plugin is shipped independently against
//! a version of this contract, so a version mismatch is refused.

use crate::text::{chars_of, decimal, decimal_text, decimal_usize, trim, trim_text};
use vstd::prelude::*;
use vstd::utf8::encode_utf8;

verus! {

/// Names a pane slot. Minted per pane, and known to the pane's own child
/// processes only.
#[derive(Debug, Clone, PartialEq, Eq)]
pub struct PaneToken {
    pub text: String,
}

impl PaneToken {
    /// A second copy of the token.
    pub fn duplicate(&self) -> (r: PaneToken)
        ensures
            r == *self,
    {
        PaneToken { text: self.text.clone() }
    }
}

/// Which spawn within a slot.
#[derive(Debug, Clone, Copy, PartialEq, Eq, Structural)]
pub struct PaneGeneration {
    pub number: u64,
}

/// Bumped when a field changes meaning. A plugin built against a version the
/// host does not speak is refused.
pub const PROTOCOL_VERSION: u32 = 2;

/// Longest line the host will read from a plugin. Without a cap a plugin that
/// never writes a newline makes the host's reader allocate without bound.
pub const MAX_LINE_BYTES: usize = 64 * 1024;

/// Longest `data` a single `PluginCommand::SendInput` may carry: what stands
/// in for a human at a keyboard, and does not fill a PTY's input buffer.
pub const MAX_INPUT_BYTES: usize = 8 * 1024;

/// Something that happened, sent host to plugin.
///
/// Every pane-scoped variant carries both the slot's token and the generation
/// within it: a plugin decides asynchronously, so the spawn it is reacting to
/// may already be gone by the time it answers.
#[derive(Debug, Clone, PartialEq, Eq)]
pub enum PluginEvent {
    /// A pane slot began a spawn.
    PaneOpened {
        v: u32,
        token: PaneToken,
        generation: PaneGeneration,
        title: Option<String>,
        command: Option<String>,
        cwd: String,
    },
    /// Plain text the pane produced, already escape-stripped.
    PaneOutput { v: u32, token: PaneToken, generation: PaneGeneration, text: String },
    /// The pane has produced nothing for this long.
    PaneIdle { v: u32, token: PaneToken, generation: PaneGeneration, idle_ms: u64 },
    /// The pane's process ended. The slot survives, so a relaunch is possible.
    PaneExited { v: u32, token: PaneToken, generation: PaneGeneration },
    /// The slot itself is gone.
    PaneClosed { v: u32, token: PaneToken, generation: PaneGeneration },
    /// A human typed into the pane: the person has taken the pane back.
    UserInput { v: u32, token: PaneToken, generation: PaneGeneration },
    /// The host is going away. Exit cleanly.
    Shutdown { v: u32 },
}

/// A request, sent plugin to host.
#[derive(Debug, Clone, PartialEq, Eq)]
pub enum PluginCommand {
    /// Text to type into a live pane, bounded by `MAX_INPUT_BYTES`.
    SendInput { v: u32, token: PaneToken, generation: PaneGeneration, data: String },
    /// Replace an exited pane's process, appending these args to the original
    /// command. The plugin does not name the program.
    Relaunch { v: u32, token: PaneToken, generation: PaneGeneration, resume_args: Vec<String> },
    /// What the plugin believes about a pane. Observability only.
    Status {
        v: u32,
        token: PaneToken,
        generation: PaneGeneration,
        state: String,
        detail: Option<String>,
        deadline_epoch: Option<i64>,
        attempt: u32,
    },
    /// Ask to be given the pane this token names, so its events start arriving.
    /// Carries no generation: a plugin asking for a pane it has never been told
    /// about cannot know which spawn it is looking at.
    WatchPane { v: u32, token: PaneToken },
    /// A line for the host's log.
    Log { v: u32, level: LogLevel, message: String },
}

#[derive(Debug, Clone, Copy, PartialEq, Eq, Structural)]
pub enum LogLevel {
    Error,
    Warn,
    Info,
    Debug,
}

/// The version that `command` claims.
pub open spec fn claimed_version(command: PluginCommand) -> u32 {
    match command {
        PluginCommand::SendInput { v, .. } => v,
        PluginCommand::Relaunch { v, .. } => v,
        PluginCommand::Status { v, .. } => v,
        PluginCommand::WatchPane { v, .. } => v,
        PluginCommand::Log { v, .. } => v,
    }
}

/// The slot that `command` addresses.
pub open spec fn addressed_slot(command: PluginCommand) -> Option<PaneToken> {
    match command {
        PluginCommand::SendInput { token, .. } => Some(token),
        PluginCommand::Relaunch { token, .. } => Some(token),
        PluginCommand::Status { token, .. } => Some(token),
        PluginCommand::WatchPane { token, .. } => Some(token),
        PluginCommand::Log { .. } => None,
    }
}

/// The spawn that `command` addresses.
pub open spec fn addressed_spawn(command: PluginCommand) -> Option<PaneGeneration> {
    match command {
        PluginCommand::SendInput { generation, .. } => Some(generation),
        PluginCommand::Relaunch { generation, .. } => Some(generation),
        PluginCommand::Status { generation, .. } => Some(generation),
        PluginCommand::WatchPane { .. } => None,
        PluginCommand::Log { .. } => None,
    }
}

/// How many bytes of input `command` carries.
pub open spec fn input_bytes(command: PluginCommand) -> nat {
    match command {
        PluginCommand::SendInput { data, .. } => encode_utf8(data@).len(),
        _ => 0,
    }
}

/// Why a line from a plugin is no command.
#[derive(Debug)]
pub enum DecodeError {
    /// The line is longer than the limit.
    LineTooLong(usize),
    /// A blank line carries no command.
    BlankLine,
    /// The line is no JSON object of a known shape.
    Malformed(String),
    /// The plugin speaks another version.
    WrongVersion(u32),
    /// The input it asks to type is longer than the limit.
    InputTooLarge(usize),
}

/// What `error` says to a person.
pub open spec fn decode_error_text(error: DecodeError) -> Seq<char> {
    match error {
        DecodeError::LineTooLong(n) => "plugin line is "@ + decimal_text(n as nat)
            + " bytes, over the "@ + decimal_text(MAX_LINE_BYTES as nat) + "-byte limit"@,
        DecodeError::BlankLine => "blank line carries no command"@,
        DecodeError::Malformed(reason) => "cannot parse plugin command: "@ + reason@
            + "; unknown or malformed cmd"@,
        DecodeError::WrongVersion(v) => "plugin speaks protocol version "@ + decimal_text(v as nat)
            + ", host speaks "@ + decimal_text(PROTOCOL_VERSION as nat),
        DecodeError::InputTooLarge(n) => "send_input data is "@ + decimal_text(n as nat)
            + " bytes, over the "@ + decimal_text(MAX_INPUT_BYTES as nat) + "-byte limit"@,
    }
}

impl DecodeError {
    pub fn message(&self) -> (r: String)
        ensures
            r@ == decode_error_text(*self),
    {
        match self {
            DecodeError::LineTooLong(n) => "plugin line is ".to_owned().concat(
                decimal_usize(*n).as_str(),
            ).concat(" bytes, over the ").concat(decimal_usize(MAX_LINE_BYTES).as_str()).concat(
                "-byte limit",
            ),
            DecodeError::BlankLine => "blank line carries no command".to_owned(),
            DecodeError::Malformed(reason) => "cannot parse plugin command: ".to_owned().concat(
                reason.as_str(),
            ).concat("; unknown or malformed cmd"),
            DecodeError::WrongVersion(v) => "plugin speaks protocol version ".to_owned().concat(
                decimal(*v as u64).as_str(),
            ).concat(", host speaks ").concat(decimal(PROTOCOL_VERSION as u64).as_str()),
            DecodeError::InputTooLarge(n) => "send_input data is ".to_owned().concat(
                decimal_usize(*n).as_str(),
            ).concat(" bytes, over the ").concat(decimal_usize(MAX_INPUT_BYTES).as_str()).concat(
                "-byte limit",
            ),
        }
    }
}

impl PluginCommand {
    /// The protocol version the plugin claims to speak.
    pub fn version(&self) -> (r: u32)
        ensures
            r == claimed_version(*self),
    {
        match self {
            PluginCommand::SendInput { v, .. } => *v,
            PluginCommand::Relaunch { v, .. } => *v,
            PluginCommand::Status { v, .. } => *v,
            PluginCommand::WatchPane { v, .. } => *v,
            PluginCommand::Log { v, .. } => *v,
        }
    }

    /// Which slot this addresses, or `None` for `Log`, which is not
    /// pane-scoped.
    pub fn token(&self) -> (r: Option<&PaneToken>)
        ensures
            match r {
                Some(token) => addressed_slot(*self) == Some(*token),
                None => addressed_slot(*self) is None,
            },
    {
        match self {
            PluginCommand::SendInput { token, .. } => Some(token),
            PluginCommand::Relaunch { token, .. } => Some(token),
            PluginCommand::Status { token, .. } => Some(token),
            PluginCommand::WatchPane { token, .. } => Some(token),
            PluginCommand::Log { .. } => None,
        }
    }

    /// Which spawn of the slot this addresses, paired with `token`. `None` for
    /// `WatchPane` as well as `Log`: naming a slot and naming a spawn within it
    /// are separate claims.
    pub fn generation(&self) -> (r: Option<PaneGeneration>)
        ensures
            r == addressed_spawn(*self),
    {
        match self {
            PluginCommand::SendInput { generation, .. } => Some(*generation),
            PluginCommand::Relaunch { generation, .. } => Some(*generation),
            PluginCommand::Status { generation, .. } => Some(*generation),
            PluginCommand::WatchPane { .. } => None,
            PluginCommand::Log { .. } => None,
        }
    }

    /// Check the bounds a parser cannot express.
    pub fn validate(&self) -> (r: Result<(), DecodeError>)
        ensures
            r is Ok <==> input_bytes(*self) <= MAX_INPUT_BYTES,
            r matches Err(error) ==> error == DecodeError::InputTooLarge(
                input_bytes(*self) as usize,
            ),
    {
        if let PluginCommand::SendInput { data, .. } = self {
            let bytes: usize = data.as_str().as_bytes().len();
            if bytes > MAX_INPUT_BYTES {
                return Err(DecodeError::InputTooLarge(bytes));
            }
        }
        Ok(())
    }
}

/// Why an event cannot be sent.
#[derive(Debug)]
pub enum EncodeError {
    /// It has no JSON form.
    Unencodable(String),
    /// Its JSON form would split the frame.
    EmbeddedNewline,
}

/// What `error` says to a person.
pub open spec fn encode_error_text(error: EncodeError) -> Seq<char> {
    match error {
        EncodeError::Unencodable(reason) => "cannot encode plugin event: "@ + reason@,
        EncodeError::EmbeddedNewline =>
            "encoded plugin event contains a newline, which would split the frame"@,
    }
}

impl EncodeError {
    pub fn message(&self) -> (r: String)
        ensures
            r@ == encode_error_text(*self),
    {
        match self {
            EncodeError::Unencodable(reason) => "cannot encode plugin event: ".to_owned().concat(
                reason.as_str(),
            ),
            EncodeError::EmbeddedNewline =>
                "encoded plugin event contains a newline, which would split the frame".to_owned(),
        }
    }
}

/// The line that carries an event, without its terminator, from what the
/// serialiser made of it. The framing depends on there being no newline in it,
/// so that is checked rather than assumed.
pub fn encode_event(serialised: Result<String, String>) -> (r: Result<String, EncodeError>)
    ensures
        match serialised {
            Err(reason) => r == Err::<String, EncodeError>(EncodeError::Unencodable(reason)),
            Ok(line) => if line@.contains('\n') {
                r == Err::<String, EncodeError>(EncodeError::EmbeddedNewline)
            } else {
                r == Ok::<String, EncodeError>(line)
            },
        },
{
    let line = match serialised {
        Ok(line) => line,
        Err(reason) => {
            return Err(EncodeError::Unencodable(reason));
        },
    };
    let chars = chars_of(line.as_str());
    let mut i: usize = 0;
    while i < chars.len()
        invariant
            i <= chars@.len(),
            chars@ == line@,
            forall|k: int| 0 <= k < i ==> chars@[k] != '\n',
            serialised == Ok::<String, String>(line),
        decreases chars.len() - i,
    {
        if chars[i] == '\n' {
            proof {
                assert(line@[i as int] == '\n');
            }
            return Err(EncodeError::EmbeddedNewline);
        }
        i += 1;
    }
    Ok(line)
}

/// Whether a line carries no command and should be skipped.
///
/// A plugin's writer may flush a bare newline, so a blank line is expected
/// traffic rather than an error. `decode_command` still refuses it, so a
/// reader loop tests this first.
pub fn is_blank_line(line: &str) -> (r: bool)
    ensures
        r == (trim_text(line@).len() == 0),
{
    trim(&chars_of(line)).len() == 0
}

/// Whether a line may be parsed at all: not over-long, and not blank.
pub fn admit_line(line: &str) -> (r: Result<(), DecodeError>)
    ensures
        r == line_admission(line@),
{
    let bytes: usize = line.as_bytes().len();
    if bytes > MAX_LINE_BYTES {
        return Err(DecodeError::LineTooLong(bytes));
    }
    if is_blank_line(line) {
        return Err(DecodeError::BlankLine);
    }
    Ok(())
}

/// Whether a line may be parsed at all.
pub open spec fn line_admission(line: Seq<char>) -> Result<(), DecodeError> {
    if encode_utf8(line).len() > MAX_LINE_BYTES {
        Err(DecodeError::LineTooLong(encode_utf8(line).len() as usize))
    } else if trim_text(line).len() == 0 {
        Err(DecodeError::BlankLine)
    } else {
        Ok(())
    }
}

/// What one line of a plugin comes to, given what the parser made of it.
pub open spec fn decoded(line: Seq<char>, parsed: Result<PluginCommand, String>) -> Result<
    PluginCommand,
    DecodeError,
> {
    match line_admission(line) {
        Err(error) => Err(error),
        Ok(()) => match parsed {
            Err(reason) => Err(DecodeError::Malformed(reason)),
            Ok(command) => if claimed_version(command) != PROTOCOL_VERSION {
                Err(DecodeError::WrongVersion(claimed_version(command)))
            } else if input_bytes(command) > MAX_INPUT_BYTES {
                Err(DecodeError::InputTooLarge(input_bytes(command) as usize))
            } else {
                Ok(command)
            },
        },
    }
}

/// Decide on one line from a plugin, given what the parser made of it.
///
/// Refuses an over-long line, a blank one, a malformed one, a version this host
/// does not speak, and a command that fails `PluginCommand::validate`.
pub fn decode_command(line: &str, parsed: Result<PluginCommand, String>) -> (r: Result<
    PluginCommand,
    DecodeError,
>)
    ensures
        r == decoded(line@, parsed),
{
    if let Err(error) = admit_line(line) {
        return Err(error);
    }
    let command = match parsed {
        Ok(command) => command,
        Err(reason) => {
            return Err(DecodeError::Malformed(reason));
        },
    };
    if command.version() != PROTOCOL_VERSION {
        return Err(DecodeError::WrongVersion(command.version()));
    }
    if let Err(error) = command.validate() {
        return Err(error);
    }
    Ok(command)
}

/// Every command that is decoded speaks this host's version and types no more
/// than a person could.
pub proof fn law_decoded_commands_are_bounded(line: Seq<char>, parsed: Result<PluginCommand, String>)
    ensures
        decoded(line, parsed) matches Ok(command) ==> {
            &&& claimed_version(command) == PROTOCOL_VERSION
            &&& input_bytes(command) <= MAX_INPUT_BYTES
            &&& encode_utf8(line).len() <= MAX_LINE_BYTES
            &&& parsed == Ok::<PluginCommand, String>(command)
        },
{
}

/// A line is taken as a command exactly where it is no longer than sixty-four
/// kilobytes, says something, parses, claims version two, and carries no more
/// than eight kilobytes of input; and then it is the command that was parsed.
/// What stands against it is told in this order.
pub proof fn law_well_formed_lines_are_commands(
    line: Seq<char>,
    parsed: Result<PluginCommand, String>,
)
    ensures
        ({
            let r = decoded(line, parsed);
            let admitted = encode_utf8(line).len() <= 65536 && trim_text(line).len() > 0;
            let input = if parsed is Ok && parsed->Ok_0 is SendInput {
                encode_utf8(parsed->Ok_0->SendInput_data@).len()
            } else {
                0
            };
            &&& r is Ok ==> r == Ok::<PluginCommand, DecodeError>(parsed->Ok_0)
            &&& r is Ok <==> admitted && parsed is Ok && claimed_version(parsed->Ok_0) == 2
                && input <= 8192
            &&& encode_utf8(line).len() > 65536 <==> r is Err && r->Err_0 is LineTooLong
            &&& encode_utf8(line).len() <= 65536 && trim_text(line).len() == 0 <==> r == Err::<
                PluginCommand,
                DecodeError,
            >(DecodeError::BlankLine)
            &&& admitted && parsed is Err <==> r is Err && r->Err_0 is Malformed
            &&& admitted && parsed is Err ==> r == Err::<PluginCommand, DecodeError>(
                DecodeError::Malformed(parsed->Err_0),
            )
            &&& admitted && parsed is Ok && claimed_version(parsed->Ok_0) != 2 ==> r == Err::<
                PluginCommand,
                DecodeError,
            >(DecodeError::WrongVersion(claimed_version(parsed->Ok_0)))
        }),
{
}

/// Every command claims the version it carries. All but a log line address a
/// slot, and those that act on a spawn or report about it name the spawn.
pub proof fn law_commands_address_what_they_carry(
    v: u32,
    token: PaneToken,
    generation: PaneGeneration,
    text: String,
    args: Vec<String>,
    level: LogLevel,
    detail: Option<String>,
    deadline_epoch: Option<i64>,
    attempt: u32,
)
    ensures
        ({
            let send = PluginCommand::SendInput { v, token, generation, data: text };
            let relaunch = PluginCommand::Relaunch { v, token, generation, resume_args: args };
            let report = PluginCommand::Status {
                v,
                token,
                generation,
                state: text,
                detail,
                deadline_epoch,
                attempt,
            };
            let watch = PluginCommand::WatchPane { v, token };
            let log = PluginCommand::Log { v, level, message: text };
            &&& claimed_version(send) == v && claimed_version(relaunch) == v && claimed_version(
                report,
            ) == v && claimed_version(watch) == v && claimed_version(log) == v
            &&& addressed_slot(send) == Some(token) && addressed_slot(relaunch) == Some(token)
                && addressed_slot(report) == Some(token) && addressed_slot(watch) == Some(token)
                && addressed_slot(log) is None
            &&& addressed_spawn(send) == Some(generation) && addressed_spawn(relaunch) == Some(
                generation,
            ) && addressed_spawn(report) == Some(generation) && addressed_spawn(watch) is None
                && addressed_spawn(log) is None
            &&& input_bytes(send) == encode_utf8(text@).len() && input_bytes(relaunch) == 0
                && input_bytes(log) == 0
        }),
{
}

} // verus!
