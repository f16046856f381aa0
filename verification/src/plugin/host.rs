//! One long-lived child process per enabled plugin.
//!
//! The host queues events for the plugin and hands out the commands that came
//! from it. Nothing a plugin does can make either block: both are called on the
//! thread that also serves every pane.

use crate::config::layout::PluginConfig;
use crate::native::{native_joined, NativePath};
use crate::plugin::protocol::{EncodeError, PluginCommand};
use crate::text::{chars_of, lossy_text, texts};
use vstd::prelude::*;
use vstd::utf8::encode_utf8;

verus! {

/// Events that may sit unwritten before further ones are dropped.
///
/// Bounded on purpose: the queue exists to absorb a plugin that is briefly busy,
/// not to buffer one that has stopped reading.
pub const OUTBOUND_QUEUE_DEPTH: usize = 256;

/// Commands that may sit undrained before the reader stops accepting more.
///
/// Unlike the outbound side this holds the reader up rather than drop: the
/// plugin's pipe fills and the plugin blocks writing, and no command that a
/// well-behaved plugin sent is lost.
pub const INBOUND_QUEUE_DEPTH: usize = 256;

/// How long a plugin gets to exit on its own after being told to, in
/// milliseconds.
pub const CHILD_EXIT_GRACE_MS: u64 = 200;

/// Gap between two looks while waiting that out, in milliseconds.
pub const CHILD_EXIT_POLL_MS: u64 = 5;

/// Whether `command` is a path rather than a name.
pub open spec fn is_path(command: Seq<char>) -> bool {
    command.contains('/')
}

/// The file that an installed plugin would be.
pub open spec fn installed_program(command: Seq<char>, plugin_dir: Seq<u8>) -> Seq<u8> {
    native_joined(plugin_dir, encode_utf8(command))
}

/// What is launched for `command`: a path as it is; a name from the plugins'
/// directory where it is a file there, so that an installed plugin wins over a
/// binary of the same name elsewhere; and else the name, for the system to
/// find.
pub open spec fn program_of(
    command: Seq<char>,
    plugin_dir: Option<&NativePath>,
    installed: bool,
) -> Seq<u8> {
    match plugin_dir {
        Some(dir) if !is_path(command) && installed => installed_program(command, dir@),
        _ => encode_utf8(command),
    }
}

fn has_separator(command: &str) -> (r: bool)
    ensures
        r == is_path(command@),
{
    let chars = chars_of(command);
    let mut i: usize = 0;
    while i < chars.len()
        invariant
            i <= chars@.len(),
            chars@ == command@,
            forall|k: int| 0 <= k < i ==> chars@[k] != '/',
        decreases chars.len() - i,
    {
        if chars[i] == '/' {
            return true;
        }
        i += 1;
    }
    false
}

/// Where to look for an installed plugin: nowhere, where `command` is a path or
/// there is no plugins' directory.
pub fn candidate(command: &str, plugin_dir: Option<&NativePath>) -> (r: Option<NativePath>)
    ensures
        match plugin_dir {
            Some(dir) if !is_path(command@) => r matches Some(path) && path@ == installed_program(
                command@,
                dir@,
            ),
            _ => r is None,
        },
{
    match plugin_dir {
        Some(dir) => if has_separator(command) {
            None
        } else {
            Some(dir.join(command))
        },
        None => None,
    }
}

/// What is launched for `command`, given whether the candidate is a file.
pub fn resolve_program(command: &str, plugin_dir: Option<&NativePath>, installed: bool) -> (r:
    NativePath)
    ensures
        r@ == program_of(command@, plugin_dir, installed),
{
    match candidate(command, plugin_dir) {
        Some(path) if installed => path,
        _ => NativePath::of_text(command),
    }
}

/// What starting the child came to.
#[derive(Debug)]
pub enum Started {
    Failed(String),
    /// It runs, with these of its pipes.
    Running { stdin: bool, stdout: bool, stderr: bool },
}

/// A pipe of the child.
#[derive(Debug, Clone, Copy, PartialEq, Eq, Structural)]
pub enum Pipe {
    Stdin,
    Stdout,
    Stderr,
}

/// Why a plugin is not running.
#[derive(Debug)]
pub enum HostError {
    CannotLaunch { name: String, program: NativePath, reason: String },
    MissingPipe(Pipe),
}

/// The first pipe that is missing.
pub open spec fn missing_pipe(stdin: bool, stdout: bool, stderr: bool) -> Option<Pipe> {
    if !stdin {
        Some(Pipe::Stdin)
    } else if !stdout {
        Some(Pipe::Stdout)
    } else if !stderr {
        Some(Pipe::Stderr)
    } else {
        None
    }
}

impl HostError {
    /// The error in words.
    pub open spec fn text(&self) -> Seq<char> {
        match self {
            HostError::CannotLaunch { name, program, reason } => "cannot launch plugin \""@ + name@
                + "\" from "@ + lossy_text(program@) + ": "@ + reason@,
            HostError::MissingPipe(Pipe::Stdin) => "plugin stdin pipe missing"@,
            HostError::MissingPipe(Pipe::Stdout) => "plugin stdout pipe missing"@,
            HostError::MissingPipe(Pipe::Stderr) => "plugin stderr pipe missing"@,
        }
    }

    /// The error in words.
    pub fn message(&self) -> (r: String)
        ensures
            r@ == self.text(),
    {
        match self {
            HostError::CannotLaunch { name, program, reason } => {
                "cannot launch plugin \"".to_owned().concat(name.as_str()).concat(
                    "\" from ",
                ).concat(program.shown().as_str()).concat(": ").concat(reason.as_str())
            },
            HostError::MissingPipe(Pipe::Stdin) => "plugin stdin pipe missing".to_owned(),
            HostError::MissingPipe(Pipe::Stdout) => "plugin stdout pipe missing".to_owned(),
            HostError::MissingPipe(Pipe::Stderr) => "plugin stderr pipe missing".to_owned(),
        }
    }
}

/// What asking the system about the child came to.
#[derive(Debug, Clone, Copy, PartialEq, Eq, Structural)]
pub enum Polled {
    Exited,
    Running,
    /// It cannot be asked about.
    Unknown,
}

/// What the writer is to do next.
#[derive(Debug)]
pub enum NextLine {
    Write(String),
    /// There may be more later.
    Wait,
    /// There will be no more: close the plugin's stdin.
    End,
}

/// A plugin's host, as plain values.
#[verifier::ext_equal]
pub struct HostModel {
    pub name: Seq<char>,
    pub depth: nat,
    pub events: Seq<Seq<char>>,
    pub open: bool,
    /// Whether the writer asked for a line and has none yet.
    pub waiting: bool,
    pub writer_gone: bool,
    pub commands: Seq<PluginCommand>,
    pub dropped: u64,
    pub shut_down: bool,
}

impl HostModel {
    /// The host once it runs.
    pub open spec fn started(name: Seq<char>, depth: nat) -> HostModel {
        HostModel {
            name,
            depth,
            events: Seq::empty(),
            open: true,
            waiting: false,
            writer_gone: false,
            commands: Seq::empty(),
            dropped: 0,
            shut_down: false,
        }
    }

    /// The host with one more event thrown away.
    pub open spec fn counting(self) -> HostModel {
        HostModel { dropped: self.dropped.wrapping_add(1), ..self }
    }

    /// Whether a line would be taken: there is room in the backlog or, where
    /// there is none at all, the writer waits to be handed one.
    pub open spec fn takes_lines(self) -> bool {
        self.open && !self.writer_gone && if self.depth == 0 {
            self.waiting
        } else {
            self.events.len() < self.depth
        }
    }

    /// The host after an event was offered to it; `None` stands for one that
    /// could not be encoded.
    pub open spec fn offered(self, line: Option<Seq<char>>) -> HostModel {
        match line {
            None => self.counting(),
            Some(line) => if self.takes_lines() {
                HostModel { events: self.events.push(line), waiting: false, ..self }
            } else if self.open && !self.writer_gone {
                self.counting()
            } else {
                self
            },
        }
    }

    /// The host after it was told to stop.
    pub open spec fn stopped(self, line: Option<Seq<char>>) -> HostModel {
        if self.shut_down {
            self
        } else {
            HostModel { shut_down: true, open: false, ..self.offered(line) }
        }
    }
}

/// A plugin's host.
#[derive(Debug)]
pub struct PluginHost {
    name: String,
    depth: usize,
    events: Vec<String>,
    open: bool,
    waiting: bool,
    writer_gone: bool,
    commands: Vec<PluginCommand>,
    dropped: u64,
    shut_down: bool,
}

/// The line an encoded event makes.
pub open spec fn line_of(encoded: Result<String, EncodeError>) -> Option<Seq<char>> {
    match encoded {
        Ok(line) => Some(line@),
        Err(_) => None,
    }
}

impl PluginHost {
    pub closed spec fn model(&self) -> HostModel {
        HostModel {
            name: self.name@,
            depth: self.depth as nat,
            events: texts(self.events@),
            open: self.open,
            waiting: self.waiting,
            writer_gone: self.writer_gone,
            commands: self.commands@,
            dropped: self.dropped,
            shut_down: self.shut_down,
        }
    }

    /// The backlog in both directions stays within its bound, and a writer that
    /// waits has nothing to write.
    pub closed spec fn wf(&self) -> bool {
        &&& self.events@.len() <= self.depth || (self.depth == 0 && self.events@.len() == 1)
        &&& self.waiting ==> self.events@.len() == 0
        &&& self.commands@.len() <= INBOUND_QUEUE_DEPTH
    }

    /// A host's backlog is bounded in both directions: a plugin that has stopped
    /// reading, or writes faster than it is listened to, costs bounded memory.
    /// Without a backlog there is at most the line that was handed over.
    pub proof fn law_backlog_is_bounded(&self)
        requires
            self.wf(),
        ensures
            self.model().events.len() <= self.model().depth || (self.model().depth == 0
                && self.model().events.len() == 1),
            self.model().waiting ==> self.model().events.len() == 0,
            self.model().commands.len() <= INBOUND_QUEUE_DEPTH,
    {
    }

    /// The host of the plugin that `cfg` describes, once its program, which
    /// `resolve_program` names, was started.
    pub fn spawn(
        cfg: &PluginConfig,
        plugin_dir: Option<&NativePath>,
        installed: bool,
        started: Started,
    ) -> (r: Result<PluginHost, HostError>)
        ensures
            match started {
                Started::Failed(reason) => r matches Err(
                    HostError::CannotLaunch { name, program, reason: said },
                ) && name@ == cfg.name@ && program@ == program_of(
                    cfg.command@,
                    plugin_dir,
                    installed,
                ) && said == reason,
                Started::Running { stdin, stdout, stderr } => match missing_pipe(
                    stdin,
                    stdout,
                    stderr,
                ) {
                    Some(pipe) => r == Err::<PluginHost, HostError>(HostError::MissingPipe(pipe)),
                    None => r matches Ok(host) && host.wf() && host.model() == HostModel::started(
                        cfg.name@,
                        OUTBOUND_QUEUE_DEPTH as nat,
                    ),
                },
            },
    {
        PluginHost::spawn_with_queue_depth(
            cfg,
            plugin_dir,
            installed,
            started,
            OUTBOUND_QUEUE_DEPTH,
        )
    }

    /// The same, with a backlog of `depth` events. With none, an event is handed
    /// over where the writer waits for one, and dropped where it does not.
    pub fn spawn_with_queue_depth(
        cfg: &PluginConfig,
        plugin_dir: Option<&NativePath>,
        installed: bool,
        started: Started,
        depth: usize,
    ) -> (r: Result<PluginHost, HostError>)
        ensures
            match started {
                Started::Failed(reason) => r matches Err(
                    HostError::CannotLaunch { name, program, reason: said },
                ) && name@ == cfg.name@ && program@ == program_of(
                    cfg.command@,
                    plugin_dir,
                    installed,
                ) && said == reason,
                Started::Running { stdin, stdout, stderr } => match missing_pipe(
                    stdin,
                    stdout,
                    stderr,
                ) {
                    Some(pipe) => r == Err::<PluginHost, HostError>(HostError::MissingPipe(pipe)),
                    None => r matches Ok(host) && host.wf() && host.model() == HostModel::started(
                        cfg.name@,
                        depth as nat,
                    ),
                },
            },
    {
        match started {
            Started::Failed(reason) => Err(
                HostError::CannotLaunch {
                    name: cfg.name.clone(),
                    program: resolve_program(cfg.command.as_str(), plugin_dir, installed),
                    reason,
                },
            ),
            Started::Running { stdin, stdout, stderr } => {
                if !stdin {
                    return Err(HostError::MissingPipe(Pipe::Stdin));
                }
                if !stdout {
                    return Err(HostError::MissingPipe(Pipe::Stdout));
                }
                if !stderr {
                    return Err(HostError::MissingPipe(Pipe::Stderr));
                }
                let host = PluginHost {
                    name: cfg.name.clone(),
                    depth,
                    events: Vec::new(),
                    open: true,
                    waiting: false,
                    writer_gone: false,
                    commands: Vec::new(),
                    dropped: 0,
                    shut_down: false,
                };
                proof {
                    assert(host.model() =~= HostModel::started(cfg.name@, depth as nat));
                }
                Ok(host)
            },
        }
    }

    /// The plugin's name.
    pub fn name(&self) -> (r: &str)
        ensures
            r@ == self.model().name,
    {
        self.name.as_str()
    }

    /// Queue one event. `false` means that it was not queued, because the plugin
    /// is behind or gone or the event could not be encoded, and the caller
    /// carries on regardless: a slow plugin must never stall the pane it is
    /// watching.
    pub fn send(&mut self, encoded: Result<String, EncodeError>) -> (r: bool)
        requires
            old(self).wf(),
        ensures
            final(self).wf(),
            final(self).model() == old(self).model().offered(line_of(encoded)),
            r == (encoded is Ok && old(self).model().takes_lines()),
    {
        let ghost before = self.model();
        let line = match encoded {
            Ok(line) => line,
            Err(_) => {
                self.dropped = self.dropped.wrapping_add(1);
                return false;
            },
        };
        if !self.open || self.writer_gone {
            return false;
        }
        let room = if self.depth == 0 {
            self.waiting
        } else {
            self.events.len() < self.depth
        };
        if !room {
            self.dropped = self.dropped.wrapping_add(1);
            return false;
        }
        let ghost text = line@;
        self.events.push(line);
        self.waiting = false;
        proof {
            assert(texts(self.events@) =~= before.events.push(text));
        }
        true
    }

    /// What the writer is to do next: lines go out in the order they were
    /// queued, and those queued before the end still go out. A writer that is
    /// told to wait can be handed a line.
    pub fn next_line(&mut self) -> (r: NextLine)
        requires
            old(self).wf(),
        ensures
            final(self).wf(),
            ({
                let before = old(self).model();
                if before.events.len() > 0 {
                    &&& r matches NextLine::Write(line)
                    &&& line@ == before.events[0]
                    &&& final(self).model() == (HostModel {
                        events: before.events.skip(1),
                        ..before
                    })
                } else {
                    &&& r == if before.open {
                        NextLine::Wait
                    } else {
                        NextLine::End
                    }
                    &&& final(self).model() == (HostModel { waiting: before.open, ..before })
                }
            }),
    {
        let ghost before = self.model();
        if self.events.len() == 0 {
            self.waiting = self.open;
            proof {
                assert(self.model() =~= (HostModel { waiting: before.open, ..before }));
            }
            return if self.open {
                NextLine::Wait
            } else {
                NextLine::End
            };
        }
        let line = self.events.remove(0);
        proof {
            assert(texts(self.events@) =~= before.events.skip(1));
        }
        NextLine::Write(line)
    }

    /// The writer gave up: the plugin's stdin is closed at the other end.
    pub fn writer_ended(&mut self)
        requires
            old(self).wf(),
        ensures
            final(self).wf(),
            final(self).model() == (HostModel { writer_gone: true, ..old(self).model() }),
    {
        self.writer_gone = true;
    }

    /// A command came from the plugin. It is given back where there is no room
    /// for it, and the reader waits with it.
    pub fn deliver(&mut self, command: PluginCommand) -> (r: Option<PluginCommand>)
        requires
            old(self).wf(),
        ensures
            final(self).wf(),
            if old(self).model().commands.len() < INBOUND_QUEUE_DEPTH {
                &&& r is None
                &&& final(self).model() == (HostModel {
                    commands: old(self).model().commands.push(command),
                    ..old(self).model()
                })
            } else {
                &&& r == Some(command)
                &&& final(self).model() == old(self).model()
            },
    {
        if self.commands.len() >= INBOUND_QUEUE_DEPTH {
            return Some(command);
        }
        self.commands.push(command);
        None
    }

    /// Take one command, if the plugin has sent one. Never blocks.
    pub fn try_recv(&mut self) -> (r: Option<PluginCommand>)
        requires
            old(self).wf(),
        ensures
            final(self).wf(),
            if old(self).model().commands.len() > 0 {
                &&& r == Some(old(self).model().commands[0])
                &&& final(self).model() == (HostModel {
                    commands: old(self).model().commands.skip(1),
                    ..old(self).model()
                })
            } else {
                &&& r is None
                &&& final(self).model() == old(self).model()
            },
    {
        let ghost before = self.model();
        if self.commands.len() == 0 {
            return None;
        }
        let command = self.commands.remove(0);
        proof {
            assert(self.commands@ =~= before.commands.skip(1));
        }
        Some(command)
    }

    /// How many events were thrown away rather than queued. Rises whenever the
    /// plugin cannot keep up.
    pub fn dropped_events(&self) -> (r: u64)
        ensures
            r == self.model().dropped,
    {
        self.dropped
    }

    /// Whether the plugin runs, from what the system says of it.
    pub fn is_alive(&self, polled: Polled) -> (r: bool)
        ensures
            r == (polled == Polled::Running),
    {
        polled == Polled::Running
    }

    /// Tell the plugin to stop, with `encoded` as the event that says so.
    /// `false` means that this was done before, and nothing is left to do; else
    /// the child is to be waited for and then made to end.
    pub fn shutdown(&mut self, encoded: Result<String, EncodeError>) -> (r: bool)
        requires
            old(self).wf(),
        ensures
            final(self).wf(),
            r == !old(self).model().shut_down,
            final(self).model() == old(self).model().stopped(line_of(encoded)),
    {
        if self.shut_down {
            return false;
        }
        self.shut_down = true;
        self.send(encoded);
        self.open = false;
        true
    }
}

/// Waiting for the child: whether it ended on its own, or `None` where it is to
/// be looked at again after `CHILD_EXIT_POLL_MS`. One that cannot be asked about
/// counts as ended: waiting longer will not help.
pub fn wait_for_exit(polled: Polled, now: u64, deadline: u64) -> (r: Option<bool>)
    ensures
        r == if polled != Polled::Running {
            Some(true)
        } else if now >= deadline {
            Some(false)
        } else {
            None::<bool>
        },
{
    match polled {
        Polled::Exited => Some(true),
        Polled::Unknown => Some(true),
        Polled::Running => if now >= deadline {
            Some(false)
        } else {
            None
        },
    }
}

/// Being told to stop twice is being told once, whatever was said the second
/// time.
pub proof fn law_shutdown_is_idempotent(
    host: HostModel,
    first: Option<Seq<char>>,
    second: Option<Seq<char>>,
)
    ensures
        host.stopped(first).stopped(second) == host.stopped(first),
{
}

/// Once it was told to stop, a host takes no further event, and what was queued
/// before still goes out.
pub proof fn law_nothing_is_queued_after_shutdown(
    host: HostModel,
    last: Option<Seq<char>>,
    line: Option<Seq<char>>,
)
    requires
        !host.shut_down,
    ensures
        host.stopped(last).offered(line).events == host.stopped(last).events,
        host.events.is_prefix_of(host.stopped(last).events),
{
}

/// Without a backlog, an event is handed over exactly where the writer waits for
/// one, and then the next is dropped until the writer asks again.
pub proof fn law_without_a_backlog_events_are_handed_over(
    host: HostModel,
    line: Seq<char>,
    next: Seq<char>,
)
    requires
        host.depth == 0,
        host.open,
        !host.writer_gone,
    ensures
        host.waiting ==> host.offered(Some(line)) == (HostModel {
            events: host.events.push(line),
            waiting: false,
            ..host
        }),
        !host.waiting ==> host.offered(Some(line)) == host.counting(),
        host.offered(Some(line)).offered(Some(next)) == host.offered(Some(line)).counting(),
{
}

/// Every event that was offered while the plugin is being written to is either
/// queued or counted, never both and never neither.
pub proof fn law_an_event_is_queued_or_counted(host: HostModel, line: Option<Seq<char>>)
    requires
        host.open,
        !host.writer_gone,
        host.dropped < u64::MAX,
    ensures
        host.offered(line).events.len() + host.offered(line).dropped == host.events.len()
            + host.dropped + 1,
        host.offered(line).dropped == host.dropped || host.offered(line).events == host.events,
{
}

/// A plugin named by a path is run from there. One named without a slash is run
/// from the plugin directory where it is installed there, and otherwise left to
/// the system to find.
pub proof fn law_installed_plugins_are_run_from_their_directory(
    command: Seq<char>,
    dir: NativePath,
    installed: bool,
)
    ensures
        program_of(command, None, installed) == encode_utf8(command),
        command.contains('/') ==> program_of(command, Some(&dir), installed) == encode_utf8(command),
        !installed ==> program_of(command, Some(&dir), installed) == encode_utf8(command),
        !command.contains('/') && installed ==> program_of(command, Some(&dir), installed)
            == native_joined(dir@, encode_utf8(command)),
{
}

/// A host runs exactly where all three pipes are there; the first that is not
/// is named.
pub proof fn law_all_pipes_are_needed(stdin: bool, stdout: bool, stderr: bool)
    ensures
        missing_pipe(stdin, stdout, stderr) is None <==> stdin && stdout && stderr,
        !stdin ==> missing_pipe(stdin, stdout, stderr) == Some(Pipe::Stdin),
        stdin && !stdout ==> missing_pipe(stdin, stdout, stderr) == Some(Pipe::Stdout),
        stdin && stdout && !stderr ==> missing_pipe(stdin, stdout, stderr) == Some(Pipe::Stderr),
{
}

/// A line goes behind those that wait, whole, while the queue is open, its
/// writer is there, and there is room: fewer lines wait than the depth or, with
/// no depth, the writer waits for one. A line for which there is no room is
/// counted as dropped, and so is what could not be encoded.
pub proof fn law_lines_are_queued_in_order(host: HostModel, line: Option<Seq<char>>)
    ensures
        ({
            let there = host.open && !host.writer_gone;
            let room = if host.depth == 0 {
                host.waiting
            } else {
                host.events.len() < host.depth
            };
            let now = host.offered(line);
            &&& line matches Some(text) ==> {
                &&& there && room ==> now == (HostModel {
                    events: host.events.push(text),
                    waiting: false,
                    ..host
                })
                &&& there && !room ==> now == (HostModel {
                    dropped: host.dropped.wrapping_add(1),
                    ..host
                })
                &&& !there ==> now == host
            }
            &&& line is None ==> now == (HostModel {
                dropped: host.dropped.wrapping_add(1),
                ..host
            })
        }),
{
}

/// A shutdown offers its line like any other and then closes the queue; what
/// waits in it is still to be written.
pub proof fn law_shutdown_closes_the_queue(host: HostModel, line: Option<Seq<char>>)
    requires
        !host.shut_down,
    ensures
        ({
            let now = host.stopped(line);
            &&& now.shut_down
            &&& !now.open
            &&& now.events == host.offered(line).events
            &&& now.dropped == host.offered(line).dropped
            &&& now.commands == host.commands
            &&& now.name == host.name
        }),
{
}

/// A host begins with nothing queued either way, nothing dropped, open, and with
/// the name and the depth it was given.
pub proof fn law_hosts_begin_empty(name: Seq<char>, depth: nat)
    ensures
        ({
            let host = HostModel::started(name, depth);
            &&& host.name == name
            &&& host.depth == depth
            &&& host.events.len() == 0
            &&& host.commands.len() == 0
            &&& host.dropped == 0
            &&& host.open
            &&& !host.writer_gone
            &&& !host.waiting
            &&& !host.shut_down
        }),
{
}

} // verus!
