//! Layout, accent colour, leader key and startup commands.

use crate::input::key::{control_modifier, KeyCode, KeyEvent, KeyModifiers};
use crate::text::{
    ascii_lower, ascii_lowered, chars_of, has_prefix, starts_with, trim, trim_text,
};
use vstd::prelude::*;

verus! {

/// How the screen is divided.
#[derive(Debug, Clone, Copy, PartialEq, Eq, Structural)]
pub struct LayoutConfig {
    /// Percentage of vertical space for the upper panel (1 to 99).
    pub upper_pct: u16,
    /// Percentage of horizontal space for the file list within the upper panel
    /// (1 to 99).
    pub file_list_pct: u16,
}

impl Default for LayoutConfig {
    fn default() -> (r: LayoutConfig)
        ensures
            r == (LayoutConfig { upper_pct: 55, file_list_pct: 25 }),
    {
        LayoutConfig { upper_pct: 55, file_list_pct: 25 }
    }
}

/// The accent colour presets.
#[derive(Debug, Clone, Copy, PartialEq, Eq, Structural)]
pub enum Accent {
    Yellow,
    Cyan,
    Green,
    Magenta,
    Blue,
}

/// A terminal colour that an accent stands for.
#[derive(Debug, Clone, Copy, PartialEq, Eq, Structural)]
pub enum Color {
    Yellow,
    Cyan,
    Green,
    Magenta,
    Blue,
}

/// The accents in the order that indices already written down refer to.
pub open spec fn accents() -> Seq<Accent> {
    seq![Accent::Yellow, Accent::Cyan, Accent::Green, Accent::Magenta, Accent::Blue]
}

/// The place of an accent in the list.
pub open spec fn accent_index(accent: Accent) -> int {
    match accent {
        Accent::Yellow => 0,
        Accent::Cyan => 1,
        Accent::Green => 2,
        Accent::Magenta => 3,
        Accent::Blue => 4,
    }
}

impl Default for Accent {
    fn default() -> (r: Accent)
        ensures
            r == Accent::Yellow,
    {
        Accent::Yellow
    }
}

impl Accent {
    /// The colour of the same name.
    pub fn color(self) -> (r: Color)
        ensures
            r == match self {
                Accent::Yellow => Color::Yellow,
                Accent::Cyan => Color::Cyan,
                Accent::Green => Color::Green,
                Accent::Magenta => Color::Magenta,
                Accent::Blue => Color::Blue,
            },
    {
        match self {
            Accent::Yellow => Color::Yellow,
            Accent::Green => Color::Green,
            Accent::Cyan => Color::Cyan,
            Accent::Magenta => Color::Magenta,
            Accent::Blue => Color::Blue,
        }
    }

    /// Where the accent stands in the list.
    pub fn index(self) -> (r: usize)
        ensures
            r == accent_index(self),
            accents()[r as int] == self,
    {
        match self {
            Accent::Yellow => 0,
            Accent::Cyan => 1,
            Accent::Green => 2,
            Accent::Magenta => 3,
            Accent::Blue => 4,
        }
    }

    /// The accent at a place in the list, starting over at its end.
    pub fn from_index(idx: usize) -> (r: Accent)
        ensures
            r == accents()[idx as int % 5],
    {
        match idx % 5 {
            0 => Accent::Yellow,
            1 => Accent::Cyan,
            2 => Accent::Green,
            3 => Accent::Magenta,
            _ => Accent::Blue,
        }
    }
}

/// Every accent is in the list once, and its index finds it again.
pub proof fn law_accent_index_round_trip(accent: Accent, idx: nat)
    ensures
        accents()[accent_index(accent) % 5] == accent,
        accent_index(accents()[idx as int % 5]) == idx % 5,
{
}

/// Stepping from accent to accent visits each of them before it comes back.
pub proof fn law_cycling_visits_every_accent(from: nat, target: Accent)
    ensures
        exists|steps: nat| steps < 5 && #[trigger] accents()[(from + steps) as int % 5] == target,
{
    let steps = ((accent_index(target) - from as int) % 5) as nat;
    assert((from + steps) as int % 5 == accent_index(target) % 5) by {
        vstd::arithmetic::div_mod::lemma_add_mod_noop_right(
            from as int,
            accent_index(target) - from as int,
            5,
        );
    }
    assert(accents()[(from + steps) as int % 5] == target);
}

/// The `[theme]` settings.
#[derive(Debug, Clone)]
pub struct ThemeConfig {
    /// Accent colour preset.
    pub name: Accent,
}

impl Default for ThemeConfig {
    fn default() -> (r: ThemeConfig)
        ensures
            r.name == Accent::Yellow,
    {
        ThemeConfig { name: Accent::Yellow }
    }
}

impl ThemeConfig {
    /// The index of the preset.
    pub fn preset_index(&self) -> (r: usize)
        ensures
            r == accent_index(self.name),
    {
        self.name.index()
    }
}

/// The `[input]` settings.
#[derive(Debug, Clone)]
pub struct InputConfig {
    /// The leader chord. Every command is reached by pressing it, then a
    /// follow-up.
    pub leader: String,
}

impl Default for InputConfig {
    /// `ctrl+f` leaves alone what tmux, flow control and shell signals use.
    fn default() -> (r: InputConfig)
        ensures
            r.leader@ == "ctrl+f"@,
    {
        InputConfig { leader: "ctrl+f".to_owned() }
    }
}

/// Why a leader chord cannot be used.
#[derive(Debug, Clone, Copy, PartialEq, Eq, Structural)]
pub enum LeaderError {
    NotCtrl,
    NotOneCharacter,
    NotLetter,
    /// Terminals deliver Ctrl+I as Tab and Ctrl+M as Enter, so such a leader
    /// could be armed but never recognised.
    NeverRecognized,
}

/// How the error reads after the name of the setting.
pub open spec fn leader_complaint(error: LeaderError) -> Seq<char> {
    match error {
        LeaderError::NotCtrl =>
            "\" must be a ctrl chord like \"ctrl+b\" (only ctrl+<letter> leaders are supported)"@,
        LeaderError::NotOneCharacter => "\" must name exactly one ascii character after ctrl+"@,
        LeaderError::NotLetter =>
            "\" must use an ascii letter after ctrl+ (e.g. ctrl+b; ctrl+1, ctrl+-, ctrl+space are not allowed)"@,
        LeaderError::NeverRecognized =>
            "\" is not usable: terminals deliver Ctrl+I as Tab and Ctrl+M as Enter, so this leader would never be recognized"@,
    }
}

impl LeaderError {
    /// The error in words, for the chord `spec` that was given.
    pub fn message(self, spec: &str) -> (r: String)
        ensures
            r@ == "input.leader \""@ + spec@ + leader_complaint(self),
    {
        let complaint = match self {
            LeaderError::NotCtrl =>
                "\" must be a ctrl chord like \"ctrl+b\" (only ctrl+<letter> leaders are supported)",
            LeaderError::NotOneCharacter => "\" must name exactly one ascii character after ctrl+",
            LeaderError::NotLetter =>
                "\" must use an ascii letter after ctrl+ (e.g. ctrl+b; ctrl+1, ctrl+-, ctrl+space are not allowed)",
            LeaderError::NeverRecognized =>
                "\" is not usable: terminals deliver Ctrl+I as Tab and Ctrl+M as Enter, so this leader would never be recognized",
        };
        "input.leader \"".to_owned().concat(spec).concat(complaint)
    }
}

/// The key a chord names: `ctrl+` and one ASCII letter, in any case and with
/// white space around it.
pub open spec fn leader_of(spec: Seq<char>) -> Result<KeyEvent, LeaderError> {
    let s = ascii_lowered(trim_text(spec));
    if !has_prefix(s, "ctrl+"@) {
        Err(LeaderError::NotCtrl)
    } else if s.len() != 6 {
        Err(LeaderError::NotOneCharacter)
    } else if !('a' <= s[5] <= 'z') {
        Err(LeaderError::NotLetter)
    } else if s[5] == 'i' || s[5] == 'm' {
        Err(LeaderError::NeverRecognized)
    } else {
        Ok(KeyEvent { code: KeyCode::Char(s[5]), modifiers: control_modifier() })
    }
}

/// Parse a leader chord such as `ctrl+b`.
///
/// Letters only: those can be passed through to a terminal as one control
/// byte, by pressing the leader twice.
pub fn parse_leader(spec: &str) -> (r: Result<KeyEvent, LeaderError>)
    ensures
        r == leader_of(spec@),
{
    let chars = chars_of(spec);
    let normalized = ascii_lower(&trim(&chars));
    proof {
        reveal_strlit("ctrl+");
    }
    if !starts_with(&normalized, &chars_of("ctrl+")) {
        return Err(LeaderError::NotCtrl);
    }
    if normalized.len() != 6 {
        return Err(LeaderError::NotOneCharacter);
    }
    let c: char = normalized[5];
    if !('a' <= c && c <= 'z') {
        return Err(LeaderError::NotLetter);
    }
    if c == 'i' || c == 'm' {
        return Err(LeaderError::NeverRecognized);
    }
    Ok(
        KeyEvent {
            code: KeyCode::Char(c),
            modifiers: KeyModifiers { control: true, ..KeyModifiers::none() },
        },
    )
}

/// Every leader that is accepted is a letter with Control, so that pressing it
/// twice can hand a terminal the control byte 1 to 26 it stands for; and it is
/// neither Tab nor Enter.
pub proof fn law_accepted_leaders_have_a_control_byte(spec: Seq<char>)
    requires
        leader_of(spec) is Ok,
    ensures
        leader_of(spec)->Ok_0.modifiers == control_modifier(),
        leader_of(spec)->Ok_0.code matches KeyCode::Char(c) && 1 <= c as int - 96 <= 26 && c
            != 'i' && c != 'm',
{
}

/// A command to run on launch.
#[derive(Debug, Clone, Default, PartialEq, Eq)]
pub struct StartupCommand {
    /// The tab's label. Falls back to `command`.
    pub name: Option<String>,
    /// Shell command run in the pane immediately on launch.
    pub command: String,
    /// The plugin that may act on this pane. With `None` no plugin ever
    /// receives this pane's events or can act on it.
    pub plugin: Option<String>,
}

/// A `[[plugin]]` table.
#[derive(Debug)]
pub struct PluginConfig {
    pub name: String,
    pub command: String,
    pub args: Vec<String>,
    pub env: Vec<(String, String)>,
    pub allowed_resume_flags: Vec<String>,
    pub enabled: bool,
}

/// A leader is accepted exactly where it is, in any case and without the white
/// space around it, `ctrl+` and one letter that a terminal can tell from Tab and
/// Enter; and then it is that letter, small, with control alone.
pub proof fn law_control_letters_are_leaders(spec: Seq<char>)
    ensures
        ({
            let s = trim_text(spec);
            let chord = s.len() >= 5 && (s[0] == 'c' || s[0] == 'C') && (s[1] == 't' || s[1] == 'T')
                && (s[2] == 'r' || s[2] == 'R') && (s[3] == 'l' || s[3] == 'L') && s[4] == '+';
            let small = crate::text::ascii_small(s[5]);
            let letter = 'a' <= small <= 'z';
            &&& leader_of(spec) is Ok <==> chord && s.len() == 6 && letter && small != 'i' && small
                != 'm'
            &&& leader_of(spec) matches Ok(key) ==> key.code == KeyCode::Char(small)
                && key.modifiers.control && !key.modifiers.shift && !key.modifiers.alt
                && !key.modifiers.super_key && !key.modifiers.hyper && !key.modifiers.meta
            &&& !chord <==> leader_of(spec) == Err::<KeyEvent, LeaderError>(LeaderError::NotCtrl)
            &&& chord && s.len() != 6 <==> leader_of(spec) == Err::<KeyEvent, LeaderError>(
                LeaderError::NotOneCharacter,
            )
            &&& chord && s.len() == 6 && !letter <==> leader_of(spec) == Err::<
                KeyEvent,
                LeaderError,
            >(LeaderError::NotLetter)
            &&& chord && s.len() == 6 && (small == 'i' || small == 'm') <==> leader_of(spec)
                == Err::<KeyEvent, LeaderError>(LeaderError::NeverRecognized)
        }),
{
    reveal_strlit("ctrl+");
    let s = trim_text(spec);
    let low = ascii_lowered(s);
    assert(low.len() == s.len());
    assert(forall|i: int|
        0 <= i < s.len() ==> #[trigger] low[i] == crate::text::ascii_small(s[i]));
    if s.len() >= 5 {
        assert(low[0] == crate::text::ascii_small(s[0]) && low[1] == crate::text::ascii_small(s[1])
            && low[2] == crate::text::ascii_small(s[2]) && low[3] == crate::text::ascii_small(s[3])
            && low[4] == crate::text::ascii_small(s[4]));
        let head = low.subrange(0, 5);
        assert(head[0] == low[0] && head[1] == low[1] && head[2] == low[2] && head[3] == low[3]
            && head[4] == low[4]);
        if low[0] == 'c' && low[1] == 't' && low[2] == 'r' && low[3] == 'l' && low[4] == '+' {
            assert(head =~= "ctrl+"@);
        }
        if head == "ctrl+"@ {
            assert("ctrl+"@[0] == 'c' && "ctrl+"@[1] == 't' && "ctrl+"@[2] == 'r' && "ctrl+"@[3]
                == 'l' && "ctrl+"@[4] == '+');
        }
    }
}

/// The accents in their order, which is the order they are cycled in.
pub proof fn law_accents_in_order()
    ensures
        accents() == seq![
            Accent::Yellow,
            Accent::Cyan,
            Accent::Green,
            Accent::Magenta,
            Accent::Blue,
        ],
        forall|accent: Accent| accents()[#[trigger] accent_index(accent)] == accent,
{
}

} // verus!
