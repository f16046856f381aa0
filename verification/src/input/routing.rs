//! Which action a key stands for, with and without the leader before it.

use crate::input::key::{no_modifiers, shift_modifier, Action, KeyCode, KeyEvent, KeyModifiers};
use crate::text::{ascii_small, small_char};
use vstd::prelude::*;

verus! {

/// What a key stands for with no leader in play. The reserved chords are
/// matched on their exact modifiers, so that any further modifier falls through
/// to the terminal: with Shift alone, or with nothing at all.
pub open spec fn key_action(event: KeyEvent) -> Action {
    if event.modifiers == shift_modifier() {
        match event.code {
            KeyCode::Left => Action::CycleBackward,
            KeyCode::Right => Action::CycleForward,
            KeyCode::Up => Action::TermScrollLineUp,
            KeyCode::Down => Action::TermScrollLineDown,
            KeyCode::PageUp => Action::TermScrollUp,
            KeyCode::PageDown => Action::TermScrollDown,
            _ => Action::Nothing,
        }
    } else if event.modifiers == no_modifiers() {
        match event.code {
            KeyCode::F(n) => if 1 <= n <= 10 {
                Action::SwitchProject((n - 1) as usize)
            } else {
                Action::Nothing
            },
            KeyCode::Up => Action::Up,
            KeyCode::Down => Action::Down,
            KeyCode::PageUp => Action::PageUp,
            KeyCode::PageDown => Action::PageDown,
            _ => Action::Nothing,
        }
    } else {
        Action::Nothing
    }
}

/// What a key stands for with no leader in play.
///
/// The commands live behind the leader; what is left are reserved keys that
/// cannot be confused with prompt text, and bare navigation. `F1` to `F10`
/// select the project tabs 0 to 9 in every layout. `j` and `k` are not mapped,
/// so that they remain plain characters for a terminal.
pub fn map_key(event: KeyEvent) -> (r: Action)
    ensures
        r == key_action(event),
{
    let m = event.modifiers;
    let shift_only = m.shift && !m.control && !m.alt && !m.super_key && !m.hyper && !m.meta;
    let no_mods = m.is_empty();
    match event.code {
        KeyCode::Left if shift_only => Action::CycleBackward,
        KeyCode::Right if shift_only => Action::CycleForward,
        KeyCode::Up if shift_only => Action::TermScrollLineUp,
        KeyCode::Down if shift_only => Action::TermScrollLineDown,
        KeyCode::PageUp if shift_only => Action::TermScrollUp,
        KeyCode::PageDown if shift_only => Action::TermScrollDown,
        KeyCode::F(n) if no_mods && 1 <= n && n <= 10 => Action::SwitchProject((n - 1) as usize),
        KeyCode::Up if no_mods => Action::Up,
        KeyCode::Down if no_mods => Action::Down,
        KeyCode::PageUp if no_mods => Action::PageUp,
        KeyCode::PageDown if no_mods => Action::PageDown,
        _ => Action::Nothing,
    }
}

/// The command behind a character, whatever its case.
pub open spec fn letter_action(c: char) -> Action {
    match c {
        't' => Action::NewPane,
        'w' => Action::ClosePane,
        'l' => Action::ToggleLogView,
        'b' => Action::ToggleTreeView,
        'f' => Action::ToggleFullscreen,
        's' => Action::SwapPanePrompt,
        'z' => Action::ClaimPaneSizing,
        'c' => Action::CancelRecovery,
        'o' => Action::OpenProject,
        'x' => Action::CloseProject,
        'p' => Action::CycleTheme,
        'u' => Action::ReloadConfig,
        'r' => Action::Redraw,
        'q' => Action::Quit,
        _ => Action::Nothing,
    }
}

/// What a key stands for right after the leader, in split view. The digits
/// address what the body shows: `1` the file list, `2` the diff, `3` to `9` and
/// then `0` the panes 0 to 7.
pub open spec fn follow_up_action(code: KeyCode) -> Action {
    match code {
        KeyCode::Char(c) => if c == '1' {
            Action::FocusList
        } else if c == '2' {
            Action::FocusDiff
        } else if c == '0' {
            Action::SwitchPane(7)
        } else if '3' <= c <= '9' {
            Action::SwitchPane((c as u32 - '3' as u32) as usize)
        } else {
            letter_action(ascii_small(c))
        },
        _ => Action::Nothing,
    }
}

/// What a key stands for right after the leader while the terminal fills the
/// body. There the digits `1` to `8` are the panes 0 to 7, and `9` and `0` have
/// none.
pub open spec fn fullscreen_action(code: KeyCode) -> Action {
    match code {
        KeyCode::Char(c) => if '1' <= c <= '8' {
            Action::SwitchPane((c as u32 - '1' as u32) as usize)
        } else if c == '0' || c == '9' {
            Action::Nothing
        } else {
            follow_up_action(code)
        },
        _ => Action::Nothing,
    }
}

/// What the single key pressed after the leader stands for. It is matched
/// whatever is held down with it, so that it works while the leader's own
/// modifier is still held.
pub fn prefix_action(event: KeyEvent) -> (r: Action)
    ensures
        r == follow_up_action(event.code),
{
    match event.code {
        KeyCode::Char(c) => match small_char(c) {
            't' => Action::NewPane,
            'w' => Action::ClosePane,
            'l' => Action::ToggleLogView,
            'b' => Action::ToggleTreeView,
            'f' => Action::ToggleFullscreen,
            's' => Action::SwapPanePrompt,
            'z' => Action::ClaimPaneSizing,
            'c' => Action::CancelRecovery,
            'o' => Action::OpenProject,
            'x' => Action::CloseProject,
            'p' => Action::CycleTheme,
            'u' => Action::ReloadConfig,
            'r' => Action::Redraw,
            'q' => Action::Quit,
            '1' => Action::FocusList,
            '2' => Action::FocusDiff,
            '0' => Action::SwitchPane(7),
            d => if '3' <= d && d <= '9' {
                Action::SwitchPane((d as u8 - 51) as usize)
            } else {
                Action::Nothing
            },
        },
        _ => Action::Nothing,
    }
}

/// What the key after the leader stands for while the terminal fills the body.
pub fn prefix_action_fullscreen(event: KeyEvent) -> (r: Action)
    ensures
        r == fullscreen_action(event.code),
{
    if let KeyCode::Char(c) = event.code {
        if '0' <= c && c <= '9' {
            return if '1' <= c && c <= '8' {
                Action::SwitchPane((c as u8 - 49) as usize)
            } else {
                Action::Nothing
            };
        }
    }
    prefix_action(event)
}

/// Bare `j` and `k` as navigation, for what is not a terminal.
pub fn vim_navigation_action(key: KeyEvent) -> (r: Option<Action>)
    ensures
        r == if key.modifiers != no_modifiers() {
            None::<Action>
        } else if key.code == KeyCode::Char('k') {
            Some(Action::Up)
        } else if key.code == KeyCode::Char('j') {
            Some(Action::Down)
        } else {
            None::<Action>
        },
{
    if !key.modifiers.is_empty() {
        return None;
    }
    match key.code {
        KeyCode::Char('k') => Some(Action::Up),
        KeyCode::Char('j') => Some(Action::Down),
        _ => None,
    }
}

/// A key with no leader before it never stands for anything when it carries a
/// modifier other than Shift alone: it goes to the terminal.
pub proof fn law_modified_keys_pass_through(event: KeyEvent)
    requires
        event.modifiers != no_modifiers(),
        event.modifiers != shift_modifier(),
    ensures
        key_action(event) == Action::Nothing,
{
}

/// Plain characters never stand for anything without the leader, so typing
/// into a terminal is never taken for a command.
pub proof fn law_typing_is_never_a_command(c: char, modifiers: KeyModifiers)
    ensures
        key_action(KeyEvent { code: KeyCode::Char(c), modifiers }) == Action::Nothing,
{
}

/// The leader digits and the function keys never collide: no key after the
/// leader switches the project, and none without it switches the pane.
pub proof fn law_panes_and_projects_do_not_collide(event: KeyEvent)
    ensures
        !(follow_up_action(event.code) is SwitchProject),
        !(fullscreen_action(event.code) is SwitchProject),
        !(key_action(event) is SwitchPane),
{
}

/// Outside the digits, filling the body with the terminal changes no binding.
pub proof fn law_fullscreen_changes_digits_only(code: KeyCode)
    requires
        !(code matches KeyCode::Char(c) && '0' <= c <= '9'),
    ensures
        fullscreen_action(code) == follow_up_action(code),
{
}

/// Every pane the fullscreen view can show has a digit of its own, and no
/// digit leads further.
pub proof fn law_fullscreen_digits_reach_every_pane(pane: usize, code: KeyCode)
    ensures
        pane < 8 ==> fullscreen_action(KeyCode::Char((pane + 49) as char)) == Action::SwitchPane(
            pane,
        ),
        fullscreen_action(code) matches Action::SwitchPane(p) ==> p < 8,
{
}

/// Without a modifier the arrows and the page keys move, and the first ten
/// function keys switch to the project of their number; with shift alone the
/// arrows cycle and scroll. Nothing else is acted on.
pub proof fn law_plain_and_shifted_keys(event: KeyEvent)
    ensures
        ({
            let m = event.modifiers;
            let others = m.control || m.alt || m.super_key || m.hyper || m.meta;
            let plain = !m.shift && !others;
            let shifted = m.shift && !others;
            let a = key_action(event);
            &&& a == match event.code {
                KeyCode::Up => if plain {
                    Action::Up
                } else if shifted {
                    Action::TermScrollLineUp
                } else {
                    Action::Nothing
                },
                KeyCode::Down => if plain {
                    Action::Down
                } else if shifted {
                    Action::TermScrollLineDown
                } else {
                    Action::Nothing
                },
                KeyCode::PageUp => if plain {
                    Action::PageUp
                } else if shifted {
                    Action::TermScrollUp
                } else {
                    Action::Nothing
                },
                KeyCode::PageDown => if plain {
                    Action::PageDown
                } else if shifted {
                    Action::TermScrollDown
                } else {
                    Action::Nothing
                },
                KeyCode::Left => if shifted {
                    Action::CycleBackward
                } else {
                    Action::Nothing
                },
                KeyCode::Right => if shifted {
                    Action::CycleForward
                } else {
                    Action::Nothing
                },
                KeyCode::F(n) => if plain && 1 <= n <= 10 {
                    Action::SwitchProject((n - 1) as usize)
                } else {
                    Action::Nothing
                },
                _ => Action::Nothing,
            }
        }),
{
}

/// Behind the leader each letter, small or capital, has its own action: no two
/// letters share one, and every other letter does nothing.
pub proof fn law_letters_behind_the_leader(c: char, capital: char)
    requires
        'a' <= c <= 'z',
        capital as u32 + 32 == c as u32,
    ensures
        follow_up_action(KeyCode::Char(capital)) == follow_up_action(KeyCode::Char(c)),
        follow_up_action(KeyCode::Char(c)) == Action::NewPane <==> c == 't',
        follow_up_action(KeyCode::Char(c)) == Action::ClosePane <==> c == 'w',
        follow_up_action(KeyCode::Char(c)) == Action::ToggleLogView <==> c == 'l',
        follow_up_action(KeyCode::Char(c)) == Action::ToggleTreeView <==> c == 'b',
        follow_up_action(KeyCode::Char(c)) == Action::ToggleFullscreen <==> c == 'f',
        follow_up_action(KeyCode::Char(c)) == Action::SwapPanePrompt <==> c == 's',
        follow_up_action(KeyCode::Char(c)) == Action::ClaimPaneSizing <==> c == 'z',
        follow_up_action(KeyCode::Char(c)) == Action::CancelRecovery <==> c == 'c',
        follow_up_action(KeyCode::Char(c)) == Action::OpenProject <==> c == 'o',
        follow_up_action(KeyCode::Char(c)) == Action::CloseProject <==> c == 'x',
        follow_up_action(KeyCode::Char(c)) == Action::CycleTheme <==> c == 'p',
        follow_up_action(KeyCode::Char(c)) == Action::ReloadConfig <==> c == 'u',
        follow_up_action(KeyCode::Char(c)) == Action::Redraw <==> c == 'r',
        follow_up_action(KeyCode::Char(c)) == Action::Quit <==> c == 'q',
        follow_up_action(KeyCode::Char(c)) == Action::Nothing <==> !(c == 't' || c == 'w' || c
            == 'l' || c == 'b' || c == 'f' || c == 's' || c == 'z' || c == 'c' || c == 'o' || c
            == 'x' || c == 'p' || c == 'u' || c == 'r' || c == 'q'),
{
}

/// Behind the leader the digits go round the window as it is laid out: the
/// list, the diff, and then the panes, of which the tenth digit is the last.
pub proof fn law_digits_behind_the_leader(pane: usize, c: char)
    requires
        '0' <= c <= '9',
    ensures
        c == '1' ==> follow_up_action(KeyCode::Char(c)) == Action::FocusList,
        c == '2' ==> follow_up_action(KeyCode::Char(c)) == Action::FocusDiff,
        c == '0' ==> follow_up_action(KeyCode::Char(c)) == Action::SwitchPane(7),
        c as u32 == 51 + pane && pane < 7 ==> follow_up_action(KeyCode::Char(c))
            == Action::SwitchPane(pane),
        c as u32 == 49 + pane && pane < 8 ==> fullscreen_action(KeyCode::Char(c))
            == Action::SwitchPane(pane),
        c == '9' || c == '0' ==> fullscreen_action(KeyCode::Char(c)) == Action::Nothing,
{
}

} // verus!
