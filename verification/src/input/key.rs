//! A key as the terminal reports it, and the actions keys stand for.

use vstd::prelude::*;

verus! {

/// Which key was pressed.
#[derive(Debug, Clone, Copy, PartialEq, Eq, Structural)]
pub enum KeyCode {
    Char(char),
    F(u8),
    Left,
    Right,
    Up,
    Down,
    PageUp,
    PageDown,
    Enter,
    Tab,
    Esc,
    /// Any key that stands for nothing here.
    Other,
}

/// What was held down with it.
#[derive(Debug, Clone, Copy, PartialEq, Eq, Structural)]
pub struct KeyModifiers {
    pub shift: bool,
    pub control: bool,
    pub alt: bool,
    pub super_key: bool,
    pub hyper: bool,
    pub meta: bool,
}

impl KeyModifiers {
    /// Nothing held down.
    pub fn none() -> (r: KeyModifiers)
        ensures
            r == no_modifiers(),
    {
        KeyModifiers {
            shift: false,
            control: false,
            alt: false,
            super_key: false,
            hyper: false,
            meta: false,
        }
    }

    /// Whether nothing is held down.
    pub fn is_empty(&self) -> (r: bool)
        ensures
            r == (*self == no_modifiers()),
    {
        *self == KeyModifiers::none()
    }
}

/// Nothing held down.
pub open spec fn no_modifiers() -> KeyModifiers {
    KeyModifiers {
        shift: false,
        control: false,
        alt: false,
        super_key: false,
        hyper: false,
        meta: false,
    }
}

/// Shift alone held down.
pub open spec fn shift_modifier() -> KeyModifiers {
    KeyModifiers { shift: true, ..no_modifiers() }
}

/// Control alone held down.
pub open spec fn control_modifier() -> KeyModifiers {
    KeyModifiers { control: true, ..no_modifiers() }
}

/// A key with its modifiers.
#[derive(Debug, Clone, Copy, PartialEq, Eq, Structural)]
pub struct KeyEvent {
    pub code: KeyCode,
    pub modifiers: KeyModifiers,
}

/// What a key asks for.
#[derive(Debug, Clone, Copy, PartialEq, Eq, Structural)]
pub enum Action {
    Nothing,
    Up,
    Down,
    PageUp,
    PageDown,
    CycleBackward,
    CycleForward,
    TermScrollLineUp,
    TermScrollLineDown,
    TermScrollUp,
    TermScrollDown,
    SwitchProject(usize),
    NewPane,
    ClosePane,
    ToggleLogView,
    ToggleTreeView,
    ToggleFullscreen,
    SwapPanePrompt,
    ClaimPaneSizing,
    CancelRecovery,
    OpenProject,
    CloseProject,
    CycleTheme,
    ReloadConfig,
    Redraw,
    Quit,
    FocusList,
    FocusDiff,
    SwitchPane(usize),
}

} // verus!
