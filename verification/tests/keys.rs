use nightcrow::app::{leader_label_of, AutoFollow, Focus, Notice, NoticeKind, ViewMode};
use nightcrow::config::layout::{
    parse_leader, Accent, Color, InputConfig, LayoutConfig, LeaderError, StartupCommand,
    ThemeConfig,
};
use nightcrow::input::key::{Action, KeyCode, KeyEvent, KeyModifiers};
use nightcrow::input::routing::{
    map_key, prefix_action, prefix_action_fullscreen, vim_navigation_action,
};

fn bare(code: KeyCode) -> KeyEvent {
    KeyEvent { code, modifiers: KeyModifiers::none() }
}

fn shift(code: KeyCode) -> KeyEvent {
    KeyEvent { code, modifiers: KeyModifiers { shift: true, ..KeyModifiers::none() } }
}

fn ctrl(code: KeyCode) -> KeyEvent {
    KeyEvent { code, modifiers: KeyModifiers { control: true, ..KeyModifiers::none() } }
}

#[test]
fn reserved_keys_without_the_leader() {
    assert_eq!(map_key(shift(KeyCode::Left)), Action::CycleBackward);
    assert_eq!(map_key(shift(KeyCode::Right)), Action::CycleForward);
    assert_eq!(map_key(shift(KeyCode::Up)), Action::TermScrollLineUp);
    assert_eq!(map_key(shift(KeyCode::Down)), Action::TermScrollLineDown);
    assert_eq!(map_key(shift(KeyCode::PageUp)), Action::TermScrollUp);
    assert_eq!(map_key(shift(KeyCode::PageDown)), Action::TermScrollDown);
    assert_eq!(map_key(bare(KeyCode::Up)), Action::Up);
    assert_eq!(map_key(bare(KeyCode::PageDown)), Action::PageDown);
    assert_eq!(map_key(bare(KeyCode::F(1))), Action::SwitchProject(0));
    assert_eq!(map_key(bare(KeyCode::F(10))), Action::SwitchProject(9));
    assert_eq!(map_key(bare(KeyCode::F(11))), Action::Nothing);
    assert_eq!(map_key(bare(KeyCode::F(0))), Action::Nothing);
}

#[test]
fn a_further_modifier_passes_through() {
    let mut key = shift(KeyCode::Up);
    key.modifiers.control = true;
    assert_eq!(map_key(key), Action::Nothing);
    let mut key = bare(KeyCode::F(3));
    key.modifiers.super_key = true;
    assert_eq!(map_key(key), Action::Nothing);
}

#[test]
fn typing_is_never_a_command_without_the_leader() {
    for c in ['j', 'k', 't', 'q', '1', '/'] {
        assert_eq!(map_key(bare(KeyCode::Char(c))), Action::Nothing);
    }
}

#[test]
fn keys_after_the_leader() {
    let cases = [
        ('t', Action::NewPane),
        ('W', Action::ClosePane),
        ('l', Action::ToggleLogView),
        ('b', Action::ToggleTreeView),
        ('F', Action::ToggleFullscreen),
        ('s', Action::SwapPanePrompt),
        ('z', Action::ClaimPaneSizing),
        ('c', Action::CancelRecovery),
        ('o', Action::OpenProject),
        ('x', Action::CloseProject),
        ('p', Action::CycleTheme),
        ('u', Action::ReloadConfig),
        ('r', Action::Redraw),
        ('q', Action::Quit),
        ('1', Action::FocusList),
        ('2', Action::FocusDiff),
        ('3', Action::SwitchPane(0)),
        ('9', Action::SwitchPane(6)),
        ('0', Action::SwitchPane(7)),
        ('?', Action::Nothing),
    ];
    for (c, action) in cases {
        assert_eq!(prefix_action(bare(KeyCode::Char(c))), action, "{c}");
        assert_eq!(prefix_action(ctrl(KeyCode::Char(c))), action, "ctrl {c}");
    }
    assert_eq!(prefix_action(bare(KeyCode::Enter)), Action::Nothing);
}

#[test]
fn fullscreen_digits_address_panes_by_number() {
    assert_eq!(prefix_action_fullscreen(bare(KeyCode::Char('1'))), Action::SwitchPane(0));
    assert_eq!(prefix_action_fullscreen(bare(KeyCode::Char('8'))), Action::SwitchPane(7));
    assert_eq!(prefix_action_fullscreen(bare(KeyCode::Char('9'))), Action::Nothing);
    assert_eq!(prefix_action_fullscreen(bare(KeyCode::Char('0'))), Action::Nothing);
    assert_eq!(prefix_action_fullscreen(bare(KeyCode::Char('t'))), Action::NewPane);
    assert_eq!(prefix_action_fullscreen(bare(KeyCode::Tab)), Action::Nothing);
}

#[test]
fn bare_j_and_k_navigate_lists() {
    assert_eq!(vim_navigation_action(bare(KeyCode::Char('k'))), Some(Action::Up));
    assert_eq!(vim_navigation_action(bare(KeyCode::Char('j'))), Some(Action::Down));
    assert_eq!(vim_navigation_action(bare(KeyCode::Char('J'))), None);
    assert_eq!(vim_navigation_action(ctrl(KeyCode::Char('j'))), None);
}

#[test]
fn leaders_are_ctrl_and_a_letter() {
    let leader = parse_leader(" Ctrl+B ").expect("a leader");
    assert_eq!(leader, ctrl(KeyCode::Char('b')));
    assert_eq!(parse_leader("alt+b"), Err(LeaderError::NotCtrl));
    assert_eq!(parse_leader("ctrl+"), Err(LeaderError::NotOneCharacter));
    assert_eq!(parse_leader("ctrl+ab"), Err(LeaderError::NotOneCharacter));
    assert_eq!(parse_leader("ctrl+1"), Err(LeaderError::NotLetter));
    assert_eq!(parse_leader("ctrl+é"), Err(LeaderError::NotLetter));
    assert_eq!(parse_leader("ctrl+I"), Err(LeaderError::NeverRecognized));
    assert_eq!(parse_leader("ctrl+m"), Err(LeaderError::NeverRecognized));
    assert_eq!(
        LeaderError::NotOneCharacter.message("ctrl+ab"),
        "input.leader \"ctrl+ab\" must name exactly one ascii character after ctrl+"
    );
    assert!(LeaderError::NotCtrl.message("x").contains("must be a ctrl chord"));
    assert!(LeaderError::NotLetter.message("x").contains("an ascii letter"));
    assert!(LeaderError::NeverRecognized.message("x").contains("Ctrl+I as Tab"));
    assert!(parse_leader(&InputConfig::default().leader).is_ok());
}

#[test]
fn the_leader_is_shown_as_a_control_key() {
    assert_eq!(leader_label_of(ctrl(KeyCode::Char('f'))), "^F");
    assert_eq!(leader_label_of(bare(KeyCode::Char('f'))), "f");
    assert_eq!(leader_label_of(bare(KeyCode::Esc)), "<prefix>");
}

#[test]
fn accents_and_their_indices() {
    let all = [Accent::Yellow, Accent::Cyan, Accent::Green, Accent::Magenta, Accent::Blue];
    for (i, accent) in all.into_iter().enumerate() {
        assert_eq!(accent.index(), i);
        assert_eq!(Accent::from_index(i), accent);
        assert_eq!(Accent::from_index(i + 5), accent);
    }
    assert_eq!(Accent::Magenta.color(), Color::Magenta);
    assert_eq!(Accent::Yellow.color(), Color::Yellow);
    assert_eq!(Accent::default(), Accent::Yellow);
    assert_eq!(ThemeConfig { name: Accent::Green }.preset_index(), 2);
    assert_eq!(ThemeConfig::default().preset_index(), 0);
}

#[test]
fn defaults_of_the_settings() {
    let layout = LayoutConfig::default();
    assert_eq!((layout.upper_pct, layout.file_list_pct), (55, 25));
    assert_eq!(InputConfig::default().leader, "ctrl+f");
    assert_eq!(ViewMode::default(), ViewMode::Status);
    let follow = AutoFollow::default();
    assert!(follow.last_manual_nav_at.is_none() && follow.followed_path.is_none());
    let command = StartupCommand { name: None, command: "make".into(), plugin: None };
    assert_eq!(command.command, "make");
    let notice = Notice { kind: NoticeKind::Git, text: "x".into() };
    assert_eq!(notice.kind, NoticeKind::Git);
    assert_ne!(Focus::FileList, Focus::Terminal);
}
