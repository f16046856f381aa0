use alacritty_terminal::term::TermMode;
use nightcrow::backend::{BackendError, BackendEvent, RecordedCall, RecordingBackend};
use nightcrow::git::diff::types::{ChangedFile, RepoSnapshot, StatusKind};
use nightcrow::native::NativePath;
use nightcrow::runtime::emulator::{
    collect_events, effective_size, pane_modes_of, scroll_sink_of, PaneEmulator, ScrollSink,
    TermEvent, ALTERNATE_SCROLL, ALT_SCREEN, APP_CURSOR, BRACKETED_PASTE, FOCUS_IN_OUT,
    INITIAL_MODE, LINE_WRAP, MOUSE_DRAG, MOUSE_MODE, MOUSE_MOTION, MOUSE_REPORT_CLICK, SGR_MOUSE,
    SHOW_CURSOR, UTF8_MOUSE,
};
use nightcrow::runtime::modes::PaneModes;
use nightcrow::runtime::order::arrange;
use nightcrow::runtime::snapshot::{
    collect_mtimes, file_path, read, SnapshotChannel, SnapshotMsg, TryRecvError,
};
use nightcrow::runtime::snapshot_watch::{
    any_matters, changed_paths, external_git_dir, matters, weigh, AccessKind, AccessMode,
    ChangedPath, EventKind, Prefix, Question, Roots, Wake, WatchEvent,
};
use nightcrow::runtime::terminal::{CreateError, Recovery, TerminalState};
use nightcrow::runtime::tree_watch::{join_rel, Batch, TreeWatcher};
use nightcrow::textmap::TextSet;

fn at(path: &str) -> NativePath {
    NativePath::of_text(path)
}

#[test]
fn mode_bits_are_the_emulators_own() {
    let named = [
        (SHOW_CURSOR, TermMode::SHOW_CURSOR),
        (APP_CURSOR, TermMode::APP_CURSOR),
        (MOUSE_REPORT_CLICK, TermMode::MOUSE_REPORT_CLICK),
        (BRACKETED_PASTE, TermMode::BRACKETED_PASTE),
        (SGR_MOUSE, TermMode::SGR_MOUSE),
        (MOUSE_MOTION, TermMode::MOUSE_MOTION),
        (LINE_WRAP, TermMode::LINE_WRAP),
        (FOCUS_IN_OUT, TermMode::FOCUS_IN_OUT),
        (ALT_SCREEN, TermMode::ALT_SCREEN),
        (MOUSE_DRAG, TermMode::MOUSE_DRAG),
        (UTF8_MOUSE, TermMode::UTF8_MOUSE),
        (ALTERNATE_SCROLL, TermMode::ALTERNATE_SCROLL),
        (MOUSE_MODE, TermMode::MOUSE_MODE),
        (INITIAL_MODE, TermMode::default()),
    ];
    for (bits, mode) in named {
        assert_eq!(bits, mode.bits());
    }
}

#[test]
fn an_emulator_starts_in_the_default_modes() {
    let emulator = PaneEmulator::new(24, 80, 100);
    assert_eq!(emulator.modes(), PaneModes::default());
    assert_eq!(emulator.scroll_sink(), ScrollSink::Scrollback);
    assert!(!emulator.app_cursor() && !emulator.wants_mouse_buttons());
    assert_eq!(emulator.scroll_offset(), 0);
}

#[test]
fn an_emulator_reports_titles_and_answers() {
    let mut emulator = PaneEmulator::new(24, 80, 100);
    let events = emulator.process(b"\x1b]0; first \x07\x1b]2;se\x01cond  \x07");
    assert_eq!(events.title.as_deref(), Some("second"));
    assert!(events.pty_writes.is_empty());
    let events = emulator.process(b"\x1b[6n");
    assert_eq!(events.pty_writes, b"\x1b[1;1R");
    assert!(events.title.is_none());
    assert!(emulator.process(b"\x1b]0;   \x07").title.is_none());
}

#[test]
fn each_emulator_reports_what_it_was_fed() {
    let mut first = PaneEmulator::new(24, 80, 100);
    let mut second = PaneEmulator::new(24, 80, 100);
    let events = first.process(b"\x1b]0;one\x07\x1b[2;3H\x1b[6n");
    assert_eq!(events.title.as_deref(), Some("one"));
    assert_eq!(events.pty_writes, b"\x1b[2;3R");
    let events = second.process(b"plain");
    assert!(events.title.is_none() && events.pty_writes.is_empty());
    let events = second.process(b"\x1b[6n");
    assert_eq!(events.pty_writes, b"\x1b[1;6R");
}

#[test]
fn an_emulator_follows_the_modes() {
    let mut emulator = PaneEmulator::new(24, 80, 100);
    emulator.process(b"\x1b[?1000h\x1b[?1006h\x1b[?1h");
    assert!(emulator.wants_mouse_buttons() && emulator.app_cursor());
    assert_eq!(emulator.scroll_sink(), ScrollSink::MouseWheel);
    let modes = emulator.modes();
    assert!(modes.mouse_click && modes.sgr_mouse && !modes.alt_screen);
    emulator.resize(10, 20);
    assert_eq!(emulator.modes(), modes);
    let mut pager = PaneEmulator::new(24, 80, 100);
    pager.process(b"\x1b[?1049h");
    assert_eq!(pager.scroll_sink(), ScrollSink::ArrowKeys);
}

#[test]
fn the_prelude_brings_a_fresh_emulator_into_the_same_modes() {
    let mut emulator = PaneEmulator::new(24, 80, 100);
    emulator.process(b"\x1b[?1049h\x1b[?1h\x1b[?2004h\x1b[?25l\x1b[?7l\x1b[?1002h\x1b[?1006h\x1b[?1007l\x1b[?1004h");
    let mut later = PaneEmulator::new(24, 80, 100);
    later.process(&emulator.modes().prelude());
    assert_eq!(later.modes(), emulator.modes());
    assert_ne!(later.modes(), PaneModes::default());
}

#[test]
fn scrolling_stays_within_the_history() {
    let mut emulator = PaneEmulator::new(2, 10, 5);
    emulator.process(b"1\r\n2\r\n3\r\n4\r\n");
    assert_eq!(emulator.set_scroll_offset(2), 2);
    assert_eq!(emulator.scroll_offset(), 2);
    assert_eq!(emulator.set_scroll_offset(usize::MAX), 3);
    assert_eq!(emulator.set_scroll_offset(0), 0);
    assert_eq!(emulator.view().term.grid().display_offset(), 0);
}

#[test]
fn degenerate_sizes_are_clamped() {
    assert_eq!(effective_size(0, 0), (1, 2));
    assert_eq!(effective_size(24, 80), (24, 80));
    let mut emulator = PaneEmulator::new(0, 1, 0);
    emulator.process("漢字".as_bytes());
    emulator.resize(0, 0);
    emulator.resize(5, 3);
}

#[test]
fn events_are_collected_in_order() {
    let events = collect_events(&vec![
        TermEvent::PtyWrite("a".into()),
        TermEvent::Title("one".into()),
        TermEvent::Other,
        TermEvent::PtyWrite("é".into()),
        TermEvent::Title("\u{7}".into()),
    ]);
    assert_eq!(events.title.as_deref(), Some("one"));
    assert_eq!(events.pty_writes, "aé".as_bytes());
    assert_eq!(scroll_sink_of(MOUSE_DRAG), ScrollSink::Scrollback);
    assert_eq!(scroll_sink_of(MOUSE_DRAG | SGR_MOUSE), ScrollSink::MouseWheel);
    assert!(pane_modes_of(FOCUS_IN_OUT).focus_in_out);
}

#[test]
fn panes_are_put_in_the_order_given() {
    assert_eq!(arrange(&[1, 2, 3], &[3, 9, 1, 2]), [3, 1, 2]);
    assert_eq!(arrange(&[1, 2, 3], &[3, 1]), [3, 2, 1]);
    assert_eq!(arrange(&[1, 2], &[]), [1, 2]);
}

fn state(events: Vec<BackendEvent>) -> TerminalState<RecordingBackend> {
    let mut backend = RecordingBackend::new();
    backend.pending = events;
    TerminalState::new(Some(backend), (24, 80), true, 50)
}

fn created(pane: u32, requested: bool) -> BackendEvent {
    BackendEvent::Created { pane, rows: 24, cols: 80, requested, title: None }
}

#[test]
fn a_pane_is_asked_for_and_then_arrives() {
    let mut terminals = state(vec![]);
    terminals.create_pane_with(Some("make"), Some("build")).expect("asked");
    terminals.backend.as_mut().expect("a backend").pending = vec![created(7, true)];
    assert!(terminals.poll().is_empty());
    assert_eq!(terminals.active_pane_id(), Some(7));
    assert_eq!(terminals.panes[0].title, "build");
    assert_eq!(terminals.pane_size(7), (24, 80));
    let backend = terminals.backend.as_ref().expect("a backend");
    assert!(matches!(
        &backend.recorded[0],
        RecordedCall::Create { command: Some(command), .. } if command == "make"
    ));
}

#[test]
fn a_pane_someone_else_opened_leaves_the_focus() {
    let mut terminals = state(vec![created(1, true), created(2, false), created(2, false)]);
    terminals.poll();
    assert_eq!(terminals.panes.len(), 2);
    assert_eq!(terminals.active_pane_id(), Some(1));
}

#[test]
fn output_is_emulated_and_answered() {
    let data = b"\x1b]0;vim\x07\x1b[6n".to_vec();
    let mut terminals = state(vec![created(1, true), BackendEvent::Output { pane: 1, data }]);
    terminals.poll();
    assert_eq!(terminals.panes[0].title, "vim");
    let backend = terminals.backend.as_ref().expect("a backend");
    assert!(matches!(
        backend.recorded.last(),
        Some(RecordedCall::Send(1, data)) if data == b"\x1b[1;1R"
    ));
}

#[test]
fn an_exit_is_told_once_and_takes_the_pane() {
    let exited = || BackendEvent::Exited { pane: 2 };
    let mut terminals = state(vec![created(1, true), created(2, false), exited(), exited()]);
    assert_eq!(terminals.poll(), [2]);
    assert_eq!(terminals.panes.len(), 1);
    assert_eq!(terminals.active_pane_id(), Some(1));
    let backend = terminals.backend.as_ref().expect("a backend");
    let destroyed = |c: &&RecordedCall| matches!(c, RecordedCall::Destroy(2));
    assert_eq!(backend.recorded.iter().filter(destroyed).count(), 1);
}

#[test]
fn reports_about_panes_are_applied() {
    let mut terminals = state(vec![
        created(1, true),
        created(2, true),
        BackendEvent::Reordered { order: vec![2, 1] },
        BackendEvent::Resized { pane: 2, rows: 10, cols: 20 },
        BackendEvent::SizeOwnership { owned: false },
        BackendEvent::Resized { pane: 1, rows: 10, cols: 20 },
        BackendEvent::Recovery {
            pane: 1,
            state: "waiting".into(),
            detail: None,
            deadline_epoch: None,
            attempt: 1,
        },
    ]);
    terminals.poll();
    assert_eq!(terminals.panes.iter().map(|p| p.id).collect::<Vec<_>>(), [2, 1]);
    assert_eq!(terminals.pane_size(1), (10, 20));
    assert_eq!(terminals.pane_size(2), (24, 80));
    assert_eq!(terminals.recoveries.get(&1).map(|r| r.state.as_str()), Some("waiting"));
    assert!(!terminals.owns_size);
    terminals.apply_recovery(
        1,
        Recovery { state: "cancelled".into(), detail: None, deadline_epoch: None, attempt: 1 },
    );
    assert!(!terminals.recoveries.contains_key(&1));
}

#[test]
fn only_the_owner_resizes_and_only_what_changed() {
    let mut terminals = state(vec![created(1, true)]);
    terminals.poll();
    terminals.resize_visible_panes(&[(1, 30, 90)]);
    terminals.resize_visible_panes(&[(1, 30, 90)]);
    let resizes = |t: &TerminalState<RecordingBackend>| {
        let backend = t.backend.as_ref().expect("a backend");
        backend.recorded.iter().filter(|c| matches!(c, RecordedCall::Resize(..))).count()
    };
    assert_eq!(resizes(&terminals), 1);
    terminals.apply_ownership(false);
    terminals.resize_visible_panes(&[(1, 40, 90)]);
    assert_eq!(resizes(&terminals), 1);
    terminals.claim_size();
    let backend = terminals.backend.as_ref().expect("a backend");
    assert!(matches!(backend.recorded.last(), Some(RecordedCall::ClaimSize)));
}

#[test]
fn without_a_backend_no_pane_can_be_made() {
    let mut terminals: TerminalState<RecordingBackend> =
        TerminalState::new(None, (24, 80), true, 50);
    let error = terminals.create_pane().expect_err("no backend");
    assert!(matches!(&error, CreateError::NoBackend));
    assert!(!error.message().is_empty());
    assert!(terminals.poll().is_empty());
    let mut refusing = state(vec![]);
    refusing.backend.as_mut().expect("a backend").refusal = Some("full".into());
    let error = refusing.create_pane().expect_err("refused");
    assert!(matches!(&error, CreateError::Backend(e) if e.message == "full"));
    assert!(refusing.pending_titles.is_empty());
    assert!(refusing.request_answered(Ok(()), Some(" make "), Some("  ")).is_ok());
    assert_eq!(refusing.pending_titles, [Some("make".to_string())]);
    let full = BackendError { message: "full".into() };
    let error = refusing.request_answered(Err(full), Some("x"), None).expect_err("refused");
    assert!(matches!(error, CreateError::Backend(e) if e.message == "full"));
    assert_eq!(refusing.pending_titles.len(), 1);
    let error = refusing.create_pane_with_now(Some("x"), None).expect_err("refused");
    assert_eq!(error.message(), "full");
    let mut now = state(vec![created(4, true)]);
    now.create_pane_now().expect("asked");
    assert_eq!(now.active_pane_id(), Some(4));
}

fn snapshot(paths: &[&str]) -> RepoSnapshot {
    RepoSnapshot {
        files: paths
            .iter()
            .map(|p| ChangedFile::from_commit_delta(p.to_string(), None, StatusKind::Modified))
            .collect(),
        tracking: None,
        head_oid: None,
        branch_name: None,
        refs_fingerprint: 0,
    }
}

#[test]
fn times_are_kept_of_files_that_can_be_asked_after() {
    let read_now = snapshot(&["a", "gone", "b"]);
    let times = collect_mtimes(&read_now, &vec![Some(1), None, Some(2)]);
    assert_eq!((times.get("a"), times.get("gone"), times.get("b")), (Some(&1), None, Some(&2)));
    assert_eq!(file_path(&at("/repo"), &read_now.files[0]), at("/repo/a"));
    let message = read(Ok(snapshot(&["a"])), Some(&vec![Some(9)]));
    assert!(matches!(message, SnapshotMsg::Read(_, times) if times.get("a") == Some(&9)));
    let bare = read(Ok(snapshot(&["a"])), None);
    assert!(matches!(bare, SnapshotMsg::Read(_, times) if times.get("a").is_none()));
    let failed = read(Err("corrupt".into()), None);
    assert!(matches!(failed, SnapshotMsg::Failed(reason) if reason == "corrupt"));
}

#[test]
fn a_channel_is_woken_and_stopped() {
    let mut channel = SnapshotChannel::spawn_asleep("/repo");
    assert!(!channel.watch().is_awake());
    channel.watch().set_awake(true);
    assert!(channel.watch().is_awake());
    let wake = channel.watch().next_wake();
    assert!(matches!(wake, Some(Wake::Changed(paths)) if paths.is_empty()));
    channel.close();
    channel.watch().set_awake(false);
    assert!(matches!(channel.watch().next_wake(), Some(Wake::Stop)));
    assert!(channel.watch().next_wake().is_none());
    assert!(SnapshotChannel::spawn("/repo").watch().is_awake());
    assert_eq!(channel.root(), "/repo");
}

#[test]
fn messages_are_heard_before_the_end_is() {
    let mut channel = SnapshotChannel::spawn("/repo");
    assert!(matches!(channel.try_recv(), Err(TryRecvError::Empty)));
    channel.deliver(SnapshotMsg::Failed("x".into()));
    channel.reader_ended();
    assert!(matches!(channel.try_recv(), Ok(SnapshotMsg::Failed(_))));
    assert!(matches!(channel.try_recv(), Err(TryRecvError::Disconnected)));
}

fn event(kind: EventKind) -> Result<WatchEvent, String> {
    Ok(WatchEvent { kind, paths: vec![at("/r/a")] })
}

#[test]
fn reading_is_not_a_change() {
    for kind in [
        EventKind::Access(AccessKind::Open(AccessMode::Any)),
        EventKind::Access(AccessKind::Read),
        EventKind::Access(AccessKind::Close(AccessMode::Read)),
        EventKind::Access(AccessKind::Any),
    ] {
        assert!(changed_paths(event(kind)).is_none());
    }
    for kind in [
        EventKind::Access(AccessKind::Close(AccessMode::Write)),
        EventKind::Create,
        EventKind::Modify,
        EventKind::Remove,
        EventKind::Other,
        EventKind::Any,
    ] {
        assert_eq!(changed_paths(event(kind)), Some(vec![at("/r/a")]));
    }
    assert_eq!(changed_paths(Err("overflow".into())), Some(vec![]));
}

fn changed(path: &str, ignored: Option<bool>) -> ChangedPath {
    ChangedPath { path: at(path), ignored }
}

#[test]
fn only_what_can_change_a_status_counts() {
    let mut roots = Roots::of(Prefix::of(&at("/r"), Some(&at("/private/r"))));
    assert!(matters(&roots, &changed("/r/a.rs", Some(false))));
    assert!(matters(&roots, &changed("/private/r/a.rs", None)));
    assert!(!matters(&roots, &changed("/r/target/x", Some(true))));
    assert!(matters(&roots, &changed("/elsewhere/x", Some(true))));
    assert!(!matters(&roots, &changed("/r/.git/objects/ab/cd", None)));
    assert!(!matters(&roots, &changed("/r/.git/logs/HEAD", None)));
    assert!(!matters(&roots, &changed("/r/.git/index.lock", None)));
    assert!(matters(&roots, &changed("/r/.git/index", Some(true))));
    assert!(matters(&roots, &changed("/r/.git", None)));
    assert!(matters(&roots, &changed("/r/.git/modules/m/objects/x", None)));
    assert!(matches!(weigh(&roots, &at("/r/a/b")), Question::Ignored(rel) if rel == at("a/b")));
    assert!(matches!(weigh(&roots, &at("//r/./a//b/")), Question::Ignored(rel) if rel == at("a//b")));
    assert_eq!(external_git_dir(&at("/r/.git"), &roots), None);
    assert_eq!(external_git_dir(&at("/main/.git"), &roots), Some(at("/main/.git")));
    roots.set_external_git_dir(Some(Prefix::of(&at("/main/.git"), None)));
    assert!(!matters(&roots, &changed("/main/.git/objects/x", None)));
    assert!(matters(&roots, &changed("/main/.git/refs/heads/main", None)));
    assert!(any_matters(&roots, &[]));
    assert!(any_matters(&roots, &[changed("/r/t", Some(true)), changed("/r/a", None)]));
    assert!(!any_matters(&roots, &[changed("/r/t", Some(true))]));
}

fn set(items: &[&str]) -> TextSet {
    let mut out = TextSet::new();
    for item in items {
        out.insert(item.to_string());
    }
    out
}

#[test]
fn the_watched_directories_follow_what_is_wanted() {
    let mut watcher = TreeWatcher::new(true);
    let plan = watcher.sync(&at("/r"), &set(&["src", ""]));
    assert!(plan.stale.is_empty());
    let fresh: Vec<(String, NativePath)> =
        plan.fresh.into_iter().map(|t| (t.rel, t.path)).collect();
    assert_eq!(fresh, [("".into(), at("/r")), ("src".into(), at("/r/src"))]);
    watcher.settle("".into(), true);
    watcher.settle("src".into(), false);
    let plan = watcher.sync(&at("/r"), &set(&["src"]));
    assert_eq!(plan.stale.iter().map(|t| t.path.shown()).collect::<Vec<_>>(), ["/r"]);
    assert_eq!(plan.fresh.iter().map(|t| t.rel.as_str()).collect::<Vec<_>>(), ["src"]);
    let mut inert = TreeWatcher::disabled();
    let plan = inert.sync(&at("/r"), &set(&["a"]));
    assert!(plan.stale.is_empty() && plan.fresh.is_empty());
    assert_eq!(join_rel(&at("/r"), "a/b"), at("/r/a/b"));
    assert_eq!(join_rel(&at("/r/./x/"), "a//b"), at("/r/./x/a//b"));
    assert_eq!(join_rel(&at("/r//x/"), ""), at("/r//x/"));
}

#[test]
fn changes_are_attributed_to_the_listing_that_holds_them() {
    let mut watcher = TreeWatcher::disabled();
    watcher.deliver(Batch::Events(vec![at("/r/a")]));
    assert!(watcher.drain_changed().unknown);
    watcher.sync(&at("/r"), &set(&[]));
    assert!(watcher.drain_changed().is_empty());
    watcher.deliver(Batch::Events(vec![at("/r/a.rs"), at("/r/src/b.rs"), at("/r/src/c")]));
    let changes = watcher.drain_changed();
    assert!(changes.dirs.contains("") && changes.dirs.contains("src") && !changes.unknown);
    assert_eq!(changes.dirs.items.len(), 2);
    watcher.deliver(Batch::Events(vec![at("/elsewhere/x")]));
    assert!(watcher.drain_changed().unknown);
    watcher.deliver(Batch::Error);
    let changes = watcher.drain_changed();
    assert!(changes.unknown && !changes.is_empty());
    let odd = NativePath { bytes: b"/r\xff".to_vec() };
    let mut watcher = TreeWatcher::disabled();
    watcher.sync(&odd, &set(&[]));
    watcher.deliver(Batch::Events(vec![odd.join("src/b.rs"), odd.join("a")]));
    let changes = watcher.drain_changed();
    assert_eq!(changes.dirs.items, ["", "src"]);
    assert!(!changes.unknown);
    for root in ["/r", "/r/", "/r/./x//", "r", ""] {
        let mut watcher = TreeWatcher::disabled();
        watcher.sync(&at(root), &set(&[]));
        for rel in ["", "src", "src/ui"] {
            let dir = join_rel(&at(root), rel).shown();
            let inside = at(&format!("{}/f", dir.trim_end_matches('/')));
            if root.is_empty() && rel.is_empty() {
                continue;
            }
            watcher.deliver(Batch::Events(vec![inside]));
            let changes = watcher.drain_changed();
            assert_eq!(changes.dirs.items, [rel], "{root:?}");
            assert!(!changes.unknown);
        }
    }
}
