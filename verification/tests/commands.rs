use nightcrow::application::event_loop::{
    apply_outcome, main_loop, pane_layouts, plan_work, Input, KeyOutcome, LoopAction, LoopEvent,
    PaneArea, Work, CONNECTION_LOST, INPUT_WAIT_MS,
};
use nightcrow::cli::{
    daemon_output_path, output_path_in, run_attach_detached, run_init, run_stop, started_lines,
    stop_frame, stop_request, stop_socket, wait_for_daemon, AttachPlan, DaemonRun, InitOutcome, RememberedRepo,
    Stage, StageEvent, StopProgress, StopReply, WebViewer,
};
use nightcrow::daemon::frame::FrameKind;
use nightcrow::daemon::protocol::ClientMessage;
use nightcrow::home::NoHome;
use nightcrow::native::NativePath;
use nightcrow::ui::geometry::Rect;

fn at(path: &str) -> NativePath {
    NativePath::of_text(path)
}

#[test]
fn a_session_starts_and_stops_in_order() {
    let mut run = DaemonRun::run_daemon(vec!["htop".into()], Some(9000), None, false, false);
    assert_eq!(run.stage(), Stage::RegisterSignals);
    assert!(run.step(StageEvent::Done).is_empty());
    assert_eq!(run.stage(), Stage::ForwardSignals);
    assert!(run.step(StageEvent::Done).is_empty());
    assert_eq!(run.stage(), Stage::LoadConfig);
    run.step(StageEvent::Loaded(WebViewer { port: 80, bind: "127.0.0.1".into() }));
    let web = run.web().expect("loaded");
    assert_eq!((web.port, web.bind.as_str()), (9000, "127.0.0.1"));
    assert_eq!(run.stage(), Stage::InitLogging);
    run.step(StageEvent::Done);
    assert_eq!(run.stage(), Stage::LocateConfig);
    run.step(StageEvent::Located(at("/h/config.toml")));
    assert_eq!(
        run.step(StageEvent::Password(Some("secret".into()))),
        [
            "nightcrow: generated a web viewer password and saved it to /h/config.toml:",
            "  secret"
        ]
    );
    assert_eq!(run.stage(), Stage::LoadRepos);
    run.step(StageEvent::Remembered(vec![
        RememberedRepo { path: "/a".into(), is_dir: true },
        RememberedRepo { path: "/gone".into(), is_dir: false },
    ]));
    assert_eq!(run.repos(), &["/a"]);
    assert_eq!(run.stage(), Stage::ResolveStartup);
    assert_eq!(run.extra_panes(), &["htop"]);
    run.step(StageEvent::Done);
    assert_eq!(
        run.step(StageEvent::Served {
            addr: "0.0.0.0:9000".into(),
            ip: "0.0.0.0".into(),
            loopback: false
        }),
        ["nightcrow: web viewer serving 1 repository at http://0.0.0.0:9000/"]
    );
    run.step(StageEvent::Located(at("/h/daemon.sock")));
    assert_eq!(run.stage(), Stage::BindSocket);
    assert_eq!(run.path(), &at("/h/daemon.sock"));
    assert_eq!(
        run.step(StageEvent::Done),
        ["nightcrow: attach with `nightcrow attach` (/h/daemon.sock)"]
    );
    run.step(StageEvent::Done);
    assert_eq!(run.stage(), Stage::StartSession);
    run.step(StageEvent::Done);
    assert_eq!(
        run.step(StageEvent::Done),
        [
            "nightcrow: WARNING bound to 0.0.0.0 — repository contents and interactive",
            "nightcrow: shells are reachable from the network over plain HTTP.",
            "nightcrow: press Ctrl-C to stop"
        ]
    );
    assert_eq!(run.stage(), Stage::AwaitShutdown);
    assert_eq!(
        run.step(StageEvent::Stopped("SIGTERM".into())),
        ["nightcrow: SIGTERM received, stopping"]
    );
    assert_eq!(run.stage(), Stage::StopServer);
    run.step(StageEvent::Done);
    assert_eq!(run.stage(), Stage::ReleaseSocket);
    run.step(StageEvent::Done);
    assert_eq!(run.stage(), Stage::Finished);
}

fn until_served(repos: usize) -> DaemonRun {
    let mut run = DaemonRun::run_daemon(Vec::new(), None, Some("::1".into()), true, true);
    run.step(StageEvent::Done);
    run.step(StageEvent::Done);
    run.step(StageEvent::Loaded(WebViewer { port: 80, bind: "127.0.0.1".into() }));
    run.step(StageEvent::Done);
    run.step(StageEvent::Located(at("/h/config.toml")));
    assert!(run.step(StageEvent::Password(None)).is_empty());
    run.step(StageEvent::Remembered(
        (0..repos).map(|i| RememberedRepo { path: format!("/{i}"), is_dir: true }).collect(),
    ));
    run.step(StageEvent::Done);
    run
}

fn served() -> StageEvent {
    StageEvent::Served { addr: "[::1]:80".into(), ip: "::1".into(), loopback: true }
}

#[test]
fn the_banner_counts_the_repositories() {
    assert_eq!(
        until_served(0).step(served()),
        ["nightcrow: serving an empty catalog at http://[::1]:80/ — open a repository from a client"]
    );
    let mut run = until_served(2);
    assert_eq!(run.web().map(|w| w.bind.as_str()), Some("::1"));
    assert_eq!(
        run.step(served()),
        ["nightcrow: web viewer serving 2 repositories at http://[::1]:80/"]
    );
}

#[test]
fn a_failure_ends_the_run_and_says_what_was_being_done() {
    let mut run = until_served(1);
    run.step(StageEvent::Failed("port in use".into()));
    assert_eq!(run.stage(), Stage::Failed);
    assert_eq!(run.error(), "port in use");

    let mut run = DaemonRun::run_daemon(Vec::new(), None, None, false, false);
    run.step(StageEvent::Done);
    run.step(StageEvent::Failed("no threads".into()));
    assert_eq!(run.error(), "spawning the signal-forwarding thread: no threads");
}

#[test]
fn a_run_for_the_background_only_starts_the_copy() {
    let mut run = DaemonRun::run_daemon(Vec::new(), None, None, true, false);
    assert_eq!(run.stage(), Stage::LocateOutput);
    run.step(StageEvent::Located(at("/h/.nightcrow/daemon.out")));
    assert_eq!(run.stage(), Stage::Respawn);
    assert_eq!(
        run.step(StageEvent::Respawned(42)),
        [
            "nightcrow: session running in the background (pid 42)",
            "nightcrow: its output goes to /h/.nightcrow/daemon.out"
        ]
    );
    assert_eq!(run.stage(), Stage::Finished);
    let child = DaemonRun::run_daemon(Vec::new(), None, None, true, true);
    assert_eq!(child.stage(), Stage::RegisterSignals);
}

#[test]
fn the_background_output_lies_below_home() {
    assert_eq!(output_path_in(&Some(at("/home/u"))), Ok(at("/home/u/.nightcrow/daemon.out")));
    assert_eq!(output_path_in(&None), Err(NoHome));
    if let Ok(path) = daemon_output_path() {
        assert!(path.bytes.ends_with(b".nightcrow/daemon.out"));
    }
}

#[test]
fn attaching_starts_a_session_only_where_none_runs() {
    assert_eq!(run_attach_detached(true), AttachPlan::Attach);
    assert_eq!(run_attach_detached(false), AttachPlan::StartFirst);
    assert_eq!(
        started_lines(7, &at("/h/daemon.out")),
        [
            "nightcrow: started a session in the background (pid 7)",
            "nightcrow: its output goes to /h/daemon.out"
        ]
    );
}

#[test]
fn waiting_for_a_session_ends_at_the_deadline() {
    assert_eq!(wait_for_daemon(0, 10, true, &at("/l")), Some(Ok(())));
    assert_eq!(wait_for_daemon(0, 10, false, &at("/l")), None);
    assert_eq!(
        wait_for_daemon(10, 10, true, &at("/l")),
        Some(Err("the session did not start within 20s — see /l".into()))
    );
}

#[test]
fn what_init_says() {
    assert_eq!(
        run_init(&InitOutcome::Created(at("/c"))),
        [
            "Created starter config at /c",
            "Edit it to reserve startup commands, panel layout, theme, and more."
        ]
    );
    assert_eq!(
        run_init(&InitOutcome::AlreadyExists(at("/c"))),
        ["Config already exists at /c — left untouched (pass --force to overwrite)."]
    );
}

#[test]
fn a_broken_connection_acknowledges_a_stop() {
    let done = Ok("nightcrow: daemon is shutting down".to_string());
    for reply in [
        StopReply::Closed,
        StopReply::Said,
        StopReply::ConnectionReset,
        StopReply::ConnectionAborted,
        StopReply::UnexpectedEnd,
    ] {
        assert_eq!(run_stop(&at("/s"), &StopProgress::Sent(reply)), done);
    }
}

#[test]
fn a_stop_that_fails_says_where() {
    let fails = |progress: StopProgress| run_stop(&at("/s"), &progress).expect_err("a failure");
    assert_eq!(
        fails(StopProgress::NoSocket),
        "no daemon socket at /s — is a nightcrow daemon running?"
    );
    assert_eq!(
        fails(StopProgress::CannotConnect("refused".into())),
        "could not connect to the daemon socket at /s — the daemon may have stopped: refused"
    );
    assert_eq!(
        fails(StopProgress::CannotEncode("e".into())),
        "encoding the shutdown request: e"
    );
    assert_eq!(
        fails(StopProgress::CannotSend("e".into())),
        "sending the shutdown request: e"
    );
    assert_eq!(
        fails(StopProgress::CannotFlush("e".into())),
        "flushing the shutdown request: e"
    );
    assert_eq!(
        fails(StopProgress::Sent(StopReply::Unreadable("e".into()))),
        "waiting for the daemon to acknowledge the shutdown: e"
    );
}

#[test]
fn a_stop_goes_to_the_given_socket() {
    assert_eq!(stop_socket(Some(at("/x")), Err(NoHome)), Ok(at("/x")));
    assert_eq!(stop_socket(None, Ok(at("/d"))), Ok(at("/d")));
    assert_eq!(stop_socket(None, Err(NoHome)), Err(NoHome));
    assert!(matches!(stop_request(), ClientMessage::Shutdown));
    let frame = stop_frame(b"{}".to_vec());
    assert_eq!((frame.kind, frame.payload), (FrameKind::Control, b"{}".to_vec()));
}

#[test]
fn every_project_is_drained_and_only_the_shown_one_acts() {
    let work = plan_work(3, 1);
    let of = |project: usize| -> Vec<Work> {
        work.iter().filter(|w| w.project == project).map(|w| w.work).collect()
    };
    assert_eq!(of(0), [Work::DrainSnapshot, Work::DrainTreeWatcher, Work::PollTerminal]);
    assert_eq!(
        of(1),
        [
            Work::PollSnapshot,
            Work::PollCommitLogPage,
            Work::PollTreeWatcher,
            Work::PollTerminal
        ]
    );
    assert_eq!(of(2), of(0));
    assert!(plan_work(0, 0).is_empty());
}

#[test]
fn a_tick_goes_from_the_tab_list_to_the_input() {
    let step = |event: LoopEvent<u8>| main_loop(event);
    let synced = LoopEvent::Synced { connected: true, projects: 1, active: 0 };
    assert!(matches!(step(synced), LoopAction::Work(work) if work.len() == 4));
    assert!(matches!(step(LoopEvent::Worked), LoopAction::Measure));
    let area = PaneArea { pane: 3, area: Rect { x: 1, y: 2, width: 80, height: 24 } };
    match step(LoopEvent::Measured(Some(vec![area]))) {
        LoopAction::Resize(layouts) => {
            assert_eq!((layouts[0].pane, layouts[0].rows, layouts[0].cols), (3, 24, 80));
        }
        other => panic!("{other:?}"),
    }
    assert!(matches!(step(LoopEvent::Measured(None)), LoopAction::Draw));
    assert!(matches!(step(LoopEvent::Resized), LoopAction::Draw));
    assert!(matches!(step(LoopEvent::Drawn), LoopAction::Wait(INPUT_WAIT_MS)));
    assert!(matches!(step(LoopEvent::Waited(None)), LoopAction::Sync));
    assert!(matches!(step(LoopEvent::Waited(Some(Input::Resize))), LoopAction::Sync));
    assert!(matches!(step(LoopEvent::Waited(Some(Input::Other))), LoopAction::Sync));
    assert!(matches!(step(LoopEvent::Waited(Some(Input::Key))), LoopAction::HandleKey));
    assert!(matches!(step(LoopEvent::Waited(Some(Input::Paste))), LoopAction::HandlePaste));
    assert!(matches!(step(LoopEvent::Waited(Some(Input::Mouse))), LoopAction::HandleMouse));
    for event in [LoopEvent::Pasted, LoopEvent::Cleared, LoopEvent::Requested] {
        assert!(matches!(step(event), LoopAction::Sync));
    }
    assert_eq!(pane_layouts(&vec![]).len(), 0);
}

#[test]
fn outcomes_of_keys_and_how_the_loop_is_left() {
    assert!(matches!(apply_outcome::<u8>(KeyOutcome::Quit), LoopAction::Leave));
    assert!(matches!(apply_outcome::<u8>(KeyOutcome::Redraw), LoopAction::Clear));
    assert!(matches!(apply_outcome::<u8>(KeyOutcome::Continue), LoopAction::Sync));
    assert!(matches!(apply_outcome(KeyOutcome::Project(9u8)), LoopAction::Request(9)));
    let lost = LoopEvent::<u8>::Synced { connected: false, projects: 1, active: 0 };
    assert!(matches!(main_loop(lost), LoopAction::LeaveWithError(text) if text == CONNECTION_LOST));
    let failed = LoopEvent::<u8>::Failed("no terminal".into());
    assert!(
        matches!(main_loop(failed), LoopAction::LeaveWithError(text) if text == "no terminal")
    );
}
