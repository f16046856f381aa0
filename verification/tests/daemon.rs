use nightcrow::daemon::client::{
    ConnectEvent, ConnectPhase, Connecting, DaemonClient, Incoming, Traffic,
};
use nightcrow::daemon::clients::{AttachedClients, Drained, CLIENT_QUEUE_DEPTH};
use nightcrow::daemon::detach::{
    background_command, child_args, is_detached_child, ALREADY_DETACHED,
};
use nightcrow::daemon::frame::{
    read_frame, write_frame, ByteStream, Frame, FrameError, FrameKind, MAX_FRAME_BYTES,
};
use nightcrow::daemon::lock::{
    acquire_step, outcome_of, Attempt, InstanceLock, LockAnswer, LockEvent, LockPhase, LockStep,
};
use nightcrow::daemon::protocol::{
    rewrite_requester, ClientMessage, ServerMessage, SessionRepo, TerminalEvent,
};
use nightcrow::daemon::serve::{attach, may_attach, AttachPhase, Session, MAX_ATTACHED_CLIENTS};
use nightcrow::daemon::socket::{
    already_running_message, bind_failure_message, default_socket_path, lock_path_for,
    socket_path_in, BindEvent, BindPhase, DaemonSocket,
};
use nightcrow::daemon::socket::BindEvent::{Done, Failed, Locked, Seen};
use nightcrow::daemon::terminals::{encode, tag, HubFrame, Relayed, TerminalBridges};
use nightcrow::home::NoHome;
use nightcrow::native::NativePath;

fn at(path: &str) -> NativePath {
    NativePath::of_text(path)
}

fn strings(items: &[&str]) -> Vec<String> {
    items.iter().map(|s| s.to_string()).collect()
}

#[test]
fn what_was_written_is_read_back() {
    let mut bytes = Vec::new();
    write_frame(&mut bytes, &Frame::control(b"hello".to_vec())).expect("fits");
    write_frame(&mut bytes, &Frame::terminal(Vec::new())).expect("fits");
    assert_eq!(bytes.len(), 5 + 5 + 5);
    let mut stream = ByteStream::new(bytes);
    let first = read_frame(&mut stream).expect("a frame").expect("one is there");
    assert_eq!((first.kind, first.payload), (FrameKind::Control, b"hello".to_vec()));
    let second = read_frame(&mut stream).expect("a frame").expect("one is there");
    assert_eq!((second.kind, second.payload), (FrameKind::Terminal, Vec::new()));
    assert!(matches!(read_frame(&mut stream), Ok(None)));
}

#[test]
fn a_cut_frame_is_an_error() {
    let mut bytes = Vec::new();
    write_frame(&mut bytes, &Frame::control(b"hello".to_vec())).expect("fits");
    for kept in 1..bytes.len() {
        let mut stream = ByteStream::new(bytes[..kept].to_vec());
        let error = read_frame(&mut stream).expect_err("cut");
        if kept < 5 {
            assert_eq!(error, FrameError::EndedInside { filled: kept, wanted: 5 });
        } else if kept == 5 {
            assert_eq!(error, FrameError::EndedBeforeBody(5));
        } else {
            assert_eq!(error, FrameError::EndedInside { filled: kept - 5, wanted: 5 });
        }
        assert!(!error.message().is_empty());
    }
}

#[test]
fn frames_that_are_refused() {
    let mut stream = ByteStream::new(vec![9, 0, 0, 0, 0]);
    assert!(matches!(read_frame(&mut stream), Err(FrameError::UnknownKind(9))));
    assert_eq!(FrameError::UnknownKind(9).message(), "unknown frame kind 9");
    let kind = FrameKind::Control.to_byte();
    let mut stream = ByteStream::new(vec![kind, 0xff, 0xff, 0xff, 0xff]);
    assert!(matches!(
        read_frame(&mut stream),
        Err(FrameError::AnnouncedTooLarge(0xffff_ffff))
    ));
    let big = Frame::control(vec![0; MAX_FRAME_BYTES + 1]);
    let mut out = Vec::new();
    let error = write_frame(&mut out, &big).expect_err("too large");
    assert_eq!(error, FrameError::PayloadTooLarge(MAX_FRAME_BYTES + 1));
    assert!(out.is_empty());
    assert!(FrameKind::from_byte(kind).is_ok());
}

fn payload(drained: Drained) -> Vec<u8> {
    match drained {
        Drained::Frame(frame) => frame.payload,
        other => panic!("no frame: {}", matches!(other, Drained::Waiting)),
    }
}

#[test]
fn a_broadcast_reaches_everyone_in_order() {
    let mut clients = AttachedClients::default();
    let a = clients.connect();
    let b = clients.connect();
    assert_ne!(a, b);
    assert_eq!(clients.len(), 2);
    clients.broadcast(&Frame::control(b"1".to_vec()));
    clients.send_to(a, Frame::control(b"2".to_vec()));
    clients.send_to(99, Frame::control(b"lost".to_vec()));
    assert_eq!(payload(clients.next_frame(a)), b"1");
    assert_eq!(payload(clients.next_frame(a)), b"2");
    assert!(matches!(clients.next_frame(a), Drained::Waiting));
    assert_eq!(payload(clients.next_frame(b)), b"1");
    clients.disconnect(b);
    assert_eq!(clients.len(), 1);
    assert!(matches!(clients.next_frame(b), Drained::Ended));
}

#[test]
fn whoever_left_is_sent_what_was_queued_for_it() {
    let mut clients = AttachedClients::default();
    let a = clients.connect();
    let b = clients.connect();
    clients.send_to(a, Frame::control(b"a1".to_vec()));
    clients.send_to(b, Frame::control(b"b1".to_vec()));
    clients.send_to(a, Frame::control(b"a2".to_vec()));
    clients.disconnect(a);
    let c = clients.connect();
    assert!(c != a && c != b);
    clients.disconnect(b);
    clients.broadcast(&Frame::control(b"all".to_vec()));
    assert_eq!(payload(clients.next_frame(a)), b"a1");
    assert_eq!(payload(clients.next_frame(b)), b"b1");
    assert_eq!(payload(clients.next_frame(a)), b"a2");
    assert!(matches!(clients.next_frame(a), Drained::Ended));
    assert!(matches!(clients.next_frame(b), Drained::Ended));
    assert_eq!(payload(clients.next_frame(c)), b"all");
}

#[test]
fn a_client_that_stops_reading_is_hung_up() {
    let mut clients = AttachedClients::default();
    let slow = clients.connect();
    for _ in 0..CLIENT_QUEUE_DEPTH + 1 {
        clients.broadcast(&Frame::control(Vec::new()));
    }
    assert_eq!(clients.take_hang_ups(), [slow]);
    assert!(clients.take_hang_ups().is_empty());
}

#[test]
fn owed_sets_are_taken_once() {
    let mut clients = AttachedClients::default();
    let a = clients.connect();
    let b = clients.connect();
    let _ = clients.take_owed_sets();
    clients.owe_set(b);
    assert_eq!(clients.take_owed_sets(), [b]);
    assert!(clients.take_owed_sets().is_empty());
    clients.owe_set(a);
    clients.writer_ended(a);
    assert_eq!(clients.len(), 2);
}

#[test]
fn a_handshake_keeps_what_comes_early() {
    let mut opening = awaiting("1.0");
    assert!(matches!(opening.hello(), ClientMessage::Hello { version } if version == "1.0"));
    opening.step(ConnectEvent::Arrived(Incoming::Terminal));
    let repos = ServerMessage::Repos { repos: vec![SessionRepo { id: "r".into(), path: "/r".into() }] };
    opening.step(ConnectEvent::Arrived(Incoming::Control(repos)));
    opening.step(ConnectEvent::Arrived(Incoming::Control(ServerMessage::Reloaded)));
    assert_eq!(opening.phase(), ConnectPhase::AwaitHello);
    let answer = ServerMessage::Hello { version: "1.0".into(), client: 4 };
    opening.step(ConnectEvent::Arrived(Incoming::Control(answer)));
    assert_eq!(opening.phase(), ConnectPhase::ClearTimeout);
    opening.step(ConnectEvent::Failed("the peer is gone".into()));
    assert_eq!(opening.phase(), ConnectPhase::SpawnReader);
    opening.step(ConnectEvent::Done);
    assert_eq!(opening.phase(), ConnectPhase::Attached);
    let mut client = opening.finish();
    assert!(client.is_connected());
    let early = client.drain();
    assert_eq!(early.len(), 1);
    assert!(matches!(&early[0], ServerMessage::Repos { repos } if repos[0].id == "r"));
    assert!(client.drain().is_empty());
}

/// A client that has said hello.
fn awaiting(version: &str) -> Connecting {
    let mut opening = DaemonClient::connect(&at("/h/daemon.sock"), version);
    for phase in [
        ConnectPhase::Connect,
        ConnectPhase::Split,
        ConnectPhase::SendHello,
        ConnectPhase::SetTimeout,
    ] {
        assert_eq!(opening.phase(), phase);
        opening.step(ConnectEvent::Done);
    }
    opening
}

#[test]
fn handshakes_that_fail() {
    let fail = |event: ConnectEvent| {
        let mut opening = awaiting("1.0");
        opening.step(event);
        assert_eq!(opening.phase(), ConnectPhase::Failed);
        opening.error().to_string()
    };
    assert_eq!(
        fail(ConnectEvent::Arrived(Incoming::Closed)),
        "the daemon closed the connection during the handshake"
    );
    let other = ServerMessage::Hello { version: "2.0".into(), client: 1 };
    assert_eq!(
        fail(ConnectEvent::Arrived(Incoming::Control(other))),
        "daemon is 2.0, this client is 1.0"
    );
    let refusal = ServerMessage::Error { message: "full".into() };
    assert_eq!(
        fail(ConnectEvent::Arrived(Incoming::Control(refusal))),
        "daemon refused the attach: full"
    );
    assert_eq!(fail(ConnectEvent::Failed("timed out".into())), "timed out");
}

#[test]
fn an_attach_that_cannot_begin_says_why() {
    let fail = |done: usize| {
        let mut opening = DaemonClient::connect(&at("/h/daemon.sock"), "1");
        for _ in 0..done {
            opening.step(ConnectEvent::Done);
        }
        opening.step(ConnectEvent::Failed("e".into()));
        assert_eq!(opening.phase(), ConnectPhase::Failed);
        opening.error().to_string()
    };
    assert_eq!(
        fail(0),
        "no nightcrow daemon on /h/daemon.sock — start one with `nightcrow serve`: e"
    );
    assert_eq!(fail(1), "splitting the daemon connection: e");
    assert_eq!(fail(2), "e");
    assert_eq!(fail(3), "setting the handshake timeout: e");
}

fn connected() -> DaemonClient {
    let mut opening = awaiting("1");
    let answer = ServerMessage::Hello { version: "1".into(), client: 7 };
    opening.step(ConnectEvent::Arrived(Incoming::Control(answer)));
    opening.step(ConnectEvent::Done);
    opening.step(ConnectEvent::Done);
    opening.finish()
}

#[test]
fn requests_go_out_in_order() {
    let mut client = connected();
    client.open_repo("/a");
    client.focus_repo("id");
    client.set_accent(3);
    client.reload_config();
    client.close_repo("id");
    let sent = client.take_requests();
    assert!(matches!(&sent[0], ClientMessage::OpenRepo { path } if path == "/a"));
    assert!(matches!(&sent[1], ClientMessage::FocusRepo { repo } if repo == "id"));
    assert!(matches!(&sent[2], ClientMessage::SetAccent { accent: 3 }));
    assert!(matches!(&sent[3], ClientMessage::ReloadConfig));
    assert!(matches!(&sent[4], ClientMessage::CloseRepo { repo } if repo == "id"));
    assert!(client.take_requests().is_empty());
    client.lost();
    assert!(!client.is_connected());
}

#[test]
fn terminal_traffic_is_kept_per_repository() {
    let mut client = connected();
    assert_eq!(client.terminal_link("r").client, 7);
    client.file("r", Traffic::Output { pane: 1, data: b"x".to_vec() });
    client.file("s", Traffic::Event(TerminalEvent::Other("e".into())));
    client.retain_repos(&strings(&["r"]));
    assert!(client.take_inbox("s").is_empty());
    let inbox = client.take_inbox("r");
    assert!(matches!(&inbox[0], Traffic::Output { pane: 1, data } if data == b"x"));
    assert!(client.take_inbox("r").is_empty());
    client.deliver(ServerMessage::Reloaded);
    assert!(matches!(client.drain().as_slice(), [ServerMessage::Reloaded]));
}

#[test]
fn a_client_arrives_once() {
    let mut bridges = TerminalBridges::new(5);
    assert_eq!(bridges.plan("a", true), Some(true));
    assert_eq!(bridges.plan("a", false), None);
    assert_eq!(bridges.subscribe(true, false), None);
    assert_eq!(bridges.subscribe(true, true), Some(true));
    let tried = bridges.follow(&strings(&["a", "b", "c"]), &vec![true, true, false], &vec![false, true, true]);
    assert_eq!(tried, [("a".to_string(), true), ("b".to_string(), true)]);
    assert!(bridges.dispatch("b") && !bridges.dispatch("a") && !bridges.dispatch("c"));
    let tried = bridges.follow(&strings(&["a"]), &vec![true], &vec![true]);
    assert_eq!(tried, [("a".to_string(), false)]);
    assert!(!bridges.dispatch("b"));
    bridges.settle("x", true);
    assert_eq!(bridges.retain(&strings(&["x"])), ["a"]);
}

fn created(client: Option<u64>) -> TerminalEvent {
    TerminalEvent::Created { pane: 1, rows: 2, cols: 3, client, title: None }
}

#[test]
fn a_client_recognises_its_own_panes() {
    let of = |event: TerminalEvent| match event {
        TerminalEvent::Created { client, .. } => client,
        TerminalEvent::Other(_) => panic!("another event"),
    };
    assert_eq!(of(rewrite_requester(created(Some(9)), 9, 4)), Some(4));
    assert_eq!(of(rewrite_requester(created(Some(8)), 9, 4)), None);
    assert_eq!(of(rewrite_requester(created(None), 9, 4)), None);
    let other = rewrite_requester(TerminalEvent::Other("x".into()), 9, 4);
    assert!(matches!(other, TerminalEvent::Other(text) if text == "x"));
}

#[test]
fn frames_are_tagged_with_their_repository() {
    let output = tag("r", HubFrame::Output { pane: 2, data: vec![1] }, 9, 4);
    assert!(matches!(output, Relayed::Output { repo, pane: 2, data } if repo == "r" && data == [1]));
    match tag("r", HubFrame::Control(Some(created(Some(9)))), 9, 4) {
        Relayed::Message(ServerMessage::Terminal { repo, event }) => {
            assert_eq!(repo, "r");
            assert!(matches!(event, TerminalEvent::Created { client: Some(4), .. }));
        }
        other => panic!("{other:?}"),
    }
    match tag("r", HubFrame::Control(None), 9, 4) {
        Relayed::Message(ServerMessage::Error { message }) => {
            assert_eq!(message, "terminal event could not be relayed");
        }
        other => panic!("{other:?}"),
    }
    assert_eq!(encode(Some(b"{}".to_vec()), "event").payload, b"{}");
    assert_eq!(
        encode(None, "event").payload,
        br#"{"type":"error","message":"event could not be encoded"}"#
    );
}

#[test]
fn a_session_takes_a_bounded_number_of_clients() {
    let mut session = Session::start();
    for _ in 0..MAX_ATTACHED_CLIENTS {
        assert!(may_attach(&session.clients));
        session.clients.connect();
    }
    assert!(!may_attach(&session.clients));
}

#[test]
fn a_registered_client_is_always_taken_out_again() {
    let mut session = Session::start();
    for split in [0, 1] {
        let mut refused = attach();
        for _ in 0..split {
            refused.step(&mut session, true);
        }
        refused.step(&mut session, false);
        assert_eq!(refused.phase(), AttachPhase::Done);
    }
    assert_eq!((session.clients.len(), session.bridges.len()), (0, 0));

    session.register();
    let mut client = attach();
    client.step(&mut session, true);
    client.step(&mut session, true);
    let mut seen = vec![client.phase()];
    while client.phase() != AttachPhase::Done {
        client.step(&mut session, false);
        seen.push(client.phase());
        if client.phase() == AttachPhase::ReadRequests {
            assert_eq!((client.id(), session.clients.len()), (1, 2));
            assert_eq!(session.bridges.len(), 2);
        }
    }
    assert_eq!(
        seen,
        [
            AttachPhase::Register,
            AttachPhase::StartWriter,
            AttachPhase::Subscribe,
            AttachPhase::Wake,
            AttachPhase::ReadRequests,
            AttachPhase::DropSubscriptions,
            AttachPhase::Disconnect,
            AttachPhase::Done
        ]
    );
    assert_eq!((session.clients.len(), session.bridges.len()), (1, 1));
    assert_eq!(session.bridges[0].client, 0);
}

#[test]
fn a_writer_that_was_started_is_waited_for() {
    let mut session = Session::start();
    let mut client = attach();
    while client.phase() != AttachPhase::Disconnect {
        client.step(&mut session, true);
    }
    client.step(&mut session, true);
    assert_eq!(client.phase(), AttachPhase::JoinWriter);
    client.step(&mut session, true);
    assert_eq!(client.phase(), AttachPhase::Done);
}

#[test]
fn the_newest_client_follows_last() {
    let mut session = Session::start();
    let (old, new) = (session.register(), session.register());
    let tried = session.follow_all(
        &strings(&["a", "b"]),
        &vec![true, true],
        &vec![vec![true, true], vec![false, true]],
    );
    let whose: Vec<u64> = tried.iter().map(|t| t.0).collect();
    assert_eq!(whose, [old, new]);
    assert_eq!(tried[0].1, [("a".to_string(), true), ("b".to_string(), false)]);
    assert_eq!(tried[1].1, [("a".to_string(), true), ("b".to_string(), true)]);
    assert!(session.bridges[0].dispatch("a") && !session.bridges[1].dispatch("a"));
}

#[test]
fn the_lock_decides_who_runs() {
    assert_eq!(acquire_step(LockAnswer::Taken), LockStep::Acquired);
    assert_eq!(acquire_step(LockAnswer::WouldBlock), LockStep::Refused);
    assert_eq!(acquire_step(LockAnswer::Interrupted), LockStep::Retry);
    assert_eq!(acquire_step(LockAnswer::Error), LockStep::Fail);
    assert_eq!(outcome_of(LockAnswer::WouldBlock), Attempt::Held);
    assert_eq!(outcome_of(LockAnswer::Interrupted), Attempt::Interrupted);
    assert_eq!(outcome_of(LockAnswer::Error), Attempt::Failed);
}

#[test]
fn taking_the_lock_survives_interruptions() {
    let mut lock = InstanceLock::acquire(&at("/h/.nightcrow/daemon.lock"));
    assert_eq!((lock.phase(), lock.dir()), (LockPhase::CreateDir, Some(&at("/h/.nightcrow"))));
    lock.step(LockEvent::Done);
    assert_eq!(lock.phase(), LockPhase::Open);
    lock.step(LockEvent::Done);
    for _ in 0..3 {
        assert_eq!(lock.phase(), LockPhase::TryLock);
        lock.step(LockEvent::Answered(LockAnswer::Interrupted, String::new()));
    }
    lock.step(LockEvent::Answered(LockAnswer::Taken, String::new()));
    assert_eq!(lock.phase(), LockPhase::Acquired);
}

#[test]
fn a_lock_that_cannot_be_asked_for_says_why() {
    let after = |done: usize, event: LockEvent| {
        let mut lock = InstanceLock::acquire(&at("/h/d.lock"));
        for _ in 0..done {
            lock.step(LockEvent::Done);
        }
        lock.step(event);
        (lock.phase(), lock.error().to_string())
    };
    assert_eq!(
        after(0, LockEvent::Failed("denied".into())),
        (LockPhase::Failed, "creating the daemon directory /h: denied".into())
    );
    assert_eq!(
        after(1, LockEvent::Failed("denied".into())),
        (LockPhase::Failed, "opening the daemon lock /h/d.lock: denied".into())
    );
    assert_eq!(
        after(2, LockEvent::Answered(LockAnswer::Error, "odd".into())),
        (LockPhase::Failed, "locking /h/d.lock: odd".into())
    );
    assert_eq!(
        after(2, LockEvent::Answered(LockAnswer::WouldBlock, "busy".into())),
        (LockPhase::Refused, String::new())
    );
    assert_eq!(InstanceLock::acquire(&at("")).phase(), LockPhase::Open);
}

fn bound(events: Vec<BindEvent>) -> DaemonSocket {
    let mut socket = DaemonSocket::bind(&at("/h/daemon.sock"));
    for event in events {
        socket.step(event);
    }
    socket
}

#[test]
fn a_stale_socket_is_removed_once_the_lock_is_held() {
    assert_eq!(bound(vec![]).phase(), BindPhase::Lock);
    assert_eq!(bound(vec![Locked(true)]).phase(), BindPhase::Look);
    assert_eq!(bound(vec![Locked(true), Seen(true)]).phase(), BindPhase::RemoveStale);
    assert_eq!(bound(vec![Locked(true), Seen(true), Done]).phase(), BindPhase::Bind);
    assert_eq!(bound(vec![Locked(true), Seen(false)]).phase(), BindPhase::Bind);
    assert_eq!(bound(vec![Locked(true), Seen(false), Done]).phase(), BindPhase::Restrict);
    let done = bound(vec![Locked(true), Seen(false), Done, Done]);
    assert_eq!((done.phase(), done.path()), (BindPhase::Bound, &at("/h/daemon.sock")));
}

#[test]
fn a_socket_that_cannot_be_bound_says_why() {
    let error = |events: Vec<BindEvent>| {
        let socket = bound(events);
        assert_eq!(socket.phase(), BindPhase::Failed);
        socket.error().to_string()
    };
    assert_eq!(error(vec![Locked(false)]), already_running_message(&at("/h/daemon.lock")));
    assert_eq!(
        error(vec![Locked(false)]),
        "a nightcrow daemon is already running (holding /h/daemon.lock)"
    );
    assert_eq!(error(vec![Failed("locking x".into())]), "locking x");
    assert_eq!(
        error(vec![Locked(true), Seen(true), Failed("e".into())]),
        "removing the stale socket /h/daemon.sock: e"
    );
    assert_eq!(
        error(vec![Locked(true), Seen(false), Failed("e".into())]),
        "binding the daemon socket /h/daemon.sock: e"
    );
    assert_eq!(
        error(vec![Locked(true), Seen(false), Done, Failed("e".into())]),
        "restricting the daemon socket /h/daemon.sock: e"
    );
    let long = "/".repeat(108);
    assert!(bind_failure_message(&at(&long)).ends_with(
        "the path is 108 bytes, over the ~107 byte AF_UNIX limit"
    ));
    assert!(!bind_failure_message(&at(&long[1..])).contains("AF_UNIX"));
}

#[test]
fn the_socket_lies_below_home_with_its_lock_beside_it() {
    for (home, path) in [
        ("/home/u", "/home/u/.nightcrow/daemon.sock"),
        ("/home/./u//", "/home/./u//.nightcrow/daemon.sock"),
        ("", ".nightcrow/daemon.sock"),
    ] {
        assert_eq!(socket_path_in(&Some(at(home))), Ok(at(path)));
    }
    assert_eq!(socket_path_in(&None), Err(NoHome));
    assert_eq!(NoHome.message(), "cannot determine the home directory");
    assert_eq!(lock_path_for(&at("/h/daemon.sock")), at("/h/daemon.lock"));
    assert_eq!(lock_path_for(&at("/h/./x//daemon.sock/")), at("/h/./x//daemon.lock"));
    if let Ok(path) = default_socket_path() {
        assert!(path.bytes.ends_with(b".nightcrow/daemon.sock"));
    }
}

#[test]
fn a_home_that_is_not_text_is_used_as_it_is() {
    let home = NativePath { bytes: b"/home/\xff\xfe".to_vec() };
    let socket = socket_path_in(&Some(home)).expect("a path");
    assert_eq!(socket.bytes, b"/home/\xff\xfe/.nightcrow/daemon.sock");
    let lock = lock_path_for(&socket);
    assert_eq!(lock.bytes, b"/home/\xff\xfe/.nightcrow/daemon.lock");
    let mut taking = InstanceLock::acquire(&lock);
    assert_eq!(taking.dir().map(|dir| dir.bytes.as_slice()), Some(&b"/home/\xff\xfe/.nightcrow"[..]));
    taking.step(LockEvent::Failed("denied".into()));
    assert_eq!(
        taking.error(),
        "creating the daemon directory /home/\u{fffd}\u{fffd}/.nightcrow: denied"
    );
    let mut binding = DaemonSocket::bind(&socket);
    binding.step(BindEvent::Locked(false));
    assert!(binding.error().contains("(holding /home/\u{fffd}\u{fffd}/.nightcrow/daemon.lock)"));
    let exe = NativePath { bytes: b"/bin/\xff".to_vec() };
    let command = background_command(&exe, &vec![b"\xff".to_vec(), b"-d".to_vec()], &socket);
    assert_eq!((command.program, command.args), (exe, vec![b"\xff".to_vec()]));
}

#[test]
fn the_background_copy_runs_the_daemon() {
    let raw = |args: &[&str]| -> Vec<Vec<u8>> { args.iter().map(|a| a.as_bytes().to_vec()).collect() };
    let args = raw(&["-d", "--port", "80", "attach", "--detach", "--exec", "make -d"]);
    assert_eq!(child_args(&args), raw(&["--port", "80", "--exec", "make -d"]));
    let command = background_command(&at("/bin/nc"), &args, &at("/h/.nightcrow/daemon.out"));
    assert_eq!(command.program, at("/bin/nc"));
    assert_eq!(command.log_dir, Some(at("/h/.nightcrow")));
    assert_eq!(command.log, at("/h/.nightcrow/daemon.out"));
    assert_eq!(command.args, child_args(&args));
    assert_eq!(command.marker, ALREADY_DETACHED);
    assert!(is_detached_child(true) && !is_detached_child(false));
}
