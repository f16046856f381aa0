use nightcrow::plugin::guard::{
    is_forbidden_control, judge_watch, truncate_message, Approved, Guard, PaneFacts, RateAction,
    RateLimits, Refused, MAX_LOG_CHARS,
};
use nightcrow::plugin::protocol::{
    admit_line, decode_command, encode_event, is_blank_line, DecodeError, EncodeError, LogLevel,
    PaneGeneration, PaneToken, PluginCommand, MAX_INPUT_BYTES, MAX_LINE_BYTES, PROTOCOL_VERSION,
};

fn token() -> PaneToken {
    PaneToken { text: "tok".into() }
}

fn generation(number: u64) -> PaneGeneration {
    PaneGeneration { number }
}

fn facts() -> PaneFacts {
    PaneFacts {
        pane: 3,
        generation: generation(1),
        opted_in: true,
        watched_by_another: false,
        may_watch_on_signal: false,
        alive: true,
        idle: 100,
        launch_command: Some("agent".into()),
    }
}

fn guard() -> Guard {
    Guard::new(50, RateLimits { window: 1000, send_input: 2, relaunch: 1 })
}

fn input(data: &str) -> PluginCommand {
    PluginCommand::SendInput {
        v: PROTOCOL_VERSION,
        token: token(),
        generation: generation(1),
        data: data.into(),
    }
}

fn relaunch() -> PluginCommand {
    PluginCommand::Relaunch {
        v: PROTOCOL_VERSION,
        token: token(),
        generation: generation(1),
        resume_args: vec!["--continue".into()],
    }
}

fn judge(guard: &mut Guard, cmd: PluginCommand, facts: &PaneFacts, now: u128) -> Result<Approved, Refused> {
    guard.judge(cmd, Some(facts), Ok("agent --continue".into()), now)
}

#[test]
fn input_reaches_a_quiet_live_pane() {
    let mut guard = guard();
    let approved = judge(&mut guard, input("go\r"), &facts(), 0);
    assert!(matches!(approved, Ok(Approved::SendInput { pane: 3, data }) if data == b"go\r"));
}

#[test]
fn input_that_is_refused() {
    let mut guard = guard();
    let mut no = |cmd: PluginCommand, facts: PaneFacts| judge(&mut guard, cmd, &facts, 0).expect_err("refused");
    assert!(matches!(
        no(input("x"), PaneFacts { opted_in: false, ..facts() }),
        Refused::NotOptedIn { pane: 3, .. }
    ));
    assert!(matches!(
        no(input("x"), PaneFacts { generation: generation(2), ..facts() }),
        Refused::StaleGeneration { pane: 3, .. }
    ));
    assert!(matches!(
        no(input("x"), PaneFacts { alive: false, ..facts() }),
        Refused::PaneNotRunning { pane: 3 }
    ));
    assert!(matches!(
        no(input("x"), PaneFacts { idle: 49, ..facts() }),
        Refused::PaneBusy { pane: 3, idle: 49, min_idle: 50 }
    ));
    assert!(matches!(
        no(input(&"x".repeat(MAX_INPUT_BYTES + 1)), facts()),
        Refused::InputTooLarge { pane: 3, .. }
    ));
    assert!(matches!(
        no(input("a\u{1b}[A"), facts()),
        Refused::ControlCharacter { pane: 3, code: 0x1b }
    ));
    assert!(matches!(
        guard.judge(input("x"), None, Ok(String::new()), 0),
        Err(Refused::UnknownPane { token }) if token.text == "tok"
    ));
}

#[test]
fn a_budget_is_spent_refilled_and_forgotten() {
    let mut guard = guard();
    assert!(judge(&mut guard, input("1"), &facts(), 0).is_ok());
    assert!(judge(&mut guard, input("2"), &facts(), 10).is_ok());
    assert!(matches!(
        judge(&mut guard, input("3"), &facts(), 20),
        Err(Refused::RateLimited { pane: 3, action: RateAction::SendInput })
    ));
    assert!(judge(&mut guard, input("4"), &facts(), 1000).is_ok());
    guard.cancel(&token());
    assert!(judge(&mut guard, input("5"), &facts(), 1001).is_ok());
    assert!(judge(&mut guard, input("6"), &facts(), 1002).is_ok());
    assert!(judge(&mut guard, input("7"), &facts(), 1003).is_err());
}

#[test]
fn only_an_exited_pane_is_relaunched() {
    let mut guard = guard();
    assert!(matches!(
        judge(&mut guard, relaunch(), &facts(), 0),
        Err(Refused::PaneStillRunning { pane: 3 })
    ));
    let dead = PaneFacts { alive: false, ..facts() };
    assert!(matches!(
        judge(&mut guard, relaunch(), &PaneFacts { launch_command: None, alive: false, ..facts() }, 0),
        Err(Refused::NoLaunchCommand { pane: 3 })
    ));
    assert!(matches!(
        guard.judge(relaunch(), Some(&dead), Err("flag".into()), 0),
        Err(Refused::ResumeArgsRejected { pane: 3, reason }) if reason == "flag"
    ));
    assert!(matches!(
        judge(&mut guard, relaunch(), &dead, 0),
        Ok(Approved::Relaunch { pane: 3, command_line, .. }) if command_line == "agent --continue"
    ));
    assert!(matches!(
        judge(&mut guard, relaunch(), &dead, 1),
        Err(Refused::RateLimited { action: RateAction::Relaunch, .. })
    ));
}

#[test]
fn watching_never_takes_a_pane_from_another() {
    let free = PaneFacts { opted_in: false, may_watch_on_signal: true, ..facts() };
    assert!(matches!(judge_watch(&token(), Some(&free)), Ok(Approved::WatchPane { pane: 3 })));
    let taken = PaneFacts { watched_by_another: true, opted_in: false, may_watch_on_signal: true, ..facts() };
    assert!(matches!(judge_watch(&token(), Some(&taken)), Err(Refused::WatchedByAnother { pane: 3 })));
    let closed = PaneFacts { opted_in: false, ..facts() };
    assert!(matches!(judge_watch(&token(), Some(&closed)), Err(Refused::WatchNotAllowed { pane: 3 })));
    assert!(matches!(judge_watch(&token(), None), Err(Refused::UnknownPane { .. })));
}

#[test]
fn reports_and_logs_pass() {
    let mut guard = guard();
    let status = PluginCommand::Status {
        v: PROTOCOL_VERSION,
        token: token(),
        generation: generation(1),
        state: "waiting".into(),
        detail: None,
        deadline_epoch: Some(9),
        attempt: 2,
    };
    assert!(matches!(
        judge(&mut guard, status, &facts(), 0),
        Ok(Approved::Status { pane: 3, attempt: 2, .. })
    ));
    let log = PluginCommand::Log { v: PROTOCOL_VERSION, level: LogLevel::Warn, message: "m".into() };
    assert!(matches!(
        guard.judge(log, None, Ok(String::new()), 0),
        Ok(Approved::Log { level: LogLevel::Warn, message }) if message == "m"
    ));
    let long = truncate_message("é".repeat(MAX_LOG_CHARS + 5));
    assert!(long.chars().filter(|c| *c == 'é').count() == MAX_LOG_CHARS);
    assert_eq!(truncate_message("short".into()), "short");
    assert!(is_forbidden_control('\u{1b}') && !is_forbidden_control('a'));
}

#[test]
fn lines_that_are_commands() {
    let line = "{}";
    assert!(decode_command(line, Ok(input("x"))).is_ok());
    assert!(matches!(decode_command("  ", Ok(input("x"))), Err(DecodeError::BlankLine)));
    let long = "x".repeat(MAX_LINE_BYTES + 1);
    assert!(matches!(decode_command(&long, Ok(input("x"))), Err(DecodeError::LineTooLong(_))));
    assert!(matches!(
        decode_command(line, Err("eof".into())),
        Err(DecodeError::Malformed(reason)) if reason == "eof"
    ));
    let other = PluginCommand::Log { v: 1, level: LogLevel::Info, message: String::new() };
    assert!(matches!(decode_command(line, Ok(other)), Err(DecodeError::WrongVersion(1))));
    let big = input(&"x".repeat(MAX_INPUT_BYTES + 1));
    assert!(matches!(decode_command(line, Ok(big)), Err(DecodeError::InputTooLarge(_))));
    assert!(is_blank_line(" \t") && !is_blank_line("x"));
    assert!(admit_line("x").is_ok());
    for error in [
        DecodeError::LineTooLong(1),
        DecodeError::BlankLine,
        DecodeError::Malformed("m".into()),
        DecodeError::WrongVersion(1),
        DecodeError::InputTooLarge(1),
    ] {
        assert!(!error.message().is_empty());
    }
}

#[test]
fn commands_tell_their_parts() {
    let cmd = input("x");
    assert_eq!(cmd.version(), PROTOCOL_VERSION);
    assert_eq!(cmd.token().map(|t| t.text.as_str()), Some("tok"));
    assert_eq!(cmd.generation(), Some(generation(1)));
    assert!(cmd.validate().is_ok());
    let log = PluginCommand::Log { v: 2, level: LogLevel::Info, message: String::new() };
    assert!(log.token().is_none() && log.generation().is_none());
    let watch = PluginCommand::WatchPane { v: 2, token: token() };
    assert!(watch.token().is_some() && watch.generation().is_none());
}

#[test]
fn an_event_is_one_line() {
    assert!(matches!(encode_event(Ok("{}".into())), Ok(line) if line == "{}"));
    assert!(matches!(encode_event(Ok("a\nb".into())), Err(EncodeError::EmbeddedNewline)));
    let failed = encode_event(Err("why".into())).expect_err("unencodable");
    assert_eq!(failed.message(), "cannot encode plugin event: why");
    assert!(EncodeError::EmbeddedNewline.message().contains("newline"));
}
