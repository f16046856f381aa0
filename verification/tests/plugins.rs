use nightcrow::config::layout::{PluginConfig, StartupCommand};
use nightcrow::home::NoHome;
use nightcrow::native::NativePath;
use nightcrow::plugin::host::{
    candidate, resolve_program, wait_for_exit, HostError, NextLine, Pipe, PluginHost, Polled,
    Started, INBOUND_QUEUE_DEPTH, OUTBOUND_QUEUE_DEPTH,
};
use nightcrow::plugin::protocol::{EncodeError, LogLevel, PluginCommand};
use nightcrow::plugin::registry::{
    check_source, config_snippet, default_plugins_dir, derive_name, install, install_path,
    is_executable_by_extension, list, plugins_dir_in, remove, status, toml_escape, validate_name,
    InstallError, InstallOutcome, InstalledEntry, NameError, RemoveOutcome, SourceFacts,
};

fn at(path: &str) -> NativePath {
    NativePath::of_text(path)
}

const GOOD: SourceFacts = SourceFacts {
    readable: true,
    is_symlink: false,
    target_readable: false,
    is_file: true,
    executable: true,
};

fn plugin(name: &str, enabled: bool) -> PluginConfig {
    PluginConfig {
        name: name.into(),
        command: name.into(),
        args: vec![],
        env: vec![],
        allowed_resume_flags: vec![],
        enabled,
    }
}

#[test]
fn the_plugins_live_below_home() {
    assert_eq!(plugins_dir_in(&Some(at("/home/u"))), Ok(at("/home/u/.nightcrow/plugins")));
    assert_eq!(plugins_dir_in(&None), Err(NoHome));
    if let Ok(dir) = default_plugins_dir() {
        assert!(dir.bytes.ends_with(b".nightcrow/plugins"));
    }
}

#[test]
fn plugin_names_are_single_safe_file_names() {
    for name in ["a", "pane-resume", "A.b_c-9", "..."] {
        assert_eq!(validate_name(name), Ok(()), "{name}");
    }
    assert_eq!(validate_name(&"n".repeat(64)), Ok(()));
    assert_eq!(validate_name(""), Err(NameError::Empty));
    assert_eq!(validate_name(&"n".repeat(65)), Err(NameError::TooLong));
    assert_eq!(validate_name("a/b"), Err(NameError::Path));
    assert_eq!(validate_name("a\\b"), Err(NameError::Path));
    assert_eq!(validate_name("."), Err(NameError::DirectoryReference));
    assert_eq!(validate_name(".."), Err(NameError::DirectoryReference));
    assert_eq!(validate_name("-rf"), Err(NameError::LeadingDash));
    assert_eq!(validate_name("a b"), Err(NameError::BadCharacter));
    assert_eq!(validate_name("é"), Err(NameError::BadCharacter));
    assert_eq!(
        NameError::Path.message("a/b"),
        "plugin name \"a/b\" must be a single file name, not a path"
    );
    assert_eq!(NameError::Empty.message(""), "a plugin name must not be empty");
    assert!(NameError::TooLong.message("x").ends_with("is longer than 64 characters"));
    assert!(NameError::DirectoryReference.message(".").contains("directory reference"));
    assert!(NameError::LeadingDash.message("-x").contains("read as a flag"));
    assert!(NameError::BadCharacter.message("a b").contains("letters, digits"));
}

#[test]
fn installing_takes_the_source_stem_as_the_name() {
    let made = install(&at("/p"), "/src/tool.sh", None, false, GOOD, false);
    assert!(matches!(made, Ok(InstallOutcome::Created(path)) if path == at("/p/tool")));
    let made = install(&at("/p"), "/src/tool.sh", Some("other"), true, GOOD, true);
    assert!(matches!(made, Ok(InstallOutcome::Replaced(path)) if path == at("/p/other")));
    let made = install(&at("/p"), "/src/tool.sh", None, false, GOOD, true);
    assert!(matches!(made, Ok(InstallOutcome::AlreadyExists(path)) if path == at("/p/tool")));
    assert_eq!(install_path(&at("/p"), "/src/tool.sh", None), Ok(at("/p/tool")));
    assert_eq!(derive_name("/"), Err(InstallError::NoName));
    assert_eq!(install_path(&at("/p"), "/..", None), Err(InstallError::NoName));
}

#[test]
fn installs_that_are_refused() {
    let refused = |facts: SourceFacts| install(&at("/p"), "/s", None, false, facts, false).expect_err("no");
    assert_eq!(refused(SourceFacts { readable: false, ..GOOD }), InstallError::Unreadable);
    let link = SourceFacts { is_symlink: true, ..GOOD };
    assert_eq!(refused(link), InstallError::BrokenLink);
    assert_eq!(check_source(SourceFacts { target_readable: true, ..link }), Ok(()));
    assert_eq!(refused(SourceFacts { is_file: false, ..GOOD }), InstallError::NotAFile);
    assert_eq!(refused(SourceFacts { executable: false, ..GOOD }), InstallError::NotExecutable);
    let error = install(&at("/p"), "/s", Some("../x"), false, GOOD, false).expect_err("no");
    assert_eq!(error, InstallError::Name(NameError::Path));
    assert_eq!(error.message("/s", "../x"), NameError::Path.message("../x"));
    assert_eq!(
        InstallError::NoName.message("/", ""),
        "cannot derive a plugin name from /; pass --name"
    );
    assert_eq!(
        InstallError::BrokenLink.message("/s", ""),
        "plugin source /s is a broken symlink"
    );
    assert_eq!(
        InstallError::NotAFile.message("/s", ""),
        "plugin source /s is not a regular file"
    );
    assert!(InstallError::Unreadable.message("/s", "").contains("cannot be read"));
    assert!(InstallError::NotExecutable.message("/s", "").contains("chmod +x"));
}

#[test]
fn installed_plugins_are_listed_sorted() {
    let entry = |name: &str, is_file: bool| InstalledEntry { name: name.into(), is_file };
    let entries = vec![entry("b", true), entry("dir", false), entry("a", true)];
    assert_eq!(list(Some(&entries)), ["a", "b"]);
    assert_eq!(list(None), Vec::<String>::new());
}

#[test]
fn removing_what_is_absent_is_a_report() {
    assert!(matches!(remove(&at("/p"), "a", true), Ok(RemoveOutcome::Removed(path)) if path == at("/p/a")));
    assert!(matches!(remove(&at("/p"), "a", false), Ok(RemoveOutcome::NotInstalled(n)) if n == "a"));
    assert!(matches!(remove(&at("/p"), "..", true), Err(NameError::DirectoryReference)));
}

#[test]
fn the_status_counts_who_opts_in() {
    let plugins = vec![plugin("a", false), plugin("b", true), plugin("b", false)];
    let command = |plugin: Option<&str>| StartupCommand {
        name: None,
        command: "x".into(),
        plugin: plugin.map(String::from),
    };
    let commands = vec![command(Some("b")), command(None), command(Some("b")), command(Some("a"))];
    let b = status(&plugins, &commands, "b");
    assert_eq!((b.declared, b.enabled, b.opt_ins), (true, true, 2));
    let a = status(&plugins, &commands, "a");
    assert_eq!((a.declared, a.enabled, a.opt_ins), (true, false, 1));
    let c = status(&plugins, &commands, "c");
    assert_eq!((c.declared, c.enabled, c.opt_ins), (false, false, 0));
}

#[test]
fn the_snippet_is_switched_off_and_escaped() {
    assert_eq!(
        config_snippet("a", "/p/q\"r\\s"),
        "[[plugin]]\nname = \"a\"\ncommand = \"/p/q\\\"r\\\\s\"\nargs = []\n\
         allowed_resume_flags = []\nenabled = false\n"
    );
    assert_eq!(toml_escape("\\\""), "\\\\\\\"");
    assert_eq!(toml_escape("plain"), "plain");
}

#[test]
fn executables_by_extension() {
    assert!(is_executable_by_extension("c:/x/tool.exe", None));
    assert!(is_executable_by_extension("tool.Py", Some(".EXE;.pY")));
    assert!(!is_executable_by_extension("tool.py", None));
    assert!(!is_executable_by_extension("tool", None));
    assert!(!is_executable_by_extension("/", None));
}

#[test]
fn an_installed_plugin_wins_over_the_path() {
    let dir = at("/p");
    assert_eq!(candidate("tool", Some(&dir)), Some(at("/p/tool")));
    assert_eq!(candidate("./tool", Some(&dir)), None);
    assert_eq!(candidate("tool", None), None);
    assert_eq!(resolve_program("tool", Some(&dir), true), at("/p/tool"));
    assert_eq!(resolve_program("tool", Some(&dir), false), at("tool"));
    assert_eq!(resolve_program("bin/tool", Some(&dir), true), at("bin/tool"));
    assert_eq!(resolve_program("tool", None, true), at("tool"));
}

fn host(depth: usize) -> PluginHost {
    PluginHost::spawn_with_queue_depth(
        &plugin("p", true),
        None,
        false,
        Started::Running { stdin: true, stdout: true, stderr: true },
        depth,
    )
    .expect("it runs")
}

#[test]
fn a_plugin_that_cannot_start_says_why() {
    let failed = PluginHost::spawn(&plugin("p", true), Some(&at("/d")), true, Started::Failed("gone".into()));
    let error = failed.expect_err("no host");
    assert_eq!(error.message(), "cannot launch plugin \"p\" from /d/p: gone");
    for (stdin, stdout, stderr, pipe, text) in [
        (false, false, false, Pipe::Stdin, "plugin stdin pipe missing"),
        (true, false, true, Pipe::Stdout, "plugin stdout pipe missing"),
        (true, true, false, Pipe::Stderr, "plugin stderr pipe missing"),
    ] {
        let started = Started::Running { stdin, stdout, stderr };
        let error = PluginHost::spawn(&plugin("p", true), None, false, started).expect_err("no");
        assert!(matches!(&error, HostError::MissingPipe(p) if *p == pipe));
        assert_eq!(error.message(), text);
    }
}

#[test]
fn events_go_out_in_order_and_a_full_queue_drops() {
    let mut host = host(2);
    assert_eq!(host.name(), "p");
    assert!(host.send(Ok("a".into())));
    assert!(host.send(Ok("b".into())));
    assert!(!host.send(Ok("c".into())));
    assert_eq!(host.dropped_events(), 1);
    assert!(!host.send(Err(EncodeError::EmbeddedNewline)));
    assert_eq!(host.dropped_events(), 2);
    assert!(matches!(host.next_line(), NextLine::Write(line) if line == "a"));
    assert!(host.send(Ok("d".into())));
    assert!(matches!(host.next_line(), NextLine::Write(line) if line == "b"));
    assert!(matches!(host.next_line(), NextLine::Write(line) if line == "d"));
    assert!(matches!(host.next_line(), NextLine::Wait));
    host.writer_ended();
    assert!(!host.send(Ok("e".into())));
    assert_eq!(host.dropped_events(), 2);
}

#[test]
fn without_a_backlog_an_event_is_handed_to_a_waiting_writer() {
    let mut host = host(0);
    assert!(!host.send(Ok("early".into())));
    assert_eq!(host.dropped_events(), 1);
    assert!(matches!(host.next_line(), NextLine::Wait));
    assert!(host.send(Ok("a".into())));
    assert!(!host.send(Ok("b".into())));
    assert_eq!(host.dropped_events(), 2);
    assert!(matches!(host.next_line(), NextLine::Write(line) if line == "a"));
    assert!(!host.send(Ok("c".into())));
    assert_eq!(host.dropped_events(), 3);
    assert!(matches!(host.next_line(), NextLine::Wait));
    assert!(matches!(host.next_line(), NextLine::Wait));
    assert!(host.shutdown(Ok("bye".into())));
    assert!(matches!(host.next_line(), NextLine::Write(line) if line == "bye"));
    assert!(matches!(host.next_line(), NextLine::End));
    assert_eq!(host.dropped_events(), 3);
}

#[test]
fn shutting_down_twice_is_shutting_down_once() {
    let mut host = host(OUTBOUND_QUEUE_DEPTH);
    assert!(host.send(Ok("a".into())));
    assert!(host.shutdown(Ok("bye".into())));
    assert!(!host.shutdown(Ok("bye".into())));
    assert!(!host.send(Ok("late".into())));
    assert!(matches!(host.next_line(), NextLine::Write(line) if line == "a"));
    assert!(matches!(host.next_line(), NextLine::Write(line) if line == "bye"));
    assert!(matches!(host.next_line(), NextLine::End));
}

#[test]
fn a_loud_plugin_is_held_up_and_loses_nothing() {
    let mut host = host(1);
    let log = |n: usize| PluginCommand::Log { v: 2, level: LogLevel::Info, message: n.to_string() };
    for n in 0..INBOUND_QUEUE_DEPTH {
        assert!(host.deliver(log(n)).is_none());
    }
    let held = host.deliver(log(INBOUND_QUEUE_DEPTH)).expect("held up");
    assert!(matches!(host.try_recv(), Some(PluginCommand::Log { message, .. }) if message == "0"));
    assert!(host.deliver(held).is_none());
    for n in 1..=INBOUND_QUEUE_DEPTH {
        let next = host.try_recv();
        assert!(matches!(next, Some(PluginCommand::Log { message, .. }) if message == n.to_string()));
    }
    assert!(host.try_recv().is_none());
}

#[test]
fn waiting_for_a_plugin_to_exit() {
    assert_eq!(wait_for_exit(Polled::Exited, 0, 10), Some(true));
    assert_eq!(wait_for_exit(Polled::Unknown, 20, 10), Some(true));
    assert_eq!(wait_for_exit(Polled::Running, 9, 10), None);
    assert_eq!(wait_for_exit(Polled::Running, 10, 10), Some(false));
    let host = host(1);
    assert!(host.is_alive(Polled::Running));
    assert!(!host.is_alive(Polled::Exited));
    assert!(!host.is_alive(Polled::Unknown));
}
