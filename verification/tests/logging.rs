use nightcrow::platform::logging::{
    appender_to_use, cleanup_old_logs, expired_log_paths, filter_of, filter_or_warnings,
    init_logging, is_nightcrow_log_file, is_readable, latest_size_log_index, log_cutoff, parse_u32, resolve_log_dir,
    write_log_gitignore, Appender, LogConfig, LogFile, LogRotation, LogSetup,
    SetupEvent, SetupPhase, SizeRolling,
};

fn config() -> LogConfig {
    LogConfig {
        enabled: true,
        dir: ".nightcrow/logs".into(),
        level: "info".into(),
        max_days: 7,
        rotation: LogRotation::Daily,
        max_size_mb: 3,
        prompt_log: false,
    }
}

fn file(path: &str, modified: i128) -> LogFile {
    LogFile { path: path.into(), modified }
}

#[test]
fn logging_is_planned_from_the_settings() {
    let plan = init_logging(&config(), "/repo").expect("a plan");
    assert_eq!(plan.dir, "/repo/.nightcrow/logs");
    assert_eq!(plan.filter, "info");
    assert_eq!(plan.appender, Appender::Daily);

    let plan = init_logging(&LogConfig { prompt_log: true, ..config() }, "/repo").expect("a plan");
    assert_eq!(plan.filter, "info,prompt=info");

    let hourly = LogConfig { rotation: LogRotation::Hourly, ..config() };
    assert_eq!(init_logging(&hourly, "/r").expect("a plan").appender, Appender::Hourly);

    let sized = LogConfig { rotation: LogRotation::Size, ..config() };
    assert_eq!(
        init_logging(&sized, "/r").expect("a plan").appender,
        Appender::Size { max_bytes: 3 * 1024 * 1024 }
    );
    let huge = LogConfig { rotation: LogRotation::Size, max_size_mb: u64::MAX, ..config() };
    assert_eq!(
        init_logging(&huge, "/r").expect("a plan").appender,
        Appender::Size { max_bytes: u64::MAX }
    );
    assert!(init_logging(&LogConfig { enabled: false, ..config() }, "/r").is_none());
}

#[test]
fn a_level_that_is_no_filter_lets_warnings_through() {
    let odd = LogConfig { level: "nightcrow=loudest".into(), ..config() };
    assert_eq!(init_logging(&odd, "/r").expect("a plan").filter, "warn");
    assert_eq!(filter_or_warnings("debug".into(), true), "debug");
    assert_eq!(filter_or_warnings("debug".into(), false), "warn");
}

#[test]
fn a_filter_that_cannot_be_read_is_told_apart() {
    for text in ["", "info", " debug", "a=info, b=warn", "é=info", "\u{e9}", ",", " ", " é", " a=é", "   é=info", "      é[s]=info"] {
        assert!(is_readable(text), "{text:?}");
    }
    for text in ["\u{a0}a=info", " é=info", "info,\u{3000}a[s]", "a, é=info", "  é=info", " {é}"] {
        assert!(!is_readable(text), "{text:?}");
    }
    for level in [" é", " a=é", "\u{3000}", " \u{3000}a b", "   é=info", "      é[s]=info"] {
        let odd = LogConfig { level: level.into(), ..config() };
        assert!(init_logging(&odd, "/r").is_some(), "{level:?}");
    }
    let level = LogConfig { level: " debug".into(), prompt_log: true, ..config() };
    assert_eq!(filter_of(&level), " debug,prompt=info");
    assert!(is_readable(&filter_of(&level)));
    assert_eq!(init_logging(&level, "/r").expect("a plan").filter, " debug,prompt=info");
}

#[test]
fn an_absolute_log_directory_is_taken_as_it_is() {
    assert_eq!(resolve_log_dir("/var/log/nc", "/repo"), "/var/log/nc");
    assert_eq!(resolve_log_dir("./logs/", "/repo//x/"), "/repo//x/./logs/");
    assert_eq!(resolve_log_dir("", "/repo"), "/repo/");
    let rolling = SizeRolling::resume("/logs/./", "nightcrow.log", 10, 3, 0);
    assert_eq!(rolling.path(), "/logs/./nightcrow.log.3");
    assert_eq!(resolve_log_dir("logs", "/repo"), "/repo/logs");
}

#[test]
fn a_size_based_log_that_cannot_be_opened_gives_way_to_daily_files() {
    let sized = Appender::Size { max_bytes: 10 };
    assert_eq!(appender_to_use(sized, false), Appender::Daily);
    assert_eq!(appender_to_use(sized, true), sized);
    assert_eq!(appender_to_use(Appender::Hourly, false), Appender::Hourly);
}

#[test]
fn only_a_directory_of_its_own_is_hidden_from_git() {
    assert!(write_log_gitignore("/repo/.nightcrow/logs", false));
    assert!(!write_log_gitignore("/repo/.nightcrow/logs", true));
    assert!(!write_log_gitignore("/var/log", false));
    assert!(!write_log_gitignore("/repo/my.nightcrow/logs", false));
}

#[test]
fn log_files_are_told_by_their_names() {
    for name in ["nightcrow.log", "/l/nightcrow.log.0", "nightcrow.log.2026-05-03-14"] {
        assert!(is_nightcrow_log_file(name), "{name}");
    }
    for name in ["nightcrow.log.backup", "nightcrow.log.", "other.log", "/", "nightcrow.logs"] {
        assert!(!is_nightcrow_log_file(name), "{name}");
    }
}

#[test]
fn the_newest_log_stays_and_of_equals_the_first() {
    let files = vec![file("a", 5), file("b", 9), file("c", 9), file("d", 1)];
    assert_eq!(expired_log_paths(&files, 100), ["a", "c", "d"]);
    assert_eq!(expired_log_paths(&files, 5), ["d"]);
    assert_eq!(expired_log_paths(&vec![file("only", 0)], 100), Vec::<String>::new());
    assert_eq!(expired_log_paths(&vec![], 100), Vec::<String>::new());
}

#[test]
fn old_logs_are_cleaned_up() {
    let day: i128 = 86_400_000_000_000;
    let now = 10 * day;
    assert_eq!(log_cutoff(now, 3), Some(7 * day));
    assert_eq!(log_cutoff(now, 0), None);
    assert_eq!(log_cutoff(i128::MIN, 1), Some(0));
    let found = vec![
        file("/l/nightcrow.log.0", day),
        file("/l/notes.txt", 0),
        file("/l/nightcrow.log.1", 2 * day),
        file("/l/nightcrow.log.2", 9 * day),
    ];
    assert_eq!(cleanup_old_logs(&found, now, 3), ["/l/nightcrow.log.0", "/l/nightcrow.log.1"]);
    assert_eq!(cleanup_old_logs(&found, now, 0), Vec::<String>::new());
}

#[test]
fn the_highest_index_is_resumed() {
    let names = ["nightcrow.log.2", "nightcrow.log.10", "nightcrow.log.x", "other.99"]
        .map(String::from)
        .to_vec();
    assert_eq!(latest_size_log_index(&names, "nightcrow.log"), 10);
    assert_eq!(latest_size_log_index(&vec![], "nightcrow.log"), 0);
}

#[test]
fn numbers_are_read_as_the_standard_library_reads_them() {
    for text in ["0", "+7", "007", "4294967295", "4294967296", "", "+", "-1", "1a", "99999999999999999999"] {
        let chars: Vec<char> = text.chars().collect();
        assert_eq!(parse_u32(&chars), text.parse::<u32>().ok(), "{text}");
    }
}

#[test]
fn a_log_turns_over_before_it_exceeds_its_limit() {
    let mut log = SizeRolling::resume("/l", "nightcrow.log", 10, 4, 6);
    assert_eq!(log.path(), "/l/nightcrow.log.4");
    assert!(!log.before_write(4));
    assert_eq!(log.wrote(4, 4), Some(0));
    assert_eq!(log.current_size, 10);
    assert!(log.before_write(1));
    assert_eq!(log.path(), "/l/nightcrow.log.5");
    log.opened();
    assert_eq!(log.wrote(1, 3), Some(2));
    assert_eq!(log.current_size, 1);
    assert_eq!(log.wrote(0, 2), None);
}

#[test]
fn without_a_limit_a_log_never_turns_over() {
    let mut log = SizeRolling::resume("/l", "p", 0, 0, u64::MAX);
    assert!(!log.before_write(usize::MAX));
    let mut log = SizeRolling::resume("/l", "p", 1, 0, u64::MAX);
    assert!(log.before_write(usize::MAX));
}

fn setup(config: &LogConfig) -> LogSetup {
    LogSetup::begin(init_logging(config, "/r").expect("a plan"), config.max_days)
}

#[test]
fn a_log_is_set_up_in_order() {
    let mut log = setup(&config());
    assert_eq!(log.phase(), SetupPhase::CreateDir);
    log.step(SetupEvent::Done);
    assert_eq!(log.phase(), SetupPhase::LookForGitignore);
    log.step(SetupEvent::Seen(false));
    assert_eq!(log.phase(), SetupPhase::WriteGitignore);
    let reply = log.step(SetupEvent::Failed("full".into()));
    assert_eq!(reply.lines, ["nightcrow: failed to write log gitignore: full"]);
    assert_eq!(log.phase(), SetupPhase::LookForLogs);
    let day: i128 = 86_400_000_000_000;
    let found = vec![file("nightcrow.log.0", 0), file("nightcrow.log.1", 90 * day)];
    let reply = log.step(SetupEvent::Found(found, 100 * day));
    assert_eq!(reply.delete, ["nightcrow.log.0"]);
    assert!(reply.lines.is_empty());
    assert_eq!(log.phase(), SetupPhase::OpenAppender);
    log.step(SetupEvent::Done);
    log.step(SetupEvent::Done);
    assert_eq!(log.phase(), SetupPhase::Running);
    assert_eq!(log.plan().dir, "/r/.nightcrow/logs");
}

#[test]
fn what_keeps_a_log_off_is_said() {
    let mut log = setup(&config());
    let reply = log.step(SetupEvent::Failed("denied".into()));
    assert_eq!(
        reply.lines,
        ["nightcrow: failed to create log directory /r/.nightcrow/logs: denied"]
    );
    assert_eq!(log.phase(), SetupPhase::Off);

    let sized = LogConfig {
        rotation: LogRotation::Size,
        max_days: 0,
        dir: "/var/log".into(),
        ..config()
    };
    let mut log = setup(&sized);
    log.step(SetupEvent::Done);
    assert_eq!(log.phase(), SetupPhase::OpenAppender);
    let reply = log.step(SetupEvent::Failed("denied".into()));
    assert_eq!(
        reply.lines,
        ["nightcrow: failed to open size-based log appender in /var/log; falling back to daily rotation"]
    );
    assert_eq!((log.phase(), log.plan().appender), (SetupPhase::OpenAppender, Appender::Daily));
    log.step(SetupEvent::Done);
    let reply = log.step(SetupEvent::Failed("already set".into()));
    assert_eq!(
        reply.lines,
        ["nightcrow: failed to install global tracing subscriber: already set"]
    );
    assert_eq!(log.phase(), SetupPhase::Off);
}
