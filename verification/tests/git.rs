use nightcrow::git::clone::{
    clone_args, clone_env, git_available, run_clone, validate_clone_url, CloneRun,
    CloneUrlError, StderrTail, MAX_CLONE_URL_BYTES, MAX_STDERR_BYTES,
};
use nightcrow::git::diff::commit_log::{
    head_commit_oid, is_empty_head, load_commit_log, load_commit_log_from, load_commit_log_page,
    short_oid, FoundCommit, HeadError, HeadErrorCode, LogError, WalkError,
    WalkStart,
};
use nightcrow::git::diff::types::{ChangedFile, CommitEntry, Oid, StatusKind};
use nightcrow::git::tree::{
    child_path, is_git_dir_name, read_children, search_tree, DirRead, FoundEntry, TreeEntry,
};
use nightcrow::native::NativePath;

#[test]
fn urls_that_can_be_cloned() {
    assert_eq!(validate_clone_url("https://host/team/repo.git").as_deref(), Ok("repo"));
    assert_eq!(validate_clone_url("ssh://git@host/repo").as_deref(), Ok("repo"));
    assert_eq!(validate_clone_url("git@host:team/repo.git").as_deref(), Ok("repo"));
}

#[test]
fn urls_that_are_refused() {
    assert_eq!(validate_clone_url(""), Err(CloneUrlError::Empty));
    let long = format!("https://h/{}", "x".repeat(MAX_CLONE_URL_BYTES));
    assert_eq!(validate_clone_url(&long), Err(CloneUrlError::TooLong));
    assert_eq!(validate_clone_url("https://h/a\u{7}b"), Err(CloneUrlError::Control));
    for url in ["ext::sh -c x", "file:///etc", "/local/path", "--upload-pack=x"] {
        assert_eq!(validate_clone_url(url), Err(CloneUrlError::Scheme), "{url}");
    }
    assert_eq!(validate_clone_url("https://host/.git"), Err(CloneUrlError::NoName));
    for error in [
        CloneUrlError::Empty,
        CloneUrlError::TooLong,
        CloneUrlError::Control,
        CloneUrlError::Scheme,
        CloneUrlError::NoName,
    ] {
        assert!(!error.message().is_empty());
    }
}

#[test]
fn a_clone_is_run_without_prompts() {
    let expected = [
        "-c",
        "http.lowSpeedLimit=1024",
        "-c",
        "http.lowSpeedTime=60",
        "clone",
        "--",
        "https://h/r",
        "/dest",
    ];
    let args = clone_args("https://h/r", &NativePath::of_text("/dest"));
    assert_eq!(args, expected.map(|arg| arg.as_bytes().to_vec()));
    let odd = NativePath { bytes: b"/d\xff".to_vec() };
    assert_eq!(clone_args("u", &odd).last(), Some(&b"/d\xff".to_vec()));
    assert!(clone_env().iter().any(|(k, v)| k == "GIT_TERMINAL_PROMPT" && v == "0"));
    assert!(git_available(Some(true)));
    assert!(!git_available(Some(false)));
    assert!(!git_available(None));
    let ended = |success: bool, stderr: &str| {
        run_clone(&CloneRun::Ended { success, stderr: stderr.into() })
    };
    assert!(ended(true, "noise").is_ok());
    assert_eq!(ended(false, "Cloning...\nfatal: nope\n"), Err("fatal: nope".into()));
    assert_eq!(ended(false, " \n"), Err("git clone failed".into()));
    assert_eq!(
        run_clone(&CloneRun::NotInstalled),
        Err("git is not installed or not on PATH".into())
    );
    assert_eq!(run_clone(&CloneRun::NotStarted("x".into())), Err("could not run git: x".into()));
    assert_eq!(
        run_clone(&CloneRun::NotAwaited("x".into())),
        Err("could not wait for git: x".into())
    );
}

#[test]
fn the_tail_of_the_errors_does_not_depend_on_how_they_arrive() {
    let bytes: Vec<u8> = (0..MAX_STDERR_BYTES + 10).map(|i| b'a' + (i % 26) as u8).collect();
    let mut whole = StderrTail::new();
    whole.push(&bytes);
    let mut parts = StderrTail::new();
    for chunk in bytes.chunks(1000) {
        parts.push(chunk);
    }
    assert_eq!(whole.kept, parts.kept);
    assert_eq!(whole.kept, bytes[10..]);
    let mut odd = StderrTail::new();
    odd.push(b"ok \xff");
    assert_eq!(odd.text(), "ok \u{fffd}");
}

#[test]
fn changed_files_and_their_codes() {
    let file = ChangedFile::from_status_columns(
        "B.rs".into(),
        Some("A.rs".into()),
        StatusKind::Renamed,
        StatusKind::Modified,
    );
    assert_eq!(file.short_code(), "RM");
    assert!(file.search_lower.contains("a.rs") && file.search_lower.contains("b.rs"));
    assert!(file.display_path().contains("A.rs") && file.display_path().contains("B.rs"));
    let added = ChangedFile::from_commit_delta("x".into(), None, StatusKind::Added);
    assert_eq!(added.most_severe(), StatusKind::Added);
    assert_eq!(added.display_path(), "x");
    assert_eq!(added.short_code().chars().count(), 2);
}

fn oid(n: u8) -> Oid {
    Oid { bytes: [n; 20] }
}

#[test]
fn commits_are_found_by_their_lower_case_summary() {
    let commit = CommitEntry::new(oid(1), "abc".into(), "Fix É".into(), "me".into(), 5)
        .with_commit_meta("me@x".into(), 2);
    assert_eq!(commit.summary_lower, "fix é");
    assert!(commit.is_merge());
    assert_eq!((commit.author_email.as_str(), commit.parent_count), ("me@x", 2));
    let plain = CommitEntry::new(oid(1), "abc".into(), "s".into(), "me".into(), 5);
    assert!(!plain.is_merge());
}

#[test]
fn short_ids_are_the_start_of_the_full_one() {
    assert_eq!(short_oid(oid(0xab)), "ababab".to_string() + "a");
}

fn walked(n: u8) -> Vec<Result<FoundCommit, WalkError>> {
    (0..n)
        .map(|i| {
            Ok(FoundCommit {
                oid: oid(i),
                summary: Some(format!("commit {i}")),
                author: None,
                email: None,
                time: i64::from(i),
                parent_count: 1,
            })
        })
        .collect()
}

fn head() -> WalkStart {
    WalkStart::Head { empty: Ok(false), pushed: Ok(()) }
}

#[test]
fn pages_tile_the_history() {
    let walk = walked(5);
    let whole = load_commit_log(head(), &walk, 10).expect("a log");
    let first = load_commit_log_page(head(), &walk, 0, 2).expect("a page");
    let second = load_commit_log_page(head(), &walk, 2, 2).expect("a page");
    let third = load_commit_log_from(WalkStart::Anchor(oid(1), Ok(())), &walk, 4, 2).expect("a page");
    let summaries: Vec<&str> = first
        .iter()
        .chain(&second)
        .chain(&third)
        .map(|c| c.summary.as_str())
        .collect();
    assert_eq!(summaries, whole.iter().map(|c| c.summary.as_str()).collect::<Vec<_>>());
    assert_eq!(summaries.len(), 5);
    assert!(load_commit_log_page(head(), &walk, 9, 2).expect("a page").is_empty());
}

#[test]
fn a_repository_without_commits_has_an_empty_log() {
    let empty = WalkStart::Head { empty: Ok(true), pushed: Ok(()) };
    assert!(load_commit_log(empty, &walked(0), 5).expect("a log").is_empty());
    let unborn = HeadError {
        code: HeadErrorCode::UnbornBranch,
        about_reference: false,
        message: "unborn".into(),
    };
    assert!(is_empty_head(&unborn));
    let broken = HeadError {
        code: HeadErrorCode::Other,
        about_reference: true,
        message: "broken".into(),
    };
    assert!(!is_empty_head(&broken));
    assert!(matches!(head_commit_oid(Err(unborn)), Ok(None)));
    let error = head_commit_oid(Err(broken)).expect_err("broken");
    assert_eq!(error.message(), "failed to read HEAD: broken");
    assert!(matches!(head_commit_oid(Ok(Some(oid(3)))), Ok(Some(o)) if o.bytes == [3; 20]));
}

#[test]
fn what_can_go_wrong_with_a_log() {
    let walk = walked(1);
    let said = |start: WalkStart| -> String {
        load_commit_log_from(start, &walk, 0, 1).expect_err("an error").message()
    };
    let hex = "09".repeat(20);
    assert_eq!(
        said(WalkStart::Anchor(oid(9), Err("gone".into()))),
        format!("failed to push commit {hex}: gone")
    );
    assert_eq!(said(WalkStart::NoWalk("e".into())), "failed to create revwalk: e");
    assert_eq!(
        said(WalkStart::Head { empty: Err("locked".into()), pushed: Ok(()) }),
        "failed to inspect repository state: locked"
    );
    let broken = HeadError {
        code: HeadErrorCode::Other,
        about_reference: false,
        message: "not found".into(),
    };
    assert_eq!(
        said(WalkStart::Head { empty: Ok(false), pushed: Err(broken) }),
        "failed to push HEAD: not found"
    );
    let at = |error: WalkError| -> LogError {
        load_commit_log(head(), &vec![Err(error)], 1).expect_err("an error")
    };
    assert_eq!(at(WalkError::Step("bad".into())).message(), "revwalk error: bad");
    assert_eq!(at(WalkError::Find("bad".into())).message(), "failed to find commit: bad");
}

fn found(name: &str, is_dir: bool, ignored: bool) -> FoundEntry {
    FoundEntry { name: Some(name.into()), is_dir: Some(is_dir), ignored }
}

#[test]
fn children_are_listed_directories_first() {
    let list = vec![
        found("b.rs", false, false),
        found("z", true, false),
        found(".GIT", true, false),
        found("target", true, true),
        found("A.rs", false, false),
        FoundEntry { name: None, is_dir: Some(false), ignored: false },
        FoundEntry { name: Some("odd".into()), is_dir: None, ignored: false },
    ];
    let read = DirRead::Listed(list);
    let names = |respect: bool| -> Vec<String> {
        let listed = read_children("", &read, respect).expect("a directory");
        listed.into_iter().map(|e| e.name).collect()
    };
    assert_eq!(names(true), ["z", "A.rs", "b.rs"]);
    assert_eq!(names(false), ["target", "z", "A.rs", "b.rs"]);
    let said = |read: DirRead| read_children("x/y", &read, true).expect_err("no listing");
    assert_eq!(said(DirRead::NotADirectory), "not a directory: x/y");
    assert_eq!(
        said(DirRead::NoWorkdir { workdir: "/w".into(), reason: "e".into() }),
        "failed to resolve workdir /w: e"
    );
    assert_eq!(said(DirRead::Rejected("a symlink".into())), "a symlink");
    assert_eq!(said(DirRead::NoStat("e".into())), "failed to stat x/y: e");
    assert_eq!(said(DirRead::NoListing("e".into())), "failed to read directory x/y: e");
    assert!(is_git_dir_name(".Git") && !is_git_dir_name(".gitignore"));
    assert_eq!(child_path("", "a"), "a");
    assert_eq!(child_path("d", "a"), "d/a");
}

fn entry(name: &str, is_dir: bool) -> TreeEntry {
    TreeEntry { name: name.into(), is_dir }
}

#[test]
fn a_search_walks_depth_first_within_its_bounds() {
    let mut search = search_tree("RS", 1, 100, 10);
    assert_eq!(search.next_dir(), Some(""));
    assert!(search.advance(Some(&vec![entry("src", true), entry("b.rs", false), entry("c", false)])));
    assert_eq!(search.next_dir(), Some("src"));
    assert!(search.advance(Some(&vec![entry("a.RS", false), entry("deep", true)])));
    assert_eq!(search.next_dir(), None);
    let (hits, cut) = search.finish();
    let paths: Vec<&str> = hits.iter().map(|m| m.path.as_str()).collect();
    assert_eq!(paths, ["b.rs", "src/a.RS"]);
    assert!(!cut);
}

fn listing(dir: &str) -> Option<Vec<TreeEntry>> {
    match dir {
        "" => Some(vec![entry("a", true), entry("b", true), entry("x.txt", false)]),
        "a" => Some(vec![entry("ax", true), entry("none", false)]),
        "a/ax" => Some(vec![entry("deepX", false), entry("more", true)]),
        "a/ax/more" => Some(vec![entry("x", false)]),
        _ => None,
    }
}

#[test]
fn a_search_that_is_not_cut_finds_every_match_down_to_its_depth() {
    let found = |max_depth: usize, max_visits: usize| -> (Vec<String>, bool, usize) {
        let mut search = search_tree("X", max_depth, max_visits, 10);
        let mut reads = 0;
        while let Some(dir) = search.next_dir() {
            let entries = listing(dir);
            assert!(search.advance(entries.as_ref()));
            reads += 1;
        }
        let (hits, cut) = search.finish();
        (hits.into_iter().map(|m| m.path).collect(), cut, reads)
    };
    let (paths, cut, reads) = found(9, 100);
    assert_eq!(paths, ["a/ax", "a/ax/deepX", "a/ax/more/x", "x.txt"]);
    assert!(!cut);
    assert_eq!(reads, 5);
    assert_eq!(found(1, 100).0, ["a/ax", "x.txt"]);
    assert_eq!(found(0, 100).0, ["x.txt"]);
    for max_visits in 0..8 {
        let (paths, cut, reads) = found(9, max_visits);
        assert!(cut);
        assert!(reads <= max_visits + 1);
        assert!(paths.len() <= max_visits);
    }
}

#[test]
fn a_search_stops_at_its_budget() {
    let mut search = search_tree("x", 5, 2, 10);
    assert!(search.advance(Some(&vec![entry("x1", false), entry("x2", false), entry("x3", false)])));
    assert_eq!(search.next_dir(), None);
    let (hits, cut) = search.finish();
    assert_eq!(hits.len(), 2);
    assert!(cut);
    let mut limited = search_tree("x", 5, 100, 1);
    limited.advance(Some(&vec![entry("x2", false), entry("x1", false)]));
    let (hits, cut) = limited.finish();
    assert_eq!(hits[0].path, "x1");
    assert_eq!(hits.len(), 1);
    assert!(cut);
    let mut unreadable = search_tree("x", 5, 100, 1);
    assert!(!unreadable.advance(None));
}
