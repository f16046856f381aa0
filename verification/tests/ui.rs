use nightcrow::git::diff::types::{
    ChangedFile, CommitEntry, DiffHunk, DiffLine, LineKind, Oid, StatusKind,
};
use nightcrow::git::tree::TreeEntry;
use nightcrow::ui::geometry::{cells_of, Rect};
use nightcrow::ui::gutter::{
    digits_for, lineno_digits, merge_gutter_into_body, render_gutter_and_body, side_gutter_text,
    side_gutter_width, unified_gutter_text, unified_gutter_width, GutterDrawing,
};
use nightcrow::ui::hint_bar::{
    empty_hint_click_at, hint_click_at, hint_spans, render_hint_bar, repo_input_line,
    segment_click, EmptyHints, HintBar, HintClick, HintStyle, RepoInput,
};
use nightcrow::ui::log_view::LogView;
use nightcrow::ui::project_tab::{
    render, tab_at, tab_label, tab_segments, tab_texts, truncate, visible_window, TabStyle,
};
use nightcrow::ui::search::SearchQuery;
use nightcrow::ui::tree_view::{is_safe_rel_path, parent_path, TreeIndexEntry, TreeView};

fn line(old_lineno: Option<u32>, new_lineno: Option<u32>) -> DiffLine {
    DiffLine { kind: LineKind::Context, content: String::new(), old_lineno, new_lineno }
}

fn hunk(lines: Vec<DiffLine>) -> DiffHunk {
    DiffHunk { header: String::new(), lines, file_path: None }
}

#[test]
fn the_gutter_is_as_wide_as_the_largest_number() {
    assert_eq!(digits_for(0), 3);
    assert_eq!(digits_for(999), 3);
    assert_eq!(digits_for(1000), 4);
    assert_eq!(digits_for(usize::MAX), 20);
    let hunks = [hunk(vec![line(Some(7), None)]), hunk(vec![line(None, Some(12345)), line(None, None)])];
    assert_eq!(lineno_digits(&hunks), 5);
    assert_eq!(lineno_digits(&[]), 3);
    assert_eq!(unified_gutter_width(5), 13);
    assert_eq!(side_gutter_width(5), 7);
    assert_eq!(unified_gutter_text(Some(7), None, 3), "   7     ");
    assert_eq!(unified_gutter_text(Some(7), Some(42), 3), "   7  42 ");
    assert_eq!(side_gutter_text(Some(12345), 3), " 12345 ");
    assert_eq!(side_gutter_text(None, 3), "     ");
    let digits = lineno_digits(&hunks);
    for text in [
        unified_gutter_text(Some(7), None, digits),
        unified_gutter_text(None, Some(12345), digits),
    ] {
        assert_eq!(text.chars().count(), usize::from(unified_gutter_width(digits)));
    }
}

#[test]
fn a_wrapped_body_carries_its_gutter() {
    let merged = merge_gutter_into_body(vec![vec!["1"], vec!["2"]], vec![vec!["a"], vec!["b"], vec!["c"]]);
    assert_eq!(merged, vec![vec!["1", "a"], vec!["2", "b"], vec!["c"]]);
    assert_eq!(merge_gutter_into_body(vec![vec!["1"]], vec![]), Vec::<Vec<&str>>::new());
    let wrapped = render_gutter_and_body(4, vec![vec![1]], vec![vec![2]], 9, true);
    assert!(matches!(wrapped, GutterDrawing::Wrapped(lines) if lines == vec![vec![1, 2]]));
    let beside = render_gutter_and_body(4, vec![vec![1]], vec![vec![2]], 9, false);
    assert!(matches!(beside, GutterDrawing::Beside { gutter_width: 4, scroll_x: 9, .. }));
}

fn commit(summary: &str) -> CommitEntry {
    CommitEntry::new(Oid { bytes: [0; 20] }, "id".into(), summary.into(), "me".into(), 0)
}

fn file(path: &str) -> ChangedFile {
    ChangedFile::from_commit_delta(path.into(), None, StatusKind::Modified)
}

#[test]
fn the_commit_search_filters_and_gives_up() {
    let mut log = LogView::default();
    log.set_commits_from_first_page(vec![commit("Fix bug"), commit("Add x"), commit("fix y")], 3);
    assert!(!log.fully_loaded);
    assert_eq!(log.commits_filter_cache, [0, 1, 2]);
    log.start_commit_search();
    for c in "FIX".chars() {
        log.commit_search_push(c);
    }
    assert_eq!(log.commits_filter_cache, [0, 2]);
    log.append_page(vec![commit("prefix")], 3);
    assert_eq!(log.commits_filter_cache, [0, 2, 3]);
    assert!(log.fully_loaded);
    assert_eq!(log.loaded_count, 4);
    assert!(!log.confirm_commit_search());
    assert!(!log.commit_search_active);
    assert_eq!(log.commits_filter_cache, [0, 2, 3]);
    log.commit_search_pop();
    log.commit_search_pop();
    log.commit_search_pop();
    log.commit_search_pop();
    assert!(log.confirm_commit_search());
    assert_eq!(log.commits_filter_cache, [0, 1, 2, 3]);
    log.commit_search_push('x');
    log.cancel_commit_search();
    assert_eq!(log.commits_filter_cache, [0, 1, 2, 3]);
}

#[test]
fn the_file_search_does_not_outlive_its_commit() {
    let mut log = LogView::default();
    log.drill_down = true;
    log.set_commit_files(vec![file("src/A.rs"), file("b.md")]);
    log.start_file_search();
    log.file_search_push('R');
    log.file_search_push('s');
    assert_eq!(log.commit_files_filter_cache, [0]);
    assert!(!log.confirm_file_search());
    log.file_search_pop();
    log.reset_drill_down();
    assert!(!log.drill_down && log.commit_files.is_empty());
    log.set_commit_files(vec![file("x"), file("y")]);
    assert_eq!(log.commit_files_filter_cache, [0, 1]);
    log.file_search_push('y');
    log.cancel_file_search();
    assert_eq!(log.commit_files_filter_cache, [0, 1]);
    assert!(log.confirm_file_search());
}

#[test]
fn one_page_is_fetched_at_a_time() {
    let mut log = LogView::default();
    assert!(log.mark_pending());
    assert!(!log.mark_pending());
    log.clear_pending();
    assert!(log.mark_pending());
    log.append_page(vec![], 0);
    assert!(!log.pending_fetch && !log.fully_loaded);
    log.commit_width_cache = Some((0, 0));
    log.set_commits(vec![commit("a")]);
    assert!(log.commit_width_cache.is_none());
}

#[test]
fn a_query_is_typed_and_taken_back() {
    let mut query = SearchQuery::new();
    query.push('É');
    query.push('x');
    assert_eq!(query.lower(), "éx");
    query.pop();
    assert_eq!(query.text, "É");
    query.pop();
    query.pop();
    assert!(query.is_empty());
    query.push('a');
    query.clear();
    assert!(query.is_empty() && query.lower().is_empty());
}

fn paths(names: &[&str]) -> Vec<String> {
    names.iter().map(|n| format!("/work/{n}")).collect()
}

#[test]
fn tab_labels_are_the_last_component_cut_to_length() {
    assert_eq!(tab_label("/work/api"), "api");
    assert_eq!(tab_label("/work/api/"), "api");
    assert_eq!(tab_label(""), "?");
    assert_eq!(tab_label("/"), "/");
    assert_eq!(tab_label("/w/abcdefghijklmnop"), "abcdefghijklm…");
    assert_eq!(truncate("abc", 3), "abc");
    assert_eq!(truncate("abcd", 3), "ab…");
    assert_eq!(truncate("abc", 1), "…");
    assert_eq!(truncate("abc", 0), "");
    let many = paths(&["a", "b", "c", "d", "e", "f", "g", "h", "i", "j", "k"]);
    let texts = tab_texts(&many);
    assert_eq!(texts[0], " F1 a ");
    assert_eq!(texts[9], " F10 j ");
    assert_eq!(texts[10], " k ");
}

#[test]
fn the_row_scrolls_around_the_active_tab() {
    assert_eq!(visible_window(&[10, 10, 10], 30, 0), (0, 3));
    assert_eq!(visible_window(&[10, 10, 10], 29, 0), (0, 2));
    assert_eq!(visible_window(&[10, 10, 10, 10], 20, 2), (2, 3));
    assert_eq!(visible_window(&[10, 10, 10, 10], 28, 2), (2, 4));
    assert_eq!(visible_window(&[10, 10, 10], 1, 9), (2, 3));
    assert_eq!(visible_window(&[], 10, 0), (0, 0));
}

#[test]
fn markers_select_the_nearest_hidden_project() {
    let repos = paths(&["aaaa", "bbbb", "cccc", "dddd", "eeee"]);
    let segments = tab_segments(&repos, 2, 20);
    let shown: Vec<(&str, usize)> =
        segments.iter().map(|s| (s.text.as_str(), s.index)).collect();
    assert_eq!(shown, [(" +2 ", 1), (" F3 cccc ", 2), (" +2 ", 3)]);
    let styles: Vec<TabStyle> = render(&repos, 2, 20).into_iter().map(|(_, s)| s).collect();
    assert_eq!(styles, [TabStyle::Marker, TabStyle::Active, TabStyle::Marker]);
    let styles: Vec<TabStyle> = render(&repos, 0, 200).into_iter().map(|(_, s)| s).collect();
    assert_eq!(styles[0], TabStyle::Active);
    assert_eq!(styles[4], TabStyle::Plain);
}

#[test]
fn a_click_selects_the_tab_under_it() {
    let repos = paths(&["api", "web"]);
    let area = Rect { x: 2, y: 0, width: 40, height: 1 };
    assert_eq!(tab_at(&repos, 0, area, 2, 0), Some(0));
    assert_eq!(tab_at(&repos, 0, area, 9, 0), Some(0));
    assert_eq!(tab_at(&repos, 0, area, 10, 0), Some(1));
    assert_eq!(tab_at(&repos, 0, area, 18, 0), None);
    assert_eq!(tab_at(&repos, 0, area, 1, 0), None);
    assert_eq!(tab_at(&repos, 0, area, 2, 1), None);
    assert_eq!(tab_at(&repos, 0, Rect { height: 0, ..area }, 2, 0), None);
}

#[test]
fn wide_characters_take_two_cells() {
    assert_eq!(cells_of("漢字"), 4);
    assert_eq!(cells_of("abc"), 3);
    assert_eq!(cells_of(""), 0);
    let repos = vec!["/w/漢".to_string(), "/w/b".to_string()];
    let area = Rect { x: 0, y: 0, width: 40, height: 1 };
    assert_eq!(tab_at(&repos, 0, area, 6, 0), Some(0));
    assert_eq!(tab_at(&repos, 0, area, 7, 0), Some(1));
}

#[test]
fn a_rectangle_holds_its_cells() {
    let area = Rect { x: 1, y: 2, width: 3, height: 1 };
    assert!(area.contains(1, 2) && area.contains(3, 2));
    assert!(!area.contains(4, 2) && !area.contains(1, 3) && !area.contains(0, 2));
    let edge = Rect { x: u16::MAX, y: 0, width: 5, height: 5 };
    assert!(!edge.contains(u16::MAX, 0));
}

#[test]
fn hints_that_can_be_clicked() {
    assert_eq!(segment_click(" <prefix> "), Some(HintClick::Arm));
    assert_eq!(segment_click("<prefix> t"), Some(HintClick::Leader('t')));
    assert_eq!(segment_click("<prefix> q"), None);
    assert_eq!(segment_click("<prefix> tt"), None);
    assert_eq!(segment_click("x"), Some(HintClick::Plain('x')));
    assert_eq!(segment_click("/"), Some(HintClick::Plain('/')));
    assert_eq!(segment_click("q"), None);
    assert_eq!(segment_click(""), None);
}

const LEGEND: &str = " <prefix> t: pane | q: quit | x: close";

#[test]
fn clickable_labels_are_inverted() {
    let spans = hint_spans(LEGEND, "^F", true);
    let shown: Vec<(&str, HintStyle)> =
        spans.iter().map(|s| (s.text.as_str(), s.style)).collect();
    assert_eq!(
        shown,
        [
            (" ", HintStyle::Dim),
            ("^F t: pane", HintStyle::Inverted),
            (" | ", HintStyle::Dim),
            ("q: quit", HintStyle::Dim),
            (" | ", HintStyle::Dim),
            ("x: close", HintStyle::Inverted),
        ]
    );
    let plain = hint_spans(LEGEND, "^F", false);
    assert!(plain.iter().all(|s| s.style == HintStyle::Dim));
}

fn bar() -> HintBar {
    HintBar {
        input: None,
        prefix_armed: false,
        awaiting_swap_target: false,
        fills_body: false,
        mouse_enabled: true,
        leader: "^F".into(),
        chip: " PREFIX ".into(),
        armed_text: " t: new | w: close".into(),
        normal_text: LEGEND.into(),
    }
}

fn row() -> Rect {
    Rect { x: 0, y: 9, width: 80, height: 1 }
}

#[test]
fn clicks_land_on_the_inverted_labels() {
    let at = |x: u16| hint_click_at(&bar(), row(), x, 9);
    assert_eq!(at(0), None);
    assert_eq!(at(1), Some(HintClick::Leader('t')));
    assert_eq!(at(10), Some(HintClick::Leader('t')));
    assert_eq!(at(11), None);
    assert_eq!(at(14), None);
    assert_eq!(at(24), Some(HintClick::Plain('x')));
    assert_eq!(at(31), Some(HintClick::Plain('x')));
    assert_eq!(at(32), None);
    assert_eq!(hint_click_at(&bar(), row(), 1, 8), None);
    assert_eq!(hint_click_at(&bar(), Rect { height: 0, ..row() }, 1, 9), None);
    assert_eq!(hint_click_at(&HintBar { mouse_enabled: false, ..bar() }, row(), 1, 9), None);
}

#[test]
fn the_armed_row_starts_behind_its_chip() {
    let armed = HintBar { prefix_armed: true, ..bar() };
    assert_eq!(hint_click_at(&armed, row(), 7, 9), None);
    assert_eq!(hint_click_at(&armed, row(), 8, 9), None);
    assert_eq!(hint_click_at(&armed, row(), 9, 9), Some(HintClick::Plain('t')));
    let spans = render_hint_bar(&armed, 80);
    assert_eq!((spans[0].text.as_str(), spans[0].style), (" PREFIX ", HintStyle::Chip));
}

#[test]
fn a_swap_asks_for_digits_and_takes_no_clicks() {
    let swap = HintBar { awaiting_swap_target: true, ..bar() };
    let spans = render_hint_bar(&swap, 80);
    assert_eq!(spans[0].text, " SWAP ");
    assert_eq!(spans[1].text, " 3-9,0: swap active pane with this pane | esc: cancel");
    let full = render_hint_bar(&HintBar { fills_body: true, ..swap }, 80);
    assert_eq!(full[1].text, " 1-8: swap active pane with this pane | esc: cancel");
    let swap = HintBar { awaiting_swap_target: true, ..bar() };
    assert_eq!(hint_click_at(&swap, row(), 1, 9), None);
    let normal = render_hint_bar(&bar(), 80);
    assert_eq!(normal.len(), 6);
}

#[test]
fn the_dialog_drops_its_keys_where_they_do_not_fit() {
    let input = RepoInput { buf: "/some/path".into(), picking: false };
    let roomy = repo_input_line(&input, 200);
    assert_eq!(roomy.len(), 4);
    assert_eq!(roomy[0].text, "repo: ");
    assert!(roomy[3].text.contains("tab: complete"));
    assert_eq!(repo_input_line(&input, 20).len(), 3);
    assert_eq!(repo_input_line(&input, 0).len(), 4);
    let exact = cells_of("repo: /some/path█") + cells_of(&roomy[3].text);
    assert_eq!(repo_input_line(&input, exact).len(), 4);
    assert_eq!(repo_input_line(&input, exact - 1).len(), 3);
    let picking = RepoInput { buf: String::new(), picking: true };
    assert!(repo_input_line(&picking, 0)[3].text.contains("enter: select"));
    let open = HintBar { input: Some(picking), prefix_armed: true, ..bar() };
    assert_eq!(render_hint_bar(&open, 0)[0].text, "repo: ");
    assert_eq!(hint_click_at(&open, row(), 9, 9), None);
}

#[test]
fn the_empty_screen_resolves_clicks_the_same_way() {
    let hints = EmptyHints {
        chip: " P ".into(),
        armed_text: "o: open | q: detach".into(),
        text: "<prefix> o: open".into(),
    };
    let click = |armed: bool, mouse: bool, x: u16| {
        empty_hint_click_at(&hints, row(), "^F", armed, mouse, x, 9)
    };
    assert_eq!(click(false, true, 0), Some(HintClick::Leader('o')));
    assert_eq!(click(true, true, 3), Some(HintClick::Plain('o')));
    assert_eq!(click(true, true, 2), None);
    assert_eq!(click(true, true, 14), None);
    assert_eq!(click(false, false, 0), None);
    assert_eq!(empty_hint_click_at(&hints, row(), "^F", false, true, 0, 0), None);
}

fn entry(name: &str, is_dir: bool) -> TreeEntry {
    TreeEntry { name: name.into(), is_dir }
}

fn tree() -> TreeView {
    let mut view = TreeView::default();
    view.cache.insert(String::new(), vec![entry("src", true), entry("a.md", false)]);
    view.cache.insert("src".into(), vec![entry("lib.rs", false)]);
    view
}

#[test]
fn rows_follow_what_is_expanded() {
    let mut view = tree();
    let names = |view: &TreeView| -> Vec<String> {
        view.visible_rows().into_iter().map(|r| r.path).collect()
    };
    assert_eq!(names(&view), ["src", "a.md"]);
    view.expanded.insert("src".into());
    assert_eq!(names(&view), ["src", "src/lib.rs", "a.md"]);
    assert_eq!(view.visible_rows()[1].depth, 1);
    view.selected = 1;
    assert_eq!(view.selected_path().as_deref(), Some("src/lib.rs"));
    view.clamp_selection(1);
    assert_eq!(view.selected, 0);
    view.clamp_selection(0);
    assert_eq!(view.selected, 0);
}

#[test]
fn a_filtered_tree_shows_matches_and_what_leads_to_them() {
    let mut view = tree();
    view.search_active = true;
    for (path, name_lower) in [("src", "src"), ("src/lib.rs", "lib.rs"), ("a.md", "a.md")] {
        view.index.push(TreeIndexEntry { path: path.into(), name_lower: name_lower.into() });
    }
    assert!(!view.search_filtering());
    view.search_query.push('L');
    view.search_query.push('i');
    view.recompute_filter();
    assert!(view.search_filtering());
    assert_eq!(view.match_count, 1);
    let rows: Vec<String> = view.visible_rows().into_iter().map(|r| r.path).collect();
    assert_eq!(rows, ["src", "src/lib.rs"]);
    view.cancel_search();
    assert!(!view.search_filtering());
    assert_eq!(view.visible_rows().len(), 2);
}

#[test]
fn a_filtered_tree_lists_exactly_the_matches_and_what_is_above_them() {
    let mut view = TreeView::default();
    let listings = [
        ("", vec![entry("docs", true), entry("src", true), entry("", false)]),
        ("docs", vec![entry("ui.md", false), entry("old", true)]),
        ("docs/old", vec![entry("a.md", false)]),
        ("src", vec![entry("ui", true), entry("lib.rs", false)]),
        ("src/ui", vec![entry("tab.rs", false), entry("UI.rs", false)]),
    ];
    for (dir, entries) in listings {
        for child in &entries {
            let path = if dir.is_empty() { child.name.clone() } else { format!("{dir}/{}", child.name) };
            view.index.push(TreeIndexEntry { path, name_lower: child.name.to_lowercase() });
        }
        view.cache.insert(dir.into(), entries);
    }
    view.search_active = true;
    view.search_query.push('U');
    view.search_query.push('i');
    view.recompute_filter();
    assert_eq!(view.match_count, 3);
    let rows = view.visible_rows();
    let paths: Vec<&str> = rows.iter().map(|r| r.path.as_str()).collect();
    assert_eq!(paths, ["docs", "docs/ui.md", "src", "src/ui", "src/ui/UI.rs"]);
    assert!(rows.iter().all(|r| r.expanded == r.is_dir));
    assert!(view.expanded.items.is_empty());
    view.cancel_search();
    let names: Vec<String> = view.visible_rows().into_iter().map(|r| r.name).collect();
    assert_eq!(names, ["docs", "src", ""]);
}

#[test]
fn paths_of_a_restored_session_stay_inside() {
    for path in ["a", "a/b", ".hidden", "a..b/c"] {
        assert!(is_safe_rel_path(path), "{path}");
    }
    for path in ["", "/a", "..", "a/../b", "../a"] {
        assert!(!is_safe_rel_path(path), "{path}");
    }
    assert_eq!(parent_path("a/b/c"), Some("a/b"));
    assert_eq!(parent_path("a"), None);
}
