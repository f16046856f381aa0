//! The project tab row across the top of the screen.
//!
//! One list of segments feeds both the drawing and the hit test, so that a
//! label and its click box can never disagree.

use crate::paths::{file_name, name_of, parse, parts_of};
use crate::text::{
    chars_of, decimal_text, decimal_usize, has_prefix, part_of, starts_with, string_of, texts,
};
use crate::ui::geometry::{capped_sum, cells, cells_of, Rect};
use vstd::prelude::*;

verus! {

/// Characters that a project's name may take in its tab.
pub const TAB_TITLE_MAX_CHARS: usize = 14;

/// Width reserved for a marker of hidden tabs.
pub const MARKER_WIDTH: u16 = 4;

/// At most `max` characters of `s`, with an ellipsis where something was cut.
pub open spec fn truncated(s: Seq<char>, max: nat) -> Seq<char> {
    if s.len() <= max {
        s
    } else if max == 0 {
        Seq::empty()
    } else {
        s.take(max - 1).push('…')
    }
}

/// At most `max` characters of `s`, with an ellipsis where something was cut.
pub fn truncate(s: &str, max: usize) -> (r: String)
    ensures
        r@ == truncated(s@, max as nat),
{
    let chars = chars_of(s);
    if chars.len() <= max {
        return s.to_owned();
    }
    if max == 0 {
        let none = String::new();
        proof {
            assert(none@ =~= Seq::<char>::empty());
        }
        return none;
    }
    let kept = part_of(&chars, 0, max - 1);
    let mut out = string_of(&kept);
    out.push('…');
    proof {
        assert(out@ =~= truncated(s@, max as nat));
    }
    out
}

/// What stands for a repository before it is cut to length: its path's last
/// component, or the whole where there is none.
pub open spec fn project_name(repo_path: Seq<char>) -> Seq<char> {
    match name_of(parts_of(repo_path)) {
        Some(name) => name,
        None => repo_path,
    }
}

/// The name shown for a repository.
pub open spec fn label_of(repo_path: Seq<char>) -> Seq<char> {
    if project_name(repo_path).len() == 0 {
        "?"@
    } else {
        truncated(project_name(repo_path), TAB_TITLE_MAX_CHARS as nat)
    }
}

/// The name shown for a repository.
pub fn tab_label(repo_path: &str) -> (r: String)
    ensures
        r@ == label_of(repo_path@),
{
    let name = match file_name(parse(repo_path).as_slice()) {
        Some(name) => name,
        None => repo_path.to_owned(),
    };
    if name.as_str().is_empty() {
        return "?".to_owned();
    }
    truncate(name.as_str(), TAB_TITLE_MAX_CHARS)
}

/// The text of the tab of the project `i`. The function key that selects it
/// stands in it, for the ten projects that have one.
pub open spec fn tab_text(i: int, repo_path: Seq<char>) -> Seq<char> {
    if i < 10 {
        " F"@ + decimal_text((i + 1) as nat) + " "@ + label_of(repo_path) + " "@
    } else {
        " "@ + label_of(repo_path) + " "@
    }
}

/// The text of every tab, however many will fit.
pub open spec fn all_tabs(repo_paths: Seq<Seq<char>>) -> Seq<Seq<char>> {
    Seq::new(repo_paths.len(), |i: int| tab_text(i, repo_paths[i]))
}

/// The text of every tab, however many will fit.
pub fn tab_texts(repo_paths: &[String]) -> (r: Vec<String>)
    ensures
        texts(r@) == all_tabs(texts(repo_paths@)),
{
    let ghost paths = texts(repo_paths@);
    let mut out: Vec<String> = Vec::new();
    let mut i: usize = 0;
    while i < repo_paths.len()
        invariant
            i <= repo_paths@.len(),
            paths == texts(repo_paths@),
            texts(out@) == all_tabs(paths).take(i as int),
        decreases repo_paths.len() - i,
    {
        let ghost before = texts(out@);
        let name = tab_label(repo_paths[i].as_str());
        let text = if i < 10 {
            " F".to_owned().concat(decimal_usize(i + 1).as_str()).concat(" ").concat(
                name.as_str(),
            ).concat(" ")
        } else {
            " ".to_owned().concat(name.as_str()).concat(" ")
        };
        proof {
            assert(text@ == tab_text(i as int, paths[i as int]));
        }
        out.push(text);
        proof {
            assert(texts(out@) =~= before.push(text@));
            assert(all_tabs(paths).take(i + 1) =~= all_tabs(paths).take(i as int).push(
                all_tabs(paths)[i as int],
            ));
        }
        i += 1;
    }
    proof {
        assert(all_tabs(paths).take(i as int) =~= all_tabs(paths));
    }
    out
}

/// The width of the tabs from `lo` up to `hi`.
pub open spec fn total(widths: Seq<u16>, lo: int, hi: int) -> nat
    decreases hi - lo,
{
    if hi <= lo {
        0
    } else {
        total(widths, lo, hi - 1) + widths[hi - 1] as nat
    }
}

proof fn lemma_total_front(widths: Seq<u16>, lo: int, hi: int)
    requires
        lo < hi,
    ensures
        total(widths, lo, hi) == widths[lo] + total(widths, lo + 1, hi),
    decreases hi - lo,
{
    reveal_with_fuel(total, 2);
    if lo + 1 < hi {
        lemma_total_front(widths, lo, hi - 1);
    }
}

/// The width of the tabs from `lo` up to `hi` with a marker on each side that
/// has something hidden behind it.
pub open spec fn cost(widths: Seq<u16>, lo: int, hi: int) -> nat {
    total(widths, lo, hi) + (if lo > 0 {
        MARKER_WIDTH as nat
    } else {
        0
    }) + (if hi < widths.len() {
        MARKER_WIDTH as nat
    } else {
        0
    })
}

/// Whether the tabs from `lo` up to `hi` fit in a row. In the widest row that
/// there is, everything does.
pub open spec fn row_fits(widths: Seq<u16>, width: u16, lo: int, hi: int) -> bool {
    width == u16::MAX || cost(widths, lo, hi) <= width
}

/// The tabs around those from `lo` up to `hi` that fit: one more on the right,
/// then one more on the left, as long as either fits.
pub open spec fn grown(widths: Seq<u16>, width: u16, lo: int, hi: int) -> (int, int)
    decreases lo + (widths.len() - hi),
{
    if 0 <= lo && hi <= widths.len() {
        let right = hi < widths.len() && row_fits(widths, width, lo, hi + 1);
        let hi1 = if right {
            hi + 1
        } else {
            hi
        };
        let left = lo > 0 && row_fits(widths, width, lo - 1, hi1);
        let lo1 = if left {
            lo - 1
        } else {
            lo
        };
        if right || left {
            grown(widths, width, lo1, hi1)
        } else {
            (lo, hi)
        }
    } else {
        (lo, hi)
    }
}

/// The active tab, or the last where there are not so many.
pub open spec fn active_of(n: nat, active: nat) -> int {
    if active < n {
        active as int
    } else {
        n - 1
    }
}

/// The tabs that are drawn.
pub open spec fn window_of(widths: Seq<u16>, width: u16, active: nat) -> (int, int) {
    if widths.len() == 0 {
        (0, 0)
    } else {
        let a = active_of(widths.len(), active);
        grown(widths, width, a, a + 1)
    }
}

fn fits(used: u128, lo: usize, hi: usize, n: usize, width: u16) -> (r: bool)
    requires
        used <= 0xffff * 0x1_0000_0000_0000_0000,
    ensures
        r == (width == u16::MAX || used + (if lo > 0 {
            MARKER_WIDTH as nat
        } else {
            0
        }) + (if hi < n {
            MARKER_WIDTH as nat
        } else {
            0
        }) <= width),
{
    let mut wanted: u128 = used;
    if lo > 0 {
        wanted = wanted + MARKER_WIDTH as u128;
    }
    if hi < n {
        wanted = wanted + MARKER_WIDTH as u128;
    }
    width == 0xffff || wanted <= width as u128
}

/// The run of tabs to draw in `width` cells, always with the active one in it.
///
/// The row scrolls around the active tab, because clipping it would hide later
/// projects and the highlight with them. What is left out is replaced by a
/// marker, whose width is reserved before it is decided what fits. It grows to
/// the right first, which in the common case shows the projects that follow.
pub fn visible_window(widths: &[u16], width: u16, active: usize) -> (r: (usize, usize))
    ensures
        r.0 == window_of(widths@, width, active as nat).0,
        r.1 == window_of(widths@, width, active as nat).1,
        r.0 <= r.1 <= widths@.len(),
{
    let n: usize = widths.len();
    if n == 0 {
        return (0, 0);
    }
    let start: usize = if active < n {
        active
    } else {
        n - 1
    };
    let mut lo: usize = start;
    let mut hi: usize = start + 1;
    let mut used: u128 = widths[start] as u128;
    proof {
        assert(total(widths@, start as int, start as int) == 0);
        assert(total(widths@, start as int, start + 1) == widths@[start as int] as nat);
    }
    loop
        invariant
            n == widths@.len(),
            n == widths.len(),
            lo < hi <= n,
            used == total(widths@, lo as int, hi as int),
            used <= 0xffff * (hi - lo),
            grown(widths@, width, lo as int, hi as int) == window_of(
                widths@,
                width,
                active as nat,
            ),
        decreases lo + (n - hi),
    {
        let mut grew = false;
        proof {
            assert(hi < n ==> total(widths@, lo as int, hi + 1) == used + widths@[hi as int]);
        }
        if hi < n && fits(used + widths[hi] as u128, lo, hi + 1, n, width) {
            used = used + widths[hi] as u128;
            hi = hi + 1;
            grew = true;
        }
        proof {
            if lo > 0 {
                lemma_total_front(widths@, lo - 1, hi as int);
            }
        }
        if lo > 0 && fits(used + widths[lo - 1] as u128, lo - 1, hi, n, width) {
            lo = lo - 1;
            used = used + widths[lo] as u128;
            grew = true;
        }
        if !grew {
            return (lo, hi);
        }
    }
}

/// A piece of the row, and the project that a click on it selects.
#[derive(Debug)]
pub struct Segment {
    pub text: String,
    pub index: usize,
}

#[verifier::ext_equal]
pub struct SegmentModel {
    pub text: Seq<char>,
    pub index: nat,
}

pub open spec fn segment_models(segments: Seq<Segment>) -> Seq<SegmentModel> {
    segments.map_values(
        |s: Segment| SegmentModel { text: s.text@, index: s.index as nat },
    )
}

/// The widths of texts.
pub open spec fn all_cells(tabs: Seq<Seq<char>>) -> Seq<u16> {
    tabs.map_values(|t: Seq<char>| cells(t))
}

/// What stands for `n` hidden tabs.
pub open spec fn marker_text(n: nat) -> Seq<char> {
    " +"@ + decimal_text(n) + " "@
}

/// The pieces of the row for tabs with these texts, of which those in `window`
/// are drawn. A marker selects the nearest project hidden on its side.
pub open spec fn segments_in(tabs: Seq<Seq<char>>, window: (int, int)) -> Seq<SegmentModel> {
    let (start, end) = window;
    let front = if start > 0 {
        seq![SegmentModel { text: marker_text(start as nat), index: (start - 1) as nat }]
    } else {
        Seq::empty()
    };
    let middle = Seq::new(
        (end - start) as nat,
        |k: int| SegmentModel { text: tabs[start + k], index: (start + k) as nat },
    );
    let back = if end < tabs.len() {
        seq![SegmentModel { text: marker_text((tabs.len() - end) as nat), index: end as nat }]
    } else {
        Seq::empty()
    };
    front + middle + back
}

/// The pieces of the row.
pub open spec fn segments_of(
    repo_paths: Seq<Seq<char>>,
    active: nat,
    width: u16,
) -> Seq<SegmentModel> {
    let tabs = all_tabs(repo_paths);
    segments_in(tabs, window_of(all_cells(tabs), width, active))
}

fn widths_of(tabs: &[String]) -> (r: Vec<u16>)
    ensures
        r@ == all_cells(texts(tabs@)),
{
    let ghost all = all_cells(texts(tabs@));
    let mut out: Vec<u16> = Vec::new();
    let mut i: usize = 0;
    while i < tabs.len()
        invariant
            i <= tabs@.len(),
            all == all_cells(texts(tabs@)),
            out@ == all.take(i as int),
        decreases tabs.len() - i,
    {
        out.push(cells_of(tabs[i].as_str()));
        proof {
            assert(all[i as int] == cells(tabs@[i as int]@));
            assert(all.take(i + 1) =~= all.take(i as int).push(all[i as int]));
        }
        i += 1;
    }
    proof {
        assert(all.take(i as int) =~= all);
    }
    out
}

fn marker(n: usize) -> (r: String)
    ensures
        r@ == marker_text(n as nat),
{
    " +".to_owned().concat(decimal_usize(n).as_str()).concat(" ")
}

/// The pieces of the row: what is drawn, with the project each one selects.
pub fn tab_segments(repo_paths: &[String], active: usize, width: u16) -> (r: Vec<Segment>)
    ensures
        segment_models(r@) == segments_of(texts(repo_paths@), active as nat, width),
{
    let tabs = tab_texts(repo_paths);
    let ghost all = texts(tabs@);
    let widths = widths_of(tabs.as_slice());
    let (start, end) = visible_window(widths.as_slice(), width, active);
    let ghost window = window_of(widths@, width, active as nat);
    let ghost expected = segments_in(all, window);
    let ghost front: int = if start > 0 {
        1
    } else {
        0
    };
    let mut out: Vec<Segment> = Vec::new();
    if start > 0 {
        out.push(Segment { text: marker(start), index: start - 1 });
    }
    proof {
        assert(segment_models(out@) =~= expected.take(front));
    }
    let mut i: usize = start;
    while i < end
        invariant
            start <= i <= end <= tabs@.len(),
            all == texts(tabs@),
            window == (start as int, end as int),
            expected == segments_in(all, window),
            front == if start > 0 {
                1int
            } else {
                0int
            },
            segment_models(out@) == expected.take(front + (i - start)),
        decreases end - i,
    {
        let ghost before = segment_models(out@);
        out.push(Segment { text: tabs[i].clone(), index: i });
        proof {
            let k = front + (i - start);
            assert(expected[k] == (SegmentModel { text: all[i as int], index: i as nat }));
            assert(all[i as int] == tabs@[i as int]@);
            assert(segment_models(out@) =~= before.push(expected[k]));
            assert(expected.take(k + 1) =~= expected.take(k).push(expected[k]));
        }
        i += 1;
    }
    let hidden_after: usize = tabs.len() - end;
    let ghost before = segment_models(out@);
    if hidden_after > 0 {
        out.push(Segment { text: marker(hidden_after), index: end });
        proof {
            assert(segment_models(out@) =~= before.push(
                SegmentModel { text: marker_text(hidden_after as nat), index: end as nat },
            ));
        }
    }
    proof {
        assert(segment_models(out@) =~= expected);
    }
    out
}

/// How a piece of the row is drawn.
#[derive(Debug, Clone, Copy, PartialEq, Eq, Structural)]
pub enum TabStyle {
    /// The active tab, in the accent colour.
    Active,
    /// Another tab.
    Plain,
    /// A marker of hidden tabs. It is never drawn as the active tab, so the
    /// accent always says which project this is.
    Marker,
}

/// How a piece of the row is drawn.
pub open spec fn style_of(segment: SegmentModel, active: nat) -> TabStyle {
    if has_prefix(segment.text, " +"@) {
        TabStyle::Marker
    } else if segment.index == active {
        TabStyle::Active
    } else {
        TabStyle::Plain
    }
}

/// How a piece of the row is drawn.
pub fn segment_style(segment: &Segment, active: usize) -> (r: TabStyle)
    ensures
        r == style_of(
            SegmentModel { text: segment.text@, index: segment.index as nat },
            active as nat,
        ),
{
    if starts_with(&chars_of(segment.text.as_str()), &chars_of(" +")) {
        TabStyle::Marker
    } else if segment.index == active {
        TabStyle::Active
    } else {
        TabStyle::Plain
    }
}

/// The row as it is drawn: each piece's text and style.
pub fn render(repo_paths: &[String], active: usize, width: u16) -> (r: Vec<(String, TabStyle)>)
    ensures
        ({
            let segments = segments_of(texts(repo_paths@), active as nat, width);
            &&& r@.len() == segments.len()
            &&& forall|i: int|
                0 <= i < r@.len() ==> (#[trigger] r@[i]).0@ == segments[i].text && r@[i].1
                    == style_of(segments[i], active as nat)
        }),
{
    let segments = tab_segments(repo_paths, active, width);
    let ghost all = segment_models(segments@);
    let mut out: Vec<(String, TabStyle)> = Vec::new();
    let mut i: usize = 0;
    while i < segments.len()
        invariant
            i <= segments@.len(),
            all == segment_models(segments@),
            out@.len() == i,
            forall|k: int|
                0 <= k < i ==> (#[trigger] out@[k]).0@ == all[k].text && out@[k].1 == style_of(
                    all[k],
                    active as nat,
                ),
        decreases segments.len() - i,
    {
        out.push((segments[i].text.clone(), segment_style(&segments[i], active)));
        i += 1;
    }
    out
}

/// What a click at the column `x` selects where the pieces start at `cursor`.
pub open spec fn hit(segments: Seq<SegmentModel>, cursor: u16, x: u16) -> Option<nat>
    decreases segments.len(),
{
    if segments.len() == 0 {
        None
    } else {
        let end = capped_sum(cursor, cells(segments[0].text));
        if x < end {
            Some(segments[0].index)
        } else {
            hit(segments.skip(1), end, x)
        }
    }
}

/// What a click at a cell selects in a row at `area`.
pub open spec fn project_at(
    repo_paths: Seq<Seq<char>>,
    active: nat,
    area: Rect,
    x: u16,
    y: u16,
) -> Option<nat> {
    if area.height == 0 || area.width == 0 || y != area.y || x < area.x {
        None
    } else {
        hit(segments_of(repo_paths, active, area.width), area.x, x)
    }
}

/// The project that a click at a cell selects, or `None` off the row or past
/// the last tab. On a screen too short for the row it has no height, nothing is
/// drawn and nothing is hit.
pub fn tab_at(repo_paths: &[String], active: usize, area: Rect, x: u16, y: u16) -> (r: Option<
    usize,
>)
    ensures
        match r {
            Some(i) => project_at(texts(repo_paths@), active as nat, area, x, y) == Some(i as nat),
            None => project_at(texts(repo_paths@), active as nat, area, x, y) is None,
        },
{
    if area.height == 0 || area.width == 0 || y != area.y || x < area.x {
        return None;
    }
    let segments = tab_segments(repo_paths, active, area.width);
    let ghost all = segment_models(segments@);
    let mut cursor: u16 = area.x;
    let mut i: usize = 0;
    proof {
        assert(all.skip(0) =~= all);
    }
    while i < segments.len()
        invariant
            i <= segments@.len(),
            all == segment_models(segments@),
            project_at(texts(repo_paths@), active as nat, area, x, y) == hit(
                all.skip(i as int),
                cursor,
                x,
            ),
        decreases segments.len() - i,
    {
        let width: u16 = cells_of(segments[i].text.as_str());
        proof {
            assert(all.skip(i as int)[0] == all[i as int]);
            assert(all.skip(i as int).skip(1) =~= all.skip(i + 1));
        }
        if x < cursor.saturating_add(width) {
            return Some(segments[i].index);
        }
        cursor = cursor.saturating_add(width);
        i += 1;
    }
    None
}

proof fn lemma_grown(widths: Seq<u16>, width: u16, lo: int, hi: int)
    requires
        0 <= lo < hi <= widths.len(),
    ensures
        ({
            let (start, end) = grown(widths, width, lo, hi);
            &&& 0 <= start <= lo
            &&& hi <= end <= widths.len()
            &&& (start, end) == (lo, hi) || row_fits(widths, width, start, end)
            &&& end < widths.len() ==> !row_fits(widths, width, start, end + 1)
            &&& start > 0 ==> !row_fits(widths, width, start - 1, end)
        }),
    decreases lo + (widths.len() - hi),
{
    let right = hi < widths.len() && row_fits(widths, width, lo, hi + 1);
    let hi1 = if right {
        hi + 1
    } else {
        hi
    };
    let left = lo > 0 && row_fits(widths, width, lo - 1, hi1);
    let lo1 = if left {
        lo - 1
    } else {
        lo
    };
    if right || left {
        lemma_grown(widths, width, lo1, hi1);
    }
}

/// The active tab is always drawn, however narrow the row; a number past the
/// last tab stands for the last.
pub proof fn law_active_tab_is_visible(widths: Seq<u16>, width: u16, active: nat)
    requires
        widths.len() > 0,
    ensures
        ({
            let (start, end) = window_of(widths, width, active);
            0 <= start <= active_of(widths.len(), active) < end <= widths.len()
        }),
{
    let a = active_of(widths.len(), active);
    lemma_grown(widths, width, a, a + 1);
}

/// At `MARKER_WIDTH` cells for each marker, what is drawn fits, unless the active
/// tab alone does not.
pub proof fn law_row_is_not_clipped(widths: Seq<u16>, width: u16, active: nat)
    requires
        widths.len() > 0,
    ensures
        ({
            let (start, end) = window_of(widths, width, active);
            row_fits(widths, width, start, end) || end == start + 1
        }),
{
    let a = active_of(widths.len(), active);
    lemma_grown(widths, width, a, a + 1);
}

/// No room is wasted: a tab that is left out next to those drawn would not have
/// fitted.
pub proof fn law_row_is_full(widths: Seq<u16>, width: u16, active: nat)
    requires
        widths.len() > 0,
    ensures
        ({
            let (start, end) = window_of(widths, width, active);
            &&& end < widths.len() ==> !row_fits(widths, width, start, end + 1)
            &&& start > 0 ==> !row_fits(widths, width, start - 1, end)
        }),
{
    let a = active_of(widths.len(), active);
    lemma_grown(widths, width, a, a + 1);
}

/// Every piece of the row selects a project that there is; a marker selects the
/// nearest one that is hidden on its side.
pub proof fn law_every_piece_selects_a_project(
    repo_paths: Seq<Seq<char>>,
    active: nat,
    width: u16,
    k: int,
)
    requires
        0 <= k < segments_of(repo_paths, active, width).len(),
    ensures
        segments_of(repo_paths, active, width)[k].index < repo_paths.len(),
        ({
            let tabs = all_tabs(repo_paths);
            let (start, end) = window_of(all_cells(tabs), width, active);
            let segments = segments_of(repo_paths, active, width);
            &&& start > 0 ==> segments[0].index == start - 1
            &&& end < tabs.len() ==> segments.last().index == end
        }),
{
    let widths = all_cells(all_tabs(repo_paths));
    if widths.len() > 0 {
        law_active_tab_is_visible(widths, width, active);
    }
}

/// Where the piece `k` starts, seen from the left end of the row.
pub open spec fn left_edge(segments: Seq<SegmentModel>, k: int) -> nat
    decreases k,
{
    if k <= 0 {
        0
    } else {
        left_edge(segments, k - 1) + cells(segments[k - 1].text) as nat
    }
}

proof fn lemma_left_edge_skip(segments: Seq<SegmentModel>, k: int)
    requires
        0 < k <= segments.len(),
    ensures
        left_edge(segments, k) == cells(segments[0].text) + left_edge(segments.skip(1), k - 1),
    decreases k,
{
    reveal_with_fuel(left_edge, 2);
    if k > 1 {
        lemma_left_edge_skip(segments, k - 1);
        assert(segments.skip(1)[k - 2] == segments[k - 1]);
    }
}

/// A label and its click box agree: a click on any cell that a piece is drawn
/// in selects that piece's project.
pub proof fn law_click_selects_what_is_drawn(
    segments: Seq<SegmentModel>,
    cursor: u16,
    k: int,
    x: u16,
)
    requires
        0 <= k < segments.len(),
        cursor + left_edge(segments, k) <= x < cursor + left_edge(segments, k) + cells(
            segments[k].text,
        ),
        cursor + left_edge(segments, k) + cells(segments[k].text) <= u16::MAX,
    ensures
        hit(segments, cursor, x) == Some(segments[k].index),
    decreases k,
{
    if k > 0 {
        lemma_left_edge_skip(segments, k);
        let width = cells(segments[0].text);
        let rest = segments.skip(1);
        assert(rest[k - 1] == segments[k]);
        assert(capped_sum(cursor, width) == cursor + width);
        law_click_selects_what_is_drawn(rest, (cursor + width) as u16, k - 1, x);
    }
}

/// A title of up to fourteen characters is shown whole; of a longer one the
/// first thirteen are, and an ellipsis. A project without a name is shown as a
/// question mark.
pub proof fn law_long_titles_are_cut(repo_path: Seq<char>)
    ensures
        ({
            let name = project_name(repo_path);
            let label = label_of(repo_path);
            &&& name.len() == 0 ==> label == seq!['?']
            &&& 0 < name.len() <= 14 ==> label == name
            &&& name.len() > 14 ==> label.len() == 14 && label.take(13) == name.take(13)
                && label[13] == '…'
        }),
{
    reveal_strlit("?");
    assert("?"@ =~= seq!['?']);
    let name = project_name(repo_path);
    if name.len() > 14 {
        assert(label_of(repo_path).take(13) =~= name.take(13));
    }
}

/// A text that is cut keeps its beginning and ends in an ellipsis, and is as
/// long as it may be.
pub proof fn law_cut_texts_end_in_an_ellipsis(s: Seq<char>, max: nat)
    ensures
        s.len() <= max ==> truncated(s, max) == s,
        s.len() > max ==> truncated(s, max).len() == max,
        s.len() > max > 0 ==> truncated(s, max).last() == '…' && truncated(s, max).drop_last()
            == s.take(max - 1),
{
    if s.len() > max && max > 0 {
        assert(truncated(s, max).drop_last() =~= s.take(max - 1));
    }
}

/// The first ten tabs show the function key that switches to them before their
/// label, the others the label alone, between spaces.
pub proof fn law_tabs_show_their_key(i: int, repo_path: Seq<char>)
    requires
        0 <= i,
    ensures
        i < 10 ==> tab_text(i, repo_path) == seq![' ', 'F'] + decimal_text((i + 1) as nat) + seq![
            ' ',
        ] + label_of(repo_path) + seq![' '],
        i >= 10 ==> tab_text(i, repo_path) == seq![' '] + label_of(repo_path) + seq![' '],
{
    reveal_strlit(" F");
    reveal_strlit(" ");
    assert(" F"@ =~= seq![' ', 'F']);
    assert(" "@ =~= seq![' ']);
}

/// What a row of tabs takes up: the tabs, and four cells for each side on which
/// some are hidden.
pub proof fn law_hidden_tabs_cost_a_marker(widths: Seq<u16>, width: u16, lo: int, hi: int)
    requires
        0 <= lo <= hi <= widths.len(),
    ensures
        row_fits(widths, width, lo, hi) <==> width == u16::MAX || total(widths, lo, hi) + (if lo
            > 0 {
            4int
        } else {
            0int
        }) + (if hi < widths.len() {
            4int
        } else {
            0int
        }) <= width,
        lo < hi ==> total(widths, lo, hi) == total(widths, lo, hi - 1) + widths[hi - 1],
        total(widths, lo, lo) == 0,
{
}

/// The tabs shown grow from the active one by turns, one to the right and one
/// to the left, each where it still fits, until neither does.
pub proof fn law_the_row_grows_to_both_sides(widths: Seq<u16>, width: u16, lo: int, hi: int)
    requires
        0 <= lo <= hi <= widths.len(),
    ensures
        ({
            let right = hi < widths.len() && row_fits(widths, width, lo, hi + 1);
            let left_after = lo > 0 && row_fits(widths, width, lo - 1, hi + 1);
            let left_alone = lo > 0 && row_fits(widths, width, lo - 1, hi);
            &&& right && left_after ==> grown(widths, width, lo, hi) == grown(
                widths,
                width,
                lo - 1,
                hi + 1,
            )
            &&& right && !left_after ==> grown(widths, width, lo, hi) == grown(
                widths,
                width,
                lo,
                hi + 1,
            )
            &&& !right && left_alone ==> grown(widths, width, lo, hi) == grown(
                widths,
                width,
                lo - 1,
                hi,
            )
            &&& !right && !left_alone ==> grown(widths, width, lo, hi) == (lo, hi)
        }),
        widths.len() > 0 ==> forall|active: nat|
            #![trigger window_of(widths, width, active)]
            window_of(widths, width, active) == if active < widths.len() {
                grown(widths, width, active as int, active as int + 1)
            } else {
                grown(widths, width, widths.len() - 1, widths.len() as int)
            },
{
}

/// The row shows how many tabs are hidden before it, the tabs of its window in
/// order, and how many are hidden behind it. A marker selects the nearest hidden
/// tab, a tab itself.
pub proof fn law_the_row_shows_its_window(tabs: Seq<Seq<char>>, start: int, end: int, k: int)
    requires
        0 <= start <= end <= tabs.len(),
        0 <= k < end - start,
    ensures
        ({
            let row = segments_in(tabs, (start, end));
            let front = if start > 0 {
                1int
            } else {
                0int
            };
            let back = if end < tabs.len() {
                1int
            } else {
                0int
            };
            &&& row.len() == front + (end - start) + back
            &&& row[front + k].text == tabs[start + k]
            &&& row[front + k].index == start + k
            &&& start > 0 ==> row[0].text == seq![' ', '+'] + decimal_text(start as nat) + seq![
                ' ',
            ] && row[0].index == start - 1
            &&& end < tabs.len() ==> row.last().text == seq![' ', '+'] + decimal_text(
                (tabs.len() - end) as nat,
            ) + seq![' '] && row.last().index == end
        }),
{
    reveal_strlit(" +");
    reveal_strlit(" ");
    assert(" +"@ =~= seq![' ', '+']);
    assert(" "@ =~= seq![' ']);
}

/// A click selects a project only on the row of the tabs and from its left edge
/// on.
pub proof fn law_clicks_beside_the_row_select_nothing(
    repo_paths: Seq<Seq<char>>,
    active: nat,
    area: Rect,
    x: u16,
    y: u16,
)
    ensures
        y != area.y || x < area.x || area.height == 0 || area.width == 0 ==> project_at(
            repo_paths,
            active,
            area,
            x,
            y,
        ) is None,
        y == area.y && x >= area.x && area.height > 0 && area.width > 0 ==> project_at(
            repo_paths,
            active,
            area,
            x,
            y,
        ) == hit(segments_of(repo_paths, active, area.width), area.x, x),
{
}

/// A marker is drawn as one whichever tab it selects; of the tabs the active one
/// stands out.
pub proof fn law_the_active_tab_stands_out(segment: SegmentModel, active: nat)
    ensures
        ({
            let marker = segment.text.len() >= 2 && segment.text[0] == ' ' && segment.text[1]
                == '+';
            &&& marker <==> style_of(segment, active) is Marker
            &&& !marker && segment.index == active <==> style_of(segment, active) is Active
            &&& !marker && segment.index != active <==> style_of(segment, active) is Plain
        }),
{
    reveal_strlit(" +");
    if segment.text.len() >= 2 {
        let head = segment.text.subrange(0, 2);
        assert(head[0] == segment.text[0] && head[1] == segment.text[1]);
        if segment.text[0] == ' ' && segment.text[1] == '+' {
            assert(head =~= " +"@);
        }
        if head == " +"@ {
            assert(" +"@[0] == ' ' && " +"@[1] == '+');
        }
    }
}

} // verus!
