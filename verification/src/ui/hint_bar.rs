//! The row of key hints at the bottom, and what a click on it stands for.

use crate::text::{
    chars_of, find_char, first_index, has_prefix, part_of, pieces_by, replace_sub, replaced,
    same_text, split_sub, starts_with, string_of, texts, trim, trim_start, trim_start_text,
    trim_text,
};
use crate::ui::geometry::{cells, cells_of, display_width, text_width, Rect};
use vstd::prelude::*;

verus! {

/// What a click on a hint stands for.
#[derive(Debug, Clone, Copy, PartialEq, Eq, Structural)]
pub enum HintClick {
    /// Pressing the leader.
    Arm,
    /// Pressing the leader and then this key.
    Leader(char),
    /// Pressing this key.
    Plain(char),
}

/// The keys that a hint with the leader before them can be clicked for.
pub open spec fn leader_key(c: char) -> bool {
    c == 't' || c == 'w' || c == 'f' || c == 'l' || c == 'b' || c == 'o'
}

/// The keys that a hint on its own can be clicked for.
pub open spec fn plain_key(c: char) -> bool {
    c == 't' || c == 'w' || c == 's' || c == 'l' || c == 'b' || c == 'f' || c == 'o' || c == 'x'
        || c == 'p' || c == 'r' || c == 'v' || c == '/'
}

/// What a click on a hint for the key `keyspec` stands for.
pub open spec fn click_of(keyspec: Seq<char>) -> Option<HintClick> {
    let spec = trim_text(keyspec);
    if spec == "<prefix>"@ {
        Some(HintClick::Arm)
    } else if has_prefix(spec, "<prefix> "@) {
        if spec.len() == 10 && leader_key(spec[9]) {
            Some(HintClick::Leader(spec[9]))
        } else {
            None
        }
    } else if spec.len() == 1 && plain_key(spec[0]) {
        Some(HintClick::Plain(spec[0]))
    } else {
        None
    }
}

/// What a click on a hint for the key `keyspec` stands for.
pub fn segment_click(keyspec: &str) -> (r: Option<HintClick>)
    ensures
        r == click_of(keyspec@),
{
    let spec = trim(&chars_of(keyspec));
    let text = string_of(&spec);
    if same_text(text.as_str(), "<prefix>") {
        return Some(HintClick::Arm);
    }
    proof {
        reveal_strlit("<prefix> ");
    }
    if starts_with(&spec, &chars_of("<prefix> ")) {
        if spec.len() == 10 {
            let c: char = spec[9];
            if c == 't' || c == 'w' || c == 'f' || c == 'l' || c == 'b' || c == 'o' {
                return Some(HintClick::Leader(c));
            }
        }
        return None;
    }
    if spec.len() == 1 {
        let c: char = spec[0];
        if c == 't' || c == 'w' || c == 's' || c == 'l' || c == 'b' || c == 'f' || c == 'o' || c
            == 'x' || c == 'p' || c == 'r' || c == 'v' || c == '/' {
            return Some(HintClick::Plain(c));
        }
    }
    None
}

/// What a click on a segment stands for: its key is what stands before the
/// first colon.
pub open spec fn click_on(segment: Seq<char>) -> Option<HintClick> {
    match first_index(segment, ':') {
        Some(i) => click_of(segment.take(i)),
        None => None,
    }
}

fn click_of_segment(segment: &str) -> (r: Option<HintClick>)
    ensures
        r == click_on(segment@),
{
    let chars = chars_of(segment);
    match find_char(&chars, ':') {
        Some(i) => {
            let key = part_of(&chars, 0, i);
            proof {
                assert(key@ =~= segment@.take(i as int));
            }
            segment_click(string_of(&key).as_str())
        },
        None => None,
    }
}

/// How a span of the row is drawn.
#[derive(Debug, Clone, Copy, PartialEq, Eq, Structural)]
pub enum HintStyle {
    /// In a dim colour.
    Dim,
    /// The same inverted, which says that it can be clicked.
    Inverted,
    /// In the accent colour.
    Accent,
    /// As plain text.
    Plain,
    /// Bold on the accent colour.
    Chip,
}

/// A span of the row.
#[derive(Debug)]
pub struct HintSpan {
    pub text: String,
    pub style: HintStyle,
}

#[verifier::ext_equal]
pub struct SpanModel {
    pub text: Seq<char>,
    pub style: HintStyle,
}

pub open spec fn span_models(spans: Seq<HintSpan>) -> Seq<SpanModel> {
    spans.map_values(|s: HintSpan| SpanModel { text: s.text@, style: s.style })
}

/// A segment with the leader's own name in it.
pub open spec fn shown_text(segment: Seq<char>, leader: Seq<char>) -> Seq<char> {
    replaced(segment, "<prefix>"@, leader)
}

fn show_text(segment: &str, leader: &str) -> (r: String)
    ensures
        r@ == shown_text(segment@, leader@),
{
    proof {
        reveal_strlit("<prefix>");
    }
    replace_sub(&chars_of(segment), &chars_of("<prefix>"), leader)
}

/// How many characters of white space `s` starts with.
pub open spec fn lead_len(s: Seq<char>) -> int {
    s.len() - trim_start_text(s).len()
}

proof fn lemma_lead_len(s: Seq<char>)
    ensures
        0 <= lead_len(s) <= s.len(),
    decreases s.len(),
{
    if s.len() > 0 && crate::text::is_space(s[0]) {
        lemma_lead_len(s.skip(1));
    }
}

fn lead_of(chars: &[char]) -> (r: usize)
    ensures
        r == lead_len(chars@),
        r <= chars@.len(),
{
    proof {
        lemma_lead_len(chars@);
    }
    chars.len() - trim_start(chars).len()
}

/// The spans of one segment. A whole label that can be clicked is inverted, but
/// not the white space before it.
pub open spec fn segment_spans(segment: Seq<char>, leader: Seq<char>, mark: bool) -> Seq<
    SpanModel,
> {
    let text = shown_text(segment, leader);
    if mark && click_on(segment) is Some {
        let k = lead_len(text);
        let label = SpanModel { text: text.skip(k), style: HintStyle::Inverted };
        if k > 0 {
            seq![SpanModel { text: text.take(k), style: HintStyle::Dim }, label]
        } else {
            seq![label]
        }
    } else {
        seq![SpanModel { text, style: HintStyle::Dim }]
    }
}

/// The spans of the first `n` segments, with separators between them.
pub open spec fn spans_of(segments: Seq<Seq<char>>, leader: Seq<char>, mark: bool, n: int) -> Seq<
    SpanModel,
>
    decreases n,
{
    if n <= 0 {
        Seq::empty()
    } else {
        spans_of(segments, leader, mark, n - 1) + (if n > 1 {
            seq![SpanModel { text: " | "@, style: HintStyle::Dim }]
        } else {
            Seq::empty()
        }) + segment_spans(segments[n - 1], leader, mark)
    }
}

/// The spans of a legend.
pub open spec fn legend_spans(text: Seq<char>, leader: Seq<char>, mark: bool) -> Seq<SpanModel> {
    let segments = pieces_by(text, " | "@);
    spans_of(segments, leader, mark, segments.len() as int)
}

fn push_segment(out: &mut Vec<HintSpan>, segment: &str, leader: &str, mark: bool)
    ensures
        span_models(final(out)@) == span_models(old(out)@) + segment_spans(
            segment@,
            leader@,
            mark,
        ),
{
    let ghost before = span_models(out@);
    let text = show_text(segment, leader);
    let clickable = mark && click_of_segment(segment).is_some();
    if clickable {
        let chars = chars_of(text.as_str());
        let k: usize = lead_of(&chars);
        if k > 0 {
            let lead = part_of(&chars, 0, k);
            proof {
                assert(lead@ =~= text@.take(k as int));
            }
            out.push(HintSpan { text: string_of(&lead), style: HintStyle::Dim });
        }
        let label = part_of(&chars, k, chars.len());
        proof {
            assert(label@ =~= text@.skip(k as int));
        }
        out.push(HintSpan { text: string_of(&label), style: HintStyle::Inverted });
    } else {
        out.push(HintSpan { text, style: HintStyle::Dim });
    }
    proof {
        assert(span_models(out@) =~= before + segment_spans(segment@, leader@, mark));
    }
}

fn push_span(out: &mut Vec<HintSpan>, text: String, style: HintStyle)
    ensures
        span_models(final(out)@) == span_models(old(out)@).push(
            SpanModel { text: text@, style },
        ),
{
    let ghost before = span_models(out@);
    let ghost pushed = SpanModel { text: text@, style };
    out.push(HintSpan { text, style });
    proof {
        assert(span_models(out@) =~= before.push(pushed));
    }
}

/// The spans of a legend, with every segment that can be clicked inverted, so
/// that the row itself shows which hints respond. `mark_clickable` says whether
/// the mouse is on.
pub fn hint_spans(text: &str, leader: &str, mark_clickable: bool) -> (r: Vec<HintSpan>)
    ensures
        span_models(r@) == legend_spans(text@, leader@, mark_clickable),
{
    proof {
        reveal_strlit(" | ");
    }
    let segments = split_sub(&chars_of(text), &chars_of(" | "));
    let ghost all = texts(segments@);
    let mut out: Vec<HintSpan> = Vec::new();
    let mut i: usize = 0;
    proof {
        assert(span_models(out@) =~= Seq::<SpanModel>::empty());
    }
    while i < segments.len()
        invariant
            i <= segments@.len(),
            all == texts(segments@),
            span_models(out@) == spans_of(all, leader@, mark_clickable, i as int),
        decreases segments.len() - i,
    {
        let ghost before = span_models(out@);
        if i > 0 {
            push_span(&mut out, " | ".to_owned(), HintStyle::Dim);
        }
        push_segment(&mut out, segments[i].as_str(), leader, mark_clickable);
        proof {
            assert(all[i as int] == segments@[i as int]@);
            assert(span_models(out@) =~= spans_of(all, leader@, mark_clickable, i + 1));
        }
        i += 1;
    }
    out
}

/// The dialog that asks for a repository.
#[derive(Debug)]
pub struct RepoInput {
    pub buf: String,
    /// Whether directories are being picked from a list.
    pub picking: bool,
}

/// The keys of the dialog.
pub open spec fn input_legend(picking: bool) -> Seq<char> {
    if picking {
        "  ↓↑/jk: move | →: open | ←: up | enter: select | esc: back"@
    } else {
        "  ↓: browse | tab: complete | enter: open | esc: cancel"@
    }
}

/// Whether the keys of the dialog fit behind its text. A width of 0 is unknown,
/// and keeps them.
pub open spec fn legend_fits(input: RepoInput, width: u16) -> bool {
    width == 0 || display_width("repo: "@) + display_width(input.buf@) + display_width("█"@)
        + display_width(input_legend(input.picking)) <= width
}

/// The dialog's line: the prompt, the text, the caret, and the keys where they
/// fit.
pub open spec fn input_spans(input: RepoInput, width: u16) -> Seq<SpanModel> {
    let line = seq![
        SpanModel { text: "repo: "@, style: HintStyle::Accent },
        SpanModel { text: input.buf@, style: HintStyle::Plain },
        SpanModel { text: "█"@, style: HintStyle::Accent },
    ];
    if legend_fits(input, width) {
        line.push(SpanModel { text: input_legend(input.picking), style: HintStyle::Dim })
    } else {
        line
    }
}

/// The dialog's line. Its keys are dropped whole where the path leaves no room
/// for them, rather than clipped: the caret has to stay visible.
pub fn repo_input_line(input: &RepoInput, width: u16) -> (r: Vec<HintSpan>)
    ensures
        span_models(r@) == input_spans(*input, width),
{
    let legend = if input.picking {
        "  ↓↑/jk: move | →: open | ←: up | enter: select | esc: back"
    } else {
        "  ↓: browse | tab: complete | enter: open | esc: cancel"
    };
    let mut out: Vec<HintSpan> = Vec::new();
    push_span(&mut out, "repo: ".to_owned(), HintStyle::Accent);
    push_span(&mut out, input.buf.clone(), HintStyle::Plain);
    push_span(&mut out, "█".to_owned(), HintStyle::Accent);
    let used: u128 = text_width("repo: ") as u128 + text_width(input.buf.as_str()) as u128
        + text_width("█") as u128;
    if width == 0 || used + text_width(legend) as u128 <= width as u128 {
        push_span(&mut out, legend.to_owned(), HintStyle::Dim);
    }
    proof {
        assert(span_models(out@) =~= input_spans(*input, width));
    }
    out
}

/// What the row of hints is drawn from.
#[derive(Debug)]
pub struct HintBar {
    /// The dialog, while it is open.
    pub input: Option<RepoInput>,
    pub prefix_armed: bool,
    pub awaiting_swap_target: bool,
    /// Whether the terminal fills the body.
    pub fills_body: bool,
    pub mouse_enabled: bool,
    /// How the leader is shown.
    pub leader: String,
    /// What is shown before the legend while the leader is armed.
    pub chip: String,
    /// The legend while the leader is armed.
    pub armed_text: String,
    /// The legend at other times.
    pub normal_text: String,
}

/// The spans while a pane to swap with is asked for. The digits follow the same
/// mapping as the jumps to a pane.
pub open spec fn swap_spans(fills_body: bool) -> Seq<SpanModel> {
    seq![
        SpanModel { text: " SWAP "@, style: HintStyle::Chip },
        SpanModel {
            text: " "@ + (if fills_body {
                "1-8"@
            } else {
                "3-9,0"@
            }) + ": swap active pane with this pane | esc: cancel"@,
            style: HintStyle::Dim,
        },
    ]
}

/// The row of hints.
pub open spec fn bar_spans(bar: HintBar, width: u16) -> Seq<SpanModel> {
    match bar.input {
        Some(input) => input_spans(input, width),
        None => if bar.prefix_armed {
            seq![SpanModel { text: bar.chip@, style: HintStyle::Chip }] + legend_spans(
                bar.armed_text@,
                bar.leader@,
                bar.mouse_enabled,
            )
        } else if bar.awaiting_swap_target {
            swap_spans(bar.fills_body)
        } else {
            legend_spans(bar.normal_text@, bar.leader@, bar.mouse_enabled)
        },
    }
}

/// The row of hints: the dialog where it is open, else the armed leader's keys,
/// else the question which pane to swap with, else the ordinary legend.
pub fn render_hint_bar(bar: &HintBar, width: u16) -> (r: Vec<HintSpan>)
    ensures
        span_models(r@) == bar_spans(*bar, width),
{
    if let Some(input) = &bar.input {
        return repo_input_line(input, width);
    }
    if bar.prefix_armed {
        let mut out: Vec<HintSpan> = Vec::new();
        push_span(&mut out, bar.chip.clone(), HintStyle::Chip);
        let mut legend = hint_spans(
            bar.armed_text.as_str(),
            bar.leader.as_str(),
            bar.mouse_enabled,
        );
        let ghost chip = span_models(out@);
        let ghost rest = span_models(legend@);
        out.append(&mut legend);
        proof {
            assert(span_models(out@) =~= chip + rest);
            assert(chip =~= seq![SpanModel { text: bar.chip@, style: HintStyle::Chip }]);
        }
        return out;
    }
    if bar.awaiting_swap_target {
        let digits = if bar.fills_body {
            "1-8"
        } else {
            "3-9,0"
        };
        let mut out: Vec<HintSpan> = Vec::new();
        push_span(&mut out, " SWAP ".to_owned(), HintStyle::Chip);
        let text = " ".to_owned().concat(digits).concat(
            ": swap active pane with this pane | esc: cancel",
        );
        push_span(&mut out, text, HintStyle::Dim);
        proof {
            assert(span_models(out@) =~= swap_spans(bar.fills_body));
        }
        return out;
    }
    hint_spans(bar.normal_text.as_str(), bar.leader.as_str(), bar.mouse_enabled)
}

/// What a click at the column `x` stands for among segments, of which the first
/// starts at `cursor`, behind a separator unless it is the first of the row.
pub open spec fn click_among(
    segments: Seq<Seq<char>>,
    leader: Seq<char>,
    cursor: nat,
    first: bool,
    x: nat,
) -> Option<HintClick>
    decreases segments.len(),
{
    if segments.len() == 0 {
        None
    } else {
        let start = cursor + (if first {
            0nat
        } else {
            cells(" | "@) as nat
        });
        let text = shown_text(segments[0], leader);
        if start <= x < start + cells(text) {
            if x < start + cells(text.take(lead_len(text))) {
                None
            } else {
                click_on(segments[0])
            }
        } else {
            click_among(segments.skip(1), leader, start + cells(text) as nat, false, x)
        }
    }
}

/// What a click at the column `x` stands for in a row at `area`, with `chip`
/// before the legend `text`.
pub open spec fn click_in_row(
    chip: Seq<char>,
    text: Seq<char>,
    leader: Seq<char>,
    area: Rect,
    x: u16,
) -> Option<HintClick> {
    click_among(
        pieces_by(text, " | "@),
        leader,
        (area.x + cells(chip)) as nat,
        true,
        x as nat,
    )
}

fn row_click(chip: &str, text: &str, leader: &str, area: Rect, x: u16) -> (r: Option<HintClick>)
    ensures
        r == click_in_row(chip@, text@, leader@, area, x),
{
    proof {
        reveal_strlit(" | ");
    }
    let segments = split_sub(&chars_of(text), &chars_of(" | "));
    let ghost all = texts(segments@);
    let gap: u128 = cells_of(" | ") as u128;
    let at: u128 = x as u128;
    let mut cursor: u128 = area.x as u128 + cells_of(chip) as u128;
    let mut i: usize = 0;
    proof {
        assert(all.skip(0) =~= all);
    }
    while i < segments.len()
        invariant
            i <= segments@.len(),
            segments@.len() == segments.len(),
            all == texts(segments@),
            gap == cells(" | "@),
            at == x,
            cursor <= 0x2_0000 * (i + 1),
            click_in_row(chip@, text@, leader@, area, x) == click_among(
                all.skip(i as int),
                leader@,
                cursor as nat,
                i == 0,
                x as nat,
            ),
        decreases segments.len() - i,
    {
        proof {
            assert(all.skip(i as int)[0] == segments@[i as int]@);
            assert(all.skip(i as int).skip(1) =~= all.skip(i + 1));
        }
        if i > 0 {
            cursor = cursor + gap;
        }
        let shown = show_text(segments[i].as_str(), leader);
        let width: u128 = cells_of(shown.as_str()) as u128;
        if at >= cursor && at < cursor + width {
            let chars = chars_of(shown.as_str());
            let k: usize = lead_of(&chars);
            let lead = part_of(&chars, 0, k);
            proof {
                assert(lead@ =~= shown@.take(k as int));
            }
            if at < cursor + cells_of(string_of(&lead).as_str()) as u128 {
                return None;
            }
            return click_of_segment(segments[i].as_str());
        }
        cursor = cursor + width;
        i += 1;
    }
    None
}

/// What a click at a cell stands for, where the row of hints is at `area`. Which
/// legend it is tested against is chosen as in `bar_spans`: a click must not be
/// taken for one on a row that is not shown.
pub open spec fn bar_click(bar: HintBar, area: Rect, x: u16, y: u16) -> Option<HintClick> {
    if !bar.mouse_enabled || area.height == 0 || !area.holds(x, y) || bar.input is Some {
        None
    } else if bar.prefix_armed {
        click_in_row(bar.chip@, bar.armed_text@, bar.leader@, area, x)
    } else if bar.awaiting_swap_target {
        None
    } else {
        click_in_row(""@, bar.normal_text@, bar.leader@, area, x)
    }
}

/// What a click at a cell stands for, where the row of hints is at `area`.
pub fn hint_click_at(bar: &HintBar, area: Rect, x: u16, y: u16) -> (r: Option<HintClick>)
    ensures
        r == bar_click(*bar, area, x, y),
{
    if !bar.mouse_enabled {
        return None;
    }
    if area.height == 0 || !area.contains(x, y) {
        return None;
    }
    if bar.input.is_some() {
        return None;
    }
    if bar.prefix_armed {
        return row_click(
            bar.chip.as_str(),
            bar.armed_text.as_str(),
            bar.leader.as_str(),
            area,
            x,
        );
    }
    if bar.awaiting_swap_target {
        return None;
    }
    row_click("", bar.normal_text.as_str(), bar.leader.as_str(), area, x)
}

/// The hints of the screen with no project.
#[derive(Debug)]
pub struct EmptyHints {
    pub chip: String,
    pub armed_text: String,
    pub text: String,
}

/// What a click at a cell of the row of hints at `area` stands for on the screen
/// with no project.
pub fn empty_hint_click_at(
    hints: &EmptyHints,
    area: Rect,
    leader: &str,
    prefix_armed: bool,
    mouse_enabled: bool,
    x: u16,
    y: u16,
) -> (r: Option<HintClick>)
    ensures
        r == if !mouse_enabled || area.height == 0 || !area.holds(x, y) {
            None::<HintClick>
        } else if prefix_armed {
            click_in_row(hints.chip@, hints.armed_text@, leader@, area, x)
        } else {
            click_in_row(""@, hints.text@, leader@, area, x)
        },
{
    if !mouse_enabled {
        return None;
    }
    if area.height == 0 || !area.contains(x, y) {
        return None;
    }
    if prefix_armed {
        row_click(hints.chip.as_str(), hints.armed_text.as_str(), leader, area, x)
    } else {
        row_click("", hints.text.as_str(), leader, area, x)
    }
}

/// Where the segment `k` starts, where the first one starts at `cursor`.
pub open spec fn segment_start(
    segments: Seq<Seq<char>>,
    leader: Seq<char>,
    cursor: nat,
    first: bool,
    k: int,
) -> nat
    decreases segments.len(),
{
    let start = cursor + (if first {
        0nat
    } else {
        cells(" | "@) as nat
    });
    if k <= 0 || segments.len() == 0 {
        start
    } else {
        segment_start(
            segments.skip(1),
            leader,
            start + cells(shown_text(segments[0], leader)) as nat,
            false,
            k - 1,
        )
    }
}

proof fn lemma_segment_start(
    segments: Seq<Seq<char>>,
    leader: Seq<char>,
    cursor: nat,
    first: bool,
    k: int,
)
    requires
        0 <= k < segments.len(),
    ensures
        segment_start(segments, leader, cursor, first, k) >= cursor,
    decreases segments.len(),
{
    if k > 0 {
        let start = cursor + (if first {
            0nat
        } else {
            cells(" | "@) as nat
        });
        lemma_segment_start(
            segments.skip(1),
            leader,
            start + cells(shown_text(segments[0], leader)) as nat,
            false,
            k - 1,
        );
    }
}

/// The inverted labels and the hit test agree: a click on a cell of a segment's
/// label, past the white space before it, stands for something exactly where
/// the segment is drawn inverted, and then for what the segment says.
pub proof fn law_inverted_labels_are_the_clickable_ones(
    segments: Seq<Seq<char>>,
    leader: Seq<char>,
    cursor: nat,
    first: bool,
    k: int,
    x: nat,
)
    requires
        0 <= k < segments.len(),
        ({
            let start = segment_start(segments, leader, cursor, first, k);
            let text = shown_text(segments[k], leader);
            start + cells(text.take(lead_len(text))) <= x < start + cells(text)
        }),
    ensures
        click_among(segments, leader, cursor, first, x) == click_on(segments[k]),
        click_among(segments, leader, cursor, first, x) is Some <==> segment_spans(
            segments[k],
            leader,
            true,
        ).last().style == HintStyle::Inverted,
    decreases segments.len(),
{
    if k > 0 {
        let start = cursor + (if first {
            0nat
        } else {
            cells(" | "@) as nat
        });
        let next = start + cells(shown_text(segments[0], leader)) as nat;
        let rest = segments.skip(1);
        assert(rest[k - 1] == segments[k]);
        lemma_segment_start(rest, leader, next, false, k - 1);
        law_inverted_labels_are_the_clickable_ones(rest, leader, next, false, k - 1, x);
    }
}

/// Whether no span is drawn inverted.
pub open spec fn none_inverted(spans: Seq<SpanModel>) -> bool {
    forall|i: int| 0 <= i < spans.len() ==> (#[trigger] spans[i]).style != HintStyle::Inverted
}

proof fn lemma_unmarked(segments: Seq<Seq<char>>, leader: Seq<char>, n: int)
    requires
        0 <= n <= segments.len(),
    ensures
        none_inverted(spans_of(segments, leader, false, n)),
    decreases n,
{
    if n > 0 {
        lemma_unmarked(segments, leader, n - 1);
    }
}

/// With the mouse off nothing looks as if it could be clicked, and nothing can.
pub proof fn law_no_mouse_no_clicks(bar: HintBar, width: u16, area: Rect, x: u16, y: u16)
    requires
        !bar.mouse_enabled,
    ensures
        none_inverted(bar_spans(bar, width)),
        bar_click(bar, area, x, y) is None,
{
    let armed = pieces_by(bar.armed_text@, " | "@);
    let normal = pieces_by(bar.normal_text@, " | "@);
    lemma_unmarked(armed, bar.leader@, armed.len() as int);
    lemma_unmarked(normal, bar.leader@, normal.len() as int);
}

/// A key is clicked as the leader itself, as one of the six commands that a
/// legend shows behind the leader, or as one of the twelve it shows alone; a
/// legend entry for anything else takes no click.
pub proof fn law_keys_that_can_be_clicked(keyspec: Seq<char>, c: char)
    ensures
        ({
            let spec = trim_text(keyspec);
            let leader = seq!['<', 'p', 'r', 'e', 'f', 'i', 'x', '>'];
            &&& spec == leader ==> click_of(keyspec) == Some(HintClick::Arm)
            &&& spec == leader.push(' ').push(c) ==> click_of(keyspec) == if c == 't' || c == 'w'
                || c == 'f' || c == 'l' || c == 'b' || c == 'o' {
                Some(HintClick::Leader(c))
            } else {
                None::<HintClick>
            }
            &&& spec == seq![c] ==> click_of(keyspec) == if c == 't' || c == 'w' || c == 's' || c
                == 'l' || c == 'b' || c == 'f' || c == 'o' || c == 'x' || c == 'p' || c == 'r' || c
                == 'v' || c == '/' {
                Some(HintClick::Plain(c))
            } else {
                None::<HintClick>
            }
            &&& spec != leader && spec.len() != 1 && spec.len() != 10 ==> click_of(keyspec) is None
        }),
{
    reveal_strlit("<prefix>");
    reveal_strlit("<prefix> ");
    let spec = trim_text(keyspec);
    let leader = seq!['<', 'p', 'r', 'e', 'f', 'i', 'x', '>'];
    assert("<prefix>"@ =~= leader);
    assert("<prefix> "@ =~= leader.push(' '));
    if spec == leader.push(' ').push(c) {
        assert(spec.len() == 10);
        assert(spec.subrange(0, 9) =~= leader.push(' '));
        assert(spec[9] == c);
    }
}

/// What is clicked of a legend entry is the key before its first colon; an entry
/// without one takes no click.
pub proof fn law_entries_are_clicked_by_their_key(key: Seq<char>, what: Seq<char>)
    requires
        !key.contains(':'),
    ensures
        click_on(key.push(':') + what) == click_of(key),
        click_on(key) is None,
{
    let entry = key.push(':') + what;
    crate::text::lemma_first_index(entry, ':');
    crate::text::lemma_first_index(key, ':');
    let n = key.len() as int;
    assert(entry[n] == ':');
    assert(entry.contains(':'));
    assert(first_index(entry, ':') == Some(n)) by {
        let i = first_index(entry, ':')->0;
        if i < n {
            assert(entry[i] == key[i]);
            assert(key.contains(key[i]));
        }
    }
    assert(entry.take(n) =~= key);
}

/// The texts of some spans, one after another.
pub open spec fn whole_text(spans: Seq<SpanModel>) -> Seq<char>
    decreases spans.len(),
{
    if spans.len() == 0 {
        Seq::empty()
    } else {
        whole_text(spans.drop_last()) + spans.last().text
    }
}

/// A legend entry is shown whole, with the leader in its place; it stands out,
/// but for the blanks before it, exactly where it can be clicked.
pub proof fn law_entries_are_shown_whole(segment: Seq<char>, leader: Seq<char>, mark: bool)
    ensures
        ({
            let spans = segment_spans(segment, leader, mark);
            let text = replaced(segment, "<prefix>"@, leader);
            &&& whole_text(spans) == text
            &&& spans.last().style is Inverted <==> mark && click_on(segment) is Some
            &&& spans.last().style is Inverted ==> spans.last().text == trim_start_text(text)
            &&& !(spans.last().style is Inverted) ==> spans.len() == 1 && spans[0].style is Dim
            &&& spans.len() == 2 ==> spans[0].style is Dim
        }),
{
    let spans = segment_spans(segment, leader, mark);
    let text = replaced(segment, "<prefix>"@, leader);
    let k = lead_len(text);
    lemma_lead(text);
    reveal_with_fuel(whole_text, 3);
    if spans.len() == 2 {
        assert(spans.drop_last() =~= seq![spans[0]]);
        assert(spans.drop_last().drop_last() =~= Seq::<SpanModel>::empty());
        assert(whole_text(spans) =~= text.take(k) + text.skip(k));
        assert(text.take(k) + text.skip(k) =~= text);
    } else {
        assert(spans.drop_last() =~= Seq::<SpanModel>::empty());
        if mark && click_on(segment) is Some {
            assert(k == 0);
            assert(text.skip(0) =~= text);
        }
        assert(whole_text(spans) =~= text);
    }
}

proof fn lemma_lead(s: Seq<char>)
    ensures
        0 <= lead_len(s) <= s.len(),
        s.skip(lead_len(s)) == trim_start_text(s),
    decreases s.len(),
{
    if s.len() > 0 && crate::text::is_space(s[0]) {
        lemma_lead(s.skip(1));
        assert(s.skip(1).skip(lead_len(s.skip(1))) =~= s.skip(lead_len(s)));
    } else {
        assert(s.skip(0) =~= s);
    }
}

/// A legend is its entries in order with bars between them.
pub proof fn law_legends_are_joined_with_bars(
    segments: Seq<Seq<char>>,
    leader: Seq<char>,
    mark: bool,
    n: int,
)
    requires
        1 <= n < segments.len(),
    ensures
        spans_of(segments, leader, mark, 1) == segment_spans(segments[0], leader, mark),
        spans_of(segments, leader, mark, n + 1) == spans_of(segments, leader, mark, n).push(
            SpanModel { text: seq![' ', '|', ' '], style: HintStyle::Dim },
        ) + segment_spans(segments[n], leader, mark),
{
    reveal_strlit(" | ");
    assert(" | "@ =~= seq![' ', '|', ' ']);
    assert(spans_of(segments, leader, mark, 0) =~= Seq::<SpanModel>::empty());
    assert(spans_of(segments, leader, mark, 1) =~= segment_spans(segments[0], leader, mark));
    assert(spans_of(segments, leader, mark, n + 1) =~= spans_of(segments, leader, mark, n).push(
        SpanModel { text: seq![' ', '|', ' '], style: HintStyle::Dim },
    ) + segment_spans(segments[n], leader, mark));
}

/// What the bar shows: a repository being typed before all else, then the
/// legend behind an armed leader, then a swap that awaits its target, and
/// otherwise the plain legend.
pub proof fn law_what_the_bar_shows(bar: HintBar, width: u16)
    ensures
        bar.input matches Some(input) ==> bar_spans(bar, width) == input_spans(input, width),
        bar.input is None && bar.prefix_armed ==> bar_spans(bar, width)[0] == (SpanModel {
            text: bar.chip@,
            style: HintStyle::Chip,
        }) && bar_spans(bar, width).skip(1) == legend_spans(
            bar.armed_text@,
            bar.leader@,
            bar.mouse_enabled,
        ),
        bar.input is None && !bar.prefix_armed && bar.awaiting_swap_target ==> bar_spans(
            bar,
            width,
        ) == swap_spans(bar.fills_body),
        bar.input is None && !bar.prefix_armed && !bar.awaiting_swap_target ==> bar_spans(bar, width)
            == legend_spans(bar.normal_text@, bar.leader@, bar.mouse_enabled),
{
    if bar.input is None && bar.prefix_armed {
        assert(bar_spans(bar, width).skip(1) =~= legend_spans(
            bar.armed_text@,
            bar.leader@,
            bar.mouse_enabled,
        ));
    }
}

/// What is typed of a repository is shown whole, behind its prompt and before
/// the cursor; the legend follows where there is room for all of it, or where
/// the width is not known.
pub proof fn law_typed_paths_are_shown_whole(input: RepoInput, width: u16)
    ensures
        ({
            let spans = input_spans(input, width);
            &&& spans[0].text == "repo: "@
            &&& spans[1].text == input.buf@
            &&& spans[1].style is Plain
            &&& spans[2].text == "█"@
            &&& spans.len() == 4 <==> width == 0 || display_width("repo: "@) + display_width(
                input.buf@,
            ) + display_width("█"@) + display_width(input_legend(input.picking)) <= width
            &&& spans.len() == 3 || spans.len() == 4
            &&& spans.len() == 4 ==> spans[3].text == input_legend(input.picking)
        }),
{
}

/// A click in the bar counts only within it, with the mouse on, and while
/// nothing is typed or awaited there.
pub proof fn law_when_the_bar_takes_clicks(bar: HintBar, area: Rect, x: u16, y: u16)
    ensures
        !bar.mouse_enabled || area.height == 0 || !area.holds(x, y) || bar.input is Some || (
        !bar.prefix_armed && bar.awaiting_swap_target) ==> bar_click(bar, area, x, y) is None,
        bar.mouse_enabled && area.height > 0 && area.holds(x, y) && bar.input is None
            && bar.prefix_armed ==> bar_click(bar, area, x, y) == click_in_row(
            bar.chip@,
            bar.armed_text@,
            bar.leader@,
            area,
            x,
        ),
        bar.mouse_enabled && area.height > 0 && area.holds(x, y) && bar.input is None
            && !bar.prefix_armed && !bar.awaiting_swap_target ==> bar_click(bar, area, x, y)
            == click_in_row(""@, bar.normal_text@, bar.leader@, area, x),
{
}

} // verus!
