//! The line-number gutter beside a diff or a file.

use crate::git::diff::types::{DiffHunk, DiffLine};
use crate::text::{decimal, decimal_text};
use vstd::prelude::*;

verus! {

/// Digits reserved for one line-number column at least, so that the gutter does
/// not twitch between short files.
pub const MIN_LINENO_DIGITS: usize = 3;

/// One space on each side of the numbers: it lifts the digits off the border
/// and off the marker that follows.
pub const LINENO_PAD: usize = 2;

/// The space between the old and the new column.
pub const LINENO_GAP: usize = 1;

/// The digits reserved where `max_lineno` is the largest number.
pub open spec fn digits_reserved(max_lineno: nat) -> nat {
    let digits = decimal_text(max_lineno).len();
    if digits < MIN_LINENO_DIGITS {
        MIN_LINENO_DIGITS as nat
    } else {
        digits
    }
}

/// The digits needed to print `max_lineno`, and a minimum at least.
pub fn digits_for(max_lineno: usize) -> (r: usize)
    ensures
        r == digits_reserved(max_lineno as nat),
{
    let mut digits: usize = 1;
    let mut left: usize = max_lineno;
    while left >= 10
        invariant
            digits - 1 + decimal_text(left as nat).len() == decimal_text(max_lineno as nat).len(),
            digits + left <= max_lineno + 1,
            1 <= digits,
        decreases left,
    {
        left = left / 10;
        digits += 1;
    }
    if digits < MIN_LINENO_DIGITS {
        MIN_LINENO_DIGITS
    } else {
        digits
    }
}

/// The larger of two numbers that may be missing, 0 where both are.
pub open spec fn larger(a: Option<u32>, b: Option<u32>) -> u32 {
    let x = match a {
        Some(n) => n,
        None => 0,
    };
    let y = match b {
        Some(n) => n,
        None => 0,
    };
    if x > y {
        x
    } else {
        y
    }
}

/// The largest line number on either side of the first `n` lines.
pub open spec fn max_in_lines(lines: Seq<DiffLine>, n: int) -> u32
    decreases n,
{
    if n <= 0 {
        0
    } else {
        let before = max_in_lines(lines, n - 1);
        let here = larger(lines[n - 1].old_lineno, lines[n - 1].new_lineno);
        if here > before {
            here
        } else {
            before
        }
    }
}

/// The largest line number in the first `n` hunks.
pub open spec fn max_in_hunks(hunks: Seq<DiffHunk>, n: int) -> u32
    decreases n,
{
    if n <= 0 {
        0
    } else {
        let before = max_in_hunks(hunks, n - 1);
        let here = max_in_lines(hunks[n - 1].lines@, hunks[n - 1].lines@.len() as int);
        if here > before {
            here
        } else {
            before
        }
    }
}

fn number_or_zero(n: Option<u32>) -> (r: u32)
    ensures
        r == match n {
            Some(n) => n,
            None => 0,
        },
{
    match n {
        Some(n) => n,
        None => 0,
    }
}

fn largest_of(lines: &Vec<DiffLine>) -> (r: u32)
    ensures
        r == max_in_lines(lines@, lines@.len() as int),
{
    let mut max: u32 = 0;
    let mut i: usize = 0;
    while i < lines.len()
        invariant
            i <= lines@.len(),
            max == max_in_lines(lines@, i as int),
        decreases lines.len() - i,
    {
        let old_no: u32 = number_or_zero(lines[i].old_lineno);
        let new_no: u32 = number_or_zero(lines[i].new_lineno);
        let here: u32 = if old_no > new_no {
            old_no
        } else {
            new_no
        };
        if here > max {
            max = here;
        }
        i += 1;
    }
    max
}

/// The digits a whole diff needs: those of the largest line number on either
/// side of any hunk. Found from all the hunks and not from what is visible, so
/// that scrolling cannot change the width.
pub fn lineno_digits(hunks: &[DiffHunk]) -> (r: usize)
    ensures
        r == digits_reserved(max_in_hunks(hunks@, hunks@.len() as int) as nat),
{
    let mut max: u32 = 0;
    let mut i: usize = 0;
    while i < hunks.len()
        invariant
            i <= hunks@.len(),
            max == max_in_hunks(hunks@, i as int),
        decreases hunks.len() - i,
    {
        let here: u32 = largest_of(&hunks[i].lines);
        if here > max {
            max = here;
        }
        i += 1;
    }
    digits_for(max as usize)
}

/// Width of the gutter that shows the old and the new number together.
pub fn unified_gutter_width(digits: usize) -> (r: u16)
    requires
        2 * digits + LINENO_GAP + LINENO_PAD <= usize::MAX,
    ensures
        r == (2 * digits + LINENO_GAP + LINENO_PAD) as u16,
{
    #[verifier::truncate]
    ((2 * digits + LINENO_GAP + LINENO_PAD) as u16)
}

/// Width of a gutter with one column.
pub fn side_gutter_width(digits: usize) -> (r: u16)
    requires
        digits + LINENO_PAD <= usize::MAX,
    ensures
        r == (digits + LINENO_PAD) as u16,
{
    #[verifier::truncate]
    ((digits + LINENO_PAD) as u16)
}

/// A line number, or nothing.
pub open spec fn number_text(no: Option<u32>) -> Seq<char> {
    match no {
        Some(n) => decimal_text(n as nat),
        None => Seq::empty(),
    }
}

/// `s` at the right end of `digits` cells.
pub open spec fn right_aligned(s: Seq<char>, digits: nat) -> Seq<char> {
    if s.len() < digits {
        Seq::new((digits - s.len()) as nat, |i: int| ' ') + s
    } else {
        s
    }
}

/// A line number, or nothing.
fn lineno_text(no: Option<u32>) -> (r: String)
    ensures
        r@ == number_text(no),
{
    match no {
        Some(n) => decimal(n as u64),
        None => {
            let none = String::new();
            proof {
                assert(none@ =~= Seq::<char>::empty());
            }
            none
        },
    }
}

fn right_align(s: &str, digits: usize) -> (r: String)
    ensures
        r@ == right_aligned(s@, digits as nat),
{
    let mut out = String::new();
    let len: usize = crate::text::chars_of(s).len();
    if len < digits {
        let mut i: usize = 0;
        while i < digits - len
            invariant
                len < digits,
                i <= digits - len,
                out@ == Seq::new(i as nat, |k: int| ' '),
            decreases digits - len - i,
        {
            out.push(' ');
            i += 1;
            proof {
                assert(out@ =~= Seq::new(i as nat, |k: int| ' '));
            }
        }
    }
    proof {
        assert(out@ + s@ =~= right_aligned(s@, digits as nat));
    }
    out.concat(s)
}

/// Both numbers of a line, each in its column, with either column blank where
/// the line is absent on that side.
pub open spec fn unified_text(old_no: Option<u32>, new_no: Option<u32>, digits: nat) -> Seq<char> {
    " "@ + right_aligned(number_text(old_no), digits) + " "@ + right_aligned(
        number_text(new_no),
        digits,
    ) + " "@
}

/// One number in its column.
pub open spec fn side_text(no: Option<u32>, digits: nat) -> Seq<char> {
    " "@ + right_aligned(number_text(no), digits) + " "@
}

/// Both numbers of a line: added lines have no old number, removed lines have
/// no new one.
pub fn unified_gutter_text(old_no: Option<u32>, new_no: Option<u32>, digits: usize) -> (r: String)
    ensures
        r@ == unified_text(old_no, new_no, digits as nat),
{
    " ".to_owned().concat(right_align(lineno_text(old_no).as_str(), digits).as_str()).concat(
        " ",
    ).concat(right_align(lineno_text(new_no).as_str(), digits).as_str()).concat(" ")
}

/// One number for a gutter with one column; blank where there is none.
pub fn side_gutter_text(no: Option<u32>, digits: usize) -> (r: String)
    ensures
        r@ == side_text(no, digits as nat),
{
    " ".to_owned().concat(right_align(lineno_text(no).as_str(), digits).as_str()).concat(" ")
}

/// Whether each of `lines` is a body line with its gutter line, if it has one,
/// before it.
pub open spec fn is_merged<T>(
    lines: Seq<Vec<T>>,
    gutter: Seq<Vec<T>>,
    body: Seq<Vec<T>>,
) -> bool {
    &&& lines.len() == body.len()
    &&& forall|i: int|
        0 <= i < body.len() ==> (#[trigger] lines[i])@ == if i < gutter.len() {
            gutter[i]@ + body[i]@
        } else {
            body[i]@
        }
}

/// Put each gutter line's spans before those of the body line it belongs to. A
/// body line with no gutter line keeps its own spans, and a gutter line with no
/// body line is dropped.
///
/// This is for wrapped text: a wrapped line takes several rows while its gutter
/// line would still take one, which would throw every row below it out of step.
pub fn merge_gutter_into_body<T>(gutter: Vec<Vec<T>>, body: Vec<Vec<T>>) -> (r: Vec<Vec<T>>)
    ensures
        is_merged(r@, gutter@, body@),
{
    let ghost numbers = gutter@;
    let ghost lines = body@;
    let mut gutter = gutter;
    let mut body = body;
    let mut out: Vec<Vec<T>> = Vec::new();
    proof {
        assert(lines.skip(0) =~= lines);
        assert(numbers.skip(0) =~= numbers);
    }
    while body.len() > 0
        invariant
            out@.len() <= lines.len(),
            body@ == lines.skip(out@.len() as int),
            gutter@ == if out@.len() <= numbers.len() {
                numbers.skip(out@.len() as int)
            } else {
                Seq::empty()
            },
            forall|i: int|
                0 <= i < out@.len() ==> (#[trigger] out@[i])@ == if i < numbers.len() {
                    numbers[i]@ + lines[i]@
                } else {
                    lines[i]@
                },
        decreases body.len(),
    {
        let ghost done = out@.len() as int;
        let mut line: Vec<T> = if gutter.len() > 0 {
            gutter.remove(0)
        } else {
            Vec::new()
        };
        let mut rest = body.remove(0);
        let ghost number = line@;
        line.append(&mut rest);
        proof {
            assert(line@ =~= number + lines[done]@);
            assert(number + lines[done]@ =~= if done < numbers.len() {
                numbers[done]@ + lines[done]@
            } else {
                lines[done]@
            });
            assert(body@ =~= lines.skip(done + 1));
            if done < numbers.len() {
                assert(gutter@ =~= numbers.skip(done + 1));
            } else {
                assert(gutter@ =~= Seq::<Vec<T>>::empty());
            }
        }
        out.push(line);
    }
    out
}

/// How a gutter and a body are drawn.
#[derive(Debug)]
pub enum GutterDrawing<T> {
    /// As one text that wraps.
    Wrapped(Vec<Vec<T>>),
    /// Side by side, the gutter this wide and pinned, the body scrolled.
    Beside { gutter_width: u16, gutter: Vec<Vec<T>>, body: Vec<Vec<T>>, scroll_x: u16 },
}

/// How a gutter and a body are drawn. Side by side they are two texts: scrolling
/// moves a whole line, so a gutter in the body's text would slide off the edge.
pub fn render_gutter_and_body<T>(
    gutter_width: u16,
    gutter: Vec<Vec<T>>,
    body: Vec<Vec<T>>,
    scroll_x: u16,
    wrap: bool,
) -> (r: GutterDrawing<T>)
    ensures
        if wrap {
            r matches GutterDrawing::Wrapped(lines) && is_merged(lines@, gutter@, body@)
        } else {
            r == (GutterDrawing::Beside { gutter_width, gutter, body, scroll_x })
        },
{
    if wrap {
        return GutterDrawing::Wrapped(merge_gutter_into_body(gutter, body));
    }
    GutterDrawing::Beside { gutter_width, gutter, body, scroll_x }
}

proof fn lemma_more_digits(a: nat, b: nat)
    requires
        a <= b,
    ensures
        decimal_text(a).len() <= decimal_text(b).len(),
    decreases b,
{
    if a >= 10 {
        lemma_more_digits(a / 10, b / 10);
    } else if b >= 10 {
        lemma_more_digits(0, b / 10);
    }
}

proof fn lemma_max_in_lines(lines: Seq<DiffLine>, n: int, i: int)
    requires
        0 <= i < n <= lines.len(),
    ensures
        larger(lines[i].old_lineno, lines[i].new_lineno) <= max_in_lines(lines, n),
    decreases n,
{
    if i < n - 1 {
        lemma_max_in_lines(lines, n - 1, i);
    }
}

proof fn lemma_max_in_hunks(hunks: Seq<DiffHunk>, n: int, h: int)
    requires
        0 <= h < n <= hunks.len(),
    ensures
        max_in_lines(hunks[h].lines@, hunks[h].lines@.len() as int) <= max_in_hunks(hunks, n),
    decreases n,
{
    if h < n - 1 {
        lemma_max_in_hunks(hunks, n - 1, h);
    }
}

/// The gutter never twitches: in a diff every line's gutter takes exactly the
/// width that was reserved, whichever of its numbers are missing.
pub proof fn law_gutter_width_is_constant(hunks: Seq<DiffHunk>, h: int, i: int)
    requires
        0 <= h < hunks.len(),
        0 <= i < hunks[h].lines@.len(),
    ensures
        ({
            let digits = digits_reserved(max_in_hunks(hunks, hunks.len() as int) as nat);
            let line = hunks[h].lines@[i];
            &&& unified_text(line.old_lineno, line.new_lineno, digits).len() == 2 * digits
                + LINENO_GAP + LINENO_PAD
            &&& side_text(line.old_lineno, digits).len() == digits + LINENO_PAD
            &&& side_text(line.new_lineno, digits).len() == digits + LINENO_PAD
        }),
{
    reveal_strlit(" ");
    let max = max_in_hunks(hunks, hunks.len() as int);
    let line = hunks[h].lines@[i];
    lemma_max_in_lines(hunks[h].lines@, hunks[h].lines@.len() as int, i);
    lemma_max_in_hunks(hunks, hunks.len() as int, h);
    if let Some(n) = line.old_lineno {
        lemma_more_digits(n as nat, max as nat);
    }
    if let Some(n) = line.new_lineno {
        lemma_more_digits(n as nat, max as nat);
    }
}

/// Line numbers get as many columns as the largest has digits, and at least
/// three.
pub proof fn law_at_least_three_digits(max_lineno: nat)
    ensures
        decimal_text(max_lineno).len() <= 3 ==> digits_reserved(max_lineno) == 3,
        decimal_text(max_lineno).len() > 3 ==> digits_reserved(max_lineno) == decimal_text(
            max_lineno,
        ).len(),
{
}

/// A number stands at the right of its columns with spaces before it; one that
/// is missing leaves them blank.
pub proof fn law_numbers_stand_at_the_right(no: Option<u32>, digits: nat)
    ensures
        ({
            let text = match no {
                Some(n) => decimal_text(n as nat),
                None => Seq::<char>::empty(),
            };
            let shown = side_text(no, digits);
            text.len() <= digits ==> {
                &&& shown.len() == digits + 2
                &&& shown.last() == ' '
                &&& shown.subrange(digits + 1 - text.len(), digits as int + 1) == text
                &&& forall|i: int| 0 <= i < digits + 1 - text.len() ==> #[trigger] shown[i] == ' '
            }
        }),
{
    reveal_strlit(" ");
    let text = match no {
        Some(n) => decimal_text(n as nat),
        None => Seq::<char>::empty(),
    };
    let shown = side_text(no, digits);
    if text.len() <= digits {
        let padded = right_aligned(text, digits);
        assert(padded.len() == digits);
        assert(shown =~= seq![' '] + padded + seq![' ']);
        assert(shown.subrange(digits + 1 - text.len(), digits as int + 1) =~= text);
    }
}

/// Side by side the old number stands before the new one, each in columns of its
/// own with one between them.
pub proof fn law_old_numbers_stand_before_new_ones(
    old_no: Option<u32>,
    new_no: Option<u32>,
    digits: nat,
)
    ensures
        unified_text(old_no, new_no, digits) == side_text(old_no, digits) + side_text(
            new_no,
            digits,
        ).skip(1),
{
    reveal_strlit(" ");
    assert(side_text(new_no, digits).skip(1) =~= right_aligned(number_text(new_no), digits)
        + " "@);
    assert(unified_text(old_no, new_no, digits) =~= side_text(old_no, digits) + side_text(
        new_no,
        digits,
    ).skip(1));
}

proof fn lemma_largest_in_lines(lines: Seq<DiffLine>, n: int)
    requires
        0 <= n <= lines.len(),
    ensures
        forall|i: int|
            0 <= i < n ==> ((#[trigger] lines[i]).old_lineno matches Some(no) ==> no
                <= max_in_lines(lines, n)) && (lines[i].new_lineno matches Some(no) ==> no
                <= max_in_lines(lines, n)),
        max_in_lines(lines, n) > 0 ==> exists|i: int|
            0 <= i < n && ((#[trigger] lines[i]).old_lineno == Some(max_in_lines(lines, n))
                || lines[i].new_lineno == Some(max_in_lines(lines, n))),
    decreases n,
{
    if n > 0 {
        lemma_largest_in_lines(lines, n - 1);
        let before = max_in_lines(lines, n - 1);
        let here = larger(lines[n - 1].old_lineno, lines[n - 1].new_lineno);
        if here > before {
            assert(lines[n - 1].old_lineno == Some(here) || lines[n - 1].new_lineno == Some(here));
        } else if before > 0 {
            let i = choose|i: int|
                0 <= i < n - 1 && ((#[trigger] lines[i]).old_lineno == Some(before)
                    || lines[i].new_lineno == Some(before));
            assert(lines[i].old_lineno == Some(before) || lines[i].new_lineno == Some(before));
        }
    }
}

/// The width of the gutter goes by the largest line number of any hunk, old or
/// new, and by no other.
pub proof fn law_the_largest_number_counts(hunks: Seq<DiffHunk>, n: int)
    requires
        0 <= n <= hunks.len(),
    ensures
        forall|h: int, i: int|
            #![trigger hunks[h].lines@[i]]
            0 <= h < n && 0 <= i < hunks[h].lines@.len() ==> (hunks[h].lines@[i].old_lineno
                matches Some(no) ==> no <= max_in_hunks(hunks, n)) && (
            hunks[h].lines@[i].new_lineno matches Some(no) ==> no <= max_in_hunks(hunks, n)),
        max_in_hunks(hunks, n) > 0 ==> exists|h: int, i: int|
            #![trigger hunks[h].lines@[i]]
            0 <= h < n && 0 <= i < hunks[h].lines@.len() && (hunks[h].lines@[i].old_lineno == Some(
                max_in_hunks(hunks, n),
            ) || hunks[h].lines@[i].new_lineno == Some(max_in_hunks(hunks, n))),
    decreases n,
{
    if n > 0 {
        law_the_largest_number_counts(hunks, n - 1);
        let lines = hunks[n - 1].lines@;
        lemma_largest_in_lines(lines, lines.len() as int);
        let before = max_in_hunks(hunks, n - 1);
        let here = max_in_lines(lines, lines.len() as int);
        if here > before {
            let i = choose|i: int|
                0 <= i < lines.len() && ((#[trigger] lines[i]).old_lineno == Some(here)
                    || lines[i].new_lineno == Some(here));
            assert(hunks[n - 1].lines@[i].old_lineno == Some(here) || hunks[n
                - 1].lines@[i].new_lineno == Some(here));
        }
        assert forall|h: int, i: int|
            #![trigger hunks[h].lines@[i]]
            0 <= h < n && 0 <= i < hunks[h].lines@.len() implies (hunks[h].lines@[i].old_lineno
            matches Some(no) ==> no <= max_in_hunks(hunks, n)) && (
        hunks[h].lines@[i].new_lineno matches Some(no) ==> no <= max_in_hunks(hunks, n)) by {
            if h == n - 1 {
                assert(lines[i] == hunks[h].lines@[i]);
            }
        }
    }
}

/// Where lines wrap each begins with its own gutter, and no line is lost.
pub proof fn law_gutters_go_before_their_lines<T>(
    lines: Seq<Vec<T>>,
    gutter: Seq<Vec<T>>,
    body: Seq<Vec<T>>,
    i: int,
)
    requires
        is_merged(lines, gutter, body),
        0 <= i < body.len(),
    ensures
        lines.len() == body.len(),
        i < gutter.len() ==> lines[i]@ == gutter[i]@ + body[i]@,
        i >= gutter.len() ==> lines[i]@ == body[i]@,
{
}

} // verus!
