//! Cells of the screen, and how many of them a text takes.

use ratatui::text::Span;
use vstd::prelude::*;

verus! {

/// What `ratatui::text::Span::width` says of a span with this text: how many
/// cells it takes, by Unicode's width of its characters.
pub uninterp spec fn display_width(text: Seq<char>) -> usize;

/// `ratatui::text::Span::width` of a span with the text `text` and no style.
#[verifier::external_body]
pub(crate) fn text_width(text: &str) -> (r: usize)
    ensures
        r == display_width(text@),
{
    Span::raw(text).width()
}

/// The cells that a text of a row takes.
pub open spec fn cells(text: Seq<char>) -> u16 {
    display_width(text) as u16
}

/// The cells that a text of a row takes.
pub fn cells_of(text: &str) -> (r: u16)
    ensures
        r == cells(text@),
{
    let width: usize = text_width(text);
    #[verifier::truncate]
    (width as u16)
}

/// A rectangle of cells.
#[derive(Debug, Clone, Copy, PartialEq, Eq, Structural)]
pub struct Rect {
    pub x: u16,
    pub y: u16,
    pub width: u16,
    pub height: u16,
}

/// The sum, or the largest value where it is larger than that.
pub open spec fn capped_sum(a: u16, b: u16) -> u16 {
    if a + b > u16::MAX {
        u16::MAX
    } else {
        (a + b) as u16
    }
}

impl Rect {
    /// Whether a cell lies in the rectangle.
    pub open spec fn holds(self, x: u16, y: u16) -> bool {
        self.x <= x < capped_sum(self.x, self.width) && self.y <= y < capped_sum(
            self.y,
            self.height,
        )
    }

    /// Whether a cell lies in the rectangle.
    pub fn contains(&self, x: u16, y: u16) -> (r: bool)
        ensures
            r == self.holds(x, y),
    {
        x >= self.x && x < self.x.saturating_add(self.width) && y >= self.y && y
            < self.y.saturating_add(self.height)
    }
}

/// A point lies in a rectangle from its corner on, up to but not at its width
/// and height, as far as coordinates go.
pub proof fn law_rectangles_hold_their_cells(rect: Rect, x: u16, y: u16)
    requires
        rect.x + rect.width <= u16::MAX,
        rect.y + rect.height <= u16::MAX,
    ensures
        rect.holds(x, y) <==> rect.x <= x && x < rect.x + rect.width && rect.y <= y && y < rect.y
            + rect.height,
{
}

} // verus!
