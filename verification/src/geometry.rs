//! Terminal hit testing for mouse input.

use vstd::prelude::*;

verus! {

/// A terminal rectangle: columns `x..x + width`, rows `y..y + height`.
#[derive(Clone, Copy, Debug, PartialEq, Eq, Structural)]
pub struct Rect {
    pub x: u16,
    pub y: u16,
    pub width: u16,
    pub height: u16,
}

/// The rectangle at (`x`, `y`) with the width and height cut so that its
/// right and bottom edges stay within `u16`.
pub open spec fn cut_rect(x: u16, y: u16, width: u16, height: u16) -> Rect {
    Rect {
        x,
        y,
        width: (if x + width > u16::MAX {
            u16::MAX - x
        } else {
            width as int
        }) as u16,
        height: (if y + height > u16::MAX {
            u16::MAX - y
        } else {
            height as int
        }) as u16,
    }
}

impl Rect {
    /// The right and bottom edges stay within `u16`, as every rectangle the
    /// terminal layout makes does.
    pub open spec fn fits(self) -> bool {
        self.x + self.width <= u16::MAX && self.y + self.height <= u16::MAX
    }

    /// A rectangle whose width and height are cut so that its right and
    /// bottom edges stay within `u16`.
    pub fn new(x: u16, y: u16, width: u16, height: u16) -> (rect: Rect)
        ensures
            rect == cut_rect(x, y, width, height),
            rect.fits(),
    {
        layout_rect(x, y, width, height)
    }
}

/// `ratatui::layout::Rect::new`, which keeps the right and bottom edges
/// within `u16` by cutting the width and height, read back field by field.
#[verifier::external_body]
fn layout_rect(x: u16, y: u16, width: u16, height: u16) -> (rect: Rect)
    ensures
        rect == cut_rect(x, y, width, height),
{
    let rect = ratatui::layout::Rect::new(x, y, width, height);
    Rect { x: rect.x, y: rect.y, width: rect.width, height: rect.height }
}

/// Whether cell (`x`, `y`) lies inside `r`.
pub open spec fn spec_contains(r: Rect, x: u16, y: u16) -> bool {
    r.width > 0 && r.height > 0 && x >= r.x && x < r.x + r.width && y >= r.y && y < r.y + r.height
}

pub fn contains(r: Rect, x: u16, y: u16) -> (inside: bool)
    requires
        r.fits(),
    ensures
        inside == spec_contains(r, x, y),
{
    r.width > 0 && r.height > 0 && x >= r.x && x < r.x + r.width && y >= r.y && y < r.y + r.height
}

pub fn rect(x: u16, y: u16, width: u16, height: u16) -> (r: Rect)
    ensures
        r == cut_rect(x, y, width, height),
        r.fits(),
{
    Rect::new(x, y, width, height)
}

/// The list index under cell (`x`, `y`) of a list drawn in `list` and
/// scrolled by `offset` rows, if the cell is inside the list.
pub fn visible_index(list: Rect, offset: usize, x: u16, y: u16) -> (index: Option<usize>)
    requires
        list.fits(),
        spec_contains(list, x, y) ==> offset + (y - list.y) <= usize::MAX,
    ensures
        spec_contains(list, x, y) ==> index == Some((offset + (y - list.y)) as usize),
        !spec_contains(list, x, y) ==> index is None,
{
    if contains(list, x, y) {
        Some(offset + (y - list.y) as usize)
    } else {
        None
    }
}

} // verus!
