//! Plain integer geometry used for hit-testing pointer events.
//!
//! Layout itself is out of scope: every interactive widget carries the
//! bounding box that a layout pass assigned to it, and event handling only
//! ever asks whether the pointer lies inside such a box.

use vstd::prelude::*;

verus! {

/// A point in the window's coordinate space.
#[derive(Clone, Copy, PartialEq, Eq, Structural, Debug)]
pub struct Point {
    /// Horizontal coordinate.
    pub x: i32,
    /// Vertical coordinate.
    pub y: i32,
}

/// An axis-aligned bounding box.
#[derive(Clone, Copy, PartialEq, Eq, Structural, Debug)]
pub struct Rect {
    /// Horizontal coordinate of the left edge.
    pub x: i32,
    /// Vertical coordinate of the top edge.
    pub y: i32,
    /// Width of the box.
    pub width: u32,
    /// Height of the box.
    pub height: u32,
}

/// Whether `p` lies inside `r`: left and top edges included, right and
/// bottom edges excluded.
pub open spec fn spec_contains(r: Rect, p: Point) -> bool {
    &&& r.x <= p.x < r.x + r.width
    &&& r.y <= p.y < r.y + r.height
}

impl Rect {
    /// Hit-test: does this box contain the point?
    pub fn contains(&self, p: Point) -> (b: bool)
        ensures
            b == spec_contains(*self, p),
    {
        let x: i64 = self.x as i64;
        let y: i64 = self.y as i64;
        let px: i64 = p.x as i64;
        let py: i64 = p.y as i64;
        x <= px && px < x + self.width as i64 && y <= py && py < y + self.height as i64
    }
}

/// The pointer as the event loop reports it: at a known position, or
/// absent (for example when it left the window).
#[derive(Clone, Copy, PartialEq, Eq, Structural, Debug)]
pub enum Cursor {
    /// The pointer is at the given position.
    Available(Point),
    /// No pointer position is known.
    Unavailable,
}

/// Whether the cursor is over `r`: it has a position and that position
/// lies inside `r`.
pub open spec fn spec_is_over(c: Cursor, r: Rect) -> bool {
    match c {
        Cursor::Available(p) => spec_contains(r, p),
        Cursor::Unavailable => false,
    }
}

impl Cursor {
    /// Whether the cursor is over the given box.
    pub fn is_over(&self, r: &Rect) -> (b: bool)
        ensures
            b == spec_is_over(*self, *r),
    {
        match self {
            Cursor::Available(p) => r.contains(*p),
            Cursor::Unavailable => false,
        }
    }
}

} // verus!
