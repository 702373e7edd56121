//! Axis-aligned screen rectangles.

use vstd::prelude::*;

verus! {

/// Largest magnitude of the corners of a rectangle that is handed to a
/// layout. Every rectangle that the window protocol can name, with or
/// without room for borders and a bar, lies well within it.
pub const LAYOUT_LIMIT: i32 = 0x0004_0000;

/// A rectangle on the screen. The value with `-1` in every field stands for
/// "not placed yet".
#[derive(Clone, Copy, Debug, PartialEq, Eq, Structural)]
pub struct Rect {
    pub x: i32,
    pub y: i32,
    pub width: i32,
    pub height: i32,
}

impl Rect {
    /// Whether the point lies in the rectangle, both ends of each side counted in.
    pub open spec fn spec_contains_point(&self, x: int, y: int) -> bool {
        &&& self.x <= x <= self.x + self.width
        &&& self.y <= y <= self.y + self.height
    }

    /// Whether one of the four corners of `other` lies in `self`.
    pub open spec fn holds_corner_of(&self, other: &Rect) -> bool {
        ||| self.spec_contains_point(other.x as int, other.y as int)
        ||| self.spec_contains_point(other.x + other.width, other.y as int)
        ||| self.spec_contains_point(other.x as int, other.y + other.height)
        ||| self.spec_contains_point(other.x + other.width, other.y + other.height)
    }

    /// The corner test for overlap: some corner of one rectangle lies in the
    /// other. Two rectangles that cross without holding a corner of each other
    /// do not count.
    pub open spec fn spec_intersect(&self, other: &Rect) -> bool {
        self.holds_corner_of(other) || other.holds_corner_of(self)
    }

    /// Both corners lie within `limit` of the origin.
    pub open spec fn corners_within(&self, limit: int) -> bool {
        &&& -limit <= self.x <= limit
        &&& -limit <= self.y <= limit
        &&& -limit <= self.x + self.width <= limit
        &&& -limit <= self.y + self.height <= limit
    }

    /// The rectangle of a client that has not been placed.
    pub open spec fn unplaced() -> Rect {
        Rect { x: -1i32, y: -1i32, width: -1i32, height: -1i32 }
    }

    pub fn new(x: i32, y: i32, width: i32, height: i32) -> (r: Rect)
        ensures
            r == (Rect { x, y, width, height }),
    {
        Rect { x, y, width, height }
    }

    pub fn contains_point(&self, x: i32, y: i32) -> (b: bool)
        ensures
            b == self.spec_contains_point(x as int, y as int),
    {
        let right: i64 = self.x as i64 + self.width as i64;
        let bottom: i64 = self.y as i64 + self.height as i64;
        x >= self.x && x as i64 <= right && y >= self.y && y as i64 <= bottom
    }

    /// `contains_point` for a point whose coordinates are sums that may not fit in `i32`.
    fn contains_wide(&self, x: i64, y: i64) -> (b: bool)
        ensures
            b == self.spec_contains_point(x as int, y as int),
    {
        let right: i64 = self.x as i64 + self.width as i64;
        let bottom: i64 = self.y as i64 + self.height as i64;
        x >= self.x as i64 && x <= right && y >= self.y as i64 && y <= bottom
    }

    fn has_corner_of(&self, other: &Rect) -> (b: bool)
        ensures
            b == self.holds_corner_of(other),
    {
        let right: i64 = other.x as i64 + other.width as i64;
        let bottom: i64 = other.y as i64 + other.height as i64;
        self.contains_wide(other.x as i64, other.y as i64)
            || self.contains_wide(right, other.y as i64)
            || self.contains_wide(other.x as i64, bottom)
            || self.contains_wide(right, bottom)
    }

    pub fn intersect(&self, other: &Rect) -> (b: bool)
        ensures
            b == self.spec_intersect(other),
    {
        self.has_corner_of(other) || other.has_corner_of(self)
    }
}

impl Default for Rect {
    fn default() -> (r: Rect)
        ensures
            r == Rect::unplaced(),
    {
        Rect { x: -1, y: -1, width: -1, height: -1 }
    }
}

} // verus!
