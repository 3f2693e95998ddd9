//! Points and rectangles in the global compositor coordinate space.

use vstd::prelude::*;

verus! {

/// A point in the global coordinate space.
#[derive(Clone, Copy, PartialEq, Eq, Structural, Debug)]
pub struct Point {
    pub x: i32,
    pub y: i32,
}

/// An axis-aligned rectangle: top-left corner plus extent.
#[derive(Clone, Copy, PartialEq, Eq, Structural, Debug)]
pub struct Rect {
    pub x: i32,
    pub y: i32,
    pub w: u32,
    pub h: u32,
}

impl Rect {
    /// Whether `p` lies inside the rectangle; the left and top edges are
    /// inclusive, the right and bottom edges exclusive.
    pub open spec fn spec_contains(self, p: Point) -> bool {
        &&& self.x <= p.x < self.x + self.w
        &&& self.y <= p.y < self.y + self.h
    }

    pub fn contains(&self, p: Point) -> (r: bool)
        ensures
            r == self.spec_contains(p),
    {
        let right: i64 = self.x as i64 + self.w as i64;
        let bottom: i64 = self.y as i64 + self.h as i64;
        self.x <= p.x && (p.x as i64) < right && self.y <= p.y && (p.y as i64) < bottom
    }

    /// Whether the two rectangles share at least one point.
    pub open spec fn spec_overlaps(self, o: Rect) -> bool {
        &&& self.x < o.x + o.w
        &&& o.x < self.x + self.w
        &&& self.y < o.y + o.h
        &&& o.y < self.y + self.h
    }

    pub fn overlaps(&self, o: &Rect) -> (r: bool)
        ensures
            r == self.spec_overlaps(*o),
    {
        ((self.x as i64) < o.x as i64 + o.w as i64)
            && ((o.x as i64) < self.x as i64 + self.w as i64)
            && ((self.y as i64) < o.y as i64 + o.h as i64)
            && ((o.y as i64) < self.y as i64 + self.h as i64)
    }
}

} // verus!
