//! Axis-aligned rectangles used for room placement during map generation.

use vstd::prelude::*;
use vstd::arithmetic::div_mod::lemma_div_is_ordered;
use vstd::arithmetic::div_mod::lemma_div_multiples_vanish;

verus! {

/// A closed rectangle with corners `(x1, y1)` and `(x2, y2)`.
#[derive(Clone, Copy, PartialEq, Eq, Structural, Debug)]
pub struct Rect {
    pub x1: i32,
    pub y1: i32,
    pub x2: i32,
    pub y2: i32,
}

impl Rect {
    /// Does this rectangle share at least one point with `other`?
    pub open spec fn spec_intersect(self, other: Rect) -> bool {
        self.x1 <= other.x2 && self.x2 >= other.x1 && self.y1 <= other.y2 && self.y2 >= other.y1
    }

    /// A rectangle is ordered when its first corner is no greater than its second.
    pub open spec fn ordered(self) -> bool {
        self.x1 <= self.x2 && self.y1 <= self.y2
    }

    /// The carved interior of a room rectangle: everything but its first
    /// (top/left) edge row and column.
    pub open spec fn interior_contains(self, x: int, y: int) -> bool {
        self.x1 + 1 <= x <= self.x2 && self.y1 + 1 <= y <= self.y2
    }

    /// The centre tile of the rectangle, rounded down.
    pub open spec fn spec_centre(self) -> (int, int) {
        ((self.x1 + self.x2) / 2, (self.y1 + self.y2) / 2)
    }

    /// The centre of a rectangle spanning at least four tiles on each axis
    /// lies strictly inside it, two or more tiles past the first corner.
    pub proof fn lemma_centre_bounds(self)
        requires
            self.x1 + 4 <= self.x2,
            self.y1 + 4 <= self.y2,
        ensures
            self.x1 + 2 <= self.spec_centre().0 <= self.x2,
            self.y1 + 2 <= self.spec_centre().1 <= self.y2,
    {
        lemma_div_multiples_vanish(self.x1 + 2, 2);
        lemma_div_multiples_vanish(self.x2 as int, 2);
        lemma_div_is_ordered(2 * (self.x1 + 2), self.x1 + self.x2, 2);
        lemma_div_is_ordered(self.x1 + self.x2, 2 * self.x2, 2);
        lemma_div_multiples_vanish(self.y1 + 2, 2);
        lemma_div_multiples_vanish(self.y2 as int, 2);
        lemma_div_is_ordered(2 * (self.y1 + 2), self.y1 + self.y2, 2);
        lemma_div_is_ordered(self.y1 + self.y2, 2 * self.y2, 2);
    }

    pub fn new(x: i32, y: i32, w: i32, h: i32) -> (r: Rect)
        requires
            0 <= x,
            0 <= y,
            0 <= w,
            0 <= h,
            x + w <= i32::MAX,
            y + h <= i32::MAX,
        ensures
            r == (Rect { x1: x, y1: y, x2: (x + w) as i32, y2: (y + h) as i32 }),
    {
        Rect { x1: x, y1: y, x2: x + w, y2: y + h }
    }

    pub fn intersect(&self, other: &Rect) -> (r: bool)
        ensures
            r == self.spec_intersect(*other),
    {
        self.x1 <= other.x2 && self.x2 >= other.x1 && self.y1 <= other.y2 && self.y2 >= other.y1
    }

    pub fn centre(&self) -> (r: (i32, i32))
        requires
            self.ordered(),
            0 <= self.x1,
            0 <= self.y1,
            self.x2 <= i32::MAX - self.x1,
            self.y2 <= i32::MAX - self.y1,
        ensures
            (r.0 as int, r.1 as int) == self.spec_centre(),
    {
        let cx: i32 = (((self.x1 + self.x2) as u32) / 2) as i32;
        let cy: i32 = (((self.y1 + self.y2) as u32) / 2) as i32;
        (cx, cy)
    }
}

} // verus!
