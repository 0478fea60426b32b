use vstd::prelude::*;
use crate::rng::DiceRng;

verus! {

/// Axis-aligned room rectangle. The carved (walkable) interior is
/// `x1+1 ..= x2` by `y1+1 ..= y2`.
#[derive(Clone, Copy, Debug, PartialEq, Eq, Structural)]
pub struct Rect {
    pub x1: i32,
    pub y1: i32,
    pub x2: i32,
    pub y2: i32,
}

impl Rect {
    /// A proper room: its carved interior is non-empty.
    pub open spec fn wf(self) -> bool {
        self.x1 < self.x2 && self.y1 < self.y2
    }

    /// The carved interior contains the cell (x, y).
    pub open spec fn interior_contains(self, x: int, y: int) -> bool {
        self.x1 < x <= self.x2 && self.y1 < y <= self.y2
    }

    pub fn new(x: i32, y: i32, w: i32, h: i32) -> (r: Rect)
        requires
            0 <= w,
            0 <= h,
            x + w <= i32::MAX,
            y + h <= i32::MAX,
        ensures
            r.x1 == x,
            r.y1 == y,
            r.x2 == x + w,
            r.y2 == y + h,
    {
        Rect { x1: x, y1: y, x2: x + w, y2: y + h }
    }

    pub open spec fn intersect_spec(self, other: Rect) -> bool {
        self.x1 <= other.x2 && self.x2 >= other.x1 && self.y1 <= other.y2 && self.y2 >= other.y1
    }

    /// Overlap test used during generation to reject rooms that would touch
    /// an already accepted room.
    pub fn intersect(&self, other: &Rect) -> (r: bool)
        ensures
            r == self.intersect_spec(*other),
    {
        self.x1 <= other.x2 && self.x2 >= other.x1 && self.y1 <= other.y2 && self.y2 >= other.y1
    }

    pub open spec fn center_spec(self) -> (int, int) {
        ((self.x1 + self.x2) / 2, (self.y1 + self.y2) / 2)
    }

    /// Midpoint of the rectangle, rounded down.
    pub fn center(&self) -> (r: (i32, i32))
        requires
            0 <= self.x1,
            0 <= self.y1,
            self.wf(),
        ensures
            r.0 == self.center_spec().0,
            r.1 == self.center_spec().1,
            self.x1 <= r.0 <= self.x2,
            self.y1 <= r.1 <= self.y2,
    {
        let cx: i64 = ((self.x1 as i64) + (self.x2 as i64)) / 2;
        let cy: i64 = ((self.y1 as i64) + (self.y2 as i64)) / 2;
        (cx as i32, cy as i32)
    }

    /// A uniformly drawn cell of the carved interior.
    pub fn random(&self, rng: &mut DiceRng) -> (r: (i32, i32))
        requires
            self.wf(),
        ensures
            self.interior_contains(r.0 as int, r.1 as int),
    {
        let x = rng.range(self.x1 + 1, self.x2);
        let y = rng.range(self.y1 + 1, self.y2);
        (x, y)
    }
}

} // verus!
