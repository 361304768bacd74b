use vstd::prelude::*;

verus! {

/// Fixed-point scale: one spatial unit is `UNIT` raw coordinate steps.
pub const UNIT: i64 = 1_000_000;

/// A two-dimensional point or vector in raw fixed-point coordinates.
#[derive(Clone, Copy, Debug, PartialEq, Eq, Structural)]
pub struct Vec2 {
    pub x: i64,
    pub y: i64,
}

impl Vec2 {
    /// Whether `self + other` stays within `i64` on both axes.
    pub open spec fn plus_fits(self, other: Vec2) -> bool {
        &&& i64::MIN <= self.x + other.x <= i64::MAX
        &&& i64::MIN <= self.y + other.y <= i64::MAX
    }

    /// Componentwise sum, meaningful when `plus_fits` holds.
    pub open spec fn spec_plus(self, other: Vec2) -> Vec2 {
        Vec2 { x: (self.x + other.x) as i64, y: (self.y + other.y) as i64 }
    }

    pub fn new(x: i64, y: i64) -> (v: Vec2)
        ensures
            v == (Vec2 { x, y }),
    {
        Vec2 { x, y }
    }

    pub fn plus(self, other: Vec2) -> (v: Vec2)
        requires
            self.plus_fits(other),
        ensures
            v == self.spec_plus(other),
    {
        Vec2 { x: self.x + other.x, y: self.y + other.y }
    }
}

/// Squared Euclidean distance between two points, as an unbounded integer.
pub open spec fn sq_dist(a: Vec2, b: Vec2) -> int {
    (a.x - b.x) * (a.x - b.x) + (a.y - b.y) * (a.y - b.y)
}

} // verus!
