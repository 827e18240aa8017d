use vstd::prelude::*;

verus! {

/// An axis-aligned rectangle given by two corners.
#[derive(Clone, Copy, Debug, PartialEq, Eq, Structural)]
pub struct Rect {
    pub x1: i32,
    pub x2: i32,
    pub y1: i32,
    pub y2: i32,
}

/// Coordinates small enough that the arithmetic on them stays far from overflow.
pub open spec fn small(v: int) -> bool {
    -0x4000_0000 <= v <= 0x3fff_ffff
}

impl Rect {
    /// A rectangle with top-left corner `(x, y)`, width `w` and height `h`.
    pub fn new(x: i32, y: i32, w: i32, h: i32) -> (r: Rect)
        requires
            i32::MIN <= x + w <= i32::MAX,
            i32::MIN <= y + h <= i32::MAX,
        ensures
            r.x1 == x,
            r.y1 == y,
            r.x2 == x + w,
            r.y2 == y + h,
    {
        Rect { x1: x, y1: y, x2: x + w, y2: y + h }
    }

    pub open spec fn spec_intersects(&self, other: &Rect) -> bool {
        self.x1 <= other.x2 && self.x2 >= other.x1 && self.y1 <= other.y2 && self.y2 >= other.y1
    }

    /// Whether the two rectangles overlap (touching edges count).
    pub fn intersects(&self, other: &Rect) -> (r: bool)
        ensures
            r == self.spec_intersects(other),
    {
        self.x1 <= other.x2 && self.x2 >= other.x1 && self.y1 <= other.y2 && self.y2 >= other.y1
    }

    pub open spec fn spec_center(&self) -> (int, int) {
        (half_toward_zero(self.x1 + self.x2), half_toward_zero(self.y1 + self.y2))
    }

    /// The middle of the rectangle, rounded towards the top-left.
    pub fn center(&self) -> (r: (i32, i32))
        requires
            small(self.x1 as int),
            small(self.x2 as int),
            small(self.y1 as int),
            small(self.y2 as int),
        ensures
            r.0 == self.spec_center().0,
            r.1 == self.spec_center().1,
    {
        let sx = self.x1 + self.x2;
        let sy = self.y1 + self.y2;
        (sx / 2, sy / 2)
    }
}

/// Half of `v`, rounded towards zero (as integer division does).
pub open spec fn half_toward_zero(v: int) -> int {
    if v >= 0 { v / 2 } else { -((-v) / 2) }
}


/// Whether two rectangles overlap does not depend on their order.
pub proof fn lemma_intersects_symmetric(a: Rect, b: Rect)
    ensures
        a.spec_intersects(&b) == b.spec_intersects(&a),
{
}

} // verus!
