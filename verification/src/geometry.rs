use vstd::prelude::*;

verus! {

/// An axis-aligned rectangle on the map, given by its corners.
#[derive(Clone, Copy, Debug)]
pub struct Rect {
    pub x1: i32,
    pub x2: i32,
    pub y1: i32,
    pub y2: i32,
}

/// Integer halving as Rust's `/ 2` does it on signed values: towards zero.
pub open spec fn half_toward_zero(n: int) -> int {
    if n >= 0 {
        n / 2
    } else {
        -((-n) / 2)
    }
}

/// The point that `Rect::center` returns.
pub open spec fn center_of(r: Rect) -> (int, int) {
    (half_toward_zero(r.x1 + r.x2), half_toward_zero(r.y1 + r.y2))
}

/// Two rectangles touch or overlap, borders included.
pub open spec fn rects_intersect(a: Rect, b: Rect) -> bool {
    a.x1 <= b.x2 && a.x2 >= b.x1 && a.y1 <= b.y2 && a.y2 >= b.y1
}

/// The corners' sums fit in an `i32`, so that the center can be computed.
pub open spec fn center_fits(r: Rect) -> bool {
    i32::MIN <= r.x1 + r.x2 <= i32::MAX && i32::MIN <= r.y1 + r.y2 <= i32::MAX
}

impl Rect {
    /// The rectangle with top-left corner `(x, y)`, width `w` and height `h`.
    pub fn new(x: i32, y: i32, w: i32, h: i32) -> (r: Self)
        requires
            i32::MIN <= x + w <= i32::MAX,
            i32::MIN <= y + h <= i32::MAX,
        ensures
            r.x1 == x,
            r.y1 == y,
            r.x2 == x + w,
            r.y2 == y + h,
    {
        Rect { x1: x, y1: y, x2: x + w, y2: y + h }
    }

    /// The middle of the rectangle, each coordinate halved towards zero.
    pub fn center(&self) -> (c: (i32, i32))
        requires
            center_fits(*self),
        ensures
            c.0 == center_of(*self).0,
            c.1 == center_of(*self).1,
    {
        let center_x = (self.x1 + self.x2) / 2;
        let center_y = (self.y1 + self.y2) / 2;
        (center_x, center_y)
    }

    /// Whether this rectangle and `other` overlap or share a border.
    pub fn intersects_with(&self, other: &Rect) -> (b: bool)
        ensures
            b == rects_intersect(*self, *other),
    {
        (self.x1 <= other.x2) && (self.x2 >= other.x1) && (self.y1 <= other.y2) && (self.y2
            >= other.y1)
    }
}

} // verus!
