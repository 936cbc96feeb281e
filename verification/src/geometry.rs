//! Axis-aligned rectangles on the world grid.

use vstd::prelude::*;

verus! {

/// Steps of the world grid in one world unit. A velocity is counted in
/// thousandths of a unit a second and a second has 64 ticks, so a step is
/// what the slowest velocity covers in one tick.
pub const STEPS_PER_UNIT: i64 = 64_000;

/// World units in one tile of a room descriptor.
pub const PIXEL_SCALE: i64 = 48;

/// Steps in one tile: `PIXEL_SCALE` world units of `STEPS_PER_UNIT` steps each.
pub const TILE: i64 = 3_072_000;

/// Largest magnitude of a coordinate that the arithmetic of this crate accepts.
pub const WORLD_LIMIT: i64 = 1_000_000_000_000_000_000;

/// Whether `v` lies within the world.
pub open spec fn in_world(v: int) -> bool {
    -WORLD_LIMIT <= v <= WORLD_LIMIT
}

/// The larger of `a` and `b`.
pub open spec fn max_of(a: int, b: int) -> int {
    if a >= b { a } else { b }
}

/// The smaller of `a` and `b`.
pub open spec fn min_of(a: int, b: int) -> int {
    if a <= b { a } else { b }
}

/// Whether `v` lies within the world.
pub fn inside(v: i64) -> (b: bool)
    ensures
        b == in_world(v as int),
{
    -WORLD_LIMIT <= v && v <= WORLD_LIMIT
}

/// A point of the world grid.
#[derive(Clone, Copy, Debug, PartialEq, Eq, Structural)]
pub struct Point {
    pub x: i64,
    pub y: i64,
}

/// A width and a height, in steps.
#[derive(Clone, Copy, Debug, PartialEq, Eq, Structural)]
pub struct Size {
    pub w: i64,
    pub h: i64,
}

/// A rectangle given by two corners: `(x0, y0)` and `(x1, y1)`.
///
/// Nothing orders the corners. A rectangle whose second corner lies left of
/// or below its first has a negative width or height and overlaps nothing.
#[derive(Clone, Copy, Debug, PartialEq, Eq, Structural)]
pub struct Rect {
    pub x0: i64,
    pub y0: i64,
    pub x1: i64,
    pub y1: i64,
}

impl Rect {
    /// All four coordinates lie within the world.
    pub open spec fn wf(self) -> bool {
        &&& in_world(self.x0 as int)
        &&& in_world(self.y0 as int)
        &&& in_world(self.x1 as int)
        &&& in_world(self.y1 as int)
    }

    /// From the first corner to the second along x.
    pub open spec fn spec_width(self) -> int {
        self.x1 - self.x0
    }

    /// From the first corner to the second along y.
    pub open spec fn spec_height(self) -> int {
        self.y1 - self.y0
    }

    /// Width of the common part of `self` and `other`; zero where they share none.
    pub open spec fn overlap_width(self, other: Rect) -> int {
        max_of(0, min_of(self.x1 as int, other.x1 as int) - max_of(self.x0 as int, other.x0 as int))
    }

    /// Height of the common part of `self` and `other`; zero where they share none.
    pub open spec fn overlap_height(self, other: Rect) -> int {
        max_of(0, min_of(self.y1 as int, other.y1 as int) - max_of(self.y0 as int, other.y0 as int))
    }

    /// Area of the common part of `self` and `other`.
    pub open spec fn overlap_area(self, other: Rect) -> int {
        self.overlap_width(other) * self.overlap_height(other)
    }

    /// The two rectangles share a region of non-zero area.
    pub open spec fn overlaps(self, other: Rect) -> bool {
        self.overlap_width(other) > 0 && self.overlap_height(other) > 0
    }

    /// The common part of `self` and `other`, anchored at the larger of the
    /// first corners and never of negative extent.
    pub open spec fn intersection(self, other: Rect) -> Rect {
        let x0 = max_of(self.x0 as int, other.x0 as int);
        let y0 = max_of(self.y0 as int, other.y0 as int);
        let x1 = min_of(self.x1 as int, other.x1 as int);
        let y1 = min_of(self.y1 as int, other.y1 as int);
        Rect { x0: x0 as i64, y0: y0 as i64, x1: max_of(x1, x0) as i64, y1: max_of(y1, y0) as i64 }
    }

    /// The rectangle of the given size whose first corner is `origin`.
    pub open spec fn spec_at(origin: Point, size: Size) -> Rect {
        Rect {
            x0: origin.x,
            y0: origin.y,
            x1: (origin.x + size.w) as i64,
            y1: (origin.y + size.h) as i64,
        }
    }

    /// Whether the rectangle lies within the world.
    pub fn within_world(&self) -> (b: bool)
        ensures
            b == self.wf(),
    {
        inside(self.x0) && inside(self.y0) && inside(self.x1) && inside(self.y1)
    }

    /// The rectangle with the corners `(x0, y0)` and `(x1, y1)`.
    pub fn new(x0: i64, y0: i64, x1: i64, y1: i64) -> (r: Rect)
        ensures
            r == (Rect { x0, y0, x1, y1 }),
    {
        Rect { x0, y0, x1, y1 }
    }

    /// The rectangle of the given size whose first corner is `origin`.
    pub fn at(origin: Point, size: Size) -> (r: Rect)
        requires
            in_world(origin.x as int),
            in_world(origin.y as int),
            in_world(size.w as int),
            in_world(size.h as int),
        ensures
            r == Rect::spec_at(origin, size),
            r.x1 == origin.x + size.w,
            r.y1 == origin.y + size.h,
    {
        Rect { x0: origin.x, y0: origin.y, x1: origin.x + size.w, y1: origin.y + size.h }
    }

    /// From the first corner to the second along x.
    pub fn width(&self) -> (w: i64)
        requires
            self.wf(),
        ensures
            w == self.spec_width(),
    {
        self.x1 - self.x0
    }

    /// From the first corner to the second along y.
    pub fn height(&self) -> (h: i64)
        requires
            self.wf(),
        ensures
            h == self.spec_height(),
    {
        self.y1 - self.y0
    }

    /// The common part of the two rectangles.
    pub fn intersect(&self, other: &Rect) -> (r: Rect)
        ensures
            r == self.intersection(*other),
            r.spec_width() == self.overlap_width(*other),
            r.spec_height() == self.overlap_height(*other),
    {
        let x0: i64 = if self.x0 >= other.x0 { self.x0 } else { other.x0 };
        let y0: i64 = if self.y0 >= other.y0 { self.y0 } else { other.y0 };
        let x1: i64 = if self.x1 <= other.x1 { self.x1 } else { other.x1 };
        let y1: i64 = if self.y1 <= other.y1 { self.y1 } else { other.y1 };
        Rect {
            x0,
            y0,
            x1: if x1 >= x0 { x1 } else { x0 },
            y1: if y1 >= y0 { y1 } else { y0 },
        }
    }

    /// Whether the two rectangles share a region of non-zero area.
    pub fn intersects(&self, other: &Rect) -> (b: bool)
        ensures
            b == self.overlaps(*other),
            b == (self.overlap_area(*other) != 0),
    {
        let x0: i64 = if self.x0 >= other.x0 { self.x0 } else { other.x0 };
        let y0: i64 = if self.y0 >= other.y0 { self.y0 } else { other.y0 };
        let x1: i64 = if self.x1 <= other.x1 { self.x1 } else { other.x1 };
        let y1: i64 = if self.y1 <= other.y1 { self.y1 } else { other.y1 };
        proof {
            lemma_area_sign(self.overlap_width(*other), self.overlap_height(*other));
        }
        x0 < x1 && y0 < y1
    }
}

/// A product of two non-negative lengths is zero exactly when one of them is.
pub proof fn lemma_area_sign(w: int, h: int)
    requires
        w >= 0,
        h >= 0,
    ensures
        (w * h != 0) <==> (w > 0 && h > 0),
        w * h >= 0,
{
    assert((w * h != 0) <==> (w > 0 && h > 0)) by (nonlinear_arith)
        requires
            w >= 0,
            h >= 0,
    ;
    assert(w * h >= 0) by (nonlinear_arith)
        requires
            w >= 0,
            h >= 0,
    ;
}

} // verus!
