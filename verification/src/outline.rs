//! Glyph outlines made of quadratic curves.

use crate::scalar::Scalar;
use vstd::prelude::*;

verus! {

/// A point in font units.
#[derive(Clone, Copy, Debug, PartialEq, Eq, Structural)]
pub struct Point {
    pub x: Scalar,
    pub y: Scalar,
}

/// A quadratic bezier curve: three control points in font units.
#[derive(Clone, Copy, Debug, PartialEq, Eq, Structural)]
pub struct QuadCurve {
    pub p1: Point,
    pub p2: Point,
    pub p3: Point,
}

/// A bounding box in font units.
#[derive(Clone, Copy, Debug, PartialEq, Eq, Structural)]
pub struct Bounds {
    pub min_x: Scalar,
    pub min_y: Scalar,
    pub max_x: Scalar,
    pub max_y: Scalar,
}

/// An extracted glyph outline.
#[derive(Clone, Debug)]
pub struct GlyphOutline {
    pub curves: Vec<QuadCurve>,
    pub bounds: Bounds,
}

/// A colour with components from 0 to 1.
#[derive(Clone, Copy, Debug, PartialEq, Eq, Structural)]
pub struct Rgba {
    pub r: Scalar,
    pub g: Scalar,
    pub b: Scalar,
    pub a: Scalar,
}

/// A coordinate axis.
#[derive(Clone, Copy, Debug, PartialEq, Eq, Structural)]
pub enum Axis {
    X,
    Y,
}

impl Point {
    /// The coordinate along `axis`.
    pub open spec fn along(self, axis: Axis) -> Scalar {
        match axis {
            Axis::X => self.x,
            Axis::Y => self.y,
        }
    }

    /// Whether two points have the same coordinates as numbers.
    pub open spec fn equal(self, other: Point) -> bool {
        self.x.equal(other.x) && self.y.equal(other.y)
    }

    pub fn coordinate(&self, axis: Axis) -> (r: Scalar)
        ensures
            r == self.along(axis),
    {
        match axis {
            Axis::X => self.x,
            Axis::Y => self.y,
        }
    }

    pub fn same(&self, other: &Point) -> (r: bool)
        ensures
            r == self.equal(*other),
    {
        self.x.same(other.x) && self.y.same(other.y)
    }
}

impl QuadCurve {
    /// The least coordinate of the control points along `axis`.
    pub open spec fn low(self, axis: Axis) -> Scalar {
        self.p1.along(axis).least(self.p2.along(axis)).least(self.p3.along(axis))
    }

    /// The greatest coordinate of the control points along `axis`.
    pub open spec fn high(self, axis: Axis) -> Scalar {
        self.p1.along(axis).greatest(self.p2.along(axis)).greatest(self.p3.along(axis))
    }

    pub fn lowest(&self, axis: Axis) -> (r: Scalar)
        ensures
            r == self.low(axis),
    {
        self.p1.coordinate(axis).min(self.p2.coordinate(axis)).min(self.p3.coordinate(axis))
    }

    pub fn highest(&self, axis: Axis) -> (r: Scalar)
        ensures
            r == self.high(axis),
    {
        self.p1.coordinate(axis).max(self.p2.coordinate(axis)).max(self.p3.coordinate(axis))
    }
}

/// The bit pattern of the greatest finite number.
pub const GREATEST: u32 = 0x7f7f_ffff;

/// The bit pattern of the least finite number.
pub const LEAST: u32 = 0xff7f_ffff;

/// Bounds that take in nothing yet.
pub open spec fn no_bounds() -> Bounds {
    Bounds {
        min_x: Scalar { bits: GREATEST },
        min_y: Scalar { bits: GREATEST },
        max_x: Scalar { bits: LEAST },
        max_y: Scalar { bits: LEAST },
    }
}

impl Bounds {
    /// The bounds widened to take in a point.
    pub open spec fn with(self, p: Point) -> Bounds {
        Bounds {
            min_x: self.min_x.least(p.x),
            min_y: self.min_y.least(p.y),
            max_x: self.max_x.greatest(p.x),
            max_y: self.max_y.greatest(p.y),
        }
    }

    pub fn empty() -> (r: Bounds)
        ensures
            r == no_bounds(),
    {
        Bounds {
            min_x: Scalar::from_bits(GREATEST),
            min_y: Scalar::from_bits(GREATEST),
            max_x: Scalar::from_bits(LEAST),
            max_y: Scalar::from_bits(LEAST),
        }
    }

    /// Widens the bounds to take in a point.
    pub fn extend(&mut self, p: Point)
        ensures
            *final(self) == old(self).with(p),
    {
        *self = Bounds {
            min_x: self.min_x.min(p.x),
            min_y: self.min_y.min(p.y),
            max_x: self.max_x.max(p.x),
            max_y: self.max_y.max(p.y),
        };
    }
}

/// Whether the coordinates of a point that are numbers lie within bounds.
pub open spec fn within(p: Point, b: Bounds) -> bool {
    &&& !p.x.nan() ==> b.min_x.order() <= p.x.order() <= b.max_x.order()
    &&& !p.y.nan() ==> b.min_y.order() <= p.y.order() <= b.max_y.order()
}

/// Whether all points of a curve lie within bounds.
pub open spec fn curve_within(c: QuadCurve, b: Bounds) -> bool {
    within(c.p1, b) && within(c.p2, b) && within(c.p3, b)
}

/// Whether bounds hold numbers.
pub open spec fn bounds_numeric(b: Bounds) -> bool {
    !b.min_x.nan() && !b.min_y.nan() && !b.max_x.nan() && !b.max_y.nan()
}

/// Widened bounds take in the new point and all that they took in before.
pub proof fn lemma_widened(b: Bounds, p: Point)
    requires
        bounds_numeric(b),
    ensures
        bounds_numeric(b.with(p)),
        within(p, b.with(p)),
        forall|q: Point| #[trigger] within(q, b) ==> within(q, b.with(p)),
        forall|c: QuadCurve| #[trigger] curve_within(c, b) ==> curve_within(c, b.with(p)),
{
}

} // verus!
