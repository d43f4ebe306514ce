//! Located positions in the plane.
//!
//! A point and a vector are different things: two points have a difference,
//! which is a vector, and a point can be moved by a vector. Two points have
//! no sum, and a point has no multiple.

use vstd::prelude::*;
use crate::scalar::{fits, Scalar};
use crate::vect::{Vect, VectValue};

verus! {

/// The value of a [`Point`]: two unbounded raw counts.
pub struct PointValue {
    pub x: int,
    pub y: int,
}

impl PointValue {
    /// Both coordinates are held by a `Scalar`.
    pub open spec fn fits(self) -> bool {
        fits(self.x) && fits(self.y)
    }

    pub open spec fn origin() -> PointValue {
        PointValue { x: 0, y: 0 }
    }

    /// The point moved by `v`.
    pub open spec fn add(self, v: VectValue) -> PointValue {
        PointValue { x: self.x + v.x, y: self.y + v.y }
    }

    /// The displacement that leads from `rhs` to `self`.
    pub open spec fn sub(self, rhs: PointValue) -> VectValue {
        VectValue { x: self.x - rhs.x, y: self.y - rhs.y }
    }

    /// The point moved against `v`.
    pub open spec fn sub_vect(self, v: VectValue) -> PointValue {
        PointValue { x: self.x - v.x, y: self.y - v.y }
    }
}

/// Moving a point by a vector and taking the difference to where it was
/// gives the vector back: `(p + v) - p == v`.
pub proof fn lemma_add_then_sub(p: PointValue, v: VectValue)
    ensures
        p.add(v).sub(p) == v,
{
}

/// Moving a point against a vector and then by it leads back to the point:
/// `(p - v) + v == p`.
pub proof fn lemma_sub_then_add(p: PointValue, v: VectValue)
    ensures
        p.sub_vect(v).add(v) == p,
{
}

/// A located position.
#[derive(Clone, Copy, Debug, PartialEq, Eq, Structural)]
pub struct Point {
    pub x: Scalar,
    pub y: Scalar,
}

impl View for Point {
    type V = PointValue;

    open spec fn view(&self) -> PointValue {
        PointValue { x: self.x@, y: self.y@ }
    }
}

impl Default for Point {
    /// The origin.
    fn default() -> (r: Point)
        ensures
            r@ == PointValue::origin(),
    {
        Point { x: Scalar { raw: 0 }, y: Scalar { raw: 0 } }
    }
}

impl Point {
    /// The point moved by `v`.
    pub fn add(self, v: Vect) -> (r: Point)
        requires
            self@.add(v@).fits(),
        ensures
            r@ == self@.add(v@),
    {
        Point { x: Scalar { raw: self.x.raw + v.x.raw }, y: Scalar { raw: self.y.raw + v.y.raw } }
    }

    /// The displacement that leads from `rhs` to `self`.
    pub fn sub(self, rhs: Point) -> (r: Vect)
        requires
            self@.sub(rhs@).fits(),
        ensures
            r@ == self@.sub(rhs@),
    {
        Vect { x: Scalar { raw: self.x.raw - rhs.x.raw }, y: Scalar { raw: self.y.raw - rhs.y.raw } }
    }

    /// The point moved against `v`.
    pub fn sub_vect(self, v: Vect) -> (r: Point)
        requires
            self@.sub_vect(v@).fits(),
        ensures
            r@ == self@.sub_vect(v@),
    {
        Point { x: Scalar { raw: self.x.raw - v.x.raw }, y: Scalar { raw: self.y.raw - v.y.raw } }
    }
}

} // verus!
