//! Free displacements in the plane.

use vstd::prelude::*;
use crate::error::GeometryError;
use crate::scalar::{
    descale, fits, floor_div, floor_sqrt, isqrt, ratio, ratio_wide, size, sum_of_squares, wide_mul,
    Scalar, SCALE,
};
use crate::vect_laws::{lemma_over_norm_bounded, lemma_unit_norm};

verus! {

/// The size to which a vector is brought before its length is taken: the
/// larger of its components then lies from half of this up to it.
pub const WORKING_REACH: i64 = 0x4000_0000_0000_0000;

/// The value of a [`Vect`]: two unbounded raw counts.
pub struct VectValue {
    pub x: int,
    pub y: int,
}

impl VectValue {
    /// Both components are held by a `Scalar`.
    pub open spec fn fits(self) -> bool {
        fits(self.x) && fits(self.y)
    }

    pub open spec fn is_zero(self) -> bool {
        self.x == 0 && self.y == 0
    }

    /// `x1*x2 + y1*y2`, rounded down to the grid.
    pub open spec fn dot(self, rhs: VectValue) -> int {
        descale(self.x * rhs.x + self.y * rhs.y)
    }

    /// The exact square of the length, in squared raw units.
    pub open spec fn norm_sq(self) -> int {
        self.x * self.x + self.y * self.y
    }

    /// The length, rounded down to the grid.
    pub open spec fn norm(self) -> int {
        floor_sqrt(self.norm_sq())
    }

    pub open spec fn neg(self) -> VectValue {
        VectValue { x: -self.x, y: -self.y }
    }

    pub open spec fn add(self, rhs: VectValue) -> VectValue {
        VectValue { x: self.x + rhs.x, y: self.y + rhs.y }
    }

    pub open spec fn sub(self, rhs: VectValue) -> VectValue {
        VectValue { x: self.x - rhs.x, y: self.y - rhs.y }
    }

    /// The vector stretched by the factor `k`, each component rounded down.
    pub open spec fn scale(self, k: int) -> VectValue {
        VectValue { x: descale(k * self.x), y: descale(k * self.y) }
    }

    /// The exact product of the two vectors read as complex numbers,
    /// `(x1*x2 - y1*y2, x1*y2 + x2*y1)`, in squared raw units: not brought
    /// back to the grid.
    pub open spec fn product(self, rhs: VectValue) -> VectValue {
        VectValue { x: self.x * rhs.x - self.y * rhs.y, y: self.x * rhs.y + rhs.x * self.y }
    }

    /// The product of the two vectors read as complex numbers,
    /// `(x1*x2 - y1*y2, x1*y2 + x2*y1)`, each component rounded down.
    pub open spec fn mul(self, rhs: VectValue) -> VectValue {
        VectValue { x: descale(self.product(rhs).x), y: descale(self.product(rhs).y) }
    }

    /// The vector shrunk by the divisor `k != 0`, each component rounded down.
    pub open spec fn div(self, k: int) -> VectValue {
        VectValue { x: ratio(self.x, k), y: ratio(self.y, k) }
    }

    /// The larger of the sizes of the two components.
    pub open spec fn reach(self) -> int {
        if size(self.x) >= size(self.y) {
            size(self.x)
        } else {
            size(self.y)
        }
    }

    /// Half the vector, each component rounded down.
    pub open spec fn halved(self) -> VectValue {
        VectValue { x: self.x / 2, y: self.y / 2 }
    }

    /// Twice the vector.
    pub open spec fn doubled(self) -> VectValue {
        VectValue { x: 2 * self.x, y: 2 * self.y }
    }

    /// The vector halved until its reach is below [`WORKING_REACH`].
    pub open spec fn shrunk(self) -> VectValue
        decreases self.reach(),
    {
        if self.reach() >= WORKING_REACH {
            self.halved().shrunk()
        } else {
            self
        }
    }

    /// The vector doubled as long as its reach stays below
    /// [`WORKING_REACH`]. The zero vector stays as it is.
    pub open spec fn grown(self) -> VectValue
        decreases WORKING_REACH - self.reach(),
    {
        if 0 < self.reach() && 2 * self.reach() < WORKING_REACH {
            self.doubled().grown()
        } else {
            self
        }
    }

    /// The power of two by which [`grown`](Self::grown) multiplies.
    pub open spec fn growth(self) -> int
        decreases WORKING_REACH - self.reach(),
    {
        if 0 < self.reach() && 2 * self.reach() < WORKING_REACH {
            2 * self.doubled().growth()
        } else {
            1
        }
    }

    /// The vector times the whole number `m`.
    pub open spec fn times(self, m: int) -> VectValue {
        VectValue { x: m * self.x, y: m * self.y }
    }

    /// The vector times the power of two that brings its reach to half of
    /// [`WORKING_REACH`] or more, and below it. A vector of 62 bits or
    /// fewer is multiplied, which loses nothing; a longer one is halved.
    pub open spec fn working(self) -> VectValue {
        self.shrunk().grown()
    }

    /// The vector divided by its length as the grid holds it.
    pub open spec fn over_norm(self) -> VectValue {
        self.div(self.norm())
    }

    /// The vector of length one in the direction of `self`: the vector
    /// divided by its length, both taken at working size, where the length
    /// has 61 bits and its rounding is far below a step of the grid.
    /// Meaningful unless `self` is zero.
    pub open spec fn unit(self) -> VectValue {
        self.working().over_norm()
    }

    /// `dot(self, unit(other)) * other`. Meaningful unless `other` is zero.
    pub open spec fn onto(self, other: VectValue) -> VectValue {
        other.scale(self.dot(other.unit()))
    }
}

/// The larger of the sizes of two wide components.
fn reach_wide(x: i128, y: i128) -> (r: i128)
    requires
        x != i128::MIN,
        y != i128::MIN,
    ensures
        r == (VectValue { x: x as int, y: y as int }).reach(),
{
    let a: i128 = if x < 0 {
        -x
    } else {
        x
    };
    let b: i128 = if y < 0 {
        -y
    } else {
        y
    };
    if a >= b {
        a
    } else {
        b
    }
}

/// The unit vector of a vector whose components may be wider than the
/// grid: those of an exact product.
pub(crate) fn unit_wide(x: i128, y: i128) -> (r: Vect)
    requires
        x != i128::MIN,
        y != i128::MIN,
        x != 0 || y != 0,
    ensures
        r@ == (VectValue { x: x as int, y: y as int }).unit(),
{
    let ghost v = VectValue { x: x as int, y: y as int };
    let mut a: i128 = x;
    let mut b: i128 = y;
    while reach_wide(a, b) >= WORKING_REACH as i128
        invariant
            a != i128::MIN,
            b != i128::MIN,
            (VectValue { x: a as int, y: b as int }).shrunk() == v.shrunk(),
            !(VectValue { x: a as int, y: b as int }).is_zero(),
        decreases (VectValue { x: a as int, y: b as int }).reach(),
    {
        a = floor_div(a, 2);
        b = floor_div(b, 2);
    }
    while 2 * reach_wide(a, b) < WORKING_REACH as i128
        invariant
            a != i128::MIN,
            b != i128::MIN,
            0 < (VectValue { x: a as int, y: b as int }).reach() < WORKING_REACH,
            (VectValue { x: a as int, y: b as int }).grown() == v.working(),
        decreases WORKING_REACH - (VectValue { x: a as int, y: b as int }).reach(),
    {
        a = 2 * a;
        b = 2 * b;
    }
    let ghost w = VectValue { x: a as int, y: b as int };
    proof {
        assert(w == v.working());
        lemma_over_norm_bounded(w);
    }
    let n: u128 = sum_of_squares(a as i64, b as i64);
    let len: u64 = isqrt(n);
    let ux: i128 = ratio_wide(a as i64, len as i128);
    let uy: i128 = ratio_wide(b as i64, len as i128);
    Vect { x: Scalar { raw: ux as i64 }, y: Scalar { raw: uy as i64 } }
}

/// A free displacement: a direction and a magnitude, tied to no location.
#[derive(Clone, Copy, Debug, PartialEq, Eq, Structural)]
pub struct Vect {
    pub x: Scalar,
    pub y: Scalar,
}

impl View for Vect {
    type V = VectValue;

    open spec fn view(&self) -> VectValue {
        VectValue { x: self.x@, y: self.y@ }
    }
}

impl Vect {
    /// Whether both components are exactly zero.
    pub fn is_zero(self) -> (r: bool)
        ensures
            r == self@.is_zero(),
    {
        self.x.raw == 0 && self.y.raw == 0
    }

    /// The dot product.
    pub fn dot(self, rhs: Vect) -> (r: Scalar)
        requires
            fits(self@.dot(rhs@)),
        ensures
            r@ == self@.dot(rhs@),
    {
        let a: i128 = wide_mul(self.x.raw, rhs.x.raw);
        let b: i128 = wide_mul(self.y.raw, rhs.y.raw);
        let q: i128 = floor_div(a + b, SCALE as i128);
        Scalar { raw: q as i64 }
    }

    /// The length, rounded down to the grid.
    pub fn norm(self) -> (r: Scalar)
        requires
            fits(self@.norm()),
        ensures
            r@ == self@.norm(),
    {
        let n: u128 = sum_of_squares(self.x.raw, self.y.raw);
        let r: u64 = isqrt(n);
        Scalar { raw: r as i64 }
    }

    /// The vector of length one in the direction of `self`: each component
    /// is `SCALE * x / sqrt(x^2 + y^2)`, rounded once. The length is taken
    /// of the vector at working size, not as the grid holds it, so that a
    /// vector far shorter than one has a unit vector as good as any other.
    ///
    /// The zero vector has no direction.
    pub fn unit(self) -> (r: Result<Vect, GeometryError>)
        ensures
            self@.is_zero() ==> r == Err::<Vect, GeometryError>(GeometryError::UndefinedNormalization),
            !self@.is_zero() ==> (r matches Ok(u) && u@ == self@.unit() && SCALE - 3 <= u@.norm() <= SCALE
                + 3),
    {
        if self.is_zero() {
            return Err(GeometryError::UndefinedNormalization);
        }
        proof {
            lemma_unit_norm(self@);
        }
        Ok(unit_wide(self.x.raw as i128, self.y.raw as i128))
    }

    /// `dot(self, unit(other)) * other`: the part of `self` along `other`,
    /// stretched by the length of `other`.
    ///
    /// The zero vector spans no line.
    pub fn onto(self, other: Vect) -> (r: Result<Vect, GeometryError>)
        requires
            !other@.is_zero() ==> fits(self@.dot(other@.unit())) && self@.onto(other@).fits(),
        ensures
            other@.is_zero() ==> r == Err::<Vect, GeometryError>(GeometryError::UndefinedNormalization),
            !other@.is_zero() ==> (r matches Ok(v) && v@ == self@.onto(other@)),
    {
        match other.unit() {
            Err(e) => Err(e),
            Ok(u) => Ok(other.scale(self.dot(u))),
        }
    }

    /// The opposite vector.
    pub fn neg(self) -> (r: Vect)
        requires
            self@.neg().fits(),
        ensures
            r@ == self@.neg(),
    {
        Vect { x: Scalar { raw: -self.x.raw }, y: Scalar { raw: -self.y.raw } }
    }

    /// The componentwise sum.
    pub fn add(self, rhs: Vect) -> (r: Vect)
        requires
            self@.add(rhs@).fits(),
        ensures
            r@ == self@.add(rhs@),
    {
        Vect { x: Scalar { raw: self.x.raw + rhs.x.raw }, y: Scalar { raw: self.y.raw + rhs.y.raw } }
    }

    /// The componentwise difference.
    pub fn sub(self, rhs: Vect) -> (r: Vect)
        requires
            self@.sub(rhs@).fits(),
        ensures
            r@ == self@.sub(rhs@),
    {
        Vect { x: Scalar { raw: self.x.raw - rhs.x.raw }, y: Scalar { raw: self.y.raw - rhs.y.raw } }
    }

    /// The vector stretched by the factor `k`.
    pub fn scale(self, k: Scalar) -> (r: Vect)
        requires
            self@.scale(k@).fits(),
        ensures
            r@ == self@.scale(k@),
    {
        let px: i128 = wide_mul(k.raw, self.x.raw);
        let py: i128 = wide_mul(k.raw, self.y.raw);
        let qx: i128 = floor_div(px, SCALE as i128);
        let qy: i128 = floor_div(py, SCALE as i128);
        Vect { x: Scalar { raw: qx as i64 }, y: Scalar { raw: qy as i64 } }
    }

    /// The product of the two vectors read as complex numbers: the rotation
    /// and stretch of `self` that `rhs` stands for.
    pub fn mul(self, rhs: Vect) -> (r: Vect)
        requires
            self@.mul(rhs@).fits(),
        ensures
            r@ == self@.mul(rhs@),
    {
        let xx: i128 = wide_mul(self.x.raw, rhs.x.raw);
        let yy: i128 = wide_mul(self.y.raw, rhs.y.raw);
        let xy: i128 = wide_mul(self.x.raw, rhs.y.raw);
        let yx: i128 = wide_mul(rhs.x.raw, self.y.raw);
        let qx: i128 = floor_div(xx - yy, SCALE as i128);
        let qy: i128 = floor_div(xy + yx, SCALE as i128);
        Vect { x: Scalar { raw: qx as i64 }, y: Scalar { raw: qy as i64 } }
    }

    /// The vector shrunk by the divisor `k`.
    pub fn div(self, k: Scalar) -> (r: Vect)
        requires
            k@ != 0,
            self@.div(k@).fits(),
        ensures
            r@ == self@.div(k@),
    {
        let qx: i128 = ratio_wide(self.x.raw, k.raw as i128);
        let qy: i128 = ratio_wide(self.y.raw, k.raw as i128);
        Vect { x: Scalar { raw: qx as i64 }, y: Scalar { raw: qy as i64 } }
    }
}

} // verus!
