//! Similarity transforms of the plane: a rotation with a uniform stretch,
//! followed by a shift.

use vstd::prelude::*;
use crate::point::{Point, PointValue};
use crate::scalar::{descale, fits, floor_div, lemma_floor_quotient, wide_mul, Scalar, SCALE};
use crate::vect::{Vect, VectValue};
use crate::vect_laws::lemma_product_zero;

verus! {

/// The value of a [`Matrix`]: the six free coefficients of
///
/// ```text
/// [ v11 v12 v13 ]
/// [ v21 v22 v23 ]
/// [  0   0   1  ]
/// ```
pub struct MatrixValue {
    pub v11: int,
    pub v21: int,
    pub v12: int,
    pub v22: int,
    pub v13: int,
    pub v23: int,
}

impl MatrixValue {
    /// All six coefficients are held by a `Scalar`.
    pub open spec fn fits(self) -> bool {
        &&& fits(self.v11)
        &&& fits(self.v21)
        &&& fits(self.v12)
        &&& fits(self.v22)
        &&& fits(self.v13)
        &&& fits(self.v23)
    }

    /// The linear block is that of one vector `(a, b)`: `a` on the diagonal,
    /// `b` below it and `-b` above it.
    pub open spec fn canonical(self) -> bool {
        self.v12 == -self.v21 && self.v22 == self.v11
    }

    /// The vector that the linear block sends `(1, 0)` to.
    pub open spec fn rotation(self) -> VectValue {
        VectValue { x: self.v11, y: self.v21 }
    }

    /// The shift.
    pub open spec fn shift(self) -> VectValue {
        VectValue { x: self.v13, y: self.v23 }
    }

    pub open spec fn identity() -> MatrixValue {
        MatrixValue { v11: SCALE as int, v21: 0, v12: 0, v22: SCALE as int, v13: 0, v23: 0 }
    }

    pub open spec fn translate(v: VectValue) -> MatrixValue {
        MatrixValue { v11: SCALE as int, v21: 0, v12: 0, v22: SCALE as int, v13: v.x, v23: v.y }
    }

    pub open spec fn rotate_scale(v: VectValue) -> MatrixValue {
        MatrixValue { v11: v.x, v21: v.y, v12: -v.y, v22: v.x, v13: 0, v23: 0 }
    }

    /// The composition of two transforms of this family. The first column
    /// of the linear block is that of the matrix product, rounded down; the
    /// second column follows from the first, so that the result is
    /// canonical again. The shifts add, which is particular to this
    /// representation and is not the rule for affine maps in general.
    pub open spec fn mul(self, rhs: MatrixValue) -> MatrixValue {
        let v11 = descale(self.v11 * rhs.v11 + self.v12 * rhs.v21);
        let v21 = descale(self.v21 * rhs.v11 + self.v22 * rhs.v21);
        MatrixValue {
            v11: v11,
            v21: v21,
            v12: -v21,
            v22: v11,
            v13: self.v13 + rhs.v13,
            v23: self.v23 + rhs.v23,
        }
    }

    /// The image of `p`: `(v11*x + v12*y + v13, v21*x + v22*y + v23)`, the
    /// products rounded down together.
    pub open spec fn apply(self, p: PointValue) -> PointValue {
        PointValue {
            x: descale(self.v11 * p.x + self.v12 * p.y) + self.v13,
            y: descale(self.v21 * p.x + self.v22 * p.y) + self.v23,
        }
    }
}

/// A whole multiple of one comes back to the grid unchanged.
pub proof fn lemma_descale_unit(a: int, b: int)
    ensures
        descale(SCALE * a + 0 * b) == a,
        descale(0 * b + SCALE * a) == a,
        descale(a * SCALE + b * 0) == a,
        descale(b * 0 + a * SCALE) == a,
{
    assert(0 * b == 0 && b * 0 == 0) by (nonlinear_arith);
    assert(a * SCALE == SCALE * a) by (nonlinear_arith);
}

/// A shift applied after a canonical transform adds to its shift and leaves
/// its linear block alone.
pub proof fn lemma_translate_mul(t: VectValue, m: MatrixValue)
    requires
        m.canonical(),
    ensures
        MatrixValue::translate(t).mul(m) == (MatrixValue {
            v13: t.x + m.v13,
            v23: t.y + m.v23,
            ..m
        }),
{
    lemma_descale_unit(m.v11, m.v21);
    lemma_descale_unit(m.v21, m.v11);
}

/// A shift applied before a canonical transform adds to its shift and
/// leaves its linear block alone.
pub proof fn lemma_mul_translate(m: MatrixValue, t: VectValue)
    requires
        m.canonical(),
    ensures
        m.mul(MatrixValue::translate(t)) == (MatrixValue {
            v13: m.v13 + t.x,
            v23: m.v23 + t.y,
            ..m
        }),
{
    lemma_descale_unit(m.v11, m.v12);
    lemma_descale_unit(m.v21, m.v22);
}

/// Composing two canonical transforms multiplies their rotations as complex
/// numbers and adds their shifts.
pub proof fn lemma_mul_rotation(a: MatrixValue, b: MatrixValue)
    requires
        a.canonical(),
    ensures
        a.mul(b).canonical(),
        a.mul(b).rotation() == a.rotation().mul(b.rotation()),
        a.mul(b).shift() == a.shift().add(b.shift()),
{
    assert(a.v12 * b.v21 == -(a.v21 * b.v21)) by (nonlinear_arith)
        requires
            a.v12 == -a.v21,
    ;
    assert(a.v21 * b.v11 == b.v11 * a.v21) by (nonlinear_arith);
}

/// A canonical transform turns and stretches a point about the origin by
/// its rotation, as complex numbers multiply, and then moves it by its
/// shift.
pub proof fn lemma_apply_rotation(m: MatrixValue, p: PointValue)
    requires
        m.canonical(),
    ensures
        m.apply(p) == PointValue::origin().add(m.rotation().mul(p.sub(PointValue::origin()))).add(m.shift()),
{
    assert(m.v12 * p.y == -(m.v21 * p.y)) by (nonlinear_arith)
        requires
            m.v12 == -m.v21,
    ;
    assert(m.v21 * p.x == p.x * m.v21) by (nonlinear_arith);
}

/// A canonical transform keeps distances as far as its rotation is of
/// length one. The difference of the images of two points is, within a
/// step of the grid in each component, the exact product of the rotation
/// and the difference of the points, brought back to the grid; and the
/// length of that product is the product of the two lengths.
pub proof fn lemma_apply_difference(m: MatrixValue, p: PointValue, q: PointValue)
    requires
        m.canonical(),
    ensures
        ({
            let between = p.sub(q);
            let image = m.apply(p).sub(m.apply(q));
            let turned = m.rotation().product(between);
            &&& turned.x - SCALE < SCALE * image.x < turned.x + SCALE
            &&& turned.y - SCALE < SCALE * image.y < turned.y + SCALE
            &&& turned.norm_sq() == m.rotation().norm_sq() * between.norm_sq()
        }),
{
    let s = SCALE as int;
    let between = p.sub(q);
    let turned = m.rotation().product(between);
    let px = m.v11 * p.x + m.v12 * p.y;
    let py = m.v21 * p.x + m.v22 * p.y;
    let qx = m.v11 * q.x + m.v12 * q.y;
    let qy = m.v21 * q.x + m.v22 * q.y;
    assert(px - qx == turned.x) by (nonlinear_arith)
        requires
            px == m.v11 * p.x + m.v12 * p.y,
            qx == m.v11 * q.x + m.v12 * q.y,
            m.v12 == -m.v21,
            turned.x == m.v11 * (p.x - q.x) - m.v21 * (p.y - q.y),
    ;
    assert(py - qy == turned.y) by (nonlinear_arith)
        requires
            py == m.v21 * p.x + m.v22 * p.y,
            qy == m.v21 * q.x + m.v22 * q.y,
            m.v22 == m.v11,
            turned.y == m.v11 * (p.y - q.y) + (p.x - q.x) * m.v21,
    ;
    lemma_floor_quotient(px, s);
    lemma_floor_quotient(py, s);
    lemma_floor_quotient(qx, s);
    lemma_floor_quotient(qy, s);
    lemma_product_zero(m.rotation(), between);
}

/// A similarity transform, held by its six free coefficients in the order
/// `v11, v21, v12, v22, v13, v23`.
pub struct Matrix {
    coords: [Scalar; 6],
}

impl View for Matrix {
    type V = MatrixValue;

    closed spec fn view(&self) -> MatrixValue {
        MatrixValue {
            v11: self.coords[0]@,
            v21: self.coords[1]@,
            v12: self.coords[2]@,
            v22: self.coords[3]@,
            v13: self.coords[4]@,
            v23: self.coords[5]@,
        }
    }
}

impl Matrix {
    #[verifier::type_invariant]
    spec fn inv(self) -> bool {
        self@.canonical()
    }

    /// The transform that moves nothing.
    pub fn identity() -> (r: Matrix)
        ensures
            r@ == MatrixValue::identity(),
    {
        let one = Scalar { raw: SCALE };
        let zero = Scalar { raw: 0 };
        Matrix { coords: [one, zero, zero, one, zero, zero] }
    }

    /// The shift by `v`.
    pub fn translate(v: Vect) -> (r: Matrix)
        ensures
            r@ == MatrixValue::translate(v@),
    {
        let one = Scalar { raw: SCALE };
        let zero = Scalar { raw: 0 };
        Matrix { coords: [one, zero, zero, one, v.x, v.y] }
    }

    /// The linear map that sends `(1, 0)` to `v`: a pure rotation where `v`
    /// has length one, a rotation with a stretch otherwise.
    pub fn rotate_scale(v: Vect) -> (r: Matrix)
        requires
            fits(-v@.y),
        ensures
            r@ == MatrixValue::rotate_scale(v@),
    {
        let zero = Scalar { raw: 0 };
        Matrix { coords: [v.x, v.y, Scalar { raw: -v.y.raw }, v.x, zero, zero] }
    }

    pub fn v11(&self) -> (r: Scalar)
        ensures
            r@ == self@.v11,
    {
        self.coords[0]
    }

    pub fn v21(&self) -> (r: Scalar)
        ensures
            r@ == self@.v21,
    {
        self.coords[1]
    }

    /// The bottom row is fixed: `0 0 1`.
    pub fn v31(&self) -> (r: Scalar)
        ensures
            r@ == 0,
    {
        Scalar { raw: 0 }
    }

    pub fn v12(&self) -> (r: Scalar)
        ensures
            r@ == self@.v12,
            r@ == -self@.v21,
    {
        proof {
            use_type_invariant(self);
        }
        self.coords[2]
    }

    pub fn v22(&self) -> (r: Scalar)
        ensures
            r@ == self@.v22,
            r@ == self@.v11,
    {
        proof {
            use_type_invariant(self);
        }
        self.coords[3]
    }

    /// The bottom row is fixed: `0 0 1`.
    pub fn v32(&self) -> (r: Scalar)
        ensures
            r@ == 0,
    {
        Scalar { raw: 0 }
    }

    pub fn v13(&self) -> (r: Scalar)
        ensures
            r@ == self@.v13,
    {
        self.coords[4]
    }

    pub fn v23(&self) -> (r: Scalar)
        ensures
            r@ == self@.v23,
    {
        self.coords[5]
    }

    /// The bottom row is fixed: `0 0 1`.
    pub fn v33(&self) -> (r: Scalar)
        ensures
            r@ == SCALE,
    {
        Scalar { raw: SCALE }
    }

    /// The composition `self * rhs` within this family of transforms.
    pub fn mul(self, rhs: Matrix) -> (r: Matrix)
        requires
            self@.mul(rhs@).fits(),
        ensures
            r@ == self@.mul(rhs@),
            r@.canonical(),
    {
        let a: i128 = wide_mul(self.v11().raw, rhs.v11().raw);
        let b: i128 = wide_mul(self.v12().raw, rhs.v21().raw);
        let c: i128 = wide_mul(self.v21().raw, rhs.v11().raw);
        let d: i128 = wide_mul(self.v22().raw, rhs.v21().raw);
        let v11: i128 = floor_div(a + b, SCALE as i128);
        let v21: i128 = floor_div(c + d, SCALE as i128);
        let v11 = Scalar { raw: v11 as i64 };
        let v21 = Scalar { raw: v21 as i64 };
        let v12 = Scalar { raw: -v21.raw };
        let v13 = Scalar { raw: self.v13().raw + rhs.v13().raw };
        let v23 = Scalar { raw: self.v23().raw + rhs.v23().raw };
        Matrix { coords: [v11, v21, v12, v11, v13, v23] }
    }

    /// The image of `p` under the transform.
    pub fn apply(&self, p: Point) -> (r: Point)
        requires
            self@.apply(p@).fits(),
        ensures
            r@ == self@.apply(p@),
    {
        let a: i128 = wide_mul(self.v11().raw, p.x.raw);
        let b: i128 = wide_mul(self.v12().raw, p.y.raw);
        let c: i128 = wide_mul(self.v21().raw, p.x.raw);
        let d: i128 = wide_mul(self.v22().raw, p.y.raw);
        let x: i128 = floor_div(a + b, SCALE as i128) + (self.v13().raw as i128);
        let y: i128 = floor_div(c + d, SCALE as i128) + (self.v23().raw as i128);
        Point { x: Scalar { raw: x as i64 }, y: Scalar { raw: y as i64 } }
    }
}

} // verus!
