//! The three canonical forms of a polygon, each built from its first edge.
//!
//! Each form reads the vertices in logical order, `p0, p1, p2, ...`, and
//! gives a new polygon that owns its points and starts at the first of
//! them. The polygon it was made from is left as it was.

use std::borrow::Cow;
use vstd::prelude::*;
use crate::error::GeometryError;
use crate::matrix::{
    lemma_apply_difference, lemma_mul_translate, lemma_translate_mul, Matrix, MatrixValue,
};
use crate::point::{Point, PointValue};
use crate::polygon::Polygon;
use crate::scalar::{fits, lemma_product_bounded, wide_mul, Scalar, SCALE};
use crate::vect::{unit_wide, VectValue};
use crate::vect_laws::{lemma_product_zero, lemma_unit_bounded, lemma_unit_norm};

verus! {

/// The values of a sequence of points.
pub open spec fn values(s: Seq<Point>) -> Seq<PointValue> {
    Seq::new(s.len(), |k: int| s[k]@)
}

/// `p1 - (p - p0)`: `p` turned by half a turn about `p0`, then moved so
/// that `p0` lands on `p1`.
pub open spec fn rotate_vertex(p0: PointValue, p1: PointValue, p: PointValue) -> PointValue {
    p1.sub_vect(p.sub(p0))
}

/// Each step of [`rotate_vertex`] is held by a `Scalar`.
pub open spec fn rotate_vertex_fits(p0: PointValue, p1: PointValue, p: PointValue) -> bool {
    p.sub(p0).fits() && rotate_vertex(p0, p1, p).fits()
}

/// The first two vertices as they are, each later one under
/// [`rotate_vertex`] about the first two.
pub open spec fn flip_rotate_values(s: Seq<PointValue>) -> Seq<PointValue> {
    Seq::new(
        s.len(),
        |k: int|
            if k < 2 {
                s[k]
            } else {
                rotate_vertex(s[0], s[1], s[k])
            },
    )
}

/// Every step of [`flip_rotate_values`] is held by a `Scalar`.
pub open spec fn flip_rotate_fits(s: Seq<PointValue>) -> bool {
    forall|k: int| 2 <= k < s.len() ==> rotate_vertex_fits(s[0], s[1], #[trigger] s[k])
}

/// `p0 - 2 * (v - v.onto(axis))`, where `v` leads from `p0` to `p` and
/// `axis` from `p0` to `p1`. Meaningful unless `p0` and `p1` coincide.
pub open spec fn reflect_vertex(p0: PointValue, p1: PointValue, p: PointValue) -> PointValue {
    let v = p.sub(p0);
    let axis = p1.sub(p0);
    p0.sub_vect(v.sub(v.onto(axis)).scale(2 * SCALE))
}

/// Each step of [`reflect_vertex`] is held by a `Scalar`.
pub open spec fn reflect_vertex_fits(p0: PointValue, p1: PointValue, p: PointValue) -> bool {
    let v = p.sub(p0);
    let axis = p1.sub(p0);
    &&& v.fits()
    &&& fits(v.dot(axis.unit()))
    &&& v.onto(axis).fits()
    &&& v.sub(v.onto(axis)).fits()
    &&& v.sub(v.onto(axis)).scale(2 * SCALE).fits()
    &&& reflect_vertex(p0, p1, p).fits()
}

/// The first two vertices as they are, each later one under
/// [`reflect_vertex`] about the first two.
pub open spec fn flip_reflect_values(s: Seq<PointValue>) -> Seq<PointValue> {
    Seq::new(
        s.len(),
        |k: int|
            if k < 2 {
                s[k]
            } else {
                reflect_vertex(s[0], s[1], s[k])
            },
    )
}

/// The first edge, and every step of [`flip_reflect_values`] where that
/// edge has a direction, is held by a `Scalar`.
pub open spec fn flip_reflect_fits(s: Seq<PointValue>) -> bool {
    s.len() >= 2 ==> {
        &&& s[1].sub(s[0]).fits()
        &&& !s[1].sub(s[0]).is_zero() ==> forall|k: int|
            2 <= k < s.len() ==> reflect_vertex_fits(s[0], s[1], #[trigger] s[k])
    }
}

/// `-(p1 - p0) * (p2 - p1)`: the first edge reversed, times the second
/// edge, as complex numbers. The product is exact: it is not brought back
/// to the grid, so that it is zero only where an edge is, and so that its
/// direction is that of the edges however short they are.
pub open spec fn reorient_direction(p0: PointValue, p1: PointValue, p2: PointValue) -> VectValue {
    p1.sub(p0).neg().product(p2.sub(p1))
}

/// The two edges of [`reorient_direction`] are held by `Scalar`s.
pub open spec fn reorient_direction_fits(p0: PointValue, p1: PointValue, p2: PointValue) -> bool {
    &&& p1.sub(p0).fits()
    &&& p1.sub(p0).neg().fits()
    &&& p2.sub(p1).fits()
}

/// `T0 * R * T1`: the shift that takes `p1` to the origin, then the
/// rotation by the unit vector of [`reorient_direction`], then the shift
/// that takes the origin to `p0`. Meaningful unless the direction is zero.
pub open spec fn reorient_transform(p0: PointValue, p1: PointValue, p2: PointValue) -> MatrixValue {
    let t1 = MatrixValue::translate(PointValue::origin().sub(p1));
    let r = MatrixValue::rotate_scale(reorient_direction(p0, p1, p2).unit());
    let t0 = MatrixValue::translate(p0.sub(PointValue::origin()));
    t0.mul(r).mul(t1)
}

/// Every vertex under the [`reorient_transform`] of the first three.
pub open spec fn reorient_values(s: Seq<PointValue>) -> Seq<PointValue> {
    Seq::new(s.len(), |k: int| reorient_transform(s[0], s[1], s[2]).apply(s[k]))
}

/// The two edges, and where the direction is not zero the transform and
/// the image of every vertex, are held by `Scalar`s.
pub open spec fn reorient_fits(s: Seq<PointValue>) -> bool {
    s.len() >= 3 ==> {
        &&& reorient_direction_fits(s[0], s[1], s[2])
        &&& !reorient_direction(s[0], s[1], s[2]).is_zero() ==> {
            &&& PointValue::origin().sub(s[1]).fits()
            &&& reorient_transform(s[0], s[1], s[2]).fits()
            &&& forall|k: int|
                0 <= k < s.len() ==> reorient_transform(s[0], s[1], s[2]).apply(#[trigger] s[k]).fits()
        }
    }
}

/// Turning a vertex twice about the same two points brings it back.
pub proof fn lemma_rotate_vertex_twice(p0: PointValue, p1: PointValue, p: PointValue)
    ensures
        rotate_vertex(p0, p1, rotate_vertex(p0, p1, p)) == p,
{
}

/// `flip_rotate` undoes itself: applied twice it gives back every vertex,
/// those after the first edge included.
pub proof fn lemma_flip_rotate_involution(s: Seq<PointValue>)
    ensures
        flip_rotate_values(flip_rotate_values(s)) == s,
{
    let once = flip_rotate_values(s);
    let twice = flip_rotate_values(once);
    assert forall|k: int| 0 <= k < s.len() implies twice[k] == s[k] by {
        if k >= 2 {
            lemma_rotate_vertex_twice(s[0], s[1], s[k]);
        }
    }
    assert(twice =~= s);
}

/// A vertex that lies on `p0` is left where it is.
pub proof fn lemma_reflect_vertex_at_base(p0: PointValue, p1: PointValue)
    ensures
        reflect_vertex(p0, p1, p0) == p0,
{
    let v = p0.sub(p0);
    let axis = p1.sub(p0);
    let u = axis.unit();
    assert(v.x * u.x + v.y * u.y == 0) by (nonlinear_arith)
        requires
            v.x == 0,
            v.y == 0,
    ;
    assert(v.dot(u) == 0);
    assert(0 * axis.x == 0 && 0 * axis.y == 0) by (nonlinear_arith);
    assert(v.onto(axis) == v);
    assert((2 * SCALE) * 0 == 0) by (nonlinear_arith);
}

/// `flip_reflect` gives back, at once and so after two applications too, a
/// polygon whose later vertices all lie on its first.
pub proof fn lemma_flip_reflect_at_base(s: Seq<PointValue>)
    requires
        forall|k: int| 2 <= k < s.len() ==> #[trigger] s[k] == s[0],
    ensures
        flip_reflect_values(s) == s,
        flip_reflect_values(flip_reflect_values(s)) == s,
{
    let once = flip_reflect_values(s);
    assert forall|k: int| 0 <= k < s.len() implies once[k] == s[k] by {
        if k >= 2 {
            lemma_reflect_vertex_at_base(s[0], s[1]);
        }
    }
    assert(once =~= s);
}

/// The direction of `reorient` is zero where one of the two edges has no
/// length, and nowhere else; three vertices in line have a direction.
pub proof fn lemma_reorient_direction_zero(p0: PointValue, p1: PointValue, p2: PointValue)
    ensures
        reorient_direction(p0, p1, p2).is_zero() <==> p0 == p1 || p1 == p2,
{
    lemma_product_zero(p1.sub(p0).neg(), p2.sub(p1));
}

/// The transform of `reorient` turns without stretching: its rotation is
/// of length one, within three steps of the grid, however short or long
/// the edges are.
pub proof fn lemma_reorient_rotation_length(p0: PointValue, p1: PointValue, p2: PointValue)
    requires
        p0 != p1,
        p1 != p2,
    ensures
        reorient_transform(p0, p1, p2).canonical(),
        reorient_transform(p0, p1, p2).rotation() == reorient_direction(p0, p1, p2).unit(),
        SCALE - 3 <= reorient_transform(p0, p1, p2).rotation().norm() <= SCALE + 3,
{
    lemma_reorient_direction_zero(p0, p1, p2);
    lemma_reorient_transform(p0, p1, p2);
    lemma_unit_norm(reorient_direction(p0, p1, p2));
}

/// `reorient` keeps the distances between vertices, within tolerance. The
/// difference of two images is, within a step of the grid in each
/// component, the product of the rotation and the difference of the two
/// vertices; that product is as long as the difference times the rotation,
/// and the rotation is one long within three steps.
pub proof fn lemma_reorient_keeps_distances(
    p0: PointValue,
    p1: PointValue,
    p2: PointValue,
    p: PointValue,
    q: PointValue,
)
    requires
        p0 != p1,
        p1 != p2,
    ensures
        ({
            let t = reorient_transform(p0, p1, p2);
            let between = p.sub(q);
            let image = t.apply(p).sub(t.apply(q));
            let turned = t.rotation().product(between);
            &&& turned.x - SCALE < SCALE * image.x < turned.x + SCALE
            &&& turned.y - SCALE < SCALE * image.y < turned.y + SCALE
            &&& turned.norm_sq() == t.rotation().norm_sq() * between.norm_sq()
            &&& SCALE - 3 <= t.rotation().norm() <= SCALE + 3
        }),
{
    lemma_reorient_rotation_length(p0, p1, p2);
    lemma_apply_difference(reorient_transform(p0, p1, p2), p, q);
}

/// A polygon too short for a canonical form is in range for it: the
/// answer that it has too few vertices is owed whatever its points. And
/// `flip_rotate` asks nothing of two vertices alone, whether they coincide
/// or not.
pub proof fn lemma_short_polygon_fits(s: Seq<PointValue>)
    ensures
        s.len() <= 2 ==> flip_rotate_fits(s),
        s.len() < 2 ==> flip_reflect_fits(s),
        s.len() < 3 ==> reorient_fits(s),
{
}

/// The composed transform of `reorient` written out: it rotates by the unit
/// vector of the direction and shifts by `p0 - p1`.
pub proof fn lemma_reorient_transform(p0: PointValue, p1: PointValue, p2: PointValue)
    ensures
        ({
            let u = reorient_direction(p0, p1, p2).unit();
            reorient_transform(p0, p1, p2) == (MatrixValue {
                v11: u.x,
                v21: u.y,
                v12: -u.y,
                v22: u.x,
                v13: p0.x - p1.x,
                v23: p0.y - p1.y,
            })
        }),
{
    let u = reorient_direction(p0, p1, p2).unit();
    let r = MatrixValue::rotate_scale(u);
    let t0 = p0.sub(PointValue::origin());
    let t1 = PointValue::origin().sub(p1);
    lemma_translate_mul(t0, r);
    lemma_mul_translate(MatrixValue::translate(t0).mul(r), t1);
}

/// The transform of `reorient` depends on the edges alone: moving the three
/// vertices by one vector leaves it as it is.
pub proof fn lemma_reorient_transform_shifted(p0: PointValue, p1: PointValue, p2: PointValue, t: VectValue)
    ensures
        reorient_direction(p0.add(t), p1.add(t), p2.add(t)) == reorient_direction(p0, p1, p2),
        reorient_transform(p0.add(t), p1.add(t), p2.add(t)) == reorient_transform(p0, p1, p2),
{
    assert(p1.add(t).sub(p0.add(t)) == p1.sub(p0));
    assert(p2.add(t).sub(p1.add(t)) == p2.sub(p1));
    lemma_reorient_transform(p0, p1, p2);
    lemma_reorient_transform(p0.add(t), p1.add(t), p2.add(t));
}

/// The size of coordinate, 8192, up to which all three canonical forms
/// stay in range whatever the polygon.
pub const COORDINATE_LIMIT: i64 = 0x2000_0000_0000;

/// Both coordinates are at most [`COORDINATE_LIMIT`] in size.
pub open spec fn point_within_limit(p: PointValue) -> bool {
    &&& -COORDINATE_LIMIT <= p.x <= COORDINATE_LIMIT
    &&& -COORDINATE_LIMIT <= p.y <= COORDINATE_LIMIT
}

/// Every point is within the limit.
pub open spec fn within_limit(s: Seq<PointValue>) -> bool {
    forall|k: int| 0 <= k < s.len() ==> point_within_limit(#[trigger] s[k])
}

/// Within the limit a vertex can be turned about any two others.
pub proof fn lemma_rotate_vertex_within_limit(p0: PointValue, p1: PointValue, p: PointValue)
    requires
        point_within_limit(p0),
        point_within_limit(p1),
        point_within_limit(p),
    ensures
        rotate_vertex_fits(p0, p1, p),
{
}

/// Within the limit a vertex can be reflected about any two others that do
/// not coincide.
pub proof fn lemma_reflect_vertex_within_limit(p0: PointValue, p1: PointValue, p: PointValue)
    requires
        point_within_limit(p0),
        point_within_limit(p1),
        point_within_limit(p),
        !p1.sub(p0).is_zero(),
    ensures
        reflect_vertex_fits(p0, p1, p),
{
    let edge: int = 0x4000_0000_0000;
    let one: int = 0x1_0000_0000;
    let v = p.sub(p0);
    let axis = p1.sub(p0);
    let u = axis.unit();
    lemma_unit_bounded(axis);
    lemma_product_bounded(v.x, u.x, edge, one);
    lemma_product_bounded(v.y, u.y, edge, one);
    let along = v.dot(u);
    assert(-2 * edge <= along <= 2 * edge);
    lemma_product_bounded(along, axis.x, 2 * edge, edge);
    lemma_product_bounded(along, axis.y, 2 * edge, edge);
    let onto = v.onto(axis);
    let part: int = 0x2000_0000_0000_0000;
    assert(-part <= onto.x <= part && -part <= onto.y <= part);
    let rest = v.sub(onto);
    lemma_product_bounded(2 * SCALE, rest.x, 2 * one, part + edge);
    lemma_product_bounded(2 * SCALE, rest.y, 2 * one, part + edge);
}

/// Within the limit the edges of `reorient` are in range and, where the
/// direction is not zero, the transform and the image of any point within
/// the limit too.
pub proof fn lemma_reorient_within_limit(p0: PointValue, p1: PointValue, p2: PointValue, p: PointValue)
    requires
        point_within_limit(p0),
        point_within_limit(p1),
        point_within_limit(p2),
        point_within_limit(p),
    ensures
        reorient_direction_fits(p0, p1, p2),
        !reorient_direction(p0, p1, p2).is_zero() ==> {
            &&& PointValue::origin().sub(p1).fits()
            &&& reorient_transform(p0, p1, p2).fits()
            &&& reorient_transform(p0, p1, p2).apply(p).fits()
        },
{
    let one: int = 0x1_0000_0000;
    let direction = reorient_direction(p0, p1, p2);
    if !direction.is_zero() {
        let t = reorient_transform(p0, p1, p2);
        lemma_unit_bounded(direction);
        lemma_reorient_transform(p0, p1, p2);
        lemma_product_bounded(t.v11, p.x, one, COORDINATE_LIMIT as int);
        lemma_product_bounded(t.v12, p.y, one, COORDINATE_LIMIT as int);
        lemma_product_bounded(t.v21, p.x, one, COORDINATE_LIMIT as int);
        lemma_product_bounded(t.v22, p.y, one, COORDINATE_LIMIT as int);
    }
}

/// A polygon within the limit has all three canonical forms in range.
pub proof fn lemma_within_limit_fits(s: Seq<PointValue>)
    requires
        within_limit(s),
    ensures
        flip_rotate_fits(s),
        flip_reflect_fits(s),
        reorient_fits(s),
{
    assert forall|k: int| 2 <= k < s.len() implies rotate_vertex_fits(s[0], s[1], #[trigger] s[k]) by {
        lemma_rotate_vertex_within_limit(s[0], s[1], s[k]);
    }
    if s.len() >= 2 && !s[1].sub(s[0]).is_zero() {
        assert forall|k: int| 2 <= k < s.len() implies reflect_vertex_fits(s[0], s[1], #[trigger] s[k]) by {
            lemma_reflect_vertex_within_limit(s[0], s[1], s[k]);
        }
    }
    if s.len() >= 3 {
        lemma_reorient_within_limit(s[0], s[1], s[2], s[0]);
        assert forall|k: int| 0 <= k < s.len() implies reorient_transform(s[0], s[1], s[2]).apply(
            #[trigger] s[k],
        ).fits() || reorient_direction(s[0], s[1], s[2]).is_zero() by {
            lemma_reorient_within_limit(s[0], s[1], s[2], s[k]);
        }
    }
}

impl<'a> Polygon<'a> {
    /// Whether every coordinate is at most [`COORDINATE_LIMIT`] in size, so
    /// that all three canonical forms are in range.
    pub fn within_limit(&self) -> (r: bool)
        ensures
            r == within_limit(values(self@)),
            r ==> flip_rotate_fits(values(self@)) && flip_reflect_fits(values(self@)) && reorient_fits(
                values(self@),
            ),
    {
        let mut points = self.points();
        let ghost mut seen: int = 0;
        loop
            invariant
                0 <= seen <= self@.len(),
                points@ == self@.skip(seen),
                forall|k: int| 0 <= k < seen ==> point_within_limit(#[trigger] values(self@)[k]),
            ensures
                seen == self@.len(),
            decreases points@.len(),
        {
            match points.next() {
                Some(p) => {
                    assert(p == self@[seen]);
                    if p.x.raw < -COORDINATE_LIMIT || p.x.raw > COORDINATE_LIMIT || p.y.raw
                        < -COORDINATE_LIMIT || p.y.raw > COORDINATE_LIMIT {
                        assert(!point_within_limit(values(self@)[seen]));
                        return false;
                    }
                    proof {
                        seen = seen + 1;
                    }
                },
                None => {
                    break;
                },
            }
        }
        proof {
            lemma_within_limit_fits(values(self@));
        }
        true
    }

    /// The polygon with its first edge held fixed and every later vertex
    /// `p` replaced by `p1 - (p - p0)`.
    ///
    /// A polygon of fewer than two vertices has no first edge.
    pub fn flip_rotate(&self) -> (r: Result<Polygon<'static>, GeometryError>)
        requires
            flip_rotate_fits(values(self@)),
        ensures
            self@.len() < 2 ==> (r matches Err(e) && e == GeometryError::InsufficientVertices),
            self@.len() >= 2 ==> (r matches Ok(p) && p.wf() && p.start() == 0 && values(p@)
                == flip_rotate_values(values(self@))),
    {
        let ghost given = values(self@);
        let mut points = self.points();
        let p0 = match points.next() {
            Some(p) => p,
            None => {
                return Err(GeometryError::InsufficientVertices);
            },
        };
        let p1 = match points.next() {
            Some(p) => p,
            None => {
                return Err(GeometryError::InsufficientVertices);
            },
        };
        let mut buf: Vec<Point> = Vec::with_capacity(self.len());
        buf.push(p0);
        buf.push(p1);
        loop
            invariant
                given == values(self@),
                2 <= buf@.len() <= self@.len(),
                points@ == self@.skip(buf@.len() as int),
                p0@ == given[0],
                p1@ == given[1],
                flip_rotate_fits(given),
                forall|k: int| 0 <= k < buf@.len() ==> (#[trigger] buf@[k])@ == flip_rotate_values(given)[k],
            ensures
                buf@.len() == self@.len(),
            decreases points@.len(),
        {
            match points.next() {
                Some(p) => {
                    assert(p@ == given[buf@.len() as int]);
                    buf.push(p1.sub_vect(p.sub(p0)));
                },
                None => {
                    break;
                },
            }
        }
        let turned = Polygon::new(Cow::Owned(buf));
        assert(values(turned@) =~= flip_rotate_values(given));
        Ok(turned)
    }

    /// The polygon with its first edge held fixed and every later vertex
    /// `p` replaced by `p0 - 2 * (v - v.onto(axis))`, where `v` leads from
    /// `p0` to `p` and `axis` is the first edge.
    ///
    /// A polygon of fewer than two vertices has no first edge; a first edge
    /// of no length has no direction to project a later vertex on.
    pub fn flip_reflect(&self) -> (r: Result<Polygon<'static>, GeometryError>)
        requires
            flip_reflect_fits(values(self@)),
        ensures
            self@.len() < 2 ==> (r matches Err(e) && e == GeometryError::InsufficientVertices),
            self@.len() >= 3 && self@[1]@.sub(self@[0]@).is_zero() ==> (r matches Err(e) && e
                == GeometryError::UndefinedNormalization),
            self@.len() == 2 || (self@.len() >= 3 && !self@[1]@.sub(self@[0]@).is_zero()) ==> (r matches Ok(
                p,
            ) && p.wf() && p.start() == 0 && values(p@) == flip_reflect_values(values(self@))),
    {
        let ghost given = values(self@);
        let mut points = self.points();
        let p0 = match points.next() {
            Some(p) => p,
            None => {
                return Err(GeometryError::InsufficientVertices);
            },
        };
        let p1 = match points.next() {
            Some(p) => p,
            None => {
                return Err(GeometryError::InsufficientVertices);
            },
        };
        assert(p0@ == given[0] && p1@ == given[1]);
        let axis = p1.sub(p0);
        let two = Scalar::from_int(2);
        let mut buf: Vec<Point> = Vec::with_capacity(self.len());
        buf.push(p0);
        buf.push(p1);
        loop
            invariant
                given == values(self@),
                2 <= buf@.len() <= self@.len(),
                points@ == self@.skip(buf@.len() as int),
                p0@ == given[0],
                p1@ == given[1],
                axis@ == p1@.sub(p0@),
                two@ == 2 * SCALE,
                axis@.is_zero() ==> buf@.len() == 2,
                flip_reflect_fits(given),
                forall|k: int| 0 <= k < buf@.len() ==> (#[trigger] buf@[k])@ == flip_reflect_values(given)[k],
            ensures
                buf@.len() == self@.len(),
            decreases points@.len(),
        {
            match points.next() {
                Some(p) => {
                    assert(p@ == given[buf@.len() as int]);
                    if axis.is_zero() {
                        return Err(GeometryError::UndefinedNormalization);
                    }
                    let v = p.sub(p0);
                    let along = match v.onto(axis) {
                        Ok(along) => along,
                        Err(e) => {
                            return Err(e);
                        },
                    };
                    buf.push(p0.sub_vect(v.sub(along).scale(two)));
                },
                None => {
                    break;
                },
            }
        }
        let mirrored = Polygon::new(Cow::Owned(buf));
        assert(values(mirrored@) =~= flip_reflect_values(given));
        Ok(mirrored)
    }

    /// The polygon in the frame of its first three vertices: every vertex,
    /// the first three included, under `T0 * R * T1`, where `T1` shifts `p1`
    /// to the origin, `R` rotates by the unit vector of
    /// `-(p1 - p0) * (p2 - p1)` and `T0` shifts the origin to `p0`.
    ///
    /// The direction is taken from the exact product of the two edges, so
    /// the rotation is of length one however short the edges are.
    ///
    /// A polygon of fewer than three vertices has no such frame; nor has
    /// one whose first or second edge has no length.
    pub fn reorient(&self) -> (r: Result<Polygon<'static>, GeometryError>)
        requires
            reorient_fits(values(self@)),
        ensures
            self@.len() < 3 ==> (r matches Err(e) && e == GeometryError::InsufficientVertices),
            self@.len() >= 3 && (self@[0]@ == self@[1]@ || self@[1]@ == self@[2]@) ==> (r matches Err(e) && e
                == GeometryError::UndefinedNormalization),
            self@.len() >= 3 && self@[0]@ != self@[1]@ && self@[1]@ != self@[2]@ ==> (r matches Ok(p) && p.wf()
                && p.start() == 0 && values(p@) == reorient_values(values(self@))),
    {
        let ghost given = values(self@);
        let mut points = self.points();
        let p0 = match points.next() {
            Some(p) => p,
            None => {
                return Err(GeometryError::InsufficientVertices);
            },
        };
        let p1 = match points.next() {
            Some(p) => p,
            None => {
                return Err(GeometryError::InsufficientVertices);
            },
        };
        let p2 = match points.next() {
            Some(p) => p,
            None => {
                return Err(GeometryError::InsufficientVertices);
            },
        };
        assert(p0@ == given[0] && p1@ == given[1] && p2@ == given[2]);
        proof {
            lemma_reorient_direction_zero(p0@, p1@, p2@);
        }
        let back = p1.sub(p0).neg();
        let ahead = p2.sub(p1);
        proof {
            let most: int = 0x7fff_ffff_ffff_ffff;
            let more: int = 0x8000_0000_0000_0000;
            lemma_product_bounded(back@.x, ahead@.x, most, more);
            lemma_product_bounded(back@.y, ahead@.y, most, more);
            lemma_product_bounded(back@.x, ahead@.y, most, more);
            lemma_product_bounded(back@.y, ahead@.x, most, more);
            assert(back@.y * ahead@.x == ahead@.x * back@.y) by (nonlinear_arith);
        }
        let dx: i128 = wide_mul(back.x.raw, ahead.x.raw) - wide_mul(back.y.raw, ahead.y.raw);
        let dy: i128 = wide_mul(back.x.raw, ahead.y.raw) + wide_mul(ahead.x.raw, back.y.raw);
        if dx == 0 && dy == 0 {
            return Err(GeometryError::UndefinedNormalization);
        }
        let turn = unit_wide(dx, dy);
        proof {
            lemma_unit_bounded(reorient_direction(p0@, p1@, p2@));
            lemma_reorient_transform(p0@, p1@, p2@);
            lemma_translate_mul(p0@.sub(PointValue::origin()), MatrixValue::rotate_scale(turn@));
        }
        let t1 = Matrix::translate(Point::default().sub(p1));
        let r = Matrix::rotate_scale(turn);
        let t0 = Matrix::translate(p0.sub(Point::default()));
        let t = t0.mul(r).mul(t1);
        let mut buf: Vec<Point> = Vec::with_capacity(self.len());
        buf.push(t.apply(p0));
        buf.push(t.apply(p1));
        buf.push(t.apply(p2));
        loop
            invariant
                given == values(self@),
                3 <= buf@.len() <= self@.len(),
                points@ == self@.skip(buf@.len() as int),
                t@ == reorient_transform(given[0], given[1], given[2]),
                !reorient_direction(given[0], given[1], given[2]).is_zero(),
                reorient_fits(given),
                forall|k: int| 0 <= k < buf@.len() ==> (#[trigger] buf@[k])@ == reorient_values(given)[k],
            ensures
                buf@.len() == self@.len(),
            decreases points@.len(),
        {
            match points.next() {
                Some(p) => {
                    assert(p@ == given[buf@.len() as int]);
                    buf.push(t.apply(p));
                },
                None => {
                    break;
                },
            }
        }
        let framed = Polygon::new(Cow::Owned(buf));
        assert(values(framed@) =~= reorient_values(given));
        Ok(framed)
    }
}

} // verus!
