//! What holds of lengths, unit vectors, projections and products.

use vstd::prelude::*;
use crate::scalar::{
    descale, is_floor_sqrt, lemma_floor_quotient, lemma_floor_sqrt_exists, lemma_product_bounded,
    lemma_ratio_bounded, size, SCALE,
};
use crate::vect::{VectValue, WORKING_REACH};

verus! {

/// The length of a vector is at least the size of each component, and is
/// positive unless the vector is zero.
pub proof fn lemma_norm_dominates(v: VectValue)
    ensures
        -v.norm() <= v.x <= v.norm(),
        -v.norm() <= v.y <= v.norm(),
        is_floor_sqrt(v.norm(), v.norm_sq()),
        !v.is_zero() ==> v.norm() > 0,
{
    let n = v.norm_sq();
    assert(n >= 0) by (nonlinear_arith)
        requires
            n == v.x * v.x + v.y * v.y,
    ;
    lemma_floor_sqrt_exists(n);
    let r = v.norm();
    assert(-r <= v.x <= r && -r <= v.y <= r) by (nonlinear_arith)
        requires
            0 <= r,
            v.x * v.x + v.y * v.y < (r + 1) * (r + 1),
    ;
    if !v.is_zero() {
        assert(v.x * v.x + v.y * v.y > 0) by (nonlinear_arith)
            requires
                v.x != 0 || v.y != 0,
        ;
    }
}

/// No component of a vector divided by its length is longer than one.
pub proof fn lemma_over_norm_bounded(v: VectValue)
    requires
        !v.is_zero(),
    ensures
        v.norm() > 0,
        -SCALE <= v.over_norm().x <= SCALE,
        -SCALE <= v.over_norm().y <= SCALE,
{
    lemma_norm_dominates(v);
    lemma_ratio_bounded(v.x, v.norm());
    lemma_ratio_bounded(v.y, v.norm());
}

/// A vector divided by its length is the vector times `SCALE / norm`, each
/// component rounded down.
pub proof fn lemma_over_norm_parallel(v: VectValue)
    requires
        !v.is_zero(),
    ensures
        v.norm() > 0,
        v.norm() * v.over_norm().x <= SCALE * v.x < v.norm() * (v.over_norm().x + 1),
        v.norm() * v.over_norm().y <= SCALE * v.y < v.norm() * (v.over_norm().y + 1),
{
    lemma_norm_dominates(v);
    let n = v.norm();
    lemma_floor_quotient(v.x * SCALE, n);
    lemma_floor_quotient(v.y * SCALE, n);
}

/// The length of a vector divided by its length is one, within three
/// steps of the grid where the vector is at least one long. A shorter
/// vector loses more to the rounding of its own length.
pub proof fn lemma_over_norm_length(v: VectValue)
    requires
        !v.is_zero(),
    ensures
        SCALE - 3 <= v.over_norm().norm(),
        v.norm() * (v.over_norm().norm() - 3) < SCALE * (v.norm() + 1),
        v.norm() >= SCALE ==> v.over_norm().norm() <= SCALE + 3,
{
    lemma_norm_dominates(v);
    lemma_over_norm_parallel(v);
    let s = SCALE as int;
    let x = v.x;
    let y = v.y;
    let n = v.norm();
    let p = v.over_norm().x;
    let q = v.over_norm().y;
    let e = s * x - n * p;
    let f = s * y - n * q;
    let u2 = p * p + q * q;
    assert(u2 >= 0) by (nonlinear_arith)
        requires
            u2 == p * p + q * q,
    ;
    lemma_floor_sqrt_exists(u2);
    let m = v.over_norm().norm();
    let n2 = n * n;
    assert(n2 > 0 && (n + 1) * (n + 1) == n2 + 2 * n + 1) by (nonlinear_arith)
        requires
            n2 == n * n,
            n >= 1,
    ;
    assert(0 <= e < n && 0 <= f < n) by (nonlinear_arith)
        requires
            e == s * x - n * p,
            f == s * y - n * q,
            n * p <= s * x < n * (p + 1),
            n * q <= s * y < n * (q + 1),
    ;
    // n^2 * |u|^2, written out
    let a = n * p;
    let b = n * q;
    assert(a * a == n2 * (p * p) && b * b == n2 * (q * q)) by (nonlinear_arith)
        requires
            a == n * p,
            b == n * q,
            n2 == n * n,
    ;
    assert(a * a == s * s * (x * x) - 2 * s * (x * e) + e * e) by (nonlinear_arith)
        requires
            a == s * x - e,
    ;
    assert(b * b == s * s * (y * y) - 2 * s * (y * f) + f * f) by (nonlinear_arith)
        requires
            b == s * y - f,
    ;
    assert(n2 * u2 == n2 * (p * p) + n2 * (q * q)) by (nonlinear_arith)
        requires
            u2 == p * p + q * q,
    ;
    assert(s * s * (x * x + y * y) == s * s * (x * x) + s * s * (y * y)) by (nonlinear_arith);
    assert(2 * s * (x * e + y * f) == 2 * s * (x * e) + 2 * s * (y * f)) by (nonlinear_arith);
    // the cross terms are small
    assert(-n2 <= x * e <= n2 && -n2 <= y * f <= n2) by (nonlinear_arith)
        requires
            -n <= x <= n,
            -n <= y <= n,
            0 <= e < n,
            0 <= f < n,
            n2 == n * n,
    ;
    assert(0 <= e * e <= n2 && 0 <= f * f <= n2) by (nonlinear_arith)
        requires
            0 <= e < n,
            0 <= f < n,
            n2 == n * n,
    ;
    let w = x * e + y * f;
    let g = e * e + f * f;
    let d = x * x + y * y;
    assert(n2 * u2 >= n2 * (s * s - 4 * s)) by (nonlinear_arith)
        requires
            n2 * u2 == s * s * d - 2 * s * w + g,
            n2 <= d,
            w <= 2 * n2,
            0 <= g,
            s >= 9,
    ;
    assert(u2 >= s * s - 4 * s) by (nonlinear_arith)
        requires
            n2 * u2 >= n2 * (s * s - 4 * s),
            n2 > 0,
    ;
    assert(m >= s - 3) by (nonlinear_arith)
        requires
            0 <= m,
            u2 < (m + 1) * (m + 1),
            u2 >= s * s - 4 * s,
            s >= 9,
    ;
    assert(n2 * u2 <= s * s * (n2 + 2 * n) + 4 * s * n2 + 2 * n2) by (nonlinear_arith)
        requires
            n2 * u2 == s * s * d - 2 * s * w + g,
            d < n2 + 2 * n + 1,
            -2 * n2 <= w,
            g <= 2 * n2,
            s >= 9,
    ;
    assert(n * (m - 3) < s * (n + 1)) by (nonlinear_arith)
        requires
            0 <= m,
            m * m <= u2,
            n2 * u2 <= s * s * (n2 + 2 * n) + 4 * s * n2 + 2 * n2,
            n2 == n * n,
            n >= 1,
            s >= 9,
    ;
    if n >= s {
        assert(m <= s + 3) by (nonlinear_arith)
            requires
                n * (m - 3) < s * (n + 1),
                n >= s,
                s >= 9,
        ;
    }
}

/// The exact product of two vectors is zero where one of them is, and
/// nowhere else: its squared length is the product of theirs.
pub proof fn lemma_product_zero(a: VectValue, b: VectValue)
    ensures
        a.product(b).norm_sq() == a.norm_sq() * b.norm_sq(),
        a.product(b).is_zero() <==> a.is_zero() || b.is_zero(),
{
    let c = a.product(b);
    let (p, q, r, t) = (a.x * b.x, a.y * b.y, a.x * b.y, b.x * a.y);
    assert((p - q) * (p - q) + (r + t) * (r + t) == p * p + q * q + r * r + t * t + 2 * (r * t - p * q))
        by (nonlinear_arith);
    assert(r * t == p * q) by (nonlinear_arith)
        requires
            p == a.x * b.x,
            q == a.y * b.y,
            r == a.x * b.y,
            t == b.x * a.y,
    ;
    let (aa, bb, cc, dd) = (a.x * a.x, a.y * a.y, b.x * b.x, b.y * b.y);
    assert(p * p == aa * cc && q * q == bb * dd && r * r == aa * dd && t * t == bb * cc) by (nonlinear_arith)
        requires
            p == a.x * b.x,
            q == a.y * b.y,
            r == a.x * b.y,
            t == b.x * a.y,
            aa == a.x * a.x,
            bb == a.y * a.y,
            cc == b.x * b.x,
            dd == b.y * b.y,
    ;
    assert((aa + bb) * (cc + dd) == aa * cc + bb * dd + aa * dd + bb * cc) by (nonlinear_arith);
    lemma_norm_sq_zero(a);
    lemma_norm_sq_zero(b);
    lemma_norm_sq_zero(c);
    let m = a.norm_sq();
    let n = b.norm_sq();
    assert(m * n == 0 <==> m == 0 || n == 0) by (nonlinear_arith)
        requires
            m >= 0,
            n >= 0,
    ;
}

/// The squared length is zero for the zero vector alone.
pub proof fn lemma_norm_sq_zero(v: VectValue)
    ensures
        v.norm_sq() >= 0,
        v.norm_sq() == 0 <==> v.is_zero(),
{
    assert(v.x * v.x + v.y * v.y >= 0 && (v.x * v.x + v.y * v.y == 0 <==> v.x == 0 && v.y == 0))
        by (nonlinear_arith);
}

/// Halving ends below the working reach, and not below half of it unless
/// the vector was shorter to begin with.
pub proof fn lemma_shrunk(v: VectValue)
    ensures
        v.shrunk().reach() < WORKING_REACH,
        v.reach() < WORKING_REACH ==> v.shrunk() == v,
        2 * v.reach() >= WORKING_REACH ==> 2 * v.shrunk().reach() >= WORKING_REACH,
    decreases v.reach(),
{
    if v.reach() >= WORKING_REACH {
        lemma_shrunk(v.halved());
    }
}

/// Doubling ends at half the working reach or above, and below it.
pub proof fn lemma_grown(v: VectValue)
    requires
        0 < v.reach() < WORKING_REACH,
    ensures
        WORKING_REACH <= 2 * v.grown().reach() < 2 * WORKING_REACH,
    decreases WORKING_REACH - v.reach(),
{
    if 2 * v.reach() < WORKING_REACH {
        lemma_grown(v.doubled());
    }
}

/// Growing multiplies by a power of two and so loses nothing.
pub proof fn lemma_grown_times(v: VectValue)
    ensures
        v.growth() >= 1,
        v.grown() == v.times(v.growth()),
    decreases WORKING_REACH - v.reach(),
{
    if 0 < v.reach() && 2 * v.reach() < WORKING_REACH {
        let d = v.doubled();
        lemma_grown_times(d);
        let g = d.growth();
        assert(g * (2 * v.x) == (2 * g) * v.x && g * (2 * v.y) == (2 * g) * v.y) by (nonlinear_arith);
    } else {
        assert(1 * v.x == v.x && 1 * v.y == v.y);
    }
}

/// A vector whose reach is below the working reach is brought to working
/// size by a multiplication alone.
pub proof fn lemma_working_times(v: VectValue)
    requires
        v.reach() < WORKING_REACH,
    ensures
        v.growth() >= 1,
        v.working() == v.times(v.growth()),
{
    lemma_shrunk(v);
    lemma_grown_times(v);
}

/// At working size a vector that is not zero has a reach, and so a length,
/// of half the working reach or more.
pub proof fn lemma_working(v: VectValue)
    requires
        !v.is_zero(),
    ensures
        WORKING_REACH <= 2 * v.working().reach() < 2 * WORKING_REACH,
        !v.working().is_zero(),
        2 * v.working().norm() >= WORKING_REACH,
{
    lemma_shrunk(v);
    let w = v.shrunk();
    if 2 * w.reach() >= WORKING_REACH {
        assert(w.grown() == w);
    } else {
        assert(w == v);
        lemma_grown(w);
    }
    lemma_norm_dominates(v.working());
}

/// No component of a unit vector is longer than one.
pub proof fn lemma_unit_bounded(v: VectValue)
    requires
        !v.is_zero(),
    ensures
        -SCALE <= v.unit().x <= SCALE,
        -SCALE <= v.unit().y <= SCALE,
        v.unit().fits(),
        v.unit().neg().fits(),
{
    lemma_working(v);
    lemma_over_norm_bounded(v.working());
}

/// A unit vector is parallel to its vector, with a positive factor. With
/// `w` the vector at working size and `n` the length of `w`:
/// - each component is that of `w` times `SCALE / n`, rounded down;
/// - the dot product with `w` is positive;
/// - the cross product with `w` is at most the sum of the sizes of the
///   components of `w`, which is to the product of the two lengths as a
///   step and a half of the grid is to one;
/// - no component has the sign opposite to that of `w`.
pub proof fn lemma_unit_parallel(v: VectValue)
    requires
        !v.is_zero(),
    ensures
        ({
            let w = v.working();
            let n = w.norm();
            let u = v.unit();
            &&& n > 0
            &&& n * u.x <= SCALE * w.x < n * (u.x + 1)
            &&& n * u.y <= SCALE * w.y < n * (u.y + 1)
            &&& u.x * w.x + u.y * w.y > 0
            &&& -(size(w.x) + size(w.y)) <= u.x * w.y - u.y * w.x <= size(w.x) + size(w.y)
            &&& (w.x >= 0 ==> u.x >= 0) && (w.x < 0 ==> u.x < 0)
            &&& (w.y >= 0 ==> u.y >= 0) && (w.y < 0 ==> u.y < 0)
        }),
{
    lemma_working(v);
    let w = v.working();
    let n = w.norm();
    let u = v.unit();
    let s = SCALE as int;
    lemma_norm_dominates(w);
    lemma_over_norm_parallel(w);
    let e = s * w.x - n * u.x;
    let f = s * w.y - n * u.y;
    assert(0 <= e < n && 0 <= f < n) by (nonlinear_arith)
        requires
            e == s * w.x - n * u.x,
            f == s * w.y - n * u.y,
            n * u.x <= s * w.x < n * (u.x + 1),
            n * u.y <= s * w.y < n * (u.y + 1),
    ;
    // signs
    assert((w.x >= 0 ==> u.x >= 0) && (w.x < 0 ==> u.x < 0)) by (nonlinear_arith)
        requires
            n * u.x <= s * w.x < n * (u.x + 1),
            n > 0,
            s > 0,
    ;
    assert((w.y >= 0 ==> u.y >= 0) && (w.y < 0 ==> u.y < 0)) by (nonlinear_arith)
        requires
            n * u.y <= s * w.y < n * (u.y + 1),
            n > 0,
            s > 0,
    ;
    // n * cross(u, w) = f * w.x - e * w.y
    let cross = u.x * w.y - u.y * w.x;
    assert(n * cross == f * w.x - e * w.y) by (nonlinear_arith)
        requires
            cross == u.x * w.y - u.y * w.x,
            e == s * w.x - n * u.x,
            f == s * w.y - n * u.y,
    ;
    let bound = size(w.x) + size(w.y);
    assert(-(n * bound) <= f * w.x - e * w.y <= n * bound) by (nonlinear_arith)
        requires
            0 <= e < n,
            0 <= f < n,
            bound == size(w.x) + size(w.y),
            size(w.x) >= w.x,
            size(w.x) >= -w.x,
            size(w.y) >= w.y,
            size(w.y) >= -w.y,
    ;
    assert(-bound <= cross <= bound) by (nonlinear_arith)
        requires
            -(n * bound) <= n * cross <= n * bound,
            n > 0,
    ;
    // n * dot(u, w) = s * |w|^2 - (e * w.x + f * w.y)
    let dot = u.x * w.x + u.y * w.y;
    let d = w.x * w.x + w.y * w.y;
    let a1 = n * u.x;
    let a2 = n * u.y;
    assert(n * dot == a1 * w.x + a2 * w.y) by (nonlinear_arith)
        requires
            dot == u.x * w.x + u.y * w.y,
            a1 == n * u.x,
            a2 == n * u.y,
    ;
    assert(a1 * w.x == s * (w.x * w.x) - e * w.x) by (nonlinear_arith)
        requires
            a1 == s * w.x - e,
    ;
    assert(a2 * w.y == s * (w.y * w.y) - f * w.y) by (nonlinear_arith)
        requires
            a2 == s * w.y - f,
    ;
    assert(s * d == s * (w.x * w.x) + s * (w.y * w.y)) by (nonlinear_arith)
        requires
            d == w.x * w.x + w.y * w.y,
    ;
    assert(n * dot == s * d - (e * w.x + f * w.y));
    let n2 = n * n;
    assert(e * w.x + f * w.y <= 2 * n2) by (nonlinear_arith)
        requires
            0 <= e < n,
            0 <= f < n,
            -n <= w.x <= n,
            -n <= w.y <= n,
            n2 == n * n,
    ;
    assert(n * dot > 0) by (nonlinear_arith)
        requires
            n * dot == s * d - (e * w.x + f * w.y),
            e * w.x + f * w.y <= 2 * n2,
            n2 <= d,
            n2 == n * n,
            n > 0,
            s >= 9,
    ;
    assert(dot > 0) by (nonlinear_arith)
        requires
            n * dot > 0,
            n > 0,
    ;
}

/// Where the vector has fewer than 62 bits, its unit vector has a positive
/// dot product with the vector itself, and no component of a sign opposite
/// to the vector's.
pub proof fn lemma_unit_same_way(v: VectValue)
    requires
        !v.is_zero(),
        v.reach() < WORKING_REACH,
    ensures
        v.unit().x * v.x + v.unit().y * v.y > 0,
        (v.x >= 0 ==> v.unit().x >= 0) && (v.x < 0 ==> v.unit().x < 0),
        (v.y >= 0 ==> v.unit().y >= 0) && (v.y < 0 ==> v.unit().y < 0),
{
    lemma_unit_parallel(v);
    lemma_working_times(v);
    let g = v.growth();
    let u = v.unit();
    let w = v.working();
    assert(u.x * w.x + u.y * w.y == g * (u.x * v.x + u.y * v.y)) by (nonlinear_arith)
        requires
            w.x == g * v.x,
            w.y == g * v.y,
    ;
    assert(u.x * v.x + u.y * v.y > 0) by (nonlinear_arith)
        requires
            g * (u.x * v.x + u.y * v.y) > 0,
            g >= 1,
    ;
    assert((v.x >= 0 <==> w.x >= 0) && (v.y >= 0 <==> w.y >= 0)) by (nonlinear_arith)
        requires
            w.x == g * v.x,
            w.y == g * v.y,
            g >= 1,
    ;
}

/// The unit vector of a vector that the grid holds as one long is the
/// vector itself, or a step below it in a component.
pub proof fn lemma_unit_of_length_one(b: VectValue)
    requires
        b.norm() == SCALE,
    ensures
        !b.is_zero(),
        -SCALE <= b.x <= SCALE,
        -SCALE <= b.y <= SCALE,
        SCALE * SCALE <= b.norm_sq() <= SCALE * SCALE + 2 * SCALE,
        b.x - 1 <= b.unit().x <= b.x,
        b.y - 1 <= b.unit().y <= b.y,
{
    let s = SCALE as int;
    lemma_norm_dominates(b);
    lemma_norm_sq_zero(b);
    let d = b.norm_sq();
    assert(s * s > 0 && (s + 1) * (s + 1) == s * s + 2 * s + 1) by (nonlinear_arith)
        requires
            s > 0,
    ;
    lemma_working(b);
    lemma_working_times(b);
    let g = b.growth();
    let w = b.working();
    let n = w.norm();
    let u = b.unit();
    lemma_norm_dominates(w);
    lemma_over_norm_parallel(w);
    let g2 = g * g;
    assert(w.x * w.x + w.y * w.y == g2 * d) by (nonlinear_arith)
        requires
            w.x == g * b.x,
            w.y == g * b.y,
            g2 == g * g,
            d == b.x * b.x + b.y * b.y,
    ;
    let lo = g * s;
    let hi = g * (s + 1);
    assert(lo * lo == g2 * (s * s) && hi * hi == g2 * ((s + 1) * (s + 1))) by (nonlinear_arith)
        requires
            lo == g * s,
            hi == g * (s + 1),
            g2 == g * g,
    ;
    assert(g2 * (s * s) <= g2 * d && g2 * d < g2 * ((s + 1) * (s + 1))) by (nonlinear_arith)
        requires
            s * s <= d < (s + 1) * (s + 1),
            g2 == g * g,
            g >= 1,
    ;
    assert(lo <= n < hi) by (nonlinear_arith)
        requires
            0 <= n,
            0 < lo,
            0 < hi,
            n * n <= g2 * d,
            g2 * d < (n + 1) * (n + 1),
            lo * lo <= g2 * d,
            g2 * d < hi * hi,
    ;
    lemma_component_near(b.x, u.x, g, n, s);
    lemma_component_near(b.y, u.y, g, n, s);
}

/// One component of [`lemma_unit_of_length_one`].
proof fn lemma_component_near(c: int, u: int, g: int, n: int, s: int)
    requires
        n * u <= s * (g * c) < n * (u + 1),
        g * s <= n < g * (s + 1),
        -s <= c <= s,
        g >= 1,
        s >= 1,
    ensures
        c - 1 <= u <= c,
{
    let t = g * c;
    assert(s * t == (g * s) * c) by (nonlinear_arith)
        requires
            t == g * c,
    ;
    let lo = g * s;
    assert(lo >= 1 && g * (s + 1) == lo + g) by (nonlinear_arith)
        requires
            lo == g * s,
            g >= 1,
            s >= 1,
    ;
    if u >= c + 1 {
        if c >= 0 {
            assert(n * u > lo * c) by (nonlinear_arith)
                requires
                    u >= c + 1,
                    c >= 0,
                    n >= lo,
                    lo >= 1,
            ;
        } else {
            assert(n * u > lo * c) by (nonlinear_arith)
                requires
                    u >= c + 1,
                    -s <= c < 0,
                    n < lo + g,
                    n >= lo,
                    lo == g * s,
                    g >= 1,
                    s >= 1,
            ;
        }
    }
    if u <= c - 2 {
        if c >= 1 {
            assert(n * (u + 1) <= lo * c) by (nonlinear_arith)
                requires
                    u + 1 <= c - 1,
                    1 <= c <= s,
                    n < lo + g,
                    n >= lo,
                    lo == g * s,
                    g >= 1,
                    s >= 1,
            ;
        } else {
            assert(n * (u + 1) <= lo * c) by (nonlinear_arith)
                requires
                    u + 1 <= c - 1,
                    c <= 0,
                    n >= lo,
                    lo >= 1,
            ;
        }
    }
}

/// Projecting on a vector that the grid holds as one long brings back a
/// multiple of it, within tolerance: `onto(k * b, b)` lies within four
/// steps of `k * b`, and four more for each unit of the size of `k`.
pub proof fn lemma_onto_multiple_of_unit(b: VectValue, k: int)
    requires
        b.norm() == SCALE,
    ensures
        SCALE * (size(b.scale(k).onto(b).x - b.scale(k).x) - 4) <= 4 * size(k),
        SCALE * (size(b.scale(k).onto(b).y - b.scale(k).y) - 4) <= 4 * size(k),
{
    let s = SCALE as int;
    lemma_unit_of_length_one(b);
    let u = b.unit();
    let a = b.scale(k);
    let d = b.norm_sq();
    let kk = size(k);
    // a is k * b / SCALE, rounded down
    lemma_floor_quotient(k * b.x, s);
    lemma_floor_quotient(k * b.y, s);
    let rx = k * b.x - s * a.x;
    let ry = k * b.y - s * a.y;
    assert(0 <= rx < s && 0 <= ry < s) by (nonlinear_arith)
        requires
            rx == k * b.x - s * a.x,
            ry == k * b.y - s * a.y,
            s * a.x <= k * b.x < s * (a.x + 1),
            s * a.y <= k * b.y < s * (a.y + 1),
    ;
    lemma_product_bounded(k, b.x, kk, s);
    lemma_product_bounded(k, b.y, kk, s);
    assert(-kk - 1 <= a.x <= kk && -kk - 1 <= a.y <= kk) by (nonlinear_arith)
        requires
            -(kk * s) <= k * b.x <= kk * s,
            -(kk * s) <= k * b.y <= kk * s,
            s * a.x <= k * b.x < s * (a.x + 1),
            s * a.y <= k * b.y < s * (a.y + 1),
            s >= 1,
            kk >= 0,
    ;
    // s * (a . b) = k * d - (rx * b.x + ry * b.y)
    let ab = a.x * b.x + a.y * b.y;
    assert(s * ab == (s * a.x) * b.x + (s * a.y) * b.y) by (nonlinear_arith)
        requires
            ab == a.x * b.x + a.y * b.y,
    ;
    assert((s * a.x) * b.x == k * (b.x * b.x) - rx * b.x) by (nonlinear_arith)
        requires
            s * a.x == k * b.x - rx,
    ;
    assert((s * a.y) * b.y == k * (b.y * b.y) - ry * b.y) by (nonlinear_arith)
        requires
            s * a.y == k * b.y - ry,
    ;
    assert(k * d == k * (b.x * b.x) + k * (b.y * b.y)) by (nonlinear_arith)
        requires
            d == b.x * b.x + b.y * b.y,
    ;
    let rb = rx * b.x + ry * b.y;
    assert(s * ab == k * d - rb);
    let s2 = s * s;
    lemma_product_bounded(rx, b.x, s, s);
    lemma_product_bounded(ry, b.y, s, s);
    assert(-2 * s2 <= rb <= 2 * s2);
    let over = d - s2;
    assert(k * d == k * s2 + k * over) by (nonlinear_arith)
        requires
            over == d - s2,
    ;
    lemma_product_bounded(k, over, kk, 2 * s);
    assert(kk * (2 * s) == 2 * (s * kk) && k * s2 == s * (k * s)) by (nonlinear_arith)
        requires
            s2 == s * s,
    ;
    // s * (a . b - k * s) is within 2 * s * (kk + s)
    assert(-(2 * (s * kk) + 2 * s2) <= s * ab - s * (k * s) <= 2 * (s * kk) + 2 * s2);
    assert(-(2 * kk + 2 * s) <= ab - k * s <= 2 * kk + 2 * s) by (nonlinear_arith)
        requires
            -(2 * (s * kk) + 2 * s2) <= s * ab - s * (k * s) <= 2 * (s * kk) + 2 * s2,
            s2 == s * s,
            s >= 1,
    ;
    // a . u differs from a . b by at most the sizes of the components of a
    let au = a.x * u.x + a.y * u.y;
    let ex = b.x - u.x;
    let ey = b.y - u.y;
    assert(au == ab - (a.x * ex + a.y * ey)) by (nonlinear_arith)
        requires
            au == a.x * u.x + a.y * u.y,
            ab == a.x * b.x + a.y * b.y,
            ex == b.x - u.x,
            ey == b.y - u.y,
    ;
    lemma_product_bounded(a.x, ex, kk + 1, 1);
    lemma_product_bounded(a.y, ey, kk + 1, 1);
    assert((kk + 1) * 1 == kk + 1) by (nonlinear_arith);
    assert(-(4 * kk + 2 * s + 2) <= au - k * s <= 4 * kk + 2 * s + 2);
    // t = dot(a, u)
    let t = a.dot(u);
    lemma_floor_quotient(au, s);
    assert(s * (t + 1) == s * t + s) by (nonlinear_arith);
    assert(s * (size(t - k) - 4) <= 4 * kk) by (nonlinear_arith)
        requires
            s * t <= au < s * t + s,
            -(4 * kk + 2 * s + 2) <= au - k * s <= 4 * kk + 2 * s + 2,
            size(t - k) == t - k || size(t - k) == k - t,
            s >= 9,
            kk >= 0,
    ;
    // the result is t * b / SCALE, rounded down
    let r = a.onto(b);
    assert(r == b.scale(t));
    lemma_component_follows(b.x, k, t, a.x, r.x, s);
    lemma_component_follows(b.y, k, t, a.y, r.y, s);
}

/// One component of [`lemma_onto_multiple_of_unit`]: two factors that are
/// close give products that are as close, where the other factor is at
/// most one.
proof fn lemma_component_follows(c: int, k: int, t: int, a: int, r: int, s: int)
    requires
        -s <= c <= s,
        s >= 1,
        a == (k * c) / s,
        r == (t * c) / s,
    ensures
        size(r - a) <= size(t - k),
{
    lemma_floor_quotient(k * c, s);
    lemma_floor_quotient(t * c, s);
    let m = size(t - k);
    assert(s * (a + 1) == s * a + s && s * (r + 1) == s * r + s) by (nonlinear_arith);
    assert(t * c - k * c == (t - k) * c) by (nonlinear_arith);
    lemma_product_bounded(t - k, c, m, s);
    assert(m * s == s * m) by (nonlinear_arith);
    assert(-m <= r - a <= m) by (nonlinear_arith)
        requires
            s * a <= k * c < s * a + s,
            s * r <= t * c < s * r + s,
            -(s * m) <= t * c - k * c <= s * m,
            s >= 1,
    ;
}

/// `u` is within two steps of the exact quotient `SCALE * x / sqrt(d)`:
/// its size `m` has `(m - 2) * sqrt(d) < SCALE * |x| < (m + 1) * sqrt(d)`,
/// here in squares.
pub open spec fn near_quotient(u: int, x: int, d: int) -> bool {
    let m = size(u);
    &&& (SCALE * SCALE) * (x * x) < ((m + 1) * (m + 1)) * d
    &&& m >= 2 ==> ((m - 2) * (m - 2)) * d < (SCALE * SCALE) * (x * x)
}

/// Each component of a unit vector is the exact `SCALE * x / |v|` rounded
/// once: it lies within two steps of it, the rounding of the length at
/// working size being too small to count. Stated for vectors of fewer than
/// 62 bits, which are brought to working size without loss.
pub proof fn lemma_unit_near_exact(v: VectValue)
    requires
        !v.is_zero(),
        v.reach() < WORKING_REACH,
    ensures
        near_quotient(v.unit().x, v.x, v.norm_sq()),
        near_quotient(v.unit().y, v.y, v.norm_sq()),
{
    lemma_unit_parallel(v);
    lemma_unit_bounded(v);
    lemma_working(v);
    lemma_working_times(v);
    let w = v.working();
    lemma_norm_dominates(w);
    let g = v.growth();
    let n = w.norm();
    let d = v.norm_sq();
    let g2 = g * g;
    assert(w.x * w.x + w.y * w.y == g2 * d) by (nonlinear_arith)
        requires
            w.x == g * v.x,
            w.y == g * v.y,
            g2 == g * g,
            d == v.x * v.x + v.y * v.y,
    ;
    lemma_norm_sq_zero(v);
    lemma_quotient_near(v.unit().x, v.x, d, g, n, SCALE as int);
    lemma_quotient_near(v.unit().y, v.y, d, g, n, SCALE as int);
}

/// One component of [`lemma_unit_near_exact`].
proof fn lemma_quotient_near(u: int, x: int, d: int, g: int, n: int, s: int)
    requires
        n * u <= s * (g * x) < n * (u + 1),
        n * n <= (g * g) * d < (n + 1) * (n + 1),
        -s <= u <= s,
        s <= n,
        g >= 1,
        s >= 1,
        d > 0,
    ensures
        ({
            let m = size(u);
            &&& (s * s) * (x * x) < ((m + 1) * (m + 1)) * d
            &&& m >= 2 ==> ((m - 2) * (m - 2)) * d < (s * s) * (x * x)
        }),
{
    let m = size(u);
    let g2 = g * g;
    assert(g2 >= 1) by (nonlinear_arith)
        requires
            g2 == g * g,
            g >= 1,
    ;
    let a = s * (g * x);
    let z = size(a);
    // z lies between n * (m - 1) and n * (m + 1), the ends left out
    assert(size(n * u) == n * m && n * (u + 1) == n * u + n && n * (m + 1) == n * m + n && n * (m - 1) == n
        * m - n) by (nonlinear_arith)
        requires
            m == size(u),
            n >= 1,
    ;
    assert(z <= n * m + n - 1 && (m >= 1 ==> z >= n * m - n + 1)) by (nonlinear_arith)
        requires
            n * u <= a < n * u + n,
            z == size(a),
            size(n * u) == n * m,
            m == size(u),
            n >= 1,
    ;
    let zz = z * z;
    assert(zz == a * a) by (nonlinear_arith)
        requires
            z == a || z == -a,
            zz == z * z,
    ;
    assert(a * a == g2 * ((s * s) * (x * x))) by (nonlinear_arith)
        requires
            a == s * (g * x),
            g2 == g * g,
    ;
    let hi = n * (m + 1);
    assert(zz < hi * hi) by (nonlinear_arith)
        requires
            0 <= z < hi,
            zz == z * z,
    ;
    assert(hi * hi == (n * n) * ((m + 1) * (m + 1))) by (nonlinear_arith)
        requires
            hi == n * (m + 1),
    ;
    let q = (m + 1) * (m + 1);
    assert((n * n) * q <= (g2 * d) * q) by (nonlinear_arith)
        requires
            n * n <= g2 * d,
            q >= 0,
    ;
    assert((g2 * d) * q == g2 * (q * d)) by (nonlinear_arith);
    assert((s * s) * (x * x) < q * d) by (nonlinear_arith)
        requires
            g2 * ((s * s) * (x * x)) < g2 * (q * d),
            g2 >= 1,
    ;
    if m >= 2 {
        let lo = (n + 1) * (m - 2);
        assert(lo <= z) by (nonlinear_arith)
            requires
                lo == (n + 1) * (m - 2),
                z >= n * m - n + 1,
                m <= n,
                m >= 2,
        ;
        assert(lo * lo <= zz) by (nonlinear_arith)
            requires
                0 <= lo <= z,
                zz == z * z,
        ;
        let p = (m - 2) * (m - 2);
        assert(lo * lo == ((n + 1) * (n + 1)) * p) by (nonlinear_arith)
            requires
                lo == (n + 1) * (m - 2),
                p == (m - 2) * (m - 2),
        ;
        if m == 2 {
            assert(p * d == 0) by (nonlinear_arith)
                requires
                    p == (m - 2) * (m - 2),
                    m == 2,
            ;
            assert(z >= 1);
            assert((s * s) * (x * x) > 0) by (nonlinear_arith)
                requires
                    g2 * ((s * s) * (x * x)) == zz,
                    zz == z * z,
                    z >= 1,
                    g2 >= 1,
            ;
        } else {
            assert(p > 0) by (nonlinear_arith)
                requires
                    p == (m - 2) * (m - 2),
                    m > 2,
            ;
            assert((g2 * d) * p < ((n + 1) * (n + 1)) * p) by (nonlinear_arith)
                requires
                    g2 * d < (n + 1) * (n + 1),
                    p > 0,
            ;
            assert((g2 * d) * p == g2 * (p * d)) by (nonlinear_arith);
            assert(p * d < (s * s) * (x * x)) by (nonlinear_arith)
                requires
                    g2 * (p * d) < g2 * ((s * s) * (x * x)),
                    g2 >= 1,
            ;
        }
    }
}

/// The length of a unit vector is one, within three steps of the grid,
/// whatever the length of the vector it was made from.
pub proof fn lemma_unit_norm(v: VectValue)
    requires
        !v.is_zero(),
    ensures
        SCALE - 3 <= v.unit().norm() <= SCALE + 3,
{
    lemma_working(v);
    lemma_over_norm_length(v.working());
}

} // verus!
