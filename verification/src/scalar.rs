//! Fixed-point scalars and the wide integer arithmetic behind them.

use vstd::prelude::*;
use vstd::arithmetic::div_mod::lemma_fundamental_div_mod;
use vstd::arithmetic::div_mod::lemma_fundamental_div_mod_converse;
use vstd::arithmetic::div_mod::lemma_mod_bound;

verus! {

/// Raw units in the value one.
pub const SCALE: i64 = 0x1_0000_0000;

/// A number on the grid: `raw` steps of `1 / SCALE`, from -2^31 up to one
/// step short of 2^31.
#[derive(Clone, Copy, Debug, PartialEq, Eq, Structural)]
pub struct Scalar {
    pub raw: i64,
}

impl View for Scalar {
    type V = int;

    open spec fn view(&self) -> int {
        self.raw as int
    }
}

impl Scalar {
    /// The whole number `n`.
    pub fn from_int(n: i32) -> (r: Scalar)
        ensures
            r@ == n * SCALE,
    {
        Scalar { raw: (n as i64) * SCALE }
    }
}

/// Whether a raw count can be held by a `Scalar`.
pub open spec fn fits(v: int) -> bool {
    i64::MIN <= v <= i64::MAX
}

/// The size of a number, whatever its sign.
pub open spec fn size(a: int) -> int {
    if a < 0 {
        -a
    } else {
        a
    }
}

/// A product of two raw counts brought back to the grid, rounded down.
pub open spec fn descale(p: int) -> int {
    p / (SCALE as int)
}

/// The quotient `a / b` of two raw counts on the grid, rounded down.
/// Meaningful for `b != 0`.
pub open spec fn ratio(a: int, b: int) -> int {
    if b > 0 {
        (a * SCALE) / b
    } else {
        (-(a * SCALE)) / (-b)
    }
}

/// `r` is the square root of `n` rounded down.
pub open spec fn is_floor_sqrt(r: int, n: int) -> bool {
    0 <= r && r * r <= n < (r + 1) * (r + 1)
}

/// The square root of `n` rounded down, for `n >= 0`.
pub open spec fn floor_sqrt(n: int) -> int {
    choose|r: int| is_floor_sqrt(r, n)
}

/// Two roots of one number are the same root.
pub proof fn lemma_floor_sqrt_unique(r: int, s: int, n: int)
    requires
        is_floor_sqrt(r, n),
        is_floor_sqrt(s, n),
    ensures
        r == s,
{
    if r < s {
        assert((r + 1) * (r + 1) <= s * s) by (nonlinear_arith)
            requires
                0 <= r,
                r + 1 <= s,
        ;
    } else if s < r {
        assert((s + 1) * (s + 1) <= r * r) by (nonlinear_arith)
            requires
                0 <= s,
                s + 1 <= r,
        ;
    }
}

/// Every number from zero up has a root.
pub proof fn lemma_floor_sqrt_exists(n: int)
    requires
        n >= 0,
    ensures
        is_floor_sqrt(floor_sqrt(n), n),
    decreases n,
{
    if n == 0 {
        assert(is_floor_sqrt(0, n));
    } else {
        lemma_floor_sqrt_exists(n - 1);
        let r = floor_sqrt(n - 1);
        if (r + 1) * (r + 1) <= n {
            assert((r + 2) * (r + 2) > n) by (nonlinear_arith)
                requires
                    0 <= r,
                    n - 1 < (r + 1) * (r + 1),
            ;
            assert(is_floor_sqrt(r + 1, n));
        } else {
            assert(r * r <= n);
            assert(is_floor_sqrt(r, n));
        }
    }
}

/// A number that is a root of `n` is the root of `n`.
pub proof fn lemma_floor_sqrt_is(r: int, n: int)
    requires
        is_floor_sqrt(r, n),
    ensures
        floor_sqrt(n) == r,
{
    lemma_floor_sqrt_unique(r, floor_sqrt(n), n);
}

/// Floor division of a wide integer by a positive one.
pub(crate) fn floor_div(a: i128, b: i128) -> (q: i128)
    requires
        b > 0,
    ensures
        q == a / b,
{
    if a >= 0 {
        a / b
    } else {
        let m: i128 = -(a + 1);
        let t: i128 = m / b;
        proof {
            lemma_fundamental_div_mod(m as int, b as int);
            lemma_mod_bound(m as int, b as int);
            let r = (m as int) % (b as int);
            assert(0 <= t <= m) by (nonlinear_arith)
                requires
                    m == b * t + r,
                    0 <= r < b,
                    0 <= m,
                    b > 0,
            ;
            assert(a == (-(t as int) - 1) * b + (b - 1 - r)) by (nonlinear_arith)
                requires
                    m == b * t + r,
                    m == -(a + 1),
            ;
            lemma_fundamental_div_mod_converse(a as int, b as int, -(t as int) - 1, b - 1 - r);
        }
        -t - 1
    }
}

/// The exact product of two raw counts.
pub(crate) fn wide_mul(a: i64, b: i64) -> (p: i128)
    ensures
        p == a * b,
        -0x4000_0000_0000_0000_0000_0000_0000_0000 < p <= 0x4000_0000_0000_0000_0000_0000_0000_0000,
{
    assert(-0x4000_0000_0000_0000_0000_0000_0000_0000 < a * b
        <= 0x4000_0000_0000_0000_0000_0000_0000_0000) by (nonlinear_arith)
        requires
            -0x8000_0000_0000_0000 <= a <= 0x7fff_ffff_ffff_ffff,
            -0x8000_0000_0000_0000 <= b <= 0x7fff_ffff_ffff_ffff,
    ;
    (a as i128) * (b as i128)
}

/// The sum of the squares of two raw counts.
pub(crate) fn sum_of_squares(x: i64, y: i64) -> (n: u128)
    ensures
        n == x * x + y * y,
        n <= 0x8000_0000_0000_0000_0000_0000_0000_0000,
{
    let xx: i128 = wide_mul(x, x);
    let yy: i128 = wide_mul(y, y);
    assert(x * x >= 0 && y * y >= 0) by (nonlinear_arith);
    (xx as u128) + (yy as u128)
}

/// The square root of `n` rounded down, by bisection.
pub(crate) fn isqrt(n: u128) -> (r: u64)
    ensures
        is_floor_sqrt(r as int, n as int),
        r as int == floor_sqrt(n as int),
{
    let mut lo: u128 = 0;
    let mut hi: u128 = 0x1_0000_0000_0000_0000;
    assert(n < hi * hi) by (nonlinear_arith)
        requires
            hi == 0x1_0000_0000_0000_0000,
            n <= 0xffff_ffff_ffff_ffff_ffff_ffff_ffff_ffff,
    ;
    while hi - lo > 1
        invariant
            lo < hi <= 0x1_0000_0000_0000_0000,
            lo * lo <= n < hi * hi,
        decreases hi - lo,
    {
        let mid: u128 = lo + (hi - lo) / 2;
        assert(mid * mid <= 0xffff_ffff_ffff_ffff_ffff_ffff_ffff_ffff) by (nonlinear_arith)
            requires
                0 <= mid <= 0xffff_ffff_ffff_ffff,
        ;
        if mid * mid <= n {
            lo = mid;
        } else {
            hi = mid;
        }
    }
    proof {
        lemma_floor_sqrt_is(lo as int, n as int);
    }
    lo as u64
}

/// The quotient of a raw count by a non-zero divisor, on the grid.
pub(crate) fn ratio_wide(a: i64, b: i128) -> (q: i128)
    requires
        b != 0,
        b != i128::MIN,
    ensures
        q == ratio(a as int, b as int),
{
    let p: i128 = wide_mul(a, SCALE);
    if b > 0 {
        floor_div(p, b)
    } else {
        floor_div(-p, -b)
    }
}

/// The size of a product is at most the product of the sizes.
pub proof fn lemma_product_bounded(a: int, b: int, la: int, lb: int)
    requires
        -la <= a <= la,
        -lb <= b <= lb,
    ensures
        -(la * lb) <= a * b <= la * lb,
{
    assert(-(la * lb) <= a * b <= la * lb) by (nonlinear_arith)
        requires
            -la <= a <= la,
            -lb <= b <= lb,
    ;
}

/// What rounding a quotient down means: the quotient times the divisor is
/// at most the dividend, and less than one divisor short of it.
pub proof fn lemma_floor_quotient(a: int, b: int)
    requires
        b > 0,
    ensures
        b * (a / b) <= a < b * (a / b + 1),
{
    lemma_fundamental_div_mod(a, b);
    lemma_mod_bound(a, b);
    assert(b * (a / b + 1) == b * (a / b) + b) by (nonlinear_arith);
}

/// A quotient whose dividend is no longer than its divisor is at most one.
pub proof fn lemma_ratio_bounded(a: int, b: int)
    requires
        b > 0,
        -b <= a <= b,
    ensures
        -SCALE <= ratio(a, b) <= SCALE,
{
    let q = (a * SCALE) / b;
    let r = (a * SCALE) % b;
    lemma_fundamental_div_mod(a * SCALE, b);
    lemma_mod_bound(a * SCALE, b);
    assert(-SCALE <= q <= SCALE) by (nonlinear_arith)
        requires
            a * SCALE == b * q + r,
            0 <= r < b,
            -b <= a <= b,
            b > 0,
    ;
}

} // verus!
