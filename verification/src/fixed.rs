//! Fixed-point scalars and their arithmetic.
//!
//! A scalar is an `i64` counting units of `1 / SCALE`. Products and
//! quotients are computed in `i128` and rescaled by `SCALE`, rounding
//! toward zero exactly as the machine division does; square roots round
//! down. The spec functions here are the mathematical model that every
//! contract in the crate is stated over.

use vstd::prelude::*;
use vstd::arithmetic::div_mod::{
    lemma_div_is_ordered, lemma_div_pos_is_pos, lemma_fundamental_div_mod,
    lemma_div_multiples_vanish,
};

verus! {

/// One whole unit: the raw value standing for `1.0`.
pub const SCALE: i64 = 65536;

/// Raw bound on scene geometry: sphere centers, radii, box corners,
/// camera parameters and exposure times all stay within it.
pub const GEOM_BOUND: i64 = 0x4000_0000;

/// Raw bound kept by every hit point an intersection reports.
pub const POINT_BOUND: i64 = 0x1_0000_0000;

/// Raw bound kept by every surface normal an intersection reports.
pub const NORM_BOUND: i64 = 0x20000;

/// Raw bound on the origin and direction of any ray handed to a query.
pub const RAY_BOUND: i64 = 0x2_0000_0000;

/// Division rounding toward zero, the rounding of the machine `/`.
pub open spec fn tdiv(a: int, b: int) -> int
    recommends
        b != 0,
{
    if a >= 0 {
        a / b
    } else {
        -((-a) / b)
    }
}

/// The fixed-point product: rescale the integer product by `SCALE`.
pub open spec fn fxmul(a: int, b: int) -> int {
    tdiv(a * b, SCALE as int)
}

/// The fixed-point quotient: rescale the numerator by `SCALE`. The
/// sign split keeps every division at a positive divisor, the rounding
/// still toward zero.
pub open spec fn fxdiv(a: int, b: int) -> int
    recommends
        b != 0,
{
    if b > 0 {
        tdiv(a * SCALE, b)
    } else {
        -tdiv(a * SCALE, -b)
    }
}

/// The integer square root, rounding down.
pub open spec fn sqrt_floor(n: int) -> int
    recommends
        n >= 0,
    decreases n,
{
    if n <= 0 {
        0
    } else {
        let r = sqrt_floor(n / 4);
        if (2 * r + 1) * (2 * r + 1) <= n {
            2 * r + 1
        } else {
            2 * r
        }
    }
}

/// The square root rounds down: it is the largest integer whose square
/// does not exceed the argument.
pub proof fn lemma_sqrt_floor_bounds(n: int)
    requires
        n >= 0,
    ensures
        sqrt_floor(n) >= 0,
        sqrt_floor(n) * sqrt_floor(n) <= n,
        n < (sqrt_floor(n) + 1) * (sqrt_floor(n) + 1),
    decreases n,
{
    if n <= 0 {
        assert(sqrt_floor(n) == 0);
        assert(n < (sqrt_floor(n) + 1) * (sqrt_floor(n) + 1));
    } else {
        let q = n / 4;
        lemma_sqrt_floor_bounds(q);
        let r = sqrt_floor(q);
        assert(4 * q <= n < 4 * q + 4) by {
            lemma_fundamental_div_mod(n, 4);
        };
        let s = sqrt_floor(n);
        if (2 * r + 1) * (2 * r + 1) <= n {
            assert(s == 2 * r + 1);
            assert(s * s <= n && n < (s + 1) * (s + 1)) by (nonlinear_arith)
                requires
                    q + 1 <= (r + 1) * (r + 1),
                    n < 4 * q + 4,
                    (2 * r + 1) * (2 * r + 1) <= n,
                    s == 2 * r + 1,
            {
                assert((s + 1) * (s + 1) == 4 * ((r + 1) * (r + 1)));
                assert(4 * (q + 1) <= 4 * ((r + 1) * (r + 1)));
            }
        } else {
            assert(s == 2 * r);
            assert(s * s <= n && n < (s + 1) * (s + 1)) by (nonlinear_arith)
                requires
                    r * r <= q,
                    4 * q <= n,
                    s == 2 * r,
                    !((2 * r + 1) * (2 * r + 1) <= n),
            {}
        }
    }
}

/// Two integers bracketed by the same squares are equal, so the bounds
/// above pin the square root down.
pub proof fn lemma_sqrt_unique(n: int, r: int)
    requires
        n >= 0,
        r >= 0,
        r * r <= n,
        n < (r + 1) * (r + 1),
    ensures
        r == sqrt_floor(n),
{
    lemma_sqrt_floor_bounds(n);
    let s = sqrt_floor(n);
    assert(r == s) by (nonlinear_arith)
        requires
            r >= 0,
            s >= 0,
            r * r <= n,
            n < (r + 1) * (r + 1),
            s * s <= n,
            n < (s + 1) * (s + 1),
    {}
}

/// The magnitude of an integer.
pub open spec fn iabs(a: int) -> int {
    if a < 0 {
        -a
    } else {
        a
    }
}

/// The smaller of two integers.
pub open spec fn imin(a: int, b: int) -> int {
    if a < b {
        a
    } else {
        b
    }
}

/// The larger of two integers.
pub open spec fn imax(a: int, b: int) -> int {
    if a > b {
        a
    } else {
        b
    }
}

/// A product of bounded factors is bounded by the product of the bounds.
pub proof fn lemma_mul_bounds(a: int, b: int, ca: int, cb: int) by (nonlinear_arith)
    requires
        -ca <= a <= ca,
        -cb <= b <= cb,
    ensures
        -(ca * cb) <= a * b <= ca * cb,
{
}

/// The square root rounds down monotonically.
pub proof fn lemma_sqrt_mono(a: int, b: int)
    requires
        0 <= a <= b,
    ensures
        sqrt_floor(a) <= sqrt_floor(b),
{
    lemma_sqrt_floor_bounds(a);
    lemma_sqrt_floor_bounds(b);
    let sa = sqrt_floor(a);
    let sb = sqrt_floor(b);
    assert(sa <= sb) by (nonlinear_arith)
        requires
            sa >= 0,
            sb >= 0,
            sa * sa <= a,
            a <= b,
            b < (sb + 1) * (sb + 1),
    {}
}

/// The square root of a perfect square of a bounded magnitude.
pub proof fn lemma_sqrt_square(c: int)
    requires
        c >= 0,
    ensures
        sqrt_floor(c * c) == c,
{
    assert(c * c >= 0 && c * c < (c + 1) * (c + 1)) by (nonlinear_arith)
        requires c >= 0,
    {}
    lemma_sqrt_unique(c * c, c);
}

/// An argument below a square keeps its root below that square's root.
pub proof fn lemma_sqrt_upper(n: int, c: int)
    requires
        n >= 0,
        c >= 0,
        n < c * c,
    ensures
        sqrt_floor(n) < c,
{
    lemma_sqrt_floor_bounds(n);
    let s = sqrt_floor(n);
    assert(s < c) by (nonlinear_arith)
        requires
            s >= 0,
            c >= 0,
            s * s <= n,
            n < c * c,
    {}
}

/// A fixed-point product with a factor of at most one whole unit
/// stays within the other factor's range, and within the factor
/// itself.
pub proof fn lemma_fxmul_color(a: int, b: int, ca: int)
    requires
        0 <= a <= ca,
        ca <= SCALE,
        0 <= b <= SCALE,
    ensures
        0 <= fxmul(a, b) <= ca,
        fxmul(a, b) <= b,
{
    lemma_mul_bounds(a, b, ca, SCALE as int);
    assert(ca * SCALE == SCALE as int * ca) by (nonlinear_arith) {}
    lemma_tdiv_bounded(a * b, SCALE as int, ca);
    lemma_tdiv_pos(a * b, SCALE as int);
    assert(a * b >= 0) by (nonlinear_arith)
        requires a >= 0 && b >= 0,
    {}
    assert(a * b <= b * SCALE) by (nonlinear_arith)
        requires 0 <= a <= SCALE as int && b >= 0,
    {}
    lemma_tdiv_exact(b, SCALE as int);
    lemma_tdiv_mono(a * b, b * SCALE, SCALE as int);
}

/// Scaling a nonnegative value by a factor of at most one whole unit
/// cannot grow it.
pub proof fn lemma_fxmul_frac(q: int, d: int)
    requires
        0 <= q <= SCALE,
        0 <= d,
    ensures
        0 <= fxmul(q, d) <= d,
{
    assert(0 <= q * d <= d * SCALE) by (nonlinear_arith)
        requires 0 <= q <= SCALE as int && 0 <= d,
    {}
    lemma_tdiv_pos(q * d, SCALE as int);
    lemma_tdiv_exact(d, SCALE as int);
    lemma_tdiv_mono(q * d, d * SCALE, SCALE as int);
}

/// Scaling one whole unit by a factor gives back the factor exactly.
pub proof fn lemma_fxmul_one(b: int)
    ensures
        fxmul(SCALE as int, b) == b,
{
    lemma_tdiv_exact(b, SCALE as int);
    assert(SCALE as int * b == b * SCALE) by (nonlinear_arith) {}
}

/// Truncating division leaves a remainder smaller than the divisor,
/// on either side of zero.
pub proof fn lemma_tdiv_remainder(a: int, b: int)
    requires
        b > 0,
    ensures
        a - (b - 1) <= tdiv(a, b) * b <= a + (b - 1),
{
    if a >= 0 {
        lemma_fundamental_div_mod(a, b);
        lemma_mod_bound_pos(a, b);
        assert((a / b) * b == b * (a / b)) by (nonlinear_arith) {}
    } else {
        lemma_fundamental_div_mod(-a, b);
        lemma_mod_bound_pos(-a, b);
        assert((-((-a) / b)) * b == -(b * ((-a) / b))) by (nonlinear_arith) {}
    }
}

/// The remainder of a nonnegative value at a positive divisor lies
/// below the divisor.
proof fn lemma_mod_bound_pos(a: int, b: int)
    requires
        a >= 0,
        b > 0,
    ensures
        0 <= a % b < b,
{
}

/// Rounding toward zero never moves away from zero.
pub proof fn lemma_tdiv_pos(a: int, b: int)
    requires
        b > 0,
    ensures
        a >= 0 ==> tdiv(a, b) >= 0,
        a <= 0 ==> tdiv(a, b) <= 0,
{
    if a >= 0 {
        lemma_div_pos_is_pos(a, b);
    } else {
        lemma_div_pos_is_pos(-a, b);
    }
}

/// Truncating division is monotone in the numerator, for a positive
/// denominator.
pub proof fn lemma_tdiv_mono(a1: int, a2: int, b: int)
    requires
        b > 0,
        a1 <= a2,
    ensures
        tdiv(a1, b) <= tdiv(a2, b),
{
    if a1 >= 0 {
        lemma_div_is_ordered(a1, a2, b);
    } else if a2 < 0 {
        lemma_div_is_ordered(-a2, -a1, b);
    } else {
        lemma_tdiv_pos(a1, b);
        lemma_tdiv_pos(a2, b);
    }
}

/// Dividing an exact multiple recovers the factor.
pub proof fn lemma_tdiv_exact(t: int, b: int)
    requires
        b > 0,
    ensures
        tdiv(t * b, b) == t,
{
    if t >= 0 {
        assert(t * b >= 0 && t * b == b * t) by (nonlinear_arith)
            requires t >= 0 && b > 0,
        {}
        lemma_div_multiples_vanish(t, b);
        assert((b * t) / b == t);
    } else {
        assert(t * b < 0 && -(t * b) == b * (-t)) by (nonlinear_arith)
            requires t < 0 && b > 0,
        {}
        lemma_div_multiples_vanish(-t, b);
        assert((b * (-t)) / b == -t);
    }
}

/// A numerator bounded by `c` multiples of the denominator gives a
/// quotient bounded by `c`.
pub proof fn lemma_tdiv_bounded(a: int, b: int, c: int)
    requires
        b > 0,
        c >= 0,
        -(c * b) <= a <= c * b,
    ensures
        -c <= tdiv(a, b) <= c,
{
    lemma_tdiv_exact(c, b);
    lemma_tdiv_exact(-c, b);
    assert((-c) * b == -(c * b)) by (nonlinear_arith) {}
    lemma_tdiv_mono(a, c * b, b);
    lemma_tdiv_mono(-(c * b), a, b);
}

/// The fixed-point product of two scalars, rounding toward zero.
pub fn fx_mul(a: i64, b: i64) -> (r: i64)
    requires
        i64::MIN <= fxmul(a as int, b as int) <= i64::MAX,
    ensures
        r == fxmul(a as int, b as int),
{
    let p: i128 = (a as i128) * (b as i128);
    let q: i128 = p / (SCALE as i128);
    q as i64
}

/// The fixed-point quotient of two scalars, rounding toward zero.
pub fn fx_div(a: i64, b: i64) -> (r: i64)
    requires
        b != 0,
        i64::MIN <= fxdiv(a as int, b as int) <= i64::MAX,
    ensures
        r == fxdiv(a as int, b as int),
{
    let p: i128 = (a as i128) * 65536;
    let q: i128 = if b > 0 {
        p / (b as i128)
    } else {
        -(p / (-(b as i128)))
    };
    q as i64
}

/// The integer square root, rounding down.
pub fn isqrt(n: u128) -> (r: u128)
    ensures
        r == sqrt_floor(n as int),
    decreases n,
{
    if n == 0 {
        0
    } else {
        let r = isqrt(n / 4);
        proof {
            lemma_sqrt_floor_bounds((n / 4) as int);
            assert(r < 0x8000_0000_0000_0000u128) by (nonlinear_arith)
                requires
                    r * r <= n / 4,
                    n / 4 < 0x4000_0000_0000_0000_0000_0000_0000_0000u128,
            {}
            assert((2 * r + 1) * (2 * r + 1) <= u128::MAX) by (nonlinear_arith)
                requires
                    r < 0x8000_0000_0000_0000u128,
            {}
        }
        let s: u128 = 2 * r + 1;
        if s * s <= n {
            s
        } else {
            2 * r
        }
    }
}

/// The square root of a fixed-point scalar: the argument at scale
/// `SCALE` gives a result at scale `SCALE` again.
pub fn fx_sqrt(a: i64) -> (r: i64)
    requires
        a >= 0,
    ensures
        r == sqrt_floor(a * SCALE),
{
    let n: u128 = (a as u128) * 65536;
    let r = isqrt(n);
    proof {
        lemma_sqrt_floor_bounds(n as int);
        assert(n < 0x4000_0000_0000_0000_0000_0000u128);
        assert(r <= 0x8000_0000_0000u128) by (nonlinear_arith)
            requires
                r * r <= n,
                n < 0x4000_0000_0000_0000_0000_0000u128,
        {}
    }
    r as i64
}

} // verus!
