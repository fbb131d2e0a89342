//! Three-component fixed-point vectors, used interchangeably as
//! positions, directions and RGB colors.

use vstd::prelude::*;
use crate::fixed::{
    SCALE, RAY_BOUND, tdiv, fxmul, fxdiv, sqrt_floor,
    lemma_mul_bounds, lemma_tdiv_bounded, lemma_sqrt_floor_bounds, lemma_sqrt_mono,
    lemma_sqrt_square, lemma_sqrt_upper, lemma_tdiv_remainder, fx_mul, fx_div, isqrt,
};

verus! {

/// A vector of three fixed-point scalars.
#[derive(Clone, Copy, PartialEq, Eq, Structural)]
pub struct Vec3 {
    pub x: i64,
    pub y: i64,
    pub z: i64,
}

/// Every component lies within `b` in magnitude.
pub open spec fn bounded3(v: Vec3, b: int) -> bool {
    &&& -b <= v.x <= b
    &&& -b <= v.y <= b
    &&& -b <= v.z <= b
}

/// The unscaled inner product: a value at scale `SCALE * SCALE`.
pub open spec fn dotraw(a: Vec3, b: Vec3) -> int {
    a.x * b.x + a.y * b.y + a.z * b.z
}

/// The fixed-point inner product.
pub open spec fn spec_dot(a: Vec3, b: Vec3) -> int {
    tdiv(dotraw(a, b), SCALE as int)
}

/// The unscaled squared length: a value at scale `SCALE * SCALE`.
pub open spec fn sqlraw(v: Vec3) -> int {
    dotraw(v, v)
}

/// The fixed-point length: rooting the `SCALE * SCALE`-scaled square
/// yields a `SCALE`-scaled length directly.
pub open spec fn spec_len(v: Vec3) -> int {
    sqrt_floor(sqlraw(v))
}

/// The vector scaled to one whole unit of length: each component is
/// divided by the fixed-point length (meaningful only for a nonzero
/// vector).
pub open spec fn spec_unit(v: Vec3) -> Vec3 {
    Vec3 {
        x: fxdiv(v.x as int, spec_len(v)) as i64,
        y: fxdiv(v.y as int, spec_len(v)) as i64,
        z: fxdiv(v.z as int, spec_len(v)) as i64,
    }
}

/// The componentwise sum, as a value.
pub open spec fn vadd3(a: Vec3, b: Vec3) -> Vec3 {
    Vec3 { x: (a.x + b.x) as i64, y: (a.y + b.y) as i64, z: (a.z + b.z) as i64 }
}

/// The componentwise difference, as a value.
pub open spec fn vsub3(a: Vec3, b: Vec3) -> Vec3 {
    Vec3 { x: (a.x - b.x) as i64, y: (a.y - b.y) as i64, z: (a.z - b.z) as i64 }
}

/// The componentwise fixed-point scaling, as a value.
pub open spec fn vscale3(v: Vec3, s: int) -> Vec3 {
    Vec3 {
        x: fxmul(v.x as int, s) as i64,
        y: fxmul(v.y as int, s) as i64,
        z: fxmul(v.z as int, s) as i64,
    }
}

/// The componentwise fixed-point product, as a value.
pub open spec fn vmul3(a: Vec3, b: Vec3) -> Vec3 {
    Vec3 {
        x: fxmul(a.x as int, b.x as int) as i64,
        y: fxmul(a.y as int, b.y as int) as i64,
        z: fxmul(a.z as int, b.z as int) as i64,
    }
}

/// The componentwise negation, as a value.
pub open spec fn vneg3(v: Vec3) -> Vec3 {
    Vec3 { x: (-v.x) as i64, y: (-v.y) as i64, z: (-v.z) as i64 }
}

/// The fixed-point cross product, as a value.
pub open spec fn vcross3(a: Vec3, b: Vec3) -> Vec3 {
    Vec3 {
        x: (fxmul(a.y as int, b.z as int) - fxmul(a.z as int, b.y as int)) as i64,
        y: (fxmul(a.z as int, b.x as int) - fxmul(a.x as int, b.z as int)) as i64,
        z: (fxmul(a.x as int, b.y as int) - fxmul(a.y as int, b.x as int)) as i64,
    }
}

/// The squared length is a sum of squares, so it is nonnegative and
/// dominates each single square.
pub proof fn lemma_sqlraw_bounds(v: Vec3)
    ensures
        sqlraw(v) >= v.x * v.x,
        sqlraw(v) >= v.y * v.y,
        sqlraw(v) >= v.z * v.z,
        sqlraw(v) >= 0,
{
    assert(v.x * v.x >= 0 && v.y * v.y >= 0 && v.z * v.z >= 0) by (nonlinear_arith) {}
}

/// The length dominates the magnitude of each component.
pub proof fn lemma_len_dominates(v: Vec3)
    ensures
        spec_len(v) >= 0,
        -spec_len(v) <= v.x <= spec_len(v),
        -spec_len(v) <= v.y <= spec_len(v),
        -spec_len(v) <= v.z <= spec_len(v),
        !(v.x == 0 && v.y == 0 && v.z == 0) ==> spec_len(v) >= 1,
{
    lemma_sqlraw_bounds(v);
    lemma_sqrt_floor_bounds(sqlraw(v));
    lemma_comp_le_len(v.x as int, sqlraw(v));
    lemma_comp_le_len(v.y as int, sqlraw(v));
    lemma_comp_le_len(v.z as int, sqlraw(v));
    if !(v.x == 0 && v.y == 0 && v.z == 0) {
        assert(v.x != 0 ==> v.x * v.x >= 1) by (nonlinear_arith) {}
        assert(v.y != 0 ==> v.y * v.y >= 1) by (nonlinear_arith) {}
        assert(v.z != 0 ==> v.z * v.z >= 1) by (nonlinear_arith) {}
        lemma_sqrt_mono(1, sqlraw(v));
    }
}

proof fn lemma_comp_le_len(c: int, raw: int)
    requires
        raw >= c * c,
        raw >= 0,
    ensures
        -sqrt_floor(raw) <= c <= sqrt_floor(raw),
{
    if c >= 0 {
        lemma_sqrt_square(c);
        lemma_sqrt_mono(c * c, raw);
    } else {
        lemma_sqrt_square(-c);
        assert((-c) * (-c) == c * c) by (nonlinear_arith) {}
        lemma_sqrt_mono(c * c, raw);
    }
}

/// For a vector of at least one whole unit of raw length, the
/// normalized vector's length is one whole unit to within four raw
/// steps: componentwise truncation can fall short of exact unity only
/// by parts in a square unit.
#[verifier::rlimit(100)]
pub proof fn lemma_unit_length(v: Vec3)
    requires
        sqlraw(v) >= SCALE * SCALE,
    ensures
        SCALE - 4 <= spec_len(spec_unit(v)) <= SCALE + 4,
{
    let sc = SCALE as int;
    let q = sqlraw(v);
    let len = spec_len(v);
    lemma_sqrt_floor_bounds(q);
    lemma_sqrt_square(sc);
    lemma_sqrt_mono(sc * sc, q);
    lemma_len_dominates(v);
    let ux = fxdiv(v.x as int, len);
    let uy = fxdiv(v.y as int, len);
    let uz = fxdiv(v.z as int, len);
    lemma_tdiv_remainder(v.x * SCALE, len);
    lemma_tdiv_remainder(v.y * SCALE, len);
    lemma_tdiv_remainder(v.z * SCALE, len);
    assert(v.x * SCALE == v.x as int * sc && v.y * SCALE == v.y as int * sc && v.z * SCALE
        == v.z as int * sc);
    lemma_div_stays_bounded(v.x as int, len);
    lemma_div_stays_bounded(v.y as int, len);
    lemma_div_stays_bounded(v.z as int, len);
    let u = spec_unit(v);
    assert(u.x == ux && u.y == uy && u.z == uz);
    let su = sqlraw(u);
    assert(su == ux * ux + uy * uy + uz * uz);
    lemma_unit_comp_square(v.x as int, ux, len);
    lemma_unit_comp_square(v.y as int, uy, len);
    lemma_unit_comp_square(v.z as int, uz, len);
    assert((ux * len) * (ux * len) == (ux * ux) * (len * len)) by (nonlinear_arith) {}
    assert((uy * len) * (uy * len) == (uy * uy) * (len * len)) by (nonlinear_arith) {}
    assert((uz * len) * (uz * len) == (uz * uz) * (len * len)) by (nonlinear_arith) {}
    assert(su * (len * len) == (ux * ux) * (len * len) + (uy * uy) * (len * len) + (uz * uz) * (
        len * len)) by (nonlinear_arith)
        requires
            su == ux * ux + uy * uy + uz * uz,
    {}
    assert((v.x * sc) * (v.x * sc) + (v.y * sc) * (v.y * sc) + (v.z * sc) * (v.z * sc) == (sc
        * sc) * q) by (nonlinear_arith)
        requires
            q == v.x * v.x + v.y * v.y + v.z * v.z,
    {}
    assert((sc * sc) * q >= (sc * sc) * (len * len)) by (nonlinear_arith)
        requires
            q >= len * len,
    {}
    assert((sc * sc) * q <= (sc * sc) * (len * len) + 2 * (sc * (len * len)))
        by (nonlinear_arith)
        requires
            q < (len + 1) * (len + 1),
            1 <= sc <= len,
    {}
    assert((sc * sc - 6 * sc) * (len * len) == (sc * sc) * (len * len) - 6 * (sc * (len * len)))
        by (nonlinear_arith)
    {}
    assert((sc * sc + 8 * sc + 3) * (len * len) == (sc * sc) * (len * len) + 8 * (sc * (len
        * len)) + 3 * (len * len)) by (nonlinear_arith)
    {}
    assert(su * (len * len) >= (sc * sc - 6 * sc) * (len * len));
    assert(su * (len * len) <= (sc * sc + 8 * sc + 3) * (len * len));
    assert(sc * sc - 6 * sc <= su <= sc * sc + 8 * sc + 3) by (nonlinear_arith)
        requires
            su * (len * len) >= (sc * sc - 6 * sc) * (len * len),
            su * (len * len) <= (sc * sc + 8 * sc + 3) * (len * len),
            len >= 1,
    {}
    assert((sc - 4) * (sc - 4) <= sc * sc - 6 * sc) by (nonlinear_arith)
        requires sc >= 8,
    {}
    assert(sc * sc + 8 * sc + 3 < (sc + 5) * (sc + 5)) by (nonlinear_arith)
        requires sc >= 1,
    {}
    lemma_sqrt_square(sc - 4);
    lemma_sqrt_mono((sc - 4) * (sc - 4), su);
    lemma_sqrt_upper(su, sc + 5);
}

/// One component of the normalized vector: its product with the
/// length lies within a remainder of the exact quotient, so its
/// square does too.
proof fn lemma_unit_comp_square(c: int, u: int, len: int)
    requires
        len >= 1,
        -len <= c <= len,
        c * SCALE - (len - 1) <= u * len <= c * SCALE + (len - 1),
    ensures
        (u * len) * (u * len) >= (c * (SCALE as int)) * (c * (SCALE as int)) - 2 * ((
        SCALE as int) * (len * len)),
        (u * len) * (u * len) <= (c * (SCALE as int)) * (c * (SCALE as int)) + 2 * ((
        SCALE as int) * (len * len)) + len * len,
{
    let sc = SCALE as int;
    assert((u * len) * (u * len) >= (c * sc) * (c * sc) - 2 * (sc * (len * len)) && (u * len) * (u
        * len) <= (c * sc) * (c * sc) + 2 * (sc * (len * len)) + len * len) by (nonlinear_arith)
        requires
            len >= 1,
            -len <= c <= len,
            c * sc - (len - 1) <= u * len <= c * sc + (len - 1),
            sc >= 1,
    {
        let e = u * len - c * sc;
        assert((u * len) * (u * len) == (c * sc) * (c * sc) + 2 * (c * sc) * e + e * e);
        assert(e * e <= len * len);
        assert(-(len * sc) <= c * sc <= len * sc);
        assert(2 * (c * sc) * e >= -(2 * (sc * (len * len))));
        assert(2 * (c * sc) * e <= 2 * (sc * (len * len)));
    }
}

impl Vec3 {
    pub fn new(x: i64, y: i64, z: i64) -> (r: Vec3)
        ensures
            r == (Vec3 { x, y, z }),
    {
        Vec3 { x, y, z }
    }

    pub fn x(&self) -> (r: i64)
        ensures
            r == self.x,
    {
        self.x
    }

    pub fn y(&self) -> (r: i64)
        ensures
            r == self.y,
    {
        self.y
    }

    pub fn z(&self) -> (r: i64)
        ensures
            r == self.z,
    {
        self.z
    }

    pub fn r(&self) -> (r: i64)
        ensures
            r == self.x,
    {
        self.x
    }

    pub fn g(&self) -> (r: i64)
        ensures
            r == self.y,
    {
        self.y
    }

    pub fn b(&self) -> (r: i64)
        ensures
            r == self.z,
    {
        self.z
    }

    /// Componentwise sum.
    pub fn add(self, other: Vec3) -> (r: Vec3)
        requires
            i64::MIN <= self.x + other.x <= i64::MAX,
            i64::MIN <= self.y + other.y <= i64::MAX,
            i64::MIN <= self.z + other.z <= i64::MAX,
        ensures
            r.x == self.x + other.x,
            r.y == self.y + other.y,
            r.z == self.z + other.z,
    {
        Vec3 { x: self.x + other.x, y: self.y + other.y, z: self.z + other.z }
    }

    /// Componentwise sum in place.
    pub fn add_assign(&mut self, other: Vec3)
        requires
            i64::MIN <= old(self).x + other.x <= i64::MAX,
            i64::MIN <= old(self).y + other.y <= i64::MAX,
            i64::MIN <= old(self).z + other.z <= i64::MAX,
        ensures
            final(self).x == old(self).x + other.x,
            final(self).y == old(self).y + other.y,
            final(self).z == old(self).z + other.z,
    {
        *self = Vec3 {
            x: self.x + other.x,
            y: self.y + other.y,
            z: self.z + other.z,
        };
    }

    /// Componentwise difference.
    pub fn sub(self, other: Vec3) -> (r: Vec3)
        requires
            i64::MIN <= self.x - other.x <= i64::MAX,
            i64::MIN <= self.y - other.y <= i64::MAX,
            i64::MIN <= self.z - other.z <= i64::MAX,
        ensures
            r.x == self.x - other.x,
            r.y == self.y - other.y,
            r.z == self.z - other.z,
    {
        Vec3 { x: self.x - other.x, y: self.y - other.y, z: self.z - other.z }
    }

    /// Componentwise fixed-point product, as used to attenuate a color.
    pub fn mul(self, other: Vec3) -> (r: Vec3)
        requires
            i64::MIN <= fxmul(self.x as int, other.x as int) <= i64::MAX,
            i64::MIN <= fxmul(self.y as int, other.y as int) <= i64::MAX,
            i64::MIN <= fxmul(self.z as int, other.z as int) <= i64::MAX,
        ensures
            r.x == fxmul(self.x as int, other.x as int),
            r.y == fxmul(self.y as int, other.y as int),
            r.z == fxmul(self.z as int, other.z as int),
    {
        Vec3 {
            x: fx_mul(self.x, other.x),
            y: fx_mul(self.y, other.y),
            z: fx_mul(self.z, other.z),
        }
    }

    /// Componentwise negation.
    pub fn neg(self) -> (r: Vec3)
        requires
            self.x != i64::MIN,
            self.y != i64::MIN,
            self.z != i64::MIN,
        ensures
            r.x == -self.x,
            r.y == -self.y,
            r.z == -self.z,
    {
        Vec3 { x: -self.x, y: -self.y, z: -self.z }
    }

    /// The fixed-point squared length.
    pub fn squared_length(&self) -> (r: i64)
        requires
            bounded3(*self, RAY_BOUND as int),
        ensures
            r == tdiv(sqlraw(*self), SCALE as int),
    {
        proof {
            lemma_mul_bounds(self.x as int, self.x as int, RAY_BOUND as int, RAY_BOUND as int);
            lemma_mul_bounds(self.y as int, self.y as int, RAY_BOUND as int, RAY_BOUND as int);
            lemma_mul_bounds(self.z as int, self.z as int, RAY_BOUND as int, RAY_BOUND as int);
        }
        let p: i128 = (self.x as i128) * (self.x as i128) + (self.y as i128) * (self.y as i128)
            + (self.z as i128) * (self.z as i128);
        proof {
            lemma_tdiv_bounded(p as int, SCALE as int, 0x10_0000_0000_0000int);
        }
        let q: i128 = p / (SCALE as i128);
        q as i64
    }

    /// The fixed-point length.
    pub fn length(&self) -> (r: i64)
        requires
            bounded3(*self, RAY_BOUND as int),
        ensures
            r == spec_len(*self),
            r >= 0,
    {
        proof {
            lemma_mul_bounds(self.x as int, self.x as int, RAY_BOUND as int, RAY_BOUND as int);
            lemma_mul_bounds(self.y as int, self.y as int, RAY_BOUND as int, RAY_BOUND as int);
            lemma_mul_bounds(self.z as int, self.z as int, RAY_BOUND as int, RAY_BOUND as int);
            lemma_sqlraw_bounds(*self);
        }
        let p: i128 = (self.x as i128) * (self.x as i128) + (self.y as i128) * (self.y as i128)
            + (self.z as i128) * (self.z as i128);
        let r = isqrt(p as u128);
        proof {
            lemma_sqrt_upper(p as int, 0x100_0000_0000int);
        }
        r as i64
    }

    /// Scale every component by a fixed-point factor.
    pub fn scalar_mul(&self, scalar: i64) -> (r: Vec3)
        requires
            i64::MIN <= fxmul(self.x as int, scalar as int) <= i64::MAX,
            i64::MIN <= fxmul(self.y as int, scalar as int) <= i64::MAX,
            i64::MIN <= fxmul(self.z as int, scalar as int) <= i64::MAX,
        ensures
            r.x == fxmul(self.x as int, scalar as int),
            r.y == fxmul(self.y as int, scalar as int),
            r.z == fxmul(self.z as int, scalar as int),
    {
        Vec3 {
            x: fx_mul(self.x, scalar),
            y: fx_mul(self.y, scalar),
            z: fx_mul(self.z, scalar),
        }
    }

    /// Divide every component by the length, giving a vector of length
    /// one whole unit up to rounding. Every component of the result is
    /// at most one whole unit in magnitude.
    pub fn normalize(&self) -> (r: Vec3)
        requires
            bounded3(*self, RAY_BOUND as int),
            !(self.x == 0 && self.y == 0 && self.z == 0),
        ensures
            r == spec_unit(*self),
            bounded3(r, SCALE as int),
    {
        proof {
            lemma_len_dominates(*self);
        }
        let len: i64 = self.length();
        proof {
            lemma_div_stays_bounded(self.x as int, len as int);
            lemma_div_stays_bounded(self.y as int, len as int);
            lemma_div_stays_bounded(self.z as int, len as int);
        }
        Vec3 {
            x: fx_div(self.x, len),
            y: fx_div(self.y, len),
            z: fx_div(self.z, len),
        }
    }

    /// The fixed-point inner product.
    pub fn dot(&self, other: &Vec3) -> (r: i64)
        requires
            bounded3(*self, RAY_BOUND as int),
            bounded3(*other, RAY_BOUND as int),
        ensures
            r == spec_dot(*self, *other),
    {
        proof {
            lemma_mul_bounds(self.x as int, other.x as int, RAY_BOUND as int, RAY_BOUND as int);
            lemma_mul_bounds(self.y as int, other.y as int, RAY_BOUND as int, RAY_BOUND as int);
            lemma_mul_bounds(self.z as int, other.z as int, RAY_BOUND as int, RAY_BOUND as int);
        }
        let p: i128 = (self.x as i128) * (other.x as i128) + (self.y as i128) * (other.y as i128)
            + (self.z as i128) * (other.z as i128);
        proof {
            lemma_tdiv_bounded(p as int, SCALE as int, 0x10_0000_0000_0000int);
        }
        let q: i128 = p / (SCALE as i128);
        q as i64
    }

    /// The fixed-point cross product.
    pub fn cross(&self, other: &Vec3) -> (r: Vec3)
        requires
            bounded3(*self, RAY_BOUND as int),
            bounded3(*other, RAY_BOUND as int),
        ensures
            r.x == fxmul(self.y as int, other.z as int) - fxmul(self.z as int, other.y as int),
            r.y == fxmul(self.z as int, other.x as int) - fxmul(self.x as int, other.z as int),
            r.z == fxmul(self.x as int, other.y as int) - fxmul(self.y as int, other.x as int),
    {
        proof {
            lemma_fxmul_stays_bounded(self.x as int, other.x as int);
            lemma_fxmul_stays_bounded(self.x as int, other.y as int);
            lemma_fxmul_stays_bounded(self.x as int, other.z as int);
            lemma_fxmul_stays_bounded(self.y as int, other.x as int);
            lemma_fxmul_stays_bounded(self.y as int, other.y as int);
            lemma_fxmul_stays_bounded(self.y as int, other.z as int);
            lemma_fxmul_stays_bounded(self.z as int, other.x as int);
            lemma_fxmul_stays_bounded(self.z as int, other.y as int);
            lemma_fxmul_stays_bounded(self.z as int, other.z as int);
        }
        Vec3 {
            x: fx_mul(self.y, other.z) - fx_mul(self.z, other.y),
            y: fx_mul(self.z, other.x) - fx_mul(self.x, other.z),
            z: fx_mul(self.x, other.y) - fx_mul(self.y, other.x),
        }
    }

    /// Linear interpolation from `self` (at `t == 0`) to `other` (at
    /// `t == SCALE`).
    pub fn lerp(&self, other: &Vec3, t: i64) -> (r: Vec3)
        requires
            bounded3(*self, RAY_BOUND as int),
            bounded3(*other, RAY_BOUND as int),
            0 <= t <= SCALE,
        ensures
            r.x == fxmul(self.x as int, (SCALE - t) as int) + fxmul(other.x as int, t as int),
            r.y == fxmul(self.y as int, (SCALE - t) as int) + fxmul(other.y as int, t as int),
            r.z == fxmul(self.z as int, (SCALE - t) as int) + fxmul(other.z as int, t as int),
    {
        proof {
            lemma_lerp_term_bounded(self.x as int, (SCALE - t) as int);
            lemma_lerp_term_bounded(self.y as int, (SCALE - t) as int);
            lemma_lerp_term_bounded(self.z as int, (SCALE - t) as int);
            lemma_lerp_term_bounded(other.x as int, t as int);
            lemma_lerp_term_bounded(other.y as int, t as int);
            lemma_lerp_term_bounded(other.z as int, t as int);
        }
        let a = self.scalar_mul(SCALE - t);
        let b = other.scalar_mul(t);
        a.add(b)
    }

    /// The components as an array.
    pub fn data(&self) -> (r: [i64; 3])
        ensures
            r@[0] == self.x,
            r@[1] == self.y,
            r@[2] == self.z,
    {
        [self.x, self.y, self.z]
    }

    /// The componentwise sum of a collection of vectors.
    pub fn sum(vs: &Vec<Vec3>) -> (r: Vec3)
        requires
            forall|i: int| 0 <= i < vs@.len() ==> bounded3(vs@[i], RAY_BOUND as int),
            vs@.len() <= 0x1000_0000,
        ensures
            r.x == sum_x(vs@),
            r.y == sum_y(vs@),
            r.z == sum_z(vs@),
    {
        let mut acc = Vec3 { x: 0, y: 0, z: 0 };
        let mut i: usize = 0;
        proof {
            assert(vs@.take(0int) =~= Seq::<Vec3>::empty());
        }
        while i < vs.len()
            invariant
                0 <= i <= vs@.len(),
                vs@.len() <= 0x1000_0000,
                forall|j: int| 0 <= j < vs@.len() ==> bounded3(vs@[j], RAY_BOUND as int),
                acc.x == sum_x(vs@.take(i as int)),
                acc.y == sum_y(vs@.take(i as int)),
                acc.z == sum_z(vs@.take(i as int)),
            decreases vs@.len() - i,
        {
            proof {
                lemma_sum_bounded(vs@.take(i as int), RAY_BOUND as int);
                assert(vs@.take(i as int + 1).drop_last() =~= vs@.take(i as int));
            }
            let v = vs[i];
            acc = acc.add(v);
            i = i + 1;
        }
        proof {
            assert(vs@.take(vs@.len() as int) =~= vs@);
        }
        acc
    }
}

/// The sum of the first components of a sequence of vectors.
pub open spec fn sum_x(s: Seq<Vec3>) -> int
    decreases s.len(),
{
    if s.len() == 0 {
        0
    } else {
        sum_x(s.drop_last()) + s.last().x
    }
}

/// The sum of the second components of a sequence of vectors.
pub open spec fn sum_y(s: Seq<Vec3>) -> int
    decreases s.len(),
{
    if s.len() == 0 {
        0
    } else {
        sum_y(s.drop_last()) + s.last().y
    }
}

/// The sum of the third components of a sequence of vectors.
pub open spec fn sum_z(s: Seq<Vec3>) -> int
    decreases s.len(),
{
    if s.len() == 0 {
        0
    } else {
        sum_z(s.drop_last()) + s.last().z
    }
}

/// A sum of boundedly many bounded vectors stays within `i64` range.
proof fn lemma_sum_bounded(s: Seq<Vec3>, b: int)
    requires
        b >= 0,
        forall|i: int| 0 <= i < s.len() ==> bounded3(s[i], b),
    ensures
        -(s.len() * b) <= sum_x(s) <= s.len() * b,
        -(s.len() * b) <= sum_y(s) <= s.len() * b,
        -(s.len() * b) <= sum_z(s) <= s.len() * b,
    decreases s.len(),
{
    if s.len() == 0 {
    } else {
        lemma_sum_bounded(s.drop_last(), b);
        assert(bounded3(s.last(), b));
        assert((s.len() - 1) * b + b == s.len() * b) by (nonlinear_arith) {}
        assert(-((s.len() - 1) * b) - b == -(s.len() * b)) by (nonlinear_arith) {}
    }
}

/// Dividing a component by a length that dominates it keeps it within
/// one whole unit.
proof fn lemma_div_stays_bounded(c: int, len: int)
    requires
        len >= 1,
        -len <= c <= len,
    ensures
        -(SCALE as int) <= fxdiv(c, len) <= SCALE as int,
{
    lemma_mul_bounds(c, SCALE as int, len, SCALE as int);
    assert(len * SCALE == SCALE * len) by (nonlinear_arith) {}
    lemma_tdiv_bounded(c * SCALE, len, SCALE as int);
}

/// A fixed-point product of two in-range factors stays in `i64` range.
proof fn lemma_fxmul_stays_bounded(a: int, b: int)
    requires
        -(RAY_BOUND as int) <= a <= RAY_BOUND as int,
        -(RAY_BOUND as int) <= b <= RAY_BOUND as int,
    ensures
        -0x4_0000_0000_0000int <= fxmul(a, b) <= 0x4_0000_0000_0000int,
{
    lemma_mul_bounds(a, b, RAY_BOUND as int, RAY_BOUND as int);
    assert(RAY_BOUND as int * RAY_BOUND == 0x4_0000_0000_0000int * SCALE) by (nonlinear_arith) {}
    lemma_tdiv_bounded(a * b, SCALE as int, 0x4_0000_0000_0000int);
}

/// Scaling by a factor of at most one whole unit cannot grow a
/// component.
proof fn lemma_lerp_term_bounded(c: int, t: int)
    requires
        -(RAY_BOUND as int) <= c <= RAY_BOUND as int,
        0 <= t <= SCALE,
    ensures
        -(RAY_BOUND as int) <= fxmul(c, t) <= RAY_BOUND as int,
{
    lemma_mul_bounds(c, t, RAY_BOUND as int, SCALE as int);
    assert(RAY_BOUND as int * SCALE == SCALE as int * RAY_BOUND) by (nonlinear_arith) {}
    lemma_tdiv_bounded(c * t, SCALE as int, RAY_BOUND as int);
}

} // verus!
