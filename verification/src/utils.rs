//! Sampling helpers and the optical formulas shared by the materials:
//! mirror reflection, refraction, and the Schlick reflectance
//! approximation.

use vstd::prelude::*;
use crate::fixed::{
    SCALE, RAY_BOUND, NORM_BOUND, tdiv, fxmul, fxdiv, sqrt_floor,
    lemma_mul_bounds, lemma_tdiv_bounded, fx_mul, fx_div, fx_sqrt,
};
use crate::vec3::{Vec3, bounded3, sqlraw, spec_dot, spec_unit};

verus! {

/// Relies on rand::random: one draw of a uniformly distributed 32-bit
/// value from the thread-local generator.
#[verifier::external_body]
pub(crate) fn random_u32() -> u32 {
    rand::random()
}

/// A random fixed-point scalar in `[0, 1)`: the unit the stochastic
/// choices of the tracer are made in.
pub fn random_unit_scalar() -> (r: i64)
    ensures
        0 <= r < SCALE,
{
    (random_u32() % 65536) as i64
}

/// A vector strictly inside the unit ball, in the fixed-point sense of
/// the squared-length test the samplers use.
pub open spec fn in_unit_ball(v: Vec3) -> bool {
    &&& bounded3(v, SCALE as int)
    &&& tdiv(sqlraw(v), SCALE as int) < SCALE
}

/// Rejection-sample a point inside the unit ball. After a bounded
/// number of draws the sampler falls back to the center, which also
/// lies inside.
pub fn random_in_unit_sphere() -> (r: Vec3)
    ensures
        in_unit_ball(r),
{
    let mut tries: u32 = 0;
    while tries < 64
        invariant
            true,
        decreases 64 - tries,
    {
        let p = Vec3 {
            x: 2 * random_unit_scalar() - SCALE,
            y: 2 * random_unit_scalar() - SCALE,
            z: 2 * random_unit_scalar() - SCALE,
        };
        if p.squared_length() < SCALE {
            return p;
        }
        tries = tries + 1;
    }
    Vec3 { x: 0, y: 0, z: 0 }
}

/// A vector strictly inside the unit disk of the `x`-`y` plane, in the
/// fixed-point sense of the inner-product test the sampler uses.
pub open spec fn in_unit_disk(v: Vec3) -> bool {
    &&& bounded3(v, SCALE as int)
    &&& v.z == 0
    &&& spec_dot(v, v) < SCALE
}

/// Rejection-sample a point inside the unit disk, with the same
/// bounded fallback to the center.
pub fn random_in_unit_disk() -> (r: Vec3)
    ensures
        in_unit_disk(r),
{
    let mut tries: u32 = 0;
    while tries < 64
        invariant
            true,
        decreases 64 - tries,
    {
        let p = Vec3 {
            x: 2 * random_unit_scalar() - SCALE,
            y: 2 * random_unit_scalar() - SCALE,
            z: 0,
        };
        if p.dot(&p) < SCALE {
            return p;
        }
        tries = tries + 1;
    }
    Vec3 { x: 0, y: 0, z: 0 }
}

/// The mirror image of `v` against a surface of normal `n`:
/// `v - 2 (v . n) n`, componentwise in fixed point.
pub open spec fn spec_reflect(v: Vec3, n: Vec3) -> Vec3 {
    Vec3 {
        x: (v.x - fxmul(n.x as int, 2 * spec_dot(v, n))) as i64,
        y: (v.y - fxmul(n.y as int, 2 * spec_dot(v, n))) as i64,
        z: (v.z - fxmul(n.z as int, 2 * spec_dot(v, n))) as i64,
    }
}

/// Reflect a vector against a surface normal.
pub fn reflect(vector: &Vec3, normal: &Vec3) -> (r: Vec3)
    requires
        bounded3(*vector, RAY_BOUND as int),
        bounded3(*normal, NORM_BOUND as int),
    ensures
        r == spec_reflect(*vector, *normal),
        bounded3(*vector, 2 * SCALE as int) ==> bounded3(r, 0x80_0000int),
{
    proof {
        lemma_mul_bounds(vector.x as int, normal.x as int, RAY_BOUND as int, NORM_BOUND as int);
        lemma_mul_bounds(vector.y as int, normal.y as int, RAY_BOUND as int, NORM_BOUND as int);
        lemma_mul_bounds(vector.z as int, normal.z as int, RAY_BOUND as int, NORM_BOUND as int);
        lemma_tdiv_bounded(
            vector.x as int * normal.x + vector.y as int * normal.y + vector.z as int * normal.z,
            SCALE as int,
            0xC_0000_0000int,
        );
    }
    let dp: i64 = vector.dot(normal);
    let two_dp: i64 = 2 * dp;
    proof {
        lemma_mul_bounds(normal.x as int, two_dp as int, NORM_BOUND as int, 0x18_0000_0000int);
        lemma_mul_bounds(normal.y as int, two_dp as int, NORM_BOUND as int, 0x18_0000_0000int);
        lemma_mul_bounds(normal.z as int, two_dp as int, NORM_BOUND as int, 0x18_0000_0000int);
        lemma_tdiv_bounded(normal.x as int * two_dp, SCALE as int, 0x30_0000_0000int);
        lemma_tdiv_bounded(normal.y as int * two_dp, SCALE as int, 0x30_0000_0000int);
        lemma_tdiv_bounded(normal.z as int * two_dp, SCALE as int, 0x30_0000_0000int);
        if bounded3(*vector, 2 * SCALE as int) {
            lemma_mul_bounds(
                vector.x as int, normal.x as int, 2 * SCALE as int, NORM_BOUND as int);
            lemma_mul_bounds(
                vector.y as int, normal.y as int, 2 * SCALE as int, NORM_BOUND as int);
            lemma_mul_bounds(
                vector.z as int, normal.z as int, 2 * SCALE as int, NORM_BOUND as int);
            lemma_tdiv_bounded(
                vector.x as int * normal.x + vector.y as int * normal.y
                    + vector.z as int * normal.z,
                SCALE as int,
                0xC_0000int,
            );
            lemma_mul_bounds(normal.x as int, two_dp as int, NORM_BOUND as int, 0x18_0000int);
            lemma_mul_bounds(normal.y as int, two_dp as int, NORM_BOUND as int, 0x18_0000int);
            lemma_mul_bounds(normal.z as int, two_dp as int, NORM_BOUND as int, 0x18_0000int);
            lemma_tdiv_bounded(normal.x as int * two_dp, SCALE as int, 0x30_0000int);
            lemma_tdiv_bounded(normal.y as int * two_dp, SCALE as int, 0x30_0000int);
            lemma_tdiv_bounded(normal.z as int * two_dp, SCALE as int, 0x30_0000int);
        }
    }
    let scaled = normal.scalar_mul(two_dp);
    vector.sub(scaled)
}

/// The refracted direction through a surface of normal `n` for a
/// relative index `ni_over_nt`, when Snell's law has a real solution:
/// `ni (u - (u . n) n) - sqrt(disc) n` for the unit incoming `u` and
/// `disc = 1 - ni^2 (1 - (u . n)^2)`; `None` on total internal
/// reflection.
pub open spec fn spec_refract(v: Vec3, n: Vec3, ni_over_nt: int) -> Option<Vec3> {
    let u = spec_unit(v);
    let dt = spec_dot(u, n);
    let disc = SCALE - fxmul(fxmul(ni_over_nt, ni_over_nt), SCALE - fxmul(dt, dt));
    if disc > 0 {
        let sq = sqrt_floor(disc * SCALE);
        Some(
            Vec3 {
                x: (fxmul(u.x - fxmul(n.x as int, dt), ni_over_nt) - fxmul(n.x as int, sq)) as i64,
                y: (fxmul(u.y - fxmul(n.y as int, dt), ni_over_nt) - fxmul(n.y as int, sq)) as i64,
                z: (fxmul(u.z - fxmul(n.z as int, dt), ni_over_nt) - fxmul(n.z as int, sq)) as i64,
            },
        )
    } else {
        None
    }
}

/// Refract a vector through a surface normal, if Snell's law allows.
pub fn refract(vector: &Vec3, normal: &Vec3, ni_over_nt: i64) -> (r: Option<Vec3>)
    requires
        bounded3(*vector, RAY_BOUND as int),
        !(vector.x == 0 && vector.y == 0 && vector.z == 0),
        bounded3(*normal, NORM_BOUND as int),
        0 <= ni_over_nt <= 0x10_0000,
    ensures
        r == spec_refract(*vector, *normal, ni_over_nt as int),
        r matches Some(w) ==> bounded3(w, 0x400_0000int),
{
    let u = vector.normalize();
    proof {
        lemma_mul_bounds(u.x as int, normal.x as int, SCALE as int, NORM_BOUND as int);
        lemma_mul_bounds(u.y as int, normal.y as int, SCALE as int, NORM_BOUND as int);
        lemma_mul_bounds(u.z as int, normal.z as int, SCALE as int, NORM_BOUND as int);
        lemma_tdiv_bounded(
            u.x as int * normal.x + u.y as int * normal.y + u.z as int * normal.z,
            SCALE as int,
            0x6_0000int,
        );
    }
    let dt: i64 = u.dot(normal);
    proof {
        lemma_mul_bounds(dt as int, dt as int, 0x6_0000int, 0x6_0000int);
        lemma_tdiv_bounded(dt as int * dt, SCALE as int, 0x24_0000int);
        lemma_mul_bounds(ni_over_nt as int, ni_over_nt as int, 0x10_0000int, 0x10_0000int);
        lemma_tdiv_bounded(ni_over_nt as int * ni_over_nt, SCALE as int, 0x100_0000int);
    }
    let dt2: i64 = fx_mul(dt, dt);
    let nn: i64 = fx_mul(ni_over_nt, ni_over_nt);
    proof {
        lemma_mul_bounds(nn as int, (SCALE - dt2) as int, 0x100_0000int, 0x25_0000int);
        lemma_tdiv_bounded(nn as int * (SCALE - dt2), SCALE as int, 0x2500_0000int);
    }
    let disc: i64 = SCALE - fx_mul(nn, SCALE - dt2);
    if disc > 0 {
        let sq: i64 = fx_sqrt(disc);
        proof {
            crate::fixed::lemma_sqrt_upper(disc as int * SCALE, 0x80_0000int);
            crate::fixed::lemma_sqrt_floor_bounds(disc as int * SCALE);
            lemma_mul_bounds(normal.x as int, dt as int, NORM_BOUND as int, 0x6_0000int);
            lemma_mul_bounds(normal.y as int, dt as int, NORM_BOUND as int, 0x6_0000int);
            lemma_mul_bounds(normal.z as int, dt as int, NORM_BOUND as int, 0x6_0000int);
            lemma_tdiv_bounded(normal.x as int * dt, SCALE as int, 0xC_0000int);
            lemma_tdiv_bounded(normal.y as int * dt, SCALE as int, 0xC_0000int);
            lemma_tdiv_bounded(normal.z as int * dt, SCALE as int, 0xC_0000int);
        }
        let wx: i64 = u.x - fx_mul(normal.x, dt);
        let wy: i64 = u.y - fx_mul(normal.y, dt);
        let wz: i64 = u.z - fx_mul(normal.z, dt);
        proof {
            lemma_mul_bounds(wx as int, ni_over_nt as int, 0xD_0000int, 0x10_0000int);
            lemma_mul_bounds(wy as int, ni_over_nt as int, 0xD_0000int, 0x10_0000int);
            lemma_mul_bounds(wz as int, ni_over_nt as int, 0xD_0000int, 0x10_0000int);
            lemma_tdiv_bounded(wx as int * ni_over_nt, SCALE as int, 0xD0_0000int);
            lemma_tdiv_bounded(wy as int * ni_over_nt, SCALE as int, 0xD0_0000int);
            lemma_tdiv_bounded(wz as int * ni_over_nt, SCALE as int, 0xD0_0000int);
            lemma_mul_bounds(normal.x as int, sq as int, NORM_BOUND as int, 0x80_0000int);
            lemma_mul_bounds(normal.y as int, sq as int, NORM_BOUND as int, 0x80_0000int);
            lemma_mul_bounds(normal.z as int, sq as int, NORM_BOUND as int, 0x80_0000int);
            lemma_tdiv_bounded(normal.x as int * sq, SCALE as int, 0x100_0000int);
            lemma_tdiv_bounded(normal.y as int * sq, SCALE as int, 0x100_0000int);
            lemma_tdiv_bounded(normal.z as int * sq, SCALE as int, 0x100_0000int);
        }
        let rx: i64 = fx_mul(wx, ni_over_nt) - fx_mul(normal.x, sq);
        let ry: i64 = fx_mul(wy, ni_over_nt) - fx_mul(normal.y, sq);
        let rz: i64 = fx_mul(wz, ni_over_nt) - fx_mul(normal.z, sq);
        Some(Vec3 { x: rx, y: ry, z: rz })
    } else {
        None
    }
}

/// Schlick's reflectance approximation:
/// `r0 + (1 - r0) (1 - cos)^5` with `r0 = ((1 - n) / (1 + n))^2`.
pub open spec fn spec_schlick(cosine: int, refractive_index: int) -> int {
    let r0 = fxdiv(SCALE - refractive_index, SCALE + refractive_index);
    let r1 = fxmul(r0, r0);
    let e = SCALE - cosine;
    let e2 = fxmul(e, e);
    let e4 = fxmul(e2, e2);
    let e5 = fxmul(e4, e);
    r1 + fxmul(SCALE - r1, e5)
}

/// The Schlick reflectance for a cosine of incidence and a refractive
/// index.
pub fn schlick(cosine: i64, refractive_index: i64) -> (r: i64)
    requires
        -0x2_0000 <= cosine <= 0x2_0000,
        SCALE / 4 <= refractive_index <= 16 * SCALE,
    ensures
        r == spec_schlick(cosine as int, refractive_index as int),
{
    proof {
        lemma_mul_bounds(
            (SCALE - refractive_index) as int, SCALE as int, 0xF_0000int, SCALE as int);
        lemma_tdiv_bounded(
            (SCALE - refractive_index) as int * SCALE, (SCALE + refractive_index) as int,
            0x10_0000int);
    }
    let r0: i64 = fx_div(SCALE - refractive_index, SCALE + refractive_index);
    proof {
        lemma_mul_bounds(r0 as int, r0 as int, 0x10_0000int, 0x10_0000int);
        lemma_tdiv_bounded(r0 as int * r0, SCALE as int, 0x100_0000int);
    }
    let r1: i64 = fx_mul(r0, r0);
    let e: i64 = SCALE - cosine;
    proof {
        lemma_mul_bounds(e as int, e as int, 0x3_0000int, 0x3_0000int);
        lemma_tdiv_bounded(e as int * e, SCALE as int, 0x9_0000int);
    }
    let e2: i64 = fx_mul(e, e);
    proof {
        lemma_mul_bounds(e2 as int, e2 as int, 0x9_0000int, 0x9_0000int);
        lemma_tdiv_bounded(e2 as int * e2, SCALE as int, 0x51_0000int);
    }
    let e4: i64 = fx_mul(e2, e2);
    proof {
        lemma_mul_bounds(e4 as int, e as int, 0x51_0000int, 0x3_0000int);
        lemma_tdiv_bounded(e4 as int * e, SCALE as int, 0xF3_0000int);
    }
    let e5: i64 = fx_mul(e4, e);
    proof {
        lemma_mul_bounds((SCALE - r1) as int, e5 as int, 0x101_0000int, 0xF3_0000int);
        lemma_tdiv_bounded((SCALE - r1) as int * e5, SCALE as int, 0xF3_F3_0000int);
    }
    r1 + fx_mul(SCALE - r1, e5)
}

} // verus!
