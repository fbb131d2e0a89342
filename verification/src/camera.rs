//! The camera: a basis built from the view parameters, and the
//! stochastic ray generation with defocus blur and motion blur.

use vstd::prelude::*;
use crate::fixed::{
    SCALE, GEOM_BOUND, fxmul,
    lemma_mul_bounds, lemma_tdiv_bounded, lemma_fxmul_frac, fx_mul,
};
use crate::vec3::{
    Vec3, bounded3, spec_unit, vadd3, vsub3, vscale3, vcross3,
};
use crate::ray::{Ray, ray_in_range};
use crate::utils::{in_unit_disk, random_in_unit_disk, random_unit_scalar};

verus! {

/// A camera: the image-plane frame and lens data that ray generation
/// samples from. Built once; immutable afterwards.
pub struct Camera {
    pub origin: Vec3,
    pub lower_left_corner: Vec3,
    pub horizontal: Vec3,
    pub vertical: Vec3,
    pub u: Vec3,
    pub v: Vec3,
    pub w: Vec3,
    pub lens_radius: i64,
    pub open_time: i64,
    pub close_time: i64,
}

/// The ranges a constructed camera's fields keep; they make every ray
/// it generates fall within the query ranges.
pub open spec fn camera_wf(c: Camera) -> bool {
    &&& bounded3(c.origin, GEOM_BOUND as int)
    &&& bounded3(c.lower_left_corner, 0x9000_0000int)
    &&& bounded3(c.horizontal, 0x9000_0000int)
    &&& bounded3(c.vertical, 0x9000_0000int)
    &&& bounded3(c.u, SCALE as int)
    &&& bounded3(c.v, 0x4_0000int)
    &&& bounded3(c.w, SCALE as int)
    &&& 0 <= c.lens_radius <= 0x8_0000
    &&& -(GEOM_BOUND as int) <= c.open_time <= c.close_time <= GEOM_BOUND as int
}

/// The camera the view parameters determine: the orthonormal-up-to-
/// rounding basis `u`, `v`, `w`, and the image plane at the focus
/// distance, spanning `half_height` of the field of view vertically
/// and `aspect` times that horizontally.
pub open spec fn spec_camera(
    look_from: Vec3,
    look_at: Vec3,
    v_up: Vec3,
    half_height: i64,
    aspect: i64,
    aperture: i64,
    focus_dist: i64,
    open_time: i64,
    close_time: i64,
) -> Camera {
    let w = spec_unit(vsub3(look_from, look_at));
    let u = spec_unit(vcross3(v_up, w));
    let v = vcross3(w, u);
    let half_width = fxmul(aspect as int, half_height as int);
    let fhw = fxmul(focus_dist as int, half_width);
    let fhh = fxmul(focus_dist as int, half_height as int);
    Camera {
        lower_left_corner: Vec3 {
            x: (look_from.x - fxmul(u.x as int, fhw) - fxmul(v.x as int, fhh) - fxmul(
                w.x as int, focus_dist as int)) as i64,
            y: (look_from.y - fxmul(u.y as int, fhw) - fxmul(v.y as int, fhh) - fxmul(
                w.y as int, focus_dist as int)) as i64,
            z: (look_from.z - fxmul(u.z as int, fhw) - fxmul(v.z as int, fhh) - fxmul(
                w.z as int, focus_dist as int)) as i64,
        },
        horizontal: vscale3(u, 2 * fhw),
        vertical: vscale3(v, 2 * fhh),
        origin: look_from,
        u,
        v,
        w,
        lens_radius: (aperture / 2) as i64,
        open_time,
        close_time,
    }
}

/// The ray one sample determines, given the lens-disk point `rd` and
/// the shutter scalar `q` the sampler drew: the origin offset within
/// the lens, the direction toward the image-plane point `(s, t)`, and
/// a time interpolated across the exposure.
pub open spec fn spec_get_ray(c: Camera, s: int, t: int, rd: Vec3, q: i64) -> Ray {
    let rds = vscale3(rd, c.lens_radius as int);
    let offset = vadd3(vscale3(c.u, rds.x as int), vscale3(c.v, rds.y as int));
    let time = (c.open_time + fxmul(q as int, c.close_time - c.open_time)) as i64;
    let dir = Vec3 {
        x: (c.lower_left_corner.x + fxmul(c.horizontal.x as int, s) + fxmul(
            c.vertical.x as int, t) - c.origin.x - offset.x) as i64,
        y: (c.lower_left_corner.y + fxmul(c.horizontal.y as int, s) + fxmul(
            c.vertical.y as int, t) - c.origin.y - offset.y) as i64,
        z: (c.lower_left_corner.z + fxmul(c.horizontal.z as int, s) + fxmul(
            c.vertical.z as int, t) - c.origin.z - offset.z) as i64,
    };
    Ray { origin: vadd3(c.origin, offset), dir, time }
}

impl Camera {
    /// Build a camera. The vertical extent of the image plane is
    /// given as `half_height`, the tangent of half the vertical field
    /// of view, which the caller computes; `aspect` widens it
    /// horizontally. The view direction and the up vector must not be
    /// degenerate.
    pub fn new(
        look_from: Vec3,
        look_at: Vec3,
        v_up: Vec3,
        half_height: i64,
        aspect: i64,
        aperture: i64,
        focus_dist: i64,
        open_time: i64,
        close_time: i64,
    ) -> (r: Camera)
        requires
            bounded3(look_from, GEOM_BOUND as int),
            bounded3(look_at, GEOM_BOUND as int),
            bounded3(v_up, GEOM_BOUND as int),
            0 <= half_height <= 0x8_0000,
            0 < aspect <= 0x8_0000,
            0 <= aperture <= 0x10_0000,
            0 < focus_dist <= 0x80_0000,
            -(GEOM_BOUND as int) <= open_time <= close_time <= GEOM_BOUND as int,
            look_from != look_at,
            vcross3(v_up, spec_unit(vsub3(look_from, look_at))) != (Vec3 { x: 0, y: 0, z: 0 }),
        ensures
            r == spec_camera(
                look_from, look_at, v_up, half_height, aspect, aperture, focus_dist,
                open_time, close_time),
            camera_wf(r),
    {
        let lens_radius: i64 = aperture / 2;
        let dirv = look_from.sub(look_at);
        let w = dirv.normalize();
        let cr = v_up.cross(&w);
        proof {
            lemma_scaled3(v_up, w.x as int, GEOM_BOUND as int, SCALE as int, GEOM_BOUND as int);
            lemma_scaled3(v_up, w.y as int, GEOM_BOUND as int, SCALE as int, GEOM_BOUND as int);
            lemma_scaled3(v_up, w.z as int, GEOM_BOUND as int, SCALE as int, GEOM_BOUND as int);
        }
        let u = cr.normalize();
        let v = w.cross(&u);
        proof {
            lemma_scaled3(w, u.x as int, SCALE as int, SCALE as int, SCALE as int);
            lemma_scaled3(w, u.y as int, SCALE as int, SCALE as int, SCALE as int);
            lemma_scaled3(w, u.z as int, SCALE as int, SCALE as int, SCALE as int);
        }
        proof {
            lemma_mul_bounds(aspect as int, half_height as int, 0x8_0000int, 0x8_0000int);
            lemma_tdiv_bounded(aspect as int * half_height, SCALE as int, 0x40_0000int);
        }
        let half_width: i64 = fx_mul(aspect, half_height);
        proof {
            lemma_mul_bounds(focus_dist as int, half_width as int, 0x80_0000int, 0x40_0000int);
            lemma_tdiv_bounded(focus_dist as int * half_width, SCALE as int, 0x2000_0000int);
            lemma_mul_bounds(focus_dist as int, half_height as int, 0x80_0000int, 0x8_0000int);
            lemma_tdiv_bounded(focus_dist as int * half_height, SCALE as int, 0x400_0000int);
        }
        let fhw: i64 = fx_mul(focus_dist, half_width);
        let fhh: i64 = fx_mul(focus_dist, half_height);
        proof {
            lemma_scaled3(u, fhw as int, SCALE as int, 0x2000_0000int, 0x2000_0000int);
            lemma_scaled3(u, 2 * fhw as int, SCALE as int, 0x4000_0000int, 0x4000_0000int);
            lemma_scaled3(v, fhh as int, 0x4_0000int, 0x400_0000int, 0x1000_0000int);
            lemma_scaled3(v, 2 * fhh as int, 0x4_0000int, 0x800_0000int, 0x2000_0000int);
            lemma_scaled3(w, focus_dist as int, SCALE as int, 0x80_0000int, 0x80_0000int);
        }
        let uf = u.scalar_mul(fhw);
        let vf = v.scalar_mul(fhh);
        let wf = w.scalar_mul(focus_dist);
        let lower_left_corner = look_from.sub(uf).sub(vf).sub(wf);
        let horizontal = u.scalar_mul(2 * fhw);
        let vertical = v.scalar_mul(2 * fhh);
        Camera {
            lower_left_corner,
            horizontal,
            vertical,
            origin: look_from,
            u,
            v,
            w,
            lens_radius,
            open_time,
            close_time,
        }
    }

    /// Generate the ray of one sample through normalized image
    /// coordinates `(s, t)`, with a random lens offset and a random
    /// time within the exposure.
    pub fn get_ray(&self, s: i64, t: i64) -> (r: Ray)
        requires
            camera_wf(*self),
            0 <= s <= SCALE,
            0 <= t <= SCALE,
        ensures
            exists|rd: Vec3, q: i64|
                in_unit_disk(rd) && 0 <= q < SCALE && r == #[trigger] spec_get_ray(
                    *self, s as int, t as int, rd, q),
            ray_in_range(r),
            self.open_time <= r.time <= self.close_time,
    {
        let rd = random_in_unit_disk();
        proof {
            lemma_scaled3(rd, self.lens_radius as int, SCALE as int, 0x8_0000int, 0x8_0000int);
        }
        let rds = rd.scalar_mul(self.lens_radius);
        proof {
            lemma_scaled3(self.u, rds.x as int, SCALE as int, 0x8_0000int, 0x8_0000int);
            lemma_scaled3(self.v, rds.y as int, 0x4_0000int, 0x8_0000int, 0x20_0000int);
        }
        let offset = self.u.scalar_mul(rds.x()).add(self.v.scalar_mul(rds.y()));
        let q = random_unit_scalar();
        proof {
            lemma_fxmul_frac(q as int, (self.close_time - self.open_time) as int);
        }
        let time = self.open_time + fx_mul(q, self.close_time - self.open_time);
        proof {
            lemma_scaled3(self.horizontal, s as int, 0x9000_0000int, SCALE as int, 0x9000_0000int);
            lemma_scaled3(self.vertical, t as int, 0x9000_0000int, SCALE as int, 0x9000_0000int);
        }
        let hs = self.horizontal.scalar_mul(s);
        let vt = self.vertical.scalar_mul(t);
        let dir = self.lower_left_corner.add(hs).add(vt).sub(self.origin).sub(offset);
        let r = Ray::new_at_time(self.origin.add(offset), dir, time);
        proof {
            assert(in_unit_disk(rd) && 0 <= q < SCALE && r == spec_get_ray(
                *self, s as int, t as int, rd, q));
        }
        r
    }
}

/// A vector with components within `cu`, scaled in fixed point by a
/// factor within `cf`, keeps its components within `cr`, provided
/// `cu * cf <= cr * SCALE`.
proof fn lemma_scaled3(u: Vec3, f: int, cu: int, cf: int, cr: int)
    requires
        bounded3(u, cu),
        -cf <= f <= cf,
        0 <= cu,
        0 <= cf,
        0 <= cr,
        cu * cf <= cr * SCALE,
    ensures
        -cr <= fxmul(u.x as int, f) <= cr,
        -cr <= fxmul(u.y as int, f) <= cr,
        -cr <= fxmul(u.z as int, f) <= cr,
{
    lemma_mul_bounds(u.x as int, f, cu, cf);
    lemma_mul_bounds(u.y as int, f, cu, cf);
    lemma_mul_bounds(u.z as int, f, cu, cf);
    lemma_tdiv_bounded(u.x as int * f, SCALE as int, cr);
    lemma_tdiv_bounded(u.y as int * f, SCALE as int, cr);
    lemma_tdiv_bounded(u.z as int * f, SCALE as int, cr);
}

} // verus!
