//! Spheres, still and moving, and their ray intersection: the solution
//! of the fixed-point quadratic, nearest root first.

use vstd::prelude::*;
use crate::fixed::{
    SCALE, GEOM_BOUND, POINT_BOUND, NORM_BOUND, tdiv, fxmul, fxdiv, sqrt_floor, iabs,
    lemma_mul_bounds, lemma_tdiv_bounded, lemma_sqrt_upper, lemma_sqrt_floor_bounds, isqrt,
};
use crate::vec3::{Vec3, bounded3};
use crate::ray::{Ray, ray_in_range};
use crate::bounding_box::BoundingBox;
use crate::material::Material;
use crate::object::{HitRecord, hit_props};

verus! {

/// A sphere at rest. A negative radius is legal: it flips the normal
/// inward, for hollow shells.
pub struct Sphere {
    pub center: Vec3,
    pub radius: i64,
    pub material: Material,
    pub bbox: BoundingBox,
}

/// A sphere whose center moves linearly from `start_center` to
/// `end_center` over the exposure window.
pub struct MovingSphere {
    pub start_center: Vec3,
    pub end_center: Vec3,
    pub radius: i64,
    pub start_time: i64,
    pub end_time: i64,
    pub material: Material,
    pub bbox: BoundingBox,
}

/// The geometric bounds a sphere keeps.
pub open spec fn sphere_geom_wf(center: Vec3, radius: i64) -> bool {
    &&& bounded3(center, GEOM_BOUND as int)
    &&& radius != 0
    &&& -(GEOM_BOUND as int) <= radius <= GEOM_BOUND as int
}

/// The geometric bounds a moving sphere keeps: both centers in range
/// and a forward-running time window.
pub open spec fn moving_geom_wf(m: MovingSphere) -> bool {
    &&& bounded3(m.start_center, GEOM_BOUND as int)
    &&& bounded3(m.end_center, GEOM_BOUND as int)
    &&& m.radius != 0
    &&& -(GEOM_BOUND as int) <= m.radius <= GEOM_BOUND as int
    &&& -(GEOM_BOUND as int) <= m.start_time < m.end_time <= GEOM_BOUND as int
}

/// Where a moving sphere's center is at a time: linear interpolation
/// between the two centers over the window, with the interpolation
/// factor saturated to the window's ends for times outside it.
pub open spec fn spec_moving_center(m: MovingSphere, time: int) -> Vec3 {
    let f0 = tdiv((time - m.start_time) * SCALE, m.end_time - m.start_time);
    let f = if f0 < 0 {
        0
    } else if f0 > SCALE {
        SCALE as int
    } else {
        f0
    };
    Vec3 {
        x: (m.start_center.x + fxmul(m.end_center.x - m.start_center.x, f)) as i64,
        y: (m.start_center.y + fxmul(m.end_center.y - m.start_center.y, f)) as i64,
        z: (m.start_center.z + fxmul(m.end_center.z - m.start_center.z, f)) as i64,
    }
}

/// The record a sphere intersection reports at parameter `t`: the hit
/// point `origin + t * direction` and the normal `(point - center) / radius`.
/// A hit whose computed point or normal falls outside the coordinate
/// ranges the tracer works in is abandoned.
pub open spec fn spec_sphere_record(
    center: Vec3,
    radius: i64,
    material: Material,
    ray: Ray,
    t: int,
) -> Option<HitRecord> {
    let px = ray.origin.x + fxmul(ray.dir.x as int, t);
    let py = ray.origin.y + fxmul(ray.dir.y as int, t);
    let pz = ray.origin.z + fxmul(ray.dir.z as int, t);
    let nx = fxdiv(px - center.x, radius as int);
    let ny = fxdiv(py - center.y, radius as int);
    let nz = fxdiv(pz - center.z, radius as int);
    if -(POINT_BOUND as int) <= px <= POINT_BOUND as int
        && -(POINT_BOUND as int) <= py <= POINT_BOUND as int
        && -(POINT_BOUND as int) <= pz <= POINT_BOUND as int
        && -(NORM_BOUND as int) <= nx <= NORM_BOUND as int
        && -(NORM_BOUND as int) <= ny <= NORM_BOUND as int
        && -(NORM_BOUND as int) <= nz <= NORM_BOUND as int {
        Some(
            HitRecord {
                t: t as i64,
                point: Vec3 { x: px as i64, y: py as i64, z: pz as i64 },
                normal: Vec3 { x: nx as i64, y: ny as i64, z: nz as i64 },
                material,
            },
        )
    } else {
        None
    }
}

/// The sphere intersection: solve `a t^2 + b t + c = 0`; on a positive
/// discriminant report the nearer root if it lies strictly inside the
/// window, else the farther one if it does, else nothing. A direction
/// whose squared length rounds to zero cannot be intersected.
pub open spec fn spec_sphere_hit(
    center: Vec3,
    radius: i64,
    material: Material,
    ray: Ray,
    t_min: int,
    t_max: int,
) -> Option<HitRecord> {
    let ocx = ray.origin.x - center.x;
    let ocy = ray.origin.y - center.y;
    let ocz = ray.origin.z - center.z;
    let dx = ray.dir.x as int;
    let dy = ray.dir.y as int;
    let dz = ray.dir.z as int;
    let a = tdiv(dx * dx + dy * dy + dz * dz, SCALE as int);
    if a <= 0 {
        None
    } else {
        let b = 2 * tdiv(ocx * dx + ocy * dy + ocz * dz, SCALE as int);
        let cc = tdiv(ocx * ocx + ocy * ocy + ocz * ocz, SCALE as int)
            - tdiv((radius as int) * (radius as int), SCALE as int);
        let disc = b * b - 4 * a * cc;
        if disc > 0 {
            let sq = sqrt_floor(disc);
            let tn = tdiv((-b - sq) * SCALE, 2 * a);
            if t_min < tn < t_max {
                spec_sphere_record(center, radius, material, ray, tn)
            } else {
                let tf = tdiv((-b + sq) * SCALE, 2 * a);
                if t_min < tf < t_max {
                    spec_sphere_record(center, radius, material, ray, tf)
                } else {
                    None
                }
            }
        } else {
            None
        }
    }
}

/// Build the record the specification names at parameter `t`.
fn hit_record_at(
    center: Vec3,
    radius: i64,
    material: &Material,
    ray: &Ray,
    t: i64,
) -> (r: Option<HitRecord>)
    requires
        bounded3(center, POINT_BOUND as int),
        radius != 0,
        -(GEOM_BOUND as int) <= radius <= GEOM_BOUND as int,
        ray_in_range(*ray),
    ensures
        r == spec_sphere_record(center, radius, *material, *ray, t as int),
        r matches Some(h) ==> {
            &&& bounded3(h.point, POINT_BOUND as int)
            &&& bounded3(h.normal, NORM_BOUND as int)
            &&& h.t == t
            &&& h.material == *material
        },
{
    proof {
        lemma_mul_bounds(
            ray.dir.x as int, t as int, 0x2_0000_0000int, 0x8000_0000_0000_0000int);
        lemma_mul_bounds(
            ray.dir.y as int, t as int, 0x2_0000_0000int, 0x8000_0000_0000_0000int);
        lemma_mul_bounds(
            ray.dir.z as int, t as int, 0x2_0000_0000int, 0x8000_0000_0000_0000int);
        lemma_tdiv_bounded(
            ray.dir.x as int * t, SCALE as int, 0x2_0000_0000_0000_0000_0000int);
        lemma_tdiv_bounded(
            ray.dir.y as int * t, SCALE as int, 0x2_0000_0000_0000_0000_0000int);
        lemma_tdiv_bounded(
            ray.dir.z as int * t, SCALE as int, 0x2_0000_0000_0000_0000_0000int);
    }
    let px: i128 = ray.origin.x as i128 + (ray.dir.x as i128) * (t as i128) / 65536;
    let py: i128 = ray.origin.y as i128 + (ray.dir.y as i128) * (t as i128) / 65536;
    let pz: i128 = ray.origin.z as i128 + (ray.dir.z as i128) * (t as i128) / 65536;
    let rad: i128 = if radius > 0 { radius as i128 } else { -(radius as i128) };
    let nx: i128 = if radius > 0 {
        (px - center.x as i128) * 65536 / rad
    } else {
        -((px - center.x as i128) * 65536 / rad)
    };
    let ny: i128 = if radius > 0 {
        (py - center.y as i128) * 65536 / rad
    } else {
        -((py - center.y as i128) * 65536 / rad)
    };
    let nz: i128 = if radius > 0 {
        (pz - center.z as i128) * 65536 / rad
    } else {
        -((pz - center.z as i128) * 65536 / rad)
    };
    if -(POINT_BOUND as i128) <= px && px <= POINT_BOUND as i128
        && -(POINT_BOUND as i128) <= py && py <= POINT_BOUND as i128
        && -(POINT_BOUND as i128) <= pz && pz <= POINT_BOUND as i128
        && -(NORM_BOUND as i128) <= nx && nx <= NORM_BOUND as i128
        && -(NORM_BOUND as i128) <= ny && ny <= NORM_BOUND as i128
        && -(NORM_BOUND as i128) <= nz && nz <= NORM_BOUND as i128 {
        Some(
            HitRecord {
                t,
                point: Vec3 { x: px as i64, y: py as i64, z: pz as i64 },
                normal: Vec3 { x: nx as i64, y: ny as i64, z: nz as i64 },
                material: *material,
            },
        )
    } else {
        None
    }
}

/// The quadratic intersection shared by both sphere kinds.
fn sphere_hit_core(
    center: Vec3,
    radius: i64,
    material: &Material,
    ray: &Ray,
    t_min: i64,
    t_max: i64,
) -> (r: Option<HitRecord>)
    requires
        bounded3(center, POINT_BOUND as int),
        radius != 0,
        -(GEOM_BOUND as int) <= radius <= GEOM_BOUND as int,
        ray_in_range(*ray),
    ensures
        r == spec_sphere_hit(center, radius, *material, *ray, t_min as int, t_max as int),
        r matches Some(h) ==> hit_props(h, *ray, t_min as int, t_max as int)
            && h.material == *material,
{
    let ocx: i128 = ray.origin.x as i128 - center.x as i128;
    let ocy: i128 = ray.origin.y as i128 - center.y as i128;
    let ocz: i128 = ray.origin.z as i128 - center.z as i128;
    let dx: i128 = ray.dir.x as i128;
    let dy: i128 = ray.dir.y as i128;
    let dz: i128 = ray.dir.z as i128;
    proof {
        lemma_mul_bounds(dx as int, dx as int, 0x2_0000_0000int, 0x2_0000_0000int);
        lemma_mul_bounds(dy as int, dy as int, 0x2_0000_0000int, 0x2_0000_0000int);
        lemma_mul_bounds(dz as int, dz as int, 0x2_0000_0000int, 0x2_0000_0000int);
        lemma_mul_bounds(ocx as int, dx as int, 0x3_0000_0000int, 0x2_0000_0000int);
        lemma_mul_bounds(ocy as int, dy as int, 0x3_0000_0000int, 0x2_0000_0000int);
        lemma_mul_bounds(ocz as int, dz as int, 0x3_0000_0000int, 0x2_0000_0000int);
        lemma_mul_bounds(ocx as int, ocx as int, 0x3_0000_0000int, 0x3_0000_0000int);
        lemma_mul_bounds(ocy as int, ocy as int, 0x3_0000_0000int, 0x3_0000_0000int);
        lemma_mul_bounds(ocz as int, ocz as int, 0x3_0000_0000int, 0x3_0000_0000int);
        lemma_mul_bounds(radius as int, radius as int, GEOM_BOUND as int, GEOM_BOUND as int);
        lemma_tdiv_bounded(
            dx as int * dx + dy as int * dy + dz as int * dz,
            SCALE as int,
            0xC_0000_0000_0000int,
        );
        lemma_tdiv_bounded(
            ocx as int * dx + ocy as int * dy + ocz as int * dz,
            SCALE as int,
            0x12_0000_0000_0000int,
        );
        lemma_tdiv_bounded(
            ocx as int * ocx + ocy as int * ocy + ocz as int * ocz,
            SCALE as int,
            0x1B_0000_0000_0000int,
        );
        lemma_tdiv_bounded(
            radius as int * radius,
            SCALE as int,
            0x4000_0000_0000int,
        );
    }
    let a: i128 = (dx * dx + dy * dy + dz * dz) / 65536;
    if a <= 0 {
        return None;
    }
    let b: i128 = 2 * ((ocx * dx + ocy * dy + ocz * dz) / 65536);
    let cc: i128 = (ocx * ocx + ocy * ocy + ocz * ocz) / 65536
        - (radius as i128) * (radius as i128) / 65536;
    proof {
        assert(-0x24_0000_0000_0000 <= b as int <= 0x24_0000_0000_0000int);
        assert(-0xC_0000_0000_0000 <= a as int <= 0xC_0000_0000_0000int);
        assert(-0x1F_4000_0000_0000 <= cc as int <= 0x1F_4000_0000_0000int);
        lemma_mul_bounds(b as int, b as int, 0x24_0000_0000_0000int, 0x24_0000_0000_0000int);
        lemma_mul_bounds(
            4 * a as int, cc as int, 0x30_0000_0000_0000int, 0x1F_4000_0000_0000int);
    }
    let disc: i128 = b * b - 4 * a * cc;
    if disc > 0 {
        let sqw = isqrt(disc as u128);
        proof {
            lemma_sqrt_upper(disc as int, 0x100_0000_0000_0000_0000int);
            lemma_sqrt_floor_bounds(disc as int);
        }
        let sq: i128 = sqw as i128;
        let denom: i128 = 2 * a;
        let tn: i128 = (-b - sq) * 65536 / denom;
        if (t_min as i128) < tn && tn < t_max as i128 {
            return hit_record_at(center, radius, material, ray, tn as i64);
        }
        let tf: i128 = (-b + sq) * 65536 / denom;
        if (t_min as i128) < tf && tf < t_max as i128 {
            return hit_record_at(center, radius, material, ray, tf as i64);
        }
        return None;
    }
    None
}

impl Sphere {
    /// A sphere with its cached bounding box `center +- |radius|` on
    /// every axis: a hollow shell's negative radius flips its normals,
    /// not its box.
    pub fn new(center: Vec3, radius: i64, material: Material) -> (r: Sphere)
        requires
            sphere_geom_wf(center, radius),
        ensures
            r.center == center,
            r.radius == radius,
            r.material == material,
            r.bbox.min.x == center.x - iabs(radius as int),
            r.bbox.min.y == center.y - iabs(radius as int),
            r.bbox.min.z == center.z - iabs(radius as int),
            r.bbox.max.x == center.x + iabs(radius as int),
            r.bbox.max.y == center.y + iabs(radius as int),
            r.bbox.max.z == center.z + iabs(radius as int),
    {
        let ar: i64 = if radius < 0 {
            -radius
        } else {
            radius
        };
        let rv = Vec3 { x: ar, y: ar, z: ar };
        let bbox = BoundingBox::new(center.sub(rv), center.add(rv));
        Sphere { center, radius, material, bbox }
    }

    /// Intersect a ray with the sphere.
    pub fn hit(&self, ray: &Ray, t_min: i64, t_max: i64) -> (r: Option<HitRecord>)
        requires
            sphere_geom_wf(self.center, self.radius),
            ray_in_range(*ray),
        ensures
            r == spec_sphere_hit(
                self.center, self.radius, self.material, *ray, t_min as int, t_max as int),
            r matches Some(h) ==> hit_props(h, *ray, t_min as int, t_max as int)
                && h.material == self.material,
    {
        sphere_hit_core(self.center, self.radius, &self.material, ray, t_min, t_max)
    }

    /// The cached bounding box.
    pub fn bounding_box(&self) -> (r: Option<&BoundingBox>)
        ensures
            r.is_some(),
            r matches Some(b) ==> *b == self.bbox,
    {
        Some(&self.bbox)
    }
}

impl MovingSphere {
    /// A moving sphere with its cached bounding box: the union of the
    /// boxes around the start and end positions, sized by the
    /// radius's magnitude.
    pub fn new(
        start_center: Vec3,
        end_center: Vec3,
        radius: i64,
        start_time: i64,
        end_time: i64,
        material: Material,
    ) -> (r: MovingSphere)
        requires
            bounded3(start_center, GEOM_BOUND as int),
            bounded3(end_center, GEOM_BOUND as int),
            radius != 0,
            -(GEOM_BOUND as int) <= radius <= GEOM_BOUND as int,
            -(GEOM_BOUND as int) <= start_time < end_time <= GEOM_BOUND as int,
        ensures
            r.start_center == start_center,
            r.end_center == end_center,
            r.radius == radius,
            r.start_time == start_time,
            r.end_time == end_time,
            r.material == material,
            moving_geom_wf(r),
            r.bbox == spec_moving_bbox(start_center, end_center, radius),
    {
        let ar: i64 = if radius < 0 {
            -radius
        } else {
            radius
        };
        let rv = Vec3 { x: ar, y: ar, z: ar };
        let b0 = BoundingBox::new(start_center.sub(rv), start_center.add(rv));
        let b1 = BoundingBox::new(end_center.sub(rv), end_center.add(rv));
        let bbox = BoundingBox::containing_box(&b0, &b1);
        MovingSphere {
            start_center,
            end_center,
            radius,
            start_time,
            end_time,
            material,
            bbox,
        }
    }

    /// Where the center is at a moment of the exposure.
    pub fn center(&self, time: i64) -> (r: Vec3)
        requires
            moving_geom_wf(*self),
            -(GEOM_BOUND as int) <= time <= GEOM_BOUND as int,
        ensures
            r == spec_moving_center(*self, time as int),
            bounded3(r, POINT_BOUND as int),
    {
        let dt: i128 = self.end_time as i128 - self.start_time as i128;
        let f0: i128 = (time as i128 - self.start_time as i128) * 65536 / dt;
        let f: i128 = if f0 < 0 {
            0
        } else if f0 > 65536 {
            65536
        } else {
            f0
        };
        proof {
            lemma_mul_bounds(
                (self.end_center.x - self.start_center.x) as int, f as int,
                0x8000_0000int, SCALE as int);
            lemma_mul_bounds(
                (self.end_center.y - self.start_center.y) as int, f as int,
                0x8000_0000int, SCALE as int);
            lemma_mul_bounds(
                (self.end_center.z - self.start_center.z) as int, f as int,
                0x8000_0000int, SCALE as int);
            lemma_tdiv_bounded(
                (self.end_center.x - self.start_center.x) * f as int,
                SCALE as int, 0x8000_0000int);
            lemma_tdiv_bounded(
                (self.end_center.y - self.start_center.y) * f as int,
                SCALE as int, 0x8000_0000int);
            lemma_tdiv_bounded(
                (self.end_center.z - self.start_center.z) * f as int,
                SCALE as int, 0x8000_0000int);
        }
        let ox: i128 = (self.end_center.x as i128 - self.start_center.x as i128) * f / 65536;
        let oy: i128 = (self.end_center.y as i128 - self.start_center.y as i128) * f / 65536;
        let oz: i128 = (self.end_center.z as i128 - self.start_center.z as i128) * f / 65536;
        Vec3 {
            x: (self.start_center.x as i128 + ox) as i64,
            y: (self.start_center.y as i128 + oy) as i64,
            z: (self.start_center.z as i128 + oz) as i64,
        }
    }

    /// Intersect a ray with the sphere at the ray's own time.
    pub fn hit(&self, ray: &Ray, t_min: i64, t_max: i64) -> (r: Option<HitRecord>)
        requires
            moving_geom_wf(*self),
            ray_in_range(*ray),
        ensures
            r == spec_sphere_hit(
                spec_moving_center(*self, ray.time as int), self.radius, self.material, *ray,
                t_min as int, t_max as int),
            r matches Some(h) ==> hit_props(h, *ray, t_min as int, t_max as int)
                && h.material == self.material,
    {
        let c = self.center(ray.time());
        sphere_hit_core(c, self.radius, &self.material, ray, t_min, t_max)
    }

    /// The cached bounding box.
    pub fn bounding_box(&self) -> (r: Option<&BoundingBox>)
        ensures
            r.is_some(),
            r matches Some(b) ==> *b == self.bbox,
    {
        Some(&self.bbox)
    }
}

/// The box a moving sphere caches: the union of the boxes around its
/// two end positions.
pub open spec fn spec_moving_bbox(start_center: Vec3, end_center: Vec3, radius: i64) -> BoundingBox {
    let ar = iabs(radius as int);
    BoundingBox {
        min: Vec3 {
            x: crate::fixed::imin(start_center.x - ar, end_center.x - ar) as i64,
            y: crate::fixed::imin(start_center.y - ar, end_center.y - ar) as i64,
            z: crate::fixed::imin(start_center.z - ar, end_center.z - ar) as i64,
        },
        max: Vec3 {
            x: crate::fixed::imax(start_center.x + ar, end_center.x + ar) as i64,
            y: crate::fixed::imax(start_center.y + ar, end_center.y + ar) as i64,
            z: crate::fixed::imax(start_center.z + ar, end_center.z + ar) as i64,
        },
    }
}

} // verus!
