//! Rays: an origin, a direction, and the exposure time they sample.

use vstd::prelude::*;
use crate::fixed::{GEOM_BOUND, RAY_BOUND, fxmul, fx_mul};
use crate::vec3::{Vec3, bounded3};

verus! {

/// A ray `origin + t * direction`, cast at a moment of the exposure.
#[derive(Clone, Copy)]
pub struct Ray {
    pub origin: Vec3,
    pub dir: Vec3,
    pub time: i64,
}

/// The bounds every ray handed to an intersection query keeps: origin
/// and direction components within `RAY_BOUND`, the time within
/// `GEOM_BOUND`.
pub open spec fn ray_in_range(r: Ray) -> bool {
    &&& bounded3(r.origin, RAY_BOUND as int)
    &&& bounded3(r.dir, RAY_BOUND as int)
    &&& -(GEOM_BOUND as int) <= r.time <= GEOM_BOUND as int
}

/// The point the ray reaches at parameter `t`, componentwise
/// `origin + t * direction` in fixed point.
pub open spec fn spec_at(o: int, d: int, t: int) -> int {
    o + fxmul(d, t)
}

impl Ray {
    /// A ray cast at time zero.
    pub fn new(origin: Vec3, dir: Vec3) -> (r: Ray)
        ensures
            r.origin == origin,
            r.dir == dir,
            r.time == 0,
    {
        Ray { origin, dir, time: 0 }
    }

    /// A ray cast at a given moment of the exposure.
    pub fn new_at_time(origin: Vec3, dir: Vec3, time: i64) -> (r: Ray)
        ensures
            r.origin == origin,
            r.dir == dir,
            r.time == time,
    {
        Ray { origin, dir, time }
    }

    pub fn origin(&self) -> (r: Vec3)
        ensures
            r == self.origin,
    {
        self.origin
    }

    pub fn direction(&self) -> (r: Vec3)
        ensures
            r == self.dir,
    {
        self.dir
    }

    pub fn time(&self) -> (r: i64)
        ensures
            r == self.time,
    {
        self.time
    }

    /// Evaluate the ray at a parameter.
    pub fn point_at_parameter(&self, t: i64) -> (r: Vec3)
        requires
            i64::MIN <= fxmul(self.dir.x as int, t as int) <= i64::MAX,
            i64::MIN <= fxmul(self.dir.y as int, t as int) <= i64::MAX,
            i64::MIN <= fxmul(self.dir.z as int, t as int) <= i64::MAX,
            i64::MIN <= spec_at(self.origin.x as int, self.dir.x as int, t as int) <= i64::MAX,
            i64::MIN <= spec_at(self.origin.y as int, self.dir.y as int, t as int) <= i64::MAX,
            i64::MIN <= spec_at(self.origin.z as int, self.dir.z as int, t as int) <= i64::MAX,
        ensures
            r.x == spec_at(self.origin.x as int, self.dir.x as int, t as int),
            r.y == spec_at(self.origin.y as int, self.dir.y as int, t as int),
            r.z == spec_at(self.origin.z as int, self.dir.z as int, t as int),
    {
        let sx = fx_mul(self.dir.x, t);
        let sy = fx_mul(self.dir.y, t);
        let sz = fx_mul(self.dir.z, t);
        Vec3 { x: self.origin.x + sx, y: self.origin.y + sy, z: self.origin.z + sz }
    }
}

} // verus!
