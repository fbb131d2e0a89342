//! The path integrator: the recursive estimator that intersects a ray
//! with the scene, scatters at the struck surface, and multiplies the
//! attenuations along the sampled path.

use vstd::prelude::*;
use crate::fixed::{SCALE, fxmul, lemma_fxmul_color, lemma_fxmul_one};
use crate::vec3::{Vec3, spec_unit, vmul3};
use crate::ray::{Ray, ray_in_range};
use crate::material::{color_ok, scatter_ok};
use crate::object::{Object, obj_wf, spec_obj_hit};

verus! {

/// The recursion bound of the estimator.
pub const MAX_DEPTH: u32 = 50;

/// The offset from a surface below which a new intersection is not
/// accepted, against immediate self-intersection: about a thousandth
/// of a unit.
pub const HIT_EPS: i64 = 66;

/// The background a ray that escapes the scene sees: white blended
/// toward a sky blue by the normalized direction's vertical component,
/// mapped from `[-1, 1]` onto `[0, 1]`. A direction too short to
/// normalize reads as horizontal.
pub open spec fn spec_background(ray: Ray) -> Vec3 {
    let u = if ray.dir == (Vec3 { x: 0, y: 0, z: 0 }) {
        Vec3 { x: 0, y: 0, z: 0 }
    } else {
        spec_unit(ray.dir)
    };
    let t = (u.y + SCALE) / 2;
    Vec3 {
        x: (fxmul(SCALE as int, SCALE - t) + fxmul(0x8000, t)) as i64,
        y: (fxmul(SCALE as int, SCALE - t) + fxmul(45875, t)) as i64,
        z: (fxmul(SCALE as int, SCALE - t) + fxmul(SCALE as int, t)) as i64,
    }
}

/// A scattering path is admissible for a scene, a ray and a depth
/// when it makes one admissible scattering choice per bounce: empty
/// where the ray escapes or the depth is exhausted, else an
/// attenuation and a scattered ray the struck material allows,
/// followed by an admissible path of the scattered ray.
pub open spec fn scatter_path_ok(
    world: Object,
    ray: Ray,
    depth: u32,
    path: Seq<(Vec3, Ray)>,
) -> bool
    decreases path.len(),
{
    match spec_obj_hit(world, ray, HIT_EPS as int, i64::MAX as int) {
        None => path.len() == 0,
        Some(h) => if depth >= MAX_DEPTH {
            path.len() == 0
        } else {
            path.len() > 0 && scatter_ok(h.material, ray, h, path[0].0, path[0].1)
                && scatter_path_ok(world, path[0].1, (depth + 1) as u32, path.drop_first())
        },
    }
}

/// The estimate a scattering path determines: the background where
/// the ray escapes; black at exhausted depth or an exhausted path;
/// else the path's attenuation times the estimate of its tail. With
/// this, the estimator's full outcome table is one existential over
/// admissible paths.
pub open spec fn path_estimate(world: Object, ray: Ray, depth: u32, path: Seq<(Vec3, Ray)>) -> Vec3
    decreases path.len(),
{
    match spec_obj_hit(world, ray, HIT_EPS as int, i64::MAX as int) {
        None => spec_background(ray),
        Some(h) => if depth >= MAX_DEPTH || path.len() == 0 {
            Vec3 { x: 0, y: 0, z: 0 }
        } else {
            vmul3(path[0].0, path_estimate(world, path[0].1, (depth + 1) as u32, path.drop_first()))
        },
    }
}

/// Estimate the radiance arriving along a ray. An escaping ray sees
/// the background gradient exactly; a ray cut off by the recursion
/// bound contributes exactly black; on a hit, the estimate is the
/// attenuation of some admissible scattering times an admissible
/// estimate of the scattered ray — every answer is the estimate of an
/// admissible path. Every channel stays within `[0, 1]`.
pub fn get_color(ray: &Ray, world: &Object, depth: u32) -> (r: Vec3)
    requires
        obj_wf(*world),
        ray_in_range(*ray),
    ensures
        color_ok(r),
        spec_obj_hit(*world, *ray, HIT_EPS as int, i64::MAX as int) is None ==> r
            == spec_background(*ray),
        (spec_obj_hit(*world, *ray, HIT_EPS as int, i64::MAX as int) is Some && depth >= MAX_DEPTH)
            ==> r == (Vec3 { x: 0, y: 0, z: 0 }),
        exists|path: Seq<(Vec3, Ray)>|
            #[trigger] scatter_path_ok(*world, *ray, depth, path) && r == path_estimate(
                *world, *ray, depth, path),
    decreases MAX_DEPTH - depth,
{
    let hit = world.hit(ray, HIT_EPS, i64::MAX);
    match hit {
        Some(h) => {
            if depth < MAX_DEPTH {
                let sc = h.material.scatter(ray, &h);
                if let Some((attenuation, scattered)) = sc {
                    proof {
                        assert(ray_in_range(scattered));
                        assert(color_ok(attenuation));
                    }
                    let rec = get_color(&scattered, world, depth + 1);
                    proof {
                        lemma_fxmul_color(attenuation.x as int, rec.x as int, SCALE as int);
                        lemma_fxmul_color(attenuation.y as int, rec.y as int, SCALE as int);
                        lemma_fxmul_color(attenuation.z as int, rec.z as int, SCALE as int);
                    }
                    let prod = attenuation.mul(rec);
                    proof {
                        let tail = choose|path: Seq<(Vec3, Ray)>|
                            #[trigger] scatter_path_ok(
                                *world, scattered, (depth + 1) as u32, path) && rec
                                == path_estimate(*world, scattered, (depth + 1) as u32, path);
                        let path = seq![(attenuation, scattered)] + tail;
                        assert((depth + 1) as u32 == depth + 1);
                        assert(path[0] == (attenuation, scattered));
                        assert(path.drop_first() =~= tail);
                        assert(scatter_path_ok(*world, *ray, depth, path));
                        assert(prod == vmul3(attenuation, rec));
                        assert(prod == path_estimate(*world, *ray, depth, path));
                    }
                    return prod;
                }
                return Vec3::new(0, 0, 0);
            }
            let black = Vec3::new(0, 0, 0);
            proof {
                let path = Seq::<(Vec3, Ray)>::empty();
                assert(scatter_path_ok(*world, *ray, depth, path));
                assert(black == path_estimate(*world, *ray, depth, path));
            }
            black
        },
        None => {
            let d = ray.direction();
            let unit_direction = if d.x() == 0 && d.y() == 0 && d.z() == 0 {
                Vec3::new(0, 0, 0)
            } else {
                d.normalize()
            };
            let t: i64 = (unit_direction.y() + SCALE) / 2;
            proof {
                lemma_fxmul_one((SCALE - t) as int);
                lemma_fxmul_one(t as int);
                lemma_fxmul_color(0x8000int, t as int, SCALE as int);
                lemma_fxmul_color(45875int, t as int, SCALE as int);
            }
            let white = Vec3::new(SCALE, SCALE, SCALE);
            let sky = Vec3::new(0x8000, 45875, SCALE);
            let bg = white.lerp(&sky, t);
            proof {
                let path = Seq::<(Vec3, Ray)>::empty();
                assert(scatter_path_ok(*world, *ray, depth, path));
                assert(bg == path_estimate(*world, *ray, depth, path));
            }
            bg
        },
    }
}

} // verus!
