//! The surface materials and their scattering: diffuse, specular with
//! roughness, and refractive with a stochastic Fresnel choice.

use vstd::prelude::*;
use crate::fixed::{
    SCALE, RAY_BOUND, POINT_BOUND, NORM_BOUND, fxmul, fxdiv,
    lemma_mul_bounds, lemma_tdiv_bounded, fx_mul, fx_div,
};
use crate::vec3::{Vec3, bounded3, sqlraw, spec_dot, spec_unit, vadd3, vscale3, vneg3};
use crate::ray::{Ray, ray_in_range};
use crate::object::HitRecord;
use crate::utils::{
    in_unit_ball, random_in_unit_sphere, random_unit_scalar, reflect, refract, schlick,
    spec_reflect, spec_refract,
};

verus! {

/// A diffuse surface: scatters around the normal, attenuating by its
/// albedo, and never absorbs.
#[derive(Clone, Copy, PartialEq, Eq, Structural)]
pub struct Lambertian {
    pub albedo: Vec3,
}

/// A specular surface: mirrors the incoming direction, fuzzed by a
/// roughness in `[0, 1]`, attenuating by its albedo.
#[derive(Clone, Copy, PartialEq, Eq, Structural)]
pub struct Metal {
    pub albedo: Vec3,
    pub fuzz: i64,
}

/// A clear refractive surface: reflects or refracts, choosing with
/// probability given by the Schlick reflectance, and never tints.
#[derive(Clone, Copy, PartialEq, Eq, Structural)]
pub struct Dielectric {
    pub refractive_index: i64,
}

/// A surface material: one of the three scattering models.
#[derive(Clone, Copy, PartialEq, Eq, Structural)]
pub enum Material {
    Lambertian(Lambertian),
    Metal(Metal),
    Dielectric(Dielectric),
}

/// A color with every channel in `[0, 1]`.
pub open spec fn color_ok(c: Vec3) -> bool {
    &&& 0 <= c.x <= SCALE
    &&& 0 <= c.y <= SCALE
    &&& 0 <= c.z <= SCALE
}

/// The ranges a material's parameters keep: albedo channels in
/// `[0, 1]`, roughness in `[0, 1]`, refractive index in `[1/4, 16]`.
pub open spec fn material_wf(m: Material) -> bool {
    match m {
        Material::Lambertian(l) => color_ok(l.albedo),
        Material::Metal(mt) => color_ok(mt.albedo) && 0 <= mt.fuzz <= SCALE,
        Material::Dielectric(d) => SCALE / 4 <= d.refractive_index <= 16 * SCALE,
    }
}

/// What every scattering a material reports satisfies. Scattering
/// never fails for any of the three models; the scattered ray starts
/// at the hit point, at the incoming ray's own time, and:
/// - a diffuse surface offsets the normal by a point of the unit ball
///   and attenuates by exactly its albedo;
/// - a specular surface mirrors the normalized incoming direction and
///   adds a fuzz-scaled point of the unit ball, attenuating by exactly
///   its albedo;
/// - a refractive surface emits either the mirrored direction or the
///   refracted one, and attenuates by exactly white.
pub open spec fn scatter_ok(
    m: Material,
    ray_in: Ray,
    h: HitRecord,
    att: Vec3,
    scat: Ray,
) -> bool {
    match m {
        Material::Lambertian(l) => {
            &&& att == l.albedo
            &&& scat.origin == h.point
            &&& scat.time == ray_in.time
            &&& exists|u: Vec3| #[trigger] in_unit_ball(u) && scat.dir == vadd3(h.normal, u)
            &&& bounded3(scat.dir, 0x4_0000int)
        },
        Material::Metal(mt) => {
            &&& att == mt.albedo
            &&& scat.origin == h.point
            &&& scat.time == ray_in.time
            &&& exists|u: Vec3| #[trigger] in_unit_ball(u) && scat.dir == vadd3(
                spec_reflect(spec_unit(ray_in.dir), h.normal),
                vscale3(u, mt.fuzz as int),
            )
            &&& bounded3(scat.dir, 0x100_0000int)
        },
        Material::Dielectric(d) => {
            let dn = spec_dot(ray_in.dir, h.normal);
            let outward = if dn > 0 {
                vneg3(h.normal)
            } else {
                h.normal
            };
            let ni = if dn > 0 {
                d.refractive_index as int
            } else {
                fxdiv(SCALE as int, d.refractive_index as int)
            };
            &&& att == (Vec3 { x: SCALE, y: SCALE, z: SCALE })
            &&& scat.origin == h.point
            &&& scat.time == ray_in.time
            &&& {
                ||| scat.dir == spec_reflect(spec_unit(ray_in.dir), h.normal)
                ||| (spec_refract(ray_in.dir, outward, ni) matches Some(w) && scat.dir == w)
            }
            &&& bounded3(scat.dir, 0x800_0000int)
        },
    }
}

/// The requirements every scatter call meets: a ray long enough to
/// have hit, and a record from a query.
pub open spec fn scatter_pre(ray_in: Ray, h: HitRecord) -> bool {
    &&& ray_in_range(ray_in)
    &&& sqlraw(ray_in.dir) >= SCALE
    &&& bounded3(h.point, POINT_BOUND as int)
    &&& bounded3(h.normal, NORM_BOUND as int)
}

impl Lambertian {
    pub fn new(albedo: Vec3) -> (r: Lambertian)
        ensures
            r.albedo == albedo,
    {
        Lambertian { albedo }
    }

    /// Scatter toward the normal offset by a random point of the unit
    /// ball.
    pub fn scatter(&self, ray_in: &Ray, hit_record: &HitRecord) -> (r: Option<(Vec3, Ray)>)
        requires
            scatter_pre(*ray_in, *hit_record),
        ensures
            r.is_some(),
            r matches Some(p) ==> scatter_ok(
                Material::Lambertian(*self), *ray_in, *hit_record, p.0, p.1),
    {
        let rnd = random_in_unit_sphere();
        let target = hit_record.point.add(hit_record.normal).add(rnd);
        let scattered = Ray::new_at_time(hit_record.point, target.sub(hit_record.point), ray_in.time());
        proof {
            assert(in_unit_ball(rnd) && scattered.dir == vadd3(hit_record.normal, rnd));
        }
        let attenuation = self.albedo;
        Some((attenuation, scattered))
    }
}

impl Metal {
    /// A metal with its roughness saturated into `[0, 1]`.
    pub fn new(albedo: Vec3, fuzz: i64) -> (r: Metal)
        ensures
            r.albedo == albedo,
            r.fuzz == if fuzz < 0 {
                0i64
            } else if fuzz > SCALE {
                SCALE
            } else {
                fuzz
            },
    {
        let f: i64 = if fuzz < 0 {
            0
        } else if fuzz > SCALE {
            SCALE
        } else {
            fuzz
        };
        Metal { albedo, fuzz: f }
    }

    /// Scatter along the mirrored direction, fuzzed by a scaled random
    /// point of the unit ball.
    pub fn scatter(&self, ray_in: &Ray, hit_record: &HitRecord) -> (r: Option<(Vec3, Ray)>)
        requires
            scatter_pre(*ray_in, *hit_record),
            0 <= self.fuzz <= SCALE,
        ensures
            r.is_some(),
            r matches Some(p) ==> scatter_ok(
                Material::Metal(*self), *ray_in, *hit_record, p.0, p.1),
    {
        proof {
            if ray_in.dir.x == 0 && ray_in.dir.y == 0 && ray_in.dir.z == 0 {
                assert(sqlraw(ray_in.dir) == 0) by (nonlinear_arith)
                    requires
                        ray_in.dir.x == 0 && ray_in.dir.y == 0 && ray_in.dir.z == 0,
                {}
            }
        }
        let unit = ray_in.direction().normalize();
        let reflected = reflect(&unit, &hit_record.normal);
        let rnd = random_in_unit_sphere();
        proof {
            lemma_mul_bounds(rnd.x as int, self.fuzz as int, SCALE as int, SCALE as int);
            lemma_mul_bounds(rnd.y as int, self.fuzz as int, SCALE as int, SCALE as int);
            lemma_mul_bounds(rnd.z as int, self.fuzz as int, SCALE as int, SCALE as int);
            lemma_tdiv_bounded(rnd.x as int * self.fuzz, SCALE as int, SCALE as int);
            lemma_tdiv_bounded(rnd.y as int * self.fuzz, SCALE as int, SCALE as int);
            lemma_tdiv_bounded(rnd.z as int * self.fuzz, SCALE as int, SCALE as int);
        }
        let fuzzed = rnd.scalar_mul(self.fuzz);
        let scattered = Ray::new_at_time(hit_record.point, reflected.add(fuzzed), ray_in.time());
        proof {
            assert(in_unit_ball(rnd) && scattered.dir == vadd3(
                spec_reflect(spec_unit(ray_in.dir), hit_record.normal),
                vscale3(rnd, self.fuzz as int),
            ));
        }
        let attenuation = self.albedo;
        Some((attenuation, scattered))
    }
}

impl Dielectric {
    pub fn new(refractive_index: i64) -> (r: Dielectric)
        ensures
            r.refractive_index == refractive_index,
    {
        Dielectric { refractive_index }
    }

    /// Reflect or refract: on total internal reflection always
    /// reflect, otherwise choose by comparing a random scalar to the
    /// Schlick reflectance. The cosine handed to the reflectance is
    /// saturated to two whole units, which leaves every geometrically
    /// meaningful value untouched.
    pub fn scatter(&self, ray_in: &Ray, hit_record: &HitRecord) -> (r: Option<(Vec3, Ray)>)
        requires
            scatter_pre(*ray_in, *hit_record),
            SCALE / 4 <= self.refractive_index <= 16 * SCALE,
        ensures
            r.is_some(),
            r matches Some(p) ==> scatter_ok(
                Material::Dielectric(*self), *ray_in, *hit_record, p.0, p.1),
    {
        let attenuation = Vec3 { x: SCALE, y: SCALE, z: SCALE };
        proof {
            if ray_in.dir.x == 0 && ray_in.dir.y == 0 && ray_in.dir.z == 0 {
                assert(sqlraw(ray_in.dir) == 0) by (nonlinear_arith)
                    requires
                        ray_in.dir.x == 0 && ray_in.dir.y == 0 && ray_in.dir.z == 0,
                {}
            }
        }
        let dn: i64 = ray_in.direction().dot(&hit_record.normal);
        let unit = ray_in.direction().normalize();
        proof {
            lemma_mul_bounds(
                unit.x as int, hit_record.normal.x as int, SCALE as int, NORM_BOUND as int);
            lemma_mul_bounds(
                unit.y as int, hit_record.normal.y as int, SCALE as int, NORM_BOUND as int);
            lemma_mul_bounds(
                unit.z as int, hit_record.normal.z as int, SCALE as int, NORM_BOUND as int);
            lemma_tdiv_bounded(
                unit.x as int * hit_record.normal.x + unit.y as int * hit_record.normal.y
                    + unit.z as int * hit_record.normal.z,
                SCALE as int,
                0x6_0000int,
            );
        }
        let dt_unit: i64 = unit.dot(&hit_record.normal);
        let outward: Vec3;
        let ni_over_nt: i64;
        let cosine_raw: i64;
        if dn > 0 {
            outward = hit_record.normal.neg();
            ni_over_nt = self.refractive_index;
            proof {
                lemma_mul_bounds(
                    self.refractive_index as int, dt_unit as int, 0x10_0000int, 0x6_0000int);
                lemma_tdiv_bounded(
                    self.refractive_index as int * dt_unit, SCALE as int, 0x60_0000int);
            }
            cosine_raw = fx_mul(self.refractive_index, dt_unit);
        } else {
            outward = hit_record.normal;
            proof {
                lemma_mul_bounds(SCALE as int, SCALE as int, SCALE as int, SCALE as int);
                lemma_tdiv_bounded(
                    SCALE as int * SCALE, self.refractive_index as int, 0x4_0000int);
            }
            ni_over_nt = fx_div(SCALE, self.refractive_index);
            cosine_raw = -dt_unit;
        }
        let cosine: i64 = if cosine_raw < -0x2_0000 {
            -0x2_0000
        } else if cosine_raw > 0x2_0000 {
            0x2_0000
        } else {
            cosine_raw
        };
        let reflected = reflect(&unit, &hit_record.normal);
        let d = ray_in.direction();
        let refracted = refract(&d, &outward, ni_over_nt);
        let reflect_prob: i64 = if refracted.is_some() {
            schlick(cosine, self.refractive_index)
        } else {
            SCALE
        };
        if random_unit_scalar() < reflect_prob {
            Some((attenuation, Ray::new_at_time(hit_record.point, reflected, ray_in.time())))
        } else {
            let w = refracted.unwrap();
            Some((attenuation, Ray::new_at_time(hit_record.point, w, ray_in.time())))
        }
    }
}

impl Material {
    /// Scatter an incoming ray at a hit, by the model of the struck
    /// surface.
    pub fn scatter(&self, ray_in: &Ray, hit_record: &HitRecord) -> (r: Option<(Vec3, Ray)>)
        requires
            material_wf(*self),
            scatter_pre(*ray_in, *hit_record),
        ensures
            r.is_some(),
            r matches Some(p) ==> scatter_ok(*self, *ray_in, *hit_record, p.0, p.1),
    {
        match self {
            Material::Lambertian(l) => l.scatter(ray_in, hit_record),
            Material::Metal(m) => m.scatter(ray_in, hit_record),
            Material::Dielectric(d) => d.scatter(ray_in, hit_record),
        }
    }
}

} // verus!
