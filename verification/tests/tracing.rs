// Scenario checks of the materials, the camera and the path
// integrator, with exact fixed-point expectations where the arithmetic
// gives them.

use raytrace::fixed::SCALE;
use raytrace::vec3::Vec3;
use raytrace::ray::Ray;
use raytrace::material::{Dielectric, Lambertian, Material, Metal};
use raytrace::object::{HitRecord, Object, ObjectList};
use raytrace::sphere::Sphere;
use raytrace::camera::Camera;
use raytrace::integrator::get_color;
use raytrace::utils::{random_in_unit_disk, random_in_unit_sphere, random_unit_scalar, reflect};

fn surface_record() -> HitRecord {
    HitRecord::new(
        SCALE / 2,
        Vec3::new(0, 0, -SCALE / 2),
        Vec3::new(0, 0, SCALE),
        Material::Lambertian(Lambertian::new(Vec3::new(SCALE / 2, SCALE / 2, SCALE / 2))),
    )
}

#[test]
fn lambertian_attenuates_by_exactly_its_albedo() {
    let albedo = Vec3::new(6553, 65536, 65536);
    let mat = Lambertian::new(albedo);
    let ray = Ray::new(Vec3::new(0, 0, 0), Vec3::new(0, 0, -SCALE));
    let (att, scattered) = mat.scatter(&ray, &surface_record()).expect("diffuse never absorbs");
    assert_eq!((att.x(), att.y(), att.z()), (6553, 65536, 65536));
    assert_eq!(scattered.origin().z(), -SCALE / 2);
    assert_eq!(scattered.time(), 0);
    // a bounce keeps the moment of the exposure the ray sampled
    let timed = Ray::new_at_time(Vec3::new(0, 0, 0), Vec3::new(0, 0, -SCALE), 7777);
    let (_a2, s2) = mat.scatter(&timed, &surface_record()).unwrap();
    assert_eq!(s2.time(), 7777);
}

#[test]
fn dielectric_attenuation_is_white() {
    let mat = Dielectric::new(98304);
    let ray = Ray::new(Vec3::new(0, 0, 0), Vec3::new(0, 0, -SCALE));
    let (att, _scattered) = mat.scatter(&ray, &surface_record()).expect("glass never absorbs");
    assert_eq!((att.x(), att.y(), att.z()), (SCALE, SCALE, SCALE));
}

#[test]
fn metal_clamps_roughness() {
    let albedo = Vec3::new(SCALE, SCALE, SCALE);
    assert_eq!(Metal::new(albedo, -5).fuzz, 0);
    assert_eq!(Metal::new(albedo, 7 * SCALE).fuzz, SCALE);
    assert_eq!(Metal::new(albedo, 1234).fuzz, 1234);
}

#[test]
fn perfect_mirror_reflects_exactly() {
    // a 45-degree drop onto a floor pointing up
    let v = Vec3::new(SCALE, -SCALE, 0);
    let n = Vec3::new(0, SCALE, 0);
    let r = reflect(&v, &n);
    assert_eq!((r.x(), r.y(), r.z()), (SCALE, SCALE, 0));
    // a mirror metal with no fuzz scatters along exactly that line
    let mat = Metal::new(Vec3::new(SCALE, SCALE, SCALE), 0);
    let rec = HitRecord::new(
        SCALE,
        Vec3::new(0, 0, 0),
        n,
        Material::Metal(mat),
    );
    let ray = Ray::new(Vec3::new(-SCALE, SCALE, 0), v);
    let (_att, scattered) = mat.scatter(&ray, &rec).unwrap();
    // the incoming direction normalizes to (46341, -46341, 0)
    assert_eq!(
        (scattered.direction().x(), scattered.direction().y(), scattered.direction().z()),
        (46341, 46341, 0),
    );
}

#[test]
fn samplers_stay_inside_their_regions() {
    for _ in 0..200 {
        let q = random_unit_scalar();
        assert!(0 <= q && q < SCALE);
        let p = random_in_unit_sphere();
        assert!(p.squared_length() < SCALE);
        let d = random_in_unit_disk();
        assert_eq!(d.z(), 0);
        assert!(d.dot(&d) < SCALE);
    }
}

fn straight_camera() -> Camera {
    Camera::new(
        Vec3::new(0, 0, 0),
        Vec3::new(0, 0, -SCALE),
        Vec3::new(0, SCALE, 0),
        SCALE,
        SCALE,
        0,
        SCALE,
        0,
        SCALE,
    )
}

#[test]
fn camera_center_ray_points_down_the_axis() {
    let cam = straight_camera();
    let ray = cam.get_ray(SCALE / 2, SCALE / 2);
    assert_eq!((ray.origin().x(), ray.origin().y(), ray.origin().z()), (0, 0, 0));
    assert_eq!(
        (ray.direction().x(), ray.direction().y(), ray.direction().z()),
        (0, 0, -SCALE),
    );
    assert!(0 <= ray.time() && ray.time() <= SCALE);
}

#[test]
fn center_ray_hits_the_scene_sphere() {
    // the scenario scene: a sphere half a unit in radius, one unit
    // down the view axis; the camera ray through the image center
    // strikes it at half a unit, square on
    let cam = straight_camera();
    let ray = cam.get_ray(SCALE / 2, SCALE / 2);
    let sp = Sphere::new(
        Vec3::new(0, 0, -SCALE),
        SCALE / 2,
        Material::Lambertian(Lambertian::new(Vec3::new(6553, SCALE, SCALE))),
    );
    let h = sp.hit(&ray, 66, i64::MAX).expect("the center ray hits the sphere");
    assert_eq!(h.t, SCALE / 2);
    assert_eq!((h.normal.x(), h.normal.y(), h.normal.z()), (0, 0, SCALE));
}

fn empty_scene() -> Object {
    Object::List(ObjectList::new())
}

#[test]
fn empty_scene_gives_the_exact_gradient() {
    let world = empty_scene();
    // straight up: the blend lands fully on the sky color
    let up = Ray::new(Vec3::new(0, 0, 0), Vec3::new(0, SCALE, 0));
    let c = get_color(&up, &world, 0);
    assert_eq!((c.x(), c.y(), c.z()), (32768, 45875, SCALE));
    // horizontal: the blend sits exactly halfway
    let level = Ray::new(Vec3::new(0, 0, 0), Vec3::new(SCALE, 0, 0));
    let c2 = get_color(&level, &world, 0);
    assert_eq!((c2.x(), c2.y(), c2.z()), (49152, 55705, SCALE));
    // straight down: the blend lands fully on white
    let down = Ray::new(Vec3::new(0, 0, 0), Vec3::new(0, -SCALE, 0));
    let c3 = get_color(&down, &world, 0);
    assert_eq!((c3.x(), c3.y(), c3.z()), (SCALE, SCALE, SCALE));
}

#[test]
fn exhausted_depth_returns_exactly_black() {
    let mut list = ObjectList::new();
    list.push(Object::Sphere(Sphere::new(
        Vec3::new(0, 0, -SCALE),
        SCALE / 2,
        Material::Lambertian(Lambertian::new(Vec3::new(SCALE, SCALE, SCALE))),
    )));
    let world = Object::List(list);
    let ray = Ray::new(Vec3::new(0, 0, 0), Vec3::new(0, 0, -SCALE));
    let c = get_color(&ray, &world, 50);
    assert_eq!((c.x(), c.y(), c.z()), (0, 0, 0));
    let c2 = get_color(&ray, &world, 73);
    assert_eq!((c2.x(), c2.y(), c2.z()), (0, 0, 0));
}

#[test]
fn estimates_stay_within_unit_energy() {
    let mut list = ObjectList::new();
    list.push(Object::Sphere(Sphere::new(
        Vec3::new(0, 0, -SCALE),
        SCALE / 2,
        Material::Lambertian(Lambertian::new(Vec3::new(SCALE / 2, SCALE / 3, SCALE / 4))),
    )));
    list.push(Object::Sphere(Sphere::new(
        Vec3::new(0, -100 * SCALE, 0),
        99 * SCALE,
        Material::Metal(Metal::new(Vec3::new(SCALE / 2, SCALE / 2, SCALE / 2), SCALE / 8)),
    )));
    let world = Object::List(list);
    for i in 0..40i64 {
        let ray = Ray::new(
            Vec3::new(0, 0, 0),
            Vec3::new((i - 20) * SCALE / 20, -SCALE / 4, -SCALE),
        );
        let c = get_color(&ray, &world, 0);
        assert!(0 <= c.x() && c.x() <= SCALE);
        assert!(0 <= c.y() && c.y() <= SCALE);
        assert!(0 <= c.z() && c.z() <= SCALE);
    }
}
