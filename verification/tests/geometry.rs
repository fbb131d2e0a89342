// Exact-value checks of the fixed-point kernel, the slab test, the
// sphere intersection and the hierarchy, against hand-computed
// results. One whole unit is 65536.

use raytrace::fixed::{fx_div, fx_mul, fx_sqrt, isqrt, SCALE};
use raytrace::vec3::Vec3;
use raytrace::ray::Ray;
use raytrace::bounding_box::BoundingBox;
use raytrace::material::{Lambertian, Material};
use raytrace::object::{Object, ObjectList};
use raytrace::sphere::{MovingSphere, Sphere};
use raytrace::bvh_node::BvhNode;

fn gray() -> Material {
    Material::Lambertian(Lambertian::new(Vec3::new(32768, 32768, 32768)))
}

#[test]
fn fixed_point_products_round_toward_zero() {
    assert_eq!(fx_mul(3 * SCALE, 5 * SCALE), 15 * SCALE);
    assert_eq!(fx_mul(-3 * SCALE, 5 * SCALE), -15 * SCALE);
    // -3 / 65536 rounds to zero, where rounding down would give -1
    assert_eq!(fx_mul(-1, 3), 0);
    assert_eq!(fx_div(1, 3), 21845);
    assert_eq!(fx_div(-1, 3), -21845);
    assert_eq!(fx_div(-3 * SCALE, 2 * SCALE), -98304);
}

#[test]
fn square_roots_round_down() {
    assert_eq!(isqrt(0), 0);
    assert_eq!(isqrt(17), 4);
    assert_eq!(isqrt(16), 4);
    assert_eq!(isqrt(1 << 34), 1 << 17);
    assert_eq!(fx_sqrt(4 * SCALE), 2 * SCALE);
    assert_eq!(fx_sqrt(2 * SCALE), 92681);
}

#[test]
fn vector_arithmetic_exact() {
    let a = Vec3::new(SCALE, 2 * SCALE, -3 * SCALE);
    let b = Vec3::new(4 * SCALE, -5 * SCALE, 6 * SCALE);
    let s = a.add(b);
    assert_eq!((s.x(), s.y(), s.z()), (5 * SCALE, -3 * SCALE, 3 * SCALE));
    let d = a.sub(b);
    assert_eq!((d.x(), d.y(), d.z()), (-3 * SCALE, 7 * SCALE, -9 * SCALE));
    assert_eq!(a.dot(&b), (4 - 10 - 18) * SCALE);
    let c = Vec3::new(SCALE, 0, 0).cross(&Vec3::new(0, SCALE, 0));
    assert_eq!((c.x(), c.y(), c.z()), (0, 0, SCALE));
    let n = Vec3::new(3 * SCALE, 0, 4 * SCALE).normalize();
    assert_eq!((n.x(), n.y(), n.z()), (39321, 0, 52428));
    // normalizing a vector of at least unit length lands within four
    // raw steps of one whole unit of length
    assert!(SCALE - 4 <= n.length() && n.length() <= SCALE + 4);
    let m = Vec3::new(12345678, -7654321, 2468013).normalize();
    assert!(SCALE - 4 <= m.length() && m.length() <= SCALE + 4);
    let l = Vec3::new(SCALE, SCALE, SCALE).lerp(&Vec3::new(0, 0, 0), SCALE / 2);
    assert_eq!((l.x(), l.y(), l.z()), (SCALE / 2, SCALE / 2, SCALE / 2));
}

#[test]
fn slab_test_passes_through_box() {
    // unit box around the origin; a ray along +x passing through it
    let bb = BoundingBox::new(
        Vec3::new(-SCALE, -SCALE, -SCALE),
        Vec3::new(SCALE, SCALE, SCALE),
    );
    let ray = Ray::new(Vec3::new(-2 * SCALE, 0, 0), Vec3::new(SCALE, 0, 0));
    // the entry and exit parameters are 1 and 3; the window holds them
    assert!(bb.hit(&ray, 1, 10 * SCALE));
    // the same passage seen from the other side
    let back = Ray::new(Vec3::new(2 * SCALE, 0, 0), Vec3::new(-SCALE, 0, 0));
    assert!(bb.hit(&back, 1, 10 * SCALE));
    // a window that ends before the box starts
    assert!(!bb.hit(&ray, 1, SCALE / 2));
}

#[test]
fn slab_test_parallel_axis() {
    let bb = BoundingBox::new(
        Vec3::new(-SCALE, -SCALE, -SCALE),
        Vec3::new(SCALE, SCALE, SCALE),
    );
    // parallel to the y axis but inside its slab: still a hit
    let inside = Ray::new(Vec3::new(-2 * SCALE, 0, 0), Vec3::new(SCALE, 0, 0));
    assert!(bb.hit(&inside, 1, 10 * SCALE));
    // parallel to the y axis and outside its slab: ruled out
    let outside = Ray::new(Vec3::new(-2 * SCALE, 4 * SCALE, 0), Vec3::new(SCALE, 0, 0));
    assert!(!bb.hit(&outside, 1, 10 * SCALE));
}

#[test]
fn sphere_hit_round_trip() {
    // a ray aimed at the center from outside
    let sp = Sphere::new(Vec3::new(0, 0, -SCALE), SCALE / 2, gray());
    let ray = Ray::new(Vec3::new(0, 0, 0), Vec3::new(0, 0, -SCALE));
    let h = sp.hit(&ray, 66, i64::MAX).expect("the ray points at the center");
    assert_eq!(h.t, SCALE / 2);
    assert_eq!((h.point.x(), h.point.y(), h.point.z()), (0, 0, -SCALE / 2));
    assert_eq!((h.normal.x(), h.normal.y(), h.normal.z()), (0, 0, SCALE));
    // the hit point lies on the surface: |point - center|^2 == r^2
    let pc = h.point.sub(sp.center);
    assert_eq!(pc.squared_length(), fx_mul(sp.radius, sp.radius));
    // a ray that points away misses
    let away = Ray::new(Vec3::new(0, 0, 0), Vec3::new(0, 0, SCALE));
    assert!(sp.hit(&away, 66, i64::MAX).is_none());
}

#[test]
fn sphere_near_root_comes_first() {
    let sp = Sphere::new(Vec3::new(0, 0, -2 * SCALE), SCALE, gray());
    let ray = Ray::new(Vec3::new(0, 0, 0), Vec3::new(0, 0, -SCALE));
    let h = sp.hit(&ray, 66, i64::MAX).unwrap();
    assert_eq!(h.t, SCALE);
    // with the near root below the window, the far root answers
    let h2 = sp.hit(&ray, 2 * SCALE, i64::MAX).unwrap();
    assert_eq!(h2.t, 3 * SCALE);
}

#[test]
fn moving_sphere_center_interpolates() {
    let m = MovingSphere::new(
        Vec3::new(0, 0, 0),
        Vec3::new(SCALE, 0, 0),
        SCALE / 4,
        0,
        SCALE,
        gray(),
    );
    let mid = m.center(SCALE / 2);
    assert_eq!((mid.x(), mid.y(), mid.z()), (SCALE / 2, 0, 0));
    assert_eq!(m.center(0).x(), 0);
    assert_eq!(m.center(SCALE).x(), SCALE);
    // a ray at mid-exposure sees the sphere at the midpoint
    let ray = Ray::new_at_time(Vec3::new(SCALE / 2, 0, 2 * SCALE), Vec3::new(0, 0, -SCALE), SCALE / 2);
    let h = m.hit(&ray, 66, i64::MAX).unwrap();
    assert_eq!(h.t, 2 * SCALE - SCALE / 4);
}

fn scene_objects() -> Vec<Object> {
    let mut v: Vec<Object> = Vec::new();
    v.push(Object::Sphere(Sphere::new(Vec3::new(0, 0, -4 * SCALE), SCALE, gray())));
    v.push(Object::Sphere(Sphere::new(Vec3::new(3 * SCALE, 0, -4 * SCALE), SCALE, gray())));
    v.push(Object::Sphere(Sphere::new(Vec3::new(-3 * SCALE, SCALE, -6 * SCALE), 2 * SCALE, gray())));
    v.push(Object::Sphere(Sphere::new(Vec3::new(0, -200 * SCALE, 0), 195 * SCALE, gray())));
    v.push(Object::Sphere(Sphere::new(Vec3::new(SCALE, SCALE, -3 * SCALE), SCALE / 2, gray())));
    v
}

#[test]
fn bvh_matches_linear_scan() {
    let bvh = BvhNode::new(scene_objects());
    let mut list = ObjectList::new();
    for o in scene_objects() {
        list.push(o);
    }
    let origins = [
        Vec3::new(0, 0, 0),
        Vec3::new(SCALE, SCALE, SCALE),
        Vec3::new(-2 * SCALE, 0, 0),
    ];
    let dirs = [
        Vec3::new(0, 0, -SCALE),
        Vec3::new(SCALE / 2, 0, -SCALE),
        Vec3::new(-SCALE / 3, SCALE / 5, -SCALE),
        Vec3::new(0, -SCALE, 0),
        Vec3::new(0, SCALE, 0),
        Vec3::new(12345, -23456, -SCALE),
    ];
    for o in origins.iter() {
        for d in dirs.iter() {
            let a = bvh.hit(&Ray::new(*o, *d), 66, i64::MAX);
            let b = list.hit(&Ray::new(*o, *d), 66, i64::MAX);
            match (a, b) {
                (Some(x), Some(y)) => assert_eq!(x.t, y.t),
                (None, None) => {},
                _ => panic!("hierarchy and scan disagree on whether the ray hits"),
            }
        }
    }
}

#[test]
fn bvh_box_is_union_of_children() {
    let bvh = BvhNode::new(scene_objects());
    let lb = bvh.left.bounding_box().unwrap();
    let rb = bvh.right.bounding_box().unwrap();
    assert_eq!(bvh.bbox.min.x(), lb.min.x().min(rb.min.x()));
    assert_eq!(bvh.bbox.min.y(), lb.min.y().min(rb.min.y()));
    assert_eq!(bvh.bbox.min.z(), lb.min.z().min(rb.min.z()));
    assert_eq!(bvh.bbox.max.x(), lb.max.x().max(rb.max.x()));
    assert_eq!(bvh.bbox.max.y(), lb.max.y().max(rb.max.y()));
    assert_eq!(bvh.bbox.max.z(), lb.max.z().max(rb.max.z()));
}

#[test]
fn hollow_shell_box_is_upright() {
    // a negative radius flips the normal inward; its box still has
    // min below max, so the shell stays visible under a hierarchy
    let shell = Sphere::new(Vec3::new(0, 0, -2 * SCALE), -SCALE / 2, gray());
    assert!(shell.bbox.min.z() <= shell.bbox.max.z());
    let mut v: Vec<Object> = Vec::new();
    v.push(Object::Sphere(Sphere::new(Vec3::new(0, 0, -2 * SCALE), SCALE, gray())));
    v.push(Object::Sphere(shell));
    let bvh = BvhNode::new(v);
    let ray = Ray::new(Vec3::new(0, 0, 0), Vec3::new(0, 0, -SCALE));
    let h = bvh.hit(&ray, 66, i64::MAX).expect("the shell pair is hit");
    // the outer sphere's near surface comes first
    assert_eq!(h.t, SCALE);
}

#[test]
fn bvh_accepts_a_prebuilt_subtree() {
    let sub = BvhNode::new(scene_objects());
    let mut v: Vec<Object> = Vec::new();
    v.push(Object::Node(Box::new(sub)));
    v.push(Object::Sphere(Sphere::new(Vec3::new(0, 5 * SCALE, 0), SCALE, gray())));
    let bvh = BvhNode::new(v);
    let mut list = ObjectList::new();
    for o in scene_objects() {
        list.push(o);
    }
    list.push(Object::Sphere(Sphere::new(Vec3::new(0, 5 * SCALE, 0), SCALE, gray())));
    let up = Ray::new(Vec3::new(0, 0, 0), Vec3::new(0, SCALE, 0));
    let a = bvh.hit(&up, 66, i64::MAX).expect("the added sphere is straight up");
    let b = list.hit(&up, 66, i64::MAX).unwrap();
    assert_eq!(a.t, b.t);
}

#[test]
fn list_scan_keeps_nearest() {
    let mut list = ObjectList::new();
    list.push(Object::Sphere(Sphere::new(Vec3::new(0, 0, -6 * SCALE), SCALE, gray())));
    list.push(Object::Sphere(Sphere::new(Vec3::new(0, 0, -3 * SCALE), SCALE, gray())));
    let ray = Ray::new(Vec3::new(0, 0, 0), Vec3::new(0, 0, -SCALE));
    let h = list.hit(&ray, 66, i64::MAX).unwrap();
    assert_eq!(h.t, 2 * SCALE);
}

#[test]
fn componentwise_helpers() {
    let mut acc = Vec3::new(SCALE, 0, 0);
    acc.add_assign(Vec3::new(0, 2 * SCALE, 0));
    assert_eq!((acc.x(), acc.y(), acc.z()), (SCALE, 2 * SCALE, 0));
    let vs = vec![Vec3::new(SCALE, 0, -SCALE), Vec3::new(SCALE, SCALE, SCALE)];
    let s = Vec3::sum(&vs);
    assert_eq!((s.x(), s.y(), s.z()), (2 * SCALE, SCALE, 0));
    let d = s.data();
    assert_eq!(d, [2 * SCALE, SCALE, 0]);
    let n = Vec3::new(SCALE, -2 * SCALE, 3 * SCALE).neg();
    assert_eq!((n.x(), n.y(), n.z()), (-SCALE, 2 * SCALE, -3 * SCALE));
    let p = Vec3::new(2 * SCALE, 3 * SCALE, 4 * SCALE).mul(Vec3::new(SCALE / 2, SCALE, 0));
    assert_eq!((p.x(), p.y(), p.z()), (SCALE, 3 * SCALE, 0));
    let r = Ray::new_at_time(Vec3::new(0, 0, 0), Vec3::new(SCALE, 0, 0), 7);
    let at = r.point_at_parameter(3 * SCALE);
    assert_eq!((at.x(), at.y(), at.z()), (3 * SCALE, 0, 0));
    assert_eq!(r.time(), 7);
}
