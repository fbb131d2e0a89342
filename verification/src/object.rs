//! The intersectable objects: spheres, moving spheres, hierarchy
//! nodes and flat lists, closed under one hit contract, and the
//! record a successful intersection reports.

use vstd::prelude::*;
use crate::fixed::{SCALE, POINT_BOUND, NORM_BOUND};
use crate::vec3::{Vec3, bounded3, sqlraw};
use crate::ray::{Ray, ray_in_range};
use crate::bounding_box::{BoundingBox, spec_box_hit};
use crate::material::Material;
use crate::sphere::{
    Sphere, MovingSphere, sphere_geom_wf, moving_geom_wf, spec_sphere_hit, spec_moving_center,
};
use crate::bvh_node::BvhNode;

verus! {

broadcast use vstd::seq::axiom_seq_index_decreases, vstd::seq::axiom_seq_subrange_decreases;

/// What a successful intersection reports: the ray parameter, the hit
/// point, the unit outward normal, and the material struck. Transient:
/// built per query and discarded.
#[derive(Clone, Copy, PartialEq, Eq, Structural)]
pub struct HitRecord {
    pub t: i64,
    pub point: Vec3,
    pub normal: Vec3,
    pub material: Material,
}

impl HitRecord {
    pub fn new(t: i64, point: Vec3, normal: Vec3, material: Material) -> (r: HitRecord)
        ensures
            r == (HitRecord { t, point, normal, material }),
    {
        HitRecord { t, point, normal, material }
    }
}

/// What holds of every record a query reports: the point and normal
/// lie in their coordinate ranges, the parameter lies strictly inside
/// the window, and the ray's direction was long enough to intersect.
pub open spec fn hit_props(h: HitRecord, ray: Ray, t_min: int, t_max: int) -> bool {
    &&& bounded3(h.point, POINT_BOUND as int)
    &&& bounded3(h.normal, NORM_BOUND as int)
    &&& t_min < h.t < t_max
    &&& sqlraw(ray.dir) >= SCALE
}

/// Every intersectable object of a scene.
pub enum Object {
    Sphere(Sphere),
    Moving(MovingSphere),
    Node(Box<BvhNode>),
    List(ObjectList),
}

/// A flat ordered collection of objects, intersected by linear scan.
pub struct ObjectList {
    pub objects: Vec<Object>,
}

/// The bounds a whole scene keeps, object by object.
pub open spec fn obj_wf(o: Object) -> bool
    decreases o,
{
    match o {
        Object::Sphere(s) => sphere_geom_wf(s.center, s.radius) && crate::material::material_wf(
            s.material,
        ),
        Object::Moving(m) => moving_geom_wf(m) && crate::material::material_wf(m.material),
        Object::Node(n) => obj_wf(n.left) && obj_wf(n.right),
        Object::List(l) => seq_wf(l.objects@),
    }
}

/// The bounds of a collection of objects.
pub open spec fn seq_wf(s: Seq<Object>) -> bool
    decreases s,
{
    if s.len() == 0 {
        true
    } else {
        obj_wf(s.last()) && seq_wf(s.drop_last())
    }
}

/// Every element of a well-formed collection is well-formed.
pub proof fn lemma_seq_wf_index(s: Seq<Object>, i: int)
    requires
        seq_wf(s),
        0 <= i < s.len(),
    ensures
        obj_wf(s[i]),
    decreases s.len(),
{
    if i == s.len() - 1 {
    } else {
        lemma_seq_wf_index(s.drop_last(), i);
    }
}

/// Of two optional hits, the nearer along the ray; a present hit beats
/// an absent one, and of two equal parameters the right one stands, as
/// a hierarchy node picks.
pub open spec fn closer_hit(a: Option<HitRecord>, b: Option<HitRecord>) -> Option<HitRecord> {
    match (a, b) {
        (Some(x), Some(y)) => if x.t < y.t {
            a
        } else {
            b
        },
        (Some(x), None) => a,
        (None, _) => b,
    }
}

/// A running best challenged by a new candidate, which displaces it
/// only by a strictly smaller parameter, as a linear scan keeps its
/// first-found nearest hit.
pub open spec fn challenge_hit(best: Option<HitRecord>, cand: Option<HitRecord>) -> Option<
    HitRecord,
> {
    match (best, cand) {
        (Some(x), Some(y)) => if y.t < x.t {
            cand
        } else {
            best
        },
        (Some(x), None) => best,
        (None, _) => cand,
    }
}

/// What a query of an object reports: spheres by the quadratic, a
/// hierarchy node by the slab test and its children, a list by its
/// scan.
pub open spec fn spec_obj_hit(o: Object, ray: Ray, t_min: int, t_max: int) -> Option<HitRecord>
    decreases o,
{
    match o {
        Object::Sphere(s) => spec_sphere_hit(s.center, s.radius, s.material, ray, t_min, t_max),
        Object::Moving(m) => spec_sphere_hit(
            spec_moving_center(m, ray.time as int), m.radius, m.material, ray, t_min, t_max),
        Object::Node(n) => if spec_box_hit(n.bbox, ray, t_min, t_max) {
            closer_hit(
                spec_obj_hit(n.left, ray, t_min, t_max),
                spec_obj_hit(n.right, ray, t_min, t_max),
            )
        } else {
            None
        },
        Object::List(l) => spec_seq_hit(l.objects@, ray, t_min, t_max),
    }
}

/// What a linear scan of a collection reports: each object in order
/// challenges the best so far.
pub open spec fn spec_seq_hit(s: Seq<Object>, ray: Ray, t_min: int, t_max: int) -> Option<
    HitRecord,
>
    decreases s,
{
    if s.len() == 0 {
        None
    } else {
        challenge_hit(
            spec_seq_hit(s.drop_last(), ray, t_min, t_max),
            spec_obj_hit(s.last(), ray, t_min, t_max),
        )
    }
}

impl Object {
    /// Intersect a ray with the object, dispatching on its kind.
    pub fn hit(&self, ray: &Ray, t_min: i64, t_max: i64) -> (r: Option<HitRecord>)
        requires
            obj_wf(*self),
            ray_in_range(*ray),
        ensures
            r == spec_obj_hit(*self, *ray, t_min as int, t_max as int),
            r matches Some(h) ==> hit_props(h, *ray, t_min as int, t_max as int)
                && crate::material::material_wf(h.material),
        decreases *self,
    {
        match self {
            Object::Sphere(s) => s.hit(ray, t_min, t_max),
            Object::Moving(m) => m.hit(ray, t_min, t_max),
            Object::Node(n) => n.hit(ray, t_min, t_max),
            Object::List(l) => l.hit(ray, t_min, t_max),
        }
    }

    /// The object's bounding box, if it has one: lists do not cache
    /// one, so only boxed primitives can stand under a hierarchy.
    pub fn bounding_box(&self) -> (r: Option<&BoundingBox>)
        ensures
            r.is_some() == spec_obj_bbox(*self).is_some(),
            r matches Some(b) ==> spec_obj_bbox(*self) == Some(*b),
    {
        match self {
            Object::Sphere(s) => Some(&s.bbox),
            Object::Moving(m) => Some(&m.bbox),
            Object::Node(n) => Some(&n.bbox),
            Object::List(l) => None,
        }
    }
}

/// The box an object exposes, if any.
pub open spec fn spec_obj_bbox(o: Object) -> Option<BoundingBox> {
    match o {
        Object::Sphere(s) => Some(s.bbox),
        Object::Moving(m) => Some(m.bbox),
        Object::Node(n) => Some(n.bbox),
        Object::List(l) => None,
    }
}

/// An empty collection is never hit, so the estimator's contract
/// gives exactly the background gradient for every ray aimed at an
/// empty scene.
pub proof fn lemma_empty_scene_misses(o: Object, ray: Ray, t_min: int, t_max: int)
    requires
        o matches Object::List(l) && l.objects@.len() == 0,
    ensures
        spec_obj_hit(o, ray, t_min, t_max) is None,
{
    match o {
        Object::List(l) => {
            assert(spec_seq_hit(l.objects@, ray, t_min, t_max) is None);
        },
        _ => {},
    }
}

impl Default for ObjectList {
    /// An empty collection.
    fn default() -> (r: ObjectList)
        ensures
            r.objects@.len() == 0,
    {
        ObjectList { objects: Vec::new() }
    }
}

impl ObjectList {
    /// An empty collection.
    pub fn new() -> (r: ObjectList)
        ensures
            r.objects@.len() == 0,
    {
        ObjectList { objects: Vec::new() }
    }

    /// Append an object.
    pub fn push(&mut self, object: Object)
        ensures
            final(self).objects@ == old(self).objects@.push(object),
    {
        self.objects.push(object);
    }

    /// Intersect a ray against every object in order, keeping the
    /// first-found nearest hit.
    pub fn hit(&self, ray: &Ray, t_min: i64, t_max: i64) -> (r: Option<HitRecord>)
        requires
            seq_wf(self.objects@),
            ray_in_range(*ray),
        ensures
            r == spec_seq_hit(self.objects@, *ray, t_min as int, t_max as int),
            r matches Some(h) ==> hit_props(h, *ray, t_min as int, t_max as int)
                && crate::material::material_wf(h.material),
        decreases *self,
    {
        let mut best: Option<HitRecord> = None;
        let mut i: usize = 0;
        proof {
            assert(self.objects@.take(0int) =~= Seq::<Object>::empty());
        }
        while i < self.objects.len()
            invariant
                0 <= i <= self.objects@.len(),
                seq_wf(self.objects@),
                ray_in_range(*ray),
                best == spec_seq_hit(self.objects@.take(i as int), *ray, t_min as int, t_max as int),
                best matches Some(h) ==> hit_props(h, *ray, t_min as int, t_max as int)
                    && crate::material::material_wf(h.material),
            decreases self.objects@.len() - i,
        {
            proof {
                lemma_seq_wf_index(self.objects@, i as int);
            }
            let cand = self.objects[i].hit(ray, t_min, t_max);
            proof {
                assert(self.objects@.take(i as int + 1).drop_last() =~= self.objects@.take(
                    i as int,
                ));
                assert(self.objects@.take(i as int + 1).last() == self.objects@[i as int]);
            }
            match cand {
                Some(c) => {
                    match best {
                        Some(b) => {
                            if c.t < b.t {
                                best = Some(c);
                            }
                        },
                        None => {
                            best = Some(c);
                        },
                    }
                },
                None => {},
            }
            i = i + 1;
        }
        proof {
            assert(self.objects@.take(self.objects@.len() as int) =~= self.objects@);
        }
        best
    }
}

} // verus!
