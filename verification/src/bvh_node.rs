//! The bounding-volume hierarchy: a binary tree over boxed objects,
//! built by recursive splitting along a random axis and answering ray
//! queries by pruning subtrees whose box the ray misses.

use vstd::prelude::*;
use vstd::multiset::Multiset;
use vstd::seq_lib::{group_to_multiset_ensures, lemma_multiset_commutative};
use crate::ray::{Ray, ray_in_range};
use crate::bounding_box::{
    BoundingBox, spec_box_hit, spec_box_union, box_encloses, lemma_box_hit_monotone,
};
use crate::object::{
    Object, HitRecord, obj_wf, hit_props, spec_obj_hit, spec_seq_hit, closer_hit,
    challenge_hit, spec_obj_bbox,
};
use crate::utils::random_u32;

verus! {

broadcast use group_to_multiset_ensures, lemma_multiset_commutative,
    vstd::seq::axiom_seq_index_decreases, vstd::seq::axiom_seq_subrange_decreases;

/// An internal node: two children, and the cached union of their
/// boxes, computed once at construction.
pub struct BvhNode {
    pub left: Object,
    pub right: Object,
    pub bbox: BoundingBox,
}

/// The primitive objects a subtree holds, left to right; a hierarchy
/// node contributes its children's leaves, anything else is its own
/// single leaf.
pub open spec fn leaves(o: Object) -> Seq<Object>
    decreases o,
{
    match o {
        Object::Node(n) => leaves(n.left) + leaves(n.right),
        _ => seq![o],
    }
}

/// The leaves of every object of a collection, in order: what a
/// hierarchy built over the collection holds, with any pre-built
/// subtrees flattened.
pub open spec fn seq_leaves(s: Seq<Object>) -> Seq<Object>
    decreases s.len(),
{
    if s.len() == 0 {
        Seq::empty()
    } else {
        seq_leaves(s.drop_last()) + leaves(s.last())
    }
}

/// A coherent object exposes a box, whatever its kind.
proof fn lemma_coherent_has_box(o: Object)
    requires
        boxes_coherent(o),
    ensures
        spec_obj_bbox(o).is_some(),
{
}

/// A sequence with nothing in it turns into the empty multiset.
proof fn lemma_empty_seq_multiset(s: Seq<Object>)
    requires
        s.len() == 0,
    ensures
        s.to_multiset() =~= Multiset::<Object>::empty(),
{
    s.to_multiset_ensures();
}

/// Flattening distributes over concatenation, up to multiset.
proof fn lemma_seq_leaves_append(a: Seq<Object>, b: Seq<Object>)
    ensures
        seq_leaves(a + b).to_multiset() == seq_leaves(a).to_multiset().add(
            seq_leaves(b).to_multiset()),
    decreases b.len(),
{
    if b.len() == 0 {
        assert(a + b =~= a);
        lemma_empty_seq_multiset(seq_leaves(b));
        assert(seq_leaves(a).to_multiset().add(seq_leaves(b).to_multiset()) =~= seq_leaves(
            a).to_multiset());
    } else {
        lemma_seq_leaves_append(a, b.drop_last());
        assert((a + b).drop_last() =~= a + b.drop_last());
        assert((a + b).last() == b.last());
        assert(seq_leaves(a + b) == seq_leaves(a + b.drop_last()) + leaves(b.last()));
        lemma_multiset_commutative(seq_leaves(a + b.drop_last()), leaves(b.last()));
        lemma_multiset_commutative(seq_leaves(b.drop_last()), leaves(b.last()));
        assert(seq_leaves(b) == seq_leaves(b.drop_last()) + leaves(b.last()));
        assert(seq_leaves(a + b).to_multiset() =~= seq_leaves(a).to_multiset().add(
            seq_leaves(b).to_multiset()));
    }
}

/// Flattening after taking one element out: the whole's flattened
/// multiset is the rest's plus the element's leaves.
proof fn lemma_seq_leaves_remove(s: Seq<Object>, j: int)
    requires
        0 <= j < s.len(),
    ensures
        seq_leaves(s).to_multiset() == seq_leaves(s.remove(j)).to_multiset().add(
            leaves(s[j]).to_multiset()),
    decreases s.len(),
{
    if j == s.len() - 1 {
        assert(s.remove(j) =~= s.drop_last());
        lemma_multiset_commutative(seq_leaves(s.drop_last()), leaves(s.last()));
    } else {
        lemma_seq_leaves_remove(s.drop_last(), j);
        assert(s.remove(j).drop_last() =~= s.drop_last().remove(j));
        assert(s.remove(j).last() == s.last());
        assert(seq_leaves(s.remove(j)) == seq_leaves(s.drop_last().remove(j)) + leaves(s.last()));
        lemma_multiset_commutative(seq_leaves(s.drop_last().remove(j)), leaves(s.last()));
        lemma_multiset_commutative(seq_leaves(s.drop_last()), leaves(s.last()));
        assert(seq_leaves(s).to_multiset() =~= seq_leaves(s.remove(j)).to_multiset().add(
            leaves(s[j]).to_multiset()));
    }
}

/// Collections holding the same objects flatten to the same leaves,
/// up to multiset: ordering the collection does not change what the
/// tree will hold.
proof fn lemma_seq_leaves_permutation(s1: Seq<Object>, s2: Seq<Object>)
    requires
        s1.to_multiset() == s2.to_multiset(),
    ensures
        seq_leaves(s1).to_multiset() == seq_leaves(s2).to_multiset(),
    decreases s1.len(),
{
    s1.to_multiset_ensures();
    s2.to_multiset_ensures();
    if s1.len() == 0 {
        assert(s2.len() == 0);
    } else {
        let x = s1.last();
        assert(s1.contains(x));
        assert(s2.to_multiset().count(x) > 0);
        assert(s2.contains(x));
        let j = choose|j: int| 0 <= j < s2.len() && s2[j] == x;
        assert(s1 =~= s1.drop_last().push(x));
        assert(s1.drop_last().push(x).to_multiset() =~= s1.drop_last().to_multiset().insert(x));
        assert(s2.remove(j).to_multiset() =~= s2.to_multiset().remove(x));
        assert(s1.drop_last().to_multiset() =~= s2.remove(j).to_multiset()) by {
            assert forall|y: Object|
                s1.drop_last().to_multiset().count(y) == s2.remove(
                    j).to_multiset().count(y) by {
                if y == x {
                } else {
                }
            }
        }
        lemma_seq_leaves_permutation(s1.drop_last(), s2.remove(j));
        lemma_seq_leaves_remove(s2, j);
        lemma_multiset_commutative(seq_leaves(s1.drop_last()), leaves(x));
        assert(seq_leaves(s1) == seq_leaves(s1.drop_last()) + leaves(x));
        assert(seq_leaves(s1).to_multiset() =~= seq_leaves(s2).to_multiset());
    }
}

/// The parameter of an optional hit.
pub open spec fn hit_t(r: Option<HitRecord>) -> Option<i64> {
    match r {
        Some(h) => Some(h.t),
        None => None,
    }
}

/// An optional hit lies at or beyond a parameter.
pub open spec fn t_below(r: Option<HitRecord>, t: i64) -> bool {
    match r {
        Some(h) => t <= h.t,
        None => true,
    }
}

/// An optional hit lies exactly at a parameter.
pub open spec fn t_exact(r: Option<HitRecord>, t: i64) -> bool {
    match r {
        Some(h) => h.t == t,
        None => false,
    }
}

/// No object of the collection is hit within the window.
pub open spec fn none_hit(objs: Seq<Object>, ray: Ray, t_min: int, t_max: int) -> bool {
    forall|i: int|
        0 <= i < objs.len() ==> (#[trigger] spec_obj_hit(objs[i], ray, t_min, t_max)) is None
}

/// Some object of the collection is hit exactly at `t`.
pub open spec fn some_hit_at(objs: Seq<Object>, ray: Ray, t_min: int, t_max: int, t: i64) -> bool {
    exists|i: int|
        0 <= i < objs.len() && t_exact(#[trigger] spec_obj_hit(objs[i], ray, t_min, t_max), t)
}

/// Every hit object of the collection is hit at or beyond `t`.
pub open spec fn all_hits_below(
    objs: Seq<Object>,
    ray: Ray,
    t_min: int,
    t_max: int,
    t: i64,
) -> bool {
    forall|i: int|
        0 <= i < objs.len() ==> t_below(#[trigger] spec_obj_hit(objs[i], ray, t_min, t_max), t)
}

/// The result is the nearest hit of the collection: absent exactly
/// when nothing is hit, else at the smallest parameter any object is
/// hit at.
pub open spec fn is_best(
    objs: Seq<Object>,
    ray: Ray,
    t_min: int,
    t_max: int,
    res: Option<HitRecord>,
) -> bool {
    match res {
        None => none_hit(objs, ray, t_min, t_max),
        Some(h) => some_hit_at(objs, ray, t_min, t_max, h.t) && all_hits_below(
            objs, ray, t_min, t_max, h.t),
    }
}

/// Every node of a subtree caches exactly the union of its children's
/// boxes, and every leaf exposes a box: the shape the construction
/// guarantees for the whole tree.
pub open spec fn boxes_coherent(o: Object) -> bool
    decreases o,
{
    match o {
        Object::Node(n) => {
            &&& (spec_obj_bbox(n.left) matches Some(bl) && spec_obj_bbox(n.right) matches Some(br)
                && n.bbox == spec_box_union(bl, br))
            &&& boxes_coherent(n.left)
            &&& boxes_coherent(n.right)
        },
        _ => spec_obj_bbox(o).is_some(),
    }
}

/// In a coherent tree, every node's box encloses the box of every
/// leaf below it: unions only grow upward.
pub proof fn lemma_leaf_box_enclosed(o: Object, i: int)
    requires
        boxes_coherent(o),
        0 <= i < leaves(o).len(),
    ensures
        spec_obj_bbox(o).is_some(),
        spec_obj_bbox(leaves(o)[i]).is_some(),
        box_encloses(spec_obj_bbox(o)->Some_0, spec_obj_bbox(leaves(o)[i])->Some_0),
    decreases o,
{
    match o {
        Object::Node(n) => {
            let la = leaves(n.left);
            let lb = leaves(n.right);
            assert(leaves(o) == la + lb);
            if i < la.len() {
                lemma_leaf_box_enclosed(n.left, i);
                assert(leaves(o)[i] == la[i]);
            } else {
                lemma_leaf_box_enclosed(n.right, i - la.len());
                assert(leaves(o)[i] == lb[i - la.len()]);
            }
        },
        _ => {
            assert(leaves(o) =~= seq![o]);
        },
    }
}

/// Every hit leaf's own cached box passes the slab test for the ray:
/// the one numeric fact pruning soundness rests on. Exact real
/// arithmetic makes it a theorem for boxes that enclose their
/// spheres; under fixed-point rounding a tangentially grazed sphere
/// can report a root whose slab interval has rounded empty (for one,
/// a sphere of radius 31 raw units at (-131701, 32, -1), queried from
/// (-262144, 0, 0) along (8109, 2, 2)), so it stays a hypothesis.
pub open spec fn leaf_boxes_sound(o: Object, ray: Ray, t_min: int, t_max: int) -> bool {
    forall|i: int|
        0 <= i < leaves(o).len() ==> ((#[trigger] spec_obj_hit(
            leaves(o)[i], ray, t_min, t_max)) is Some ==> spec_obj_bbox(leaves(o)[i]).is_some()
            && spec_box_hit(spec_obj_bbox(leaves(o)[i])->Some_0, ray, t_min, t_max))
}

/// The node boxes of a subtree prune soundly for a ray and window: a
/// node whose box the slab test rejects holds no object the ray hits.
/// A coherent tree prunes soundly whenever its hit leaves' own boxes
/// pass the slab test; only that per-leaf fact is left open.
pub open spec fn prune_sound(o: Object, ray: Ray, t_min: int, t_max: int) -> bool
    decreases o,
{
    match o {
        Object::Node(n) => {
            &&& !spec_box_hit(n.bbox, ray, t_min, t_max) ==> none_hit(leaves(o), ray, t_min, t_max)
            &&& prune_sound(n.left, ray, t_min, t_max)
            &&& prune_sound(n.right, ray, t_min, t_max)
        },
        _ => true,
    }
}

/// Coherent boxes prune soundly, given the per-leaf slab fact: a box
/// the ray misses encloses only leaf boxes the ray misses, hence only
/// unhit leaves.
pub proof fn lemma_coherent_prune_sound(o: Object, ray: Ray, t_min: int, t_max: int)
    requires
        boxes_coherent(o),
        leaf_boxes_sound(o, ray, t_min, t_max),
    ensures
        prune_sound(o, ray, t_min, t_max),
    decreases o,
{
    match o {
        Object::Node(n) => {
            let la = leaves(n.left);
            let lb = leaves(n.right);
            assert(leaves(o) == la + lb);
            assert(forall|i: int| 0 <= i < la.len() ==> (la + lb)[i] == #[trigger] la[i]);
            assert(forall|i: int|
                0 <= i < lb.len() ==> (la + lb)[i + la.len()] == #[trigger] lb[i]);
            assert(leaf_boxes_sound(n.left, ray, t_min, t_max));
            assert(leaf_boxes_sound(n.right, ray, t_min, t_max));
            lemma_coherent_prune_sound(n.left, ray, t_min, t_max);
            lemma_coherent_prune_sound(n.right, ray, t_min, t_max);
            if !spec_box_hit(n.bbox, ray, t_min, t_max) {
                assert forall|i: int| 0 <= i < leaves(o).len() implies (#[trigger] spec_obj_hit(
                    leaves(o)[i], ray, t_min, t_max)) is None by {
                    if spec_obj_hit(leaves(o)[i], ray, t_min, t_max) is Some {
                        lemma_leaf_box_enclosed(o, i);
                        lemma_box_hit_monotone(
                            n.bbox, spec_obj_bbox(leaves(o)[i])->Some_0, ray, t_min, t_max);
                    }
                }
            }
        },
        _ => {},
    }
}

/// Coherent boxes, the per-leaf slab fact and the same objects give
/// the unconditional equivalence of a hierarchy query with a linear
/// scan.
pub proof fn lemma_coherent_bvh_matches_scan(
    o: Object,
    objs: Seq<Object>,
    ray: Ray,
    t_min: int,
    t_max: int,
)
    requires
        boxes_coherent(o),
        leaf_boxes_sound(o, ray, t_min, t_max),
        leaves(o).to_multiset() == objs.to_multiset(),
    ensures
        hit_t(spec_obj_hit(o, ray, t_min, t_max)) == hit_t(spec_seq_hit(objs, ray, t_min, t_max)),
{
    lemma_coherent_prune_sound(o, ray, t_min, t_max);
    lemma_bvh_matches_scan(o, objs, ray, t_min, t_max);
}

/// A linear scan reports the nearest hit of its collection.
pub proof fn lemma_seq_hit_is_best(s: Seq<Object>, ray: Ray, t_min: int, t_max: int)
    ensures
        is_best(s, ray, t_min, t_max, spec_seq_hit(s, ray, t_min, t_max)),
    decreases s.len(),
{
    if s.len() == 0 {
    } else {
        let pre = s.drop_last();
        lemma_seq_hit_is_best(pre, ray, t_min, t_max);
        let best = spec_seq_hit(pre, ray, t_min, t_max);
        let cand = spec_obj_hit(s.last(), ray, t_min, t_max);
        let res = challenge_hit(best, cand);
        assert(forall|i: int| 0 <= i < pre.len() ==> pre[i] == s[i]);
        match res {
            None => {
                assert(none_hit(s, ray, t_min, t_max));
            },
            Some(h) => {
                if t_exact(cand, h.t) && (best is None || !t_exact(best, h.t)) {
                    assert(t_exact(spec_obj_hit(s[s.len() - 1], ray, t_min, t_max), h.t));
                } else {
                    let i = choose|i: int|
                        0 <= i < pre.len() && t_exact(
                            #[trigger] spec_obj_hit(pre[i], ray, t_min, t_max), h.t);
                    assert(t_exact(spec_obj_hit(s[i], ray, t_min, t_max), h.t));
                }
                assert(all_hits_below(s, ray, t_min, t_max, h.t));
            },
        }
    }
}

/// The nearer of the nearest hits of two collections is the nearest
/// hit of their concatenation.
proof fn lemma_closer_is_best(
    a: Seq<Object>,
    b: Seq<Object>,
    ray: Ray,
    t_min: int,
    t_max: int,
    ra: Option<HitRecord>,
    rb: Option<HitRecord>,
)
    requires
        is_best(a, ray, t_min, t_max, ra),
        is_best(b, ray, t_min, t_max, rb),
    ensures
        is_best(a + b, ray, t_min, t_max, closer_hit(ra, rb)),
{
    let s = a + b;
    let res = closer_hit(ra, rb);
    assert(forall|i: int| 0 <= i < a.len() ==> s[i] == a[i]);
    assert(forall|i: int| a.len() <= i < s.len() ==> s[i] == b[i - a.len()]);
    match res {
        None => {
            assert(none_hit(s, ray, t_min, t_max));
        },
        Some(h) => {
            if t_exact(ra, h.t) {
                let i = choose|i: int|
                    0 <= i < a.len() && t_exact(
                        #[trigger] spec_obj_hit(a[i], ray, t_min, t_max), h.t);
                assert(t_exact(spec_obj_hit(s[i], ray, t_min, t_max), h.t));
            } else {
                let i = choose|i: int|
                    0 <= i < b.len() && t_exact(
                        #[trigger] spec_obj_hit(b[i], ray, t_min, t_max), h.t);
                assert(t_exact(spec_obj_hit(s[i + a.len()], ray, t_min, t_max), h.t));
            }
            assert(all_hits_below(s, ray, t_min, t_max, h.t));
        },
    }
}

/// A query of any object reports the nearest hit among its leaves,
/// whenever its node boxes prune soundly for the ray.
pub proof fn lemma_obj_hit_is_best(o: Object, ray: Ray, t_min: int, t_max: int)
    requires
        prune_sound(o, ray, t_min, t_max),
    ensures
        is_best(leaves(o), ray, t_min, t_max, spec_obj_hit(o, ray, t_min, t_max)),
    decreases o,
{
    match o {
        Object::Node(n) => {
            if spec_box_hit(n.bbox, ray, t_min, t_max) {
                lemma_obj_hit_is_best(n.left, ray, t_min, t_max);
                lemma_obj_hit_is_best(n.right, ray, t_min, t_max);
                lemma_closer_is_best(
                    leaves(n.left), leaves(n.right), ray, t_min, t_max,
                    spec_obj_hit(n.left, ray, t_min, t_max),
                    spec_obj_hit(n.right, ray, t_min, t_max),
                );
            }
        },
        _ => {
            assert(leaves(o) =~= seq![o]);
            let res = spec_obj_hit(o, ray, t_min, t_max);
            match res {
                None => {},
                Some(h) => {
                    assert(t_exact(spec_obj_hit(leaves(o)[0], ray, t_min, t_max), h.t));
                },
            }
        },
    }
}

/// Collections holding the same objects have the same nearest hits.
proof fn lemma_best_same_multiset(
    s1: Seq<Object>,
    s2: Seq<Object>,
    ray: Ray,
    t_min: int,
    t_max: int,
    r1: Option<HitRecord>,
    r2: Option<HitRecord>,
)
    requires
        s1.to_multiset() == s2.to_multiset(),
        is_best(s1, ray, t_min, t_max, r1),
        is_best(s2, ray, t_min, t_max, r2),
    ensures
        hit_t(r1) == hit_t(r2),
{
    match (r1, r2) {
        (None, None) => {},
        (None, Some(h)) => {
            lemma_hit_transfers(s2, s1, ray, t_min, t_max, h.t);
            assert(false);
        },
        (Some(h), None) => {
            lemma_hit_transfers(s1, s2, ray, t_min, t_max, h.t);
            assert(false);
        },
        (Some(h1), Some(h2)) => {
            lemma_hit_transfers(s1, s2, ray, t_min, t_max, h1.t);
            lemma_hit_transfers(s2, s1, ray, t_min, t_max, h2.t);
            let j1 = choose|i: int|
                0 <= i < s2.len() && t_exact(
                    #[trigger] spec_obj_hit(s2[i], ray, t_min, t_max), h1.t);
            let j2 = choose|i: int|
                0 <= i < s1.len() && t_exact(
                    #[trigger] spec_obj_hit(s1[i], ray, t_min, t_max), h2.t);
            assert(h2.t <= h1.t);
            assert(h1.t <= h2.t);
        },
    }
}

/// A hit at `t` in one collection appears in any collection holding
/// the same objects.
proof fn lemma_hit_transfers(s1: Seq<Object>, s2: Seq<Object>, ray: Ray, t_min: int, t_max: int, t: i64)
    requires
        s1.to_multiset() == s2.to_multiset(),
        some_hit_at(s1, ray, t_min, t_max, t),
    ensures
        some_hit_at(s2, ray, t_min, t_max, t),
{
    let i = choose|i: int|
        0 <= i < s1.len() && t_exact(#[trigger] spec_obj_hit(s1[i], ray, t_min, t_max), t);
    let x = s1[i];
    s1.to_multiset_ensures();
    s2.to_multiset_ensures();
    assert(s1.contains(x));
    assert(s1.to_multiset().count(x) > 0);
    assert(s2.contains(x));
    let j = choose|j: int| 0 <= j < s2.len() && s2[j] == x;
    assert(t_exact(spec_obj_hit(s2[j], ray, t_min, t_max), t));
}

/// The law the hierarchy answers to: querying any tree whose boxes
/// prune soundly for a ray reports the same hit parameter as a linear
/// scan over the same objects in any order.
pub proof fn lemma_bvh_matches_scan(o: Object, objs: Seq<Object>, ray: Ray, t_min: int, t_max: int)
    requires
        prune_sound(o, ray, t_min, t_max),
        leaves(o).to_multiset() == objs.to_multiset(),
    ensures
        hit_t(spec_obj_hit(o, ray, t_min, t_max)) == hit_t(spec_seq_hit(objs, ray, t_min, t_max)),
{
    lemma_obj_hit_is_best(o, ray, t_min, t_max);
    lemma_seq_hit_is_best(objs, ray, t_min, t_max);
    lemma_best_same_multiset(
        leaves(o), objs, ray, t_min, t_max,
        spec_obj_hit(o, ray, t_min, t_max),
        spec_seq_hit(objs, ray, t_min, t_max),
    );
}

/// The minimum coordinate of an object's box along a chosen axis, the
/// key the construction orders by.
fn axis_key(o: &Object, axis: u32) -> i64
    requires
        spec_obj_bbox(*o).is_some(),
{
    match o.bounding_box() {
        Some(b) => {
            if axis == 0 {
                b.min.x
            } else if axis == 1 {
                b.min.y
            } else {
                b.min.z
            }
        },
        None => 0,
    }
}

/// Whether the object at `a` orders strictly after the one at `b`
/// along the axis.
fn key_gt(v: &Vec<Object>, a: usize, b: usize, axis: u32) -> bool
    requires
        a < v@.len(),
        b < v@.len(),
        spec_obj_bbox(v@[a as int]).is_some(),
        spec_obj_bbox(v@[b as int]).is_some(),
{
    let ka = axis_key(&v[a], axis);
    let kb = axis_key(&v[b], axis);
    ka > kb
}

impl BvhNode {
    /// Build a hierarchy over at least two boxed objects: order them
    /// by box position along a random axis, split by count, build the
    /// halves, and cache the union of the children's boxes. The tree
    /// holds exactly the given objects.
    pub fn new(objects: Vec<Object>) -> (r: BvhNode)
        requires
            objects@.len() >= 2,
            forall|i: int| 0 <= i < objects@.len() ==> obj_wf(#[trigger] objects@[i]),
            forall|i: int| 0 <= i < objects@.len() ==> boxes_coherent(#[trigger] objects@[i]),
        ensures
            obj_wf(r.left),
            obj_wf(r.right),
            boxes_coherent(r.left),
            boxes_coherent(r.right),
            spec_obj_bbox(r.left).is_some(),
            spec_obj_bbox(r.right).is_some(),
            (leaves(r.left) + leaves(r.right)).to_multiset() == seq_leaves(objects@).to_multiset(),
            (spec_obj_bbox(r.left) matches Some(bl) && spec_obj_bbox(r.right) matches Some(br)
                && r.bbox == spec_box_union(bl, br)),
        decreases objects@.len(),
    {
        let ghost orig = objects@;
        let mut arr = objects;
        let axis: u32 = random_u32() % 3;
        proof {
            assert forall|k: int| 0 <= k < arr@.len() implies (#[trigger] spec_obj_bbox(
                arr@[k])).is_some() by {
                lemma_coherent_has_box(arr@[k]);
            }
        }
        let mut i: usize = 1;
        while i < arr.len()
            invariant
                arr@.to_multiset() == orig.to_multiset(),
                arr@.len() == orig.len(),
                orig.len() >= 2,
                forall|k: int| 0 <= k < arr@.len() ==> obj_wf(#[trigger] arr@[k]),
                forall|k: int| 0 <= k < arr@.len() ==> boxes_coherent(#[trigger] arr@[k]),
                forall|k: int| 0 <= k < arr@.len() ==> (#[trigger] spec_obj_bbox(arr@[k])).is_some(),
                1 <= i,
            decreases arr@.len() - i,
        {
            let mut j: usize = i;
            while j > 0 && key_gt(&arr, j - 1, j, axis)
                invariant
                    arr@.to_multiset() == orig.to_multiset(),
                    arr@.len() == orig.len(),
                    forall|k: int| 0 <= k < arr@.len() ==> obj_wf(#[trigger] arr@[k]),
                    forall|k: int| 0 <= k < arr@.len() ==> boxes_coherent(#[trigger] arr@[k]),
                    forall|k: int|
                        0 <= k < arr@.len() ==> (#[trigger] spec_obj_bbox(arr@[k])).is_some(),
                    j <= i < arr@.len(),
                decreases j,
            {
                let ghost before = arr@;
                let x = arr.remove(j);
                arr.insert(j - 1, x);
                proof {
                    assert(arr@.to_multiset() =~= before.to_multiset());
                    assert(forall|k: int| 0 <= k < arr@.len() ==> obj_wf(#[trigger] arr@[k]));
                }
                j = j - 1;
            }
            i = i + 1;
        }
        let (left, right): (Object, Object) = if arr.len() == 2 {
            let ghost two = arr@;
            proof {
                lemma_seq_leaves_permutation(two, orig);
            }
            let right = arr.pop().unwrap();
            let left = arr.pop().unwrap();
            proof {
                assert(two.drop_last() =~= seq![left]);
                assert(seq_leaves(two) == seq_leaves(seq![left]) + leaves(right));
                assert(seq![left].drop_last() =~= Seq::<Object>::empty());
                assert(seq_leaves(seq![left]) == seq_leaves(Seq::<Object>::empty()) + leaves(left));
                assert(seq_leaves(seq![left]) =~= leaves(left));
                assert(seq_leaves(two) =~= leaves(left) + leaves(right));
            }
            (left, right)
        } else if arr.len() == 3 {
            let ghost three = arr@;
            proof {
                lemma_seq_leaves_permutation(three, orig);
            }
            let right = arr.pop().unwrap();
            let ghost rest = arr@;
            let left_node = BvhNode::new(arr);
            let left = Object::Node(Box::new(left_node));
            proof {
                assert(leaves(left) =~= leaves(left_node.left) + leaves(left_node.right));
                assert(leaves(left).to_multiset() == seq_leaves(rest).to_multiset());
                assert(three.drop_last() =~= rest);
                assert(seq_leaves(three) == seq_leaves(rest) + leaves(right));
                lemma_multiset_commutative(seq_leaves(rest), leaves(right));
                lemma_multiset_commutative(leaves(left), leaves(right));
                assert((leaves(left) + leaves(right)).to_multiset() =~= seq_leaves(
                    three).to_multiset());
                assert(boxes_coherent(left));
            }
            (left, right)
        } else {
            let ghost whole = arr@;
            proof {
                lemma_seq_leaves_permutation(whole, orig);
            }
            let n = arr.len();
            let back = arr.split_off(n / 2);
            let ghost part_l = arr@;
            let ghost part_r = back@;
            proof {
                assert(whole =~= part_l + part_r);
                lemma_seq_leaves_append(part_l, part_r);
            }
            let left_node = BvhNode::new(arr);
            let right_node = BvhNode::new(back);
            let left = Object::Node(Box::new(left_node));
            let right = Object::Node(Box::new(right_node));
            proof {
                assert(leaves(left) =~= leaves(left_node.left) + leaves(left_node.right));
                assert(leaves(right) =~= leaves(right_node.left) + leaves(right_node.right));
                lemma_multiset_commutative(leaves(left), leaves(right));
                assert((leaves(left) + leaves(right)).to_multiset() =~= seq_leaves(
                    whole).to_multiset());
                assert(boxes_coherent(left));
                assert(boxes_coherent(right));
            }
            (left, right)
        };
        let lb: BoundingBox = match left.bounding_box() {
            Some(b) => *b,
            None => BoundingBox { min: zero_vec3(), max: zero_vec3() },
        };
        let rb: BoundingBox = match right.bounding_box() {
            Some(b) => *b,
            None => BoundingBox { min: zero_vec3(), max: zero_vec3() },
        };
        let bbox = BoundingBox::containing_box(&lb, &rb);
        BvhNode { left, right, bbox }
    }

    /// Intersect a ray with the subtree: nothing if the ray misses the
    /// node's box, else the nearer of the two children's hits, both
    /// queried with the caller's window.
    pub fn hit(&self, ray: &Ray, t_min: i64, t_max: i64) -> (r: Option<HitRecord>)
        requires
            obj_wf(self.left),
            obj_wf(self.right),
            ray_in_range(*ray),
        ensures
            r == (if spec_box_hit(self.bbox, *ray, t_min as int, t_max as int) {
                closer_hit(
                    spec_obj_hit(self.left, *ray, t_min as int, t_max as int),
                    spec_obj_hit(self.right, *ray, t_min as int, t_max as int),
                )
            } else {
                None
            }),
            r matches Some(h) ==> hit_props(h, *ray, t_min as int, t_max as int)
                && crate::material::material_wf(h.material),
        decreases *self,
    {
        if self.bbox.hit(ray, t_min, t_max) {
            let left_rec = self.left.hit(ray, t_min, t_max);
            let right_rec = self.right.hit(ray, t_min, t_max);
            match (left_rec, right_rec) {
                (Some(l), Some(rr)) => if l.t < rr.t {
                    Some(l)
                } else {
                    Some(rr)
                },
                (Some(l), None) => Some(l),
                (None, Some(rr)) => Some(rr),
                (None, None) => None,
            }
        } else {
            None
        }
    }

    /// The cached bounding box.
    pub fn bounding_box(&self) -> (r: Option<&BoundingBox>)
        ensures
            r.is_some(),
            r matches Some(b) ==> *b == self.bbox,
    {
        Some(&self.bbox)
    }
}

/// The zero vector, for a branch construction can never reach.
fn zero_vec3() -> (r: crate::vec3::Vec3)
    ensures
        r == (crate::vec3::Vec3 { x: 0i64, y: 0i64, z: 0i64 }),
{
    crate::vec3::Vec3 { x: 0, y: 0, z: 0 }
}

} // verus!
