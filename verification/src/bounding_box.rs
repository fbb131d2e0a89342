//! Axis-aligned bounding boxes and the slab intersection test.

use vstd::prelude::*;
use crate::fixed::{SCALE, tdiv, imin, imax, lemma_tdiv_mono, lemma_tdiv_exact};
use crate::ray::Ray;
use crate::vec3::Vec3;

verus! {

/// An axis-aligned box, given by its low and high corners.
#[derive(Clone, Copy, PartialEq, Eq, Structural)]
pub struct BoundingBox {
    pub min: Vec3,
    pub max: Vec3,
}

/// The smallest box containing two boxes, as a value.
pub open spec fn spec_box_union(a: BoundingBox, b: BoundingBox) -> BoundingBox {
    BoundingBox {
        min: Vec3 {
            x: imin(a.min.x as int, b.min.x as int) as i64,
            y: imin(a.min.y as int, b.min.y as int) as i64,
            z: imin(a.min.z as int, b.min.z as int) as i64,
        },
        max: Vec3 {
            x: imax(a.max.x as int, b.max.x as int) as i64,
            y: imax(a.max.y as int, b.max.y as int) as i64,
            z: imax(a.max.z as int, b.max.z as int) as i64,
        },
    }
}

/// On an axis the ray runs parallel to, the box is missed outright
/// when the origin lies outside the slab.
pub open spec fn axis_out(bmin: int, bmax: int, o: int, d: int) -> bool {
    d == 0 && (o < bmin || o > bmax)
}

/// The parameter at which the ray enters the slab of one axis
/// (meaningful only for `d != 0`).
pub open spec fn slab_lo(bmin: int, bmax: int, o: int, d: int) -> int {
    if d > 0 {
        tdiv((bmin - o) * SCALE, d)
    } else {
        tdiv((o - bmax) * SCALE, -d)
    }
}

/// The parameter at which the ray leaves the slab of one axis
/// (meaningful only for `d != 0`).
pub open spec fn slab_hi(bmin: int, bmax: int, o: int, d: int) -> int {
    if d > 0 {
        tdiv((bmax - o) * SCALE, d)
    } else {
        tdiv((o - bmin) * SCALE, -d)
    }
}

/// The lower interval bound an axis contributes: its slab entry, or
/// the incoming bound unchanged when the ray runs parallel.
pub open spec fn axis_lo(bmin: int, bmax: int, o: int, d: int, t_min: int) -> int {
    if d == 0 {
        t_min
    } else {
        slab_lo(bmin, bmax, o, d)
    }
}

/// The upper interval bound an axis contributes.
pub open spec fn axis_hi(bmin: int, bmax: int, o: int, d: int, t_max: int) -> int {
    if d == 0 {
        t_max
    } else {
        slab_hi(bmin, bmax, o, d)
    }
}

/// The slab test: the ray meets the box within `(t_min, t_max)` when
/// no parallel axis rules it out and the three per-axis parameter
/// intervals, narrowed into the given window, stay nonempty.
pub open spec fn spec_box_hit(bb: BoundingBox, r: Ray, t_min: int, t_max: int) -> bool {
    let o = r.origin;
    let d = r.dir;
    let lo = imax(
        imax(
            imax(t_min, axis_lo(bb.min.x as int, bb.max.x as int, o.x as int, d.x as int, t_min)),
            axis_lo(bb.min.y as int, bb.max.y as int, o.y as int, d.y as int, t_min),
        ),
        axis_lo(bb.min.z as int, bb.max.z as int, o.z as int, d.z as int, t_min),
    );
    let hi = imin(
        imin(
            imin(t_max, axis_hi(bb.min.x as int, bb.max.x as int, o.x as int, d.x as int, t_max)),
            axis_hi(bb.min.y as int, bb.max.y as int, o.y as int, d.y as int, t_max),
        ),
        axis_hi(bb.min.z as int, bb.max.z as int, o.z as int, d.z as int, t_max),
    );
    &&& !axis_out(bb.min.x as int, bb.max.x as int, o.x as int, d.x as int)
    &&& !axis_out(bb.min.y as int, bb.max.y as int, o.y as int, d.y as int)
    &&& !axis_out(bb.min.z as int, bb.max.z as int, o.z as int, d.z as int)
    &&& lo < hi
}

impl BoundingBox {
    pub fn new(min: Vec3, max: Vec3) -> (r: BoundingBox)
        ensures
            r.min == min,
            r.max == max,
    {
        BoundingBox { min, max }
    }

    /// The smallest box containing both arguments: componentwise
    /// minima and maxima of the corners.
    pub fn containing_box(box0: &BoundingBox, box1: &BoundingBox) -> (r: BoundingBox)
        ensures
            r.min.x == imin(box0.min.x as int, box1.min.x as int),
            r.min.y == imin(box0.min.y as int, box1.min.y as int),
            r.min.z == imin(box0.min.z as int, box1.min.z as int),
            r.max.x == imax(box0.max.x as int, box1.max.x as int),
            r.max.y == imax(box0.max.y as int, box1.max.y as int),
            r.max.z == imax(box0.max.z as int, box1.max.z as int),
            r == spec_box_union(*box0, *box1),
    {
        let min = Vec3 {
            x: if box0.min.x < box1.min.x { box0.min.x } else { box1.min.x },
            y: if box0.min.y < box1.min.y { box0.min.y } else { box1.min.y },
            z: if box0.min.z < box1.min.z { box0.min.z } else { box1.min.z },
        };
        let max = Vec3 {
            x: if box0.max.x > box1.max.x { box0.max.x } else { box1.max.x },
            y: if box0.max.y > box1.max.y { box0.max.y } else { box1.max.y },
            z: if box0.max.z > box1.max.z { box0.max.z } else { box1.max.z },
        };
        BoundingBox { min, max }
    }

    /// The slab test, narrowing a running parameter interval axis by
    /// axis and giving up as soon as it empties.
    #[verifier::rlimit(60)]
    pub fn hit(&self, ray: &Ray, t_min: i64, t_max: i64) -> (r: bool)
        ensures
            r == spec_box_hit(*self, *ray, t_min as int, t_max as int),
    {
        let mut lo: i128 = t_min as i128;
        let mut hi: i128 = t_max as i128;

        let d = ray.dir.x;
        let o = ray.origin.x;
        if d == 0 {
            if o < self.min.x || o > self.max.x {
                return false;
            }
            if hi <= lo {
                return false;
            }
        } else {
            let den: i128 = if d > 0 { d as i128 } else { -(d as i128) };
            let n0: i128 = if d > 0 {
                self.min.x as i128 - o as i128
            } else {
                o as i128 - self.max.x as i128
            };
            let n1: i128 = if d > 0 {
                self.max.x as i128 - o as i128
            } else {
                o as i128 - self.min.x as i128
            };
            let t0: i128 = n0 * 65536 / den;
            let t1: i128 = n1 * 65536 / den;
            if t0 > lo {
                lo = t0;
            }
            if t1 < hi {
                hi = t1;
            }
            if hi <= lo {
                return false;
            }
        }

        let d = ray.dir.y;
        let o = ray.origin.y;
        if d == 0 {
            if o < self.min.y || o > self.max.y {
                return false;
            }
            if hi <= lo {
                return false;
            }
        } else {
            let den: i128 = if d > 0 { d as i128 } else { -(d as i128) };
            let n0: i128 = if d > 0 {
                self.min.y as i128 - o as i128
            } else {
                o as i128 - self.max.y as i128
            };
            let n1: i128 = if d > 0 {
                self.max.y as i128 - o as i128
            } else {
                o as i128 - self.min.y as i128
            };
            let t0: i128 = n0 * 65536 / den;
            let t1: i128 = n1 * 65536 / den;
            if t0 > lo {
                lo = t0;
            }
            if t1 < hi {
                hi = t1;
            }
            if hi <= lo {
                return false;
            }
        }

        let d = ray.dir.z;
        let o = ray.origin.z;
        if d == 0 {
            if o < self.min.z || o > self.max.z {
                return false;
            }
            if hi <= lo {
                return false;
            }
        } else {
            let den: i128 = if d > 0 { d as i128 } else { -(d as i128) };
            let n0: i128 = if d > 0 {
                self.min.z as i128 - o as i128
            } else {
                o as i128 - self.max.z as i128
            };
            let n1: i128 = if d > 0 {
                self.max.z as i128 - o as i128
            } else {
                o as i128 - self.min.z as i128
            };
            let t0: i128 = n0 * 65536 / den;
            let t1: i128 = n1 * 65536 / den;
            if t0 > lo {
                lo = t0;
            }
            if t1 < hi {
                hi = t1;
            }
            if hi <= lo {
                return false;
            }
        }

        true
    }
}

/// One box contains the other.
pub open spec fn box_encloses(outer: BoundingBox, inner: BoundingBox) -> bool {
    &&& outer.min.x <= inner.min.x
    &&& outer.min.y <= inner.min.y
    &&& outer.min.z <= inner.min.z
    &&& inner.max.x <= outer.max.x
    &&& inner.max.y <= outer.max.y
    &&& inner.max.z <= outer.max.z
}

/// One axis of the monotonicity argument: widening a slab can only
/// loosen the interval it contributes.
proof fn lemma_axis_monotone(
    bmin_o: int,
    bmax_o: int,
    bmin_i: int,
    bmax_i: int,
    o: int,
    d: int,
    t_min: int,
    t_max: int,
)
    requires
        bmin_o <= bmin_i,
        bmax_i <= bmax_o,
    ensures
        !axis_out(bmin_i, bmax_i, o, d) ==> !axis_out(bmin_o, bmax_o, o, d),
        d != 0 ==> axis_lo(bmin_o, bmax_o, o, d, t_min) <= axis_lo(bmin_i, bmax_i, o, d, t_min),
        d != 0 ==> axis_hi(bmin_i, bmax_i, o, d, t_max) <= axis_hi(bmin_o, bmax_o, o, d, t_max),
{
    if d > 0 {
        lemma_tdiv_mono((bmin_o - o) * SCALE, (bmin_i - o) * SCALE, d);
        lemma_tdiv_mono((bmax_i - o) * SCALE, (bmax_o - o) * SCALE, d);
    } else if d < 0 {
        lemma_tdiv_mono((o - bmax_o) * SCALE, (o - bmax_i) * SCALE, -d);
        lemma_tdiv_mono((o - bmin_i) * SCALE, (o - bmin_o) * SCALE, -d);
    }
}

/// The law behind the hierarchy's cached boxes: the slab test is
/// monotone under enclosure, so a ray that hits a box hits every box
/// containing it. With each node's box the union of its children's,
/// a hit child box is never hidden by its parent.
pub proof fn lemma_box_hit_monotone(
    outer: BoundingBox,
    inner: BoundingBox,
    r: Ray,
    t_min: int,
    t_max: int,
)
    requires
        box_encloses(outer, inner),
        spec_box_hit(inner, r, t_min, t_max),
    ensures
        spec_box_hit(outer, r, t_min, t_max),
{
    lemma_axis_monotone(
        outer.min.x as int, outer.max.x as int, inner.min.x as int, inner.max.x as int,
        r.origin.x as int, r.dir.x as int, t_min, t_max);
    lemma_axis_monotone(
        outer.min.y as int, outer.max.y as int, inner.min.y as int, inner.max.y as int,
        r.origin.y as int, r.dir.y as int, t_min, t_max);
    lemma_axis_monotone(
        outer.min.z as int, outer.max.z as int, inner.min.z as int, inner.max.z as int,
        r.origin.z as int, r.dir.z as int, t_min, t_max);
}

/// The union of two boxes encloses both, so a hit on either body's
/// box carries to the union a node caches.
pub proof fn lemma_union_hit(a: BoundingBox, b: BoundingBox, r: Ray, t_min: int, t_max: int)
    requires
        spec_box_hit(a, r, t_min, t_max) || spec_box_hit(b, r, t_min, t_max),
    ensures
        spec_box_hit(spec_box_union(a, b), r, t_min, t_max),
{
    if spec_box_hit(a, r, t_min, t_max) {
        lemma_box_hit_monotone(spec_box_union(a, b), a, r, t_min, t_max);
    } else {
        lemma_box_hit_monotone(spec_box_union(a, b), b, r, t_min, t_max);
    }
}

/// The ray's point at parameter `t` lies strictly inside the box on
/// every axis, stated by direct substitution: `min < origin + t * dir
/// < max` componentwise, cleared of the division by `SCALE`.
pub open spec fn strictly_inside(bb: BoundingBox, r: Ray, t: int) -> bool {
    &&& bb.min.x * SCALE < r.origin.x * SCALE + t * r.dir.x < bb.max.x * SCALE
    &&& bb.min.y * SCALE < r.origin.y * SCALE + t * r.dir.y < bb.max.y * SCALE
    &&& bb.min.z * SCALE < r.origin.z * SCALE + t * r.dir.z < bb.max.z * SCALE
}

/// One axis of the passage argument: a slab the ray is strictly
/// inside at two parameters neither rules the ray out nor narrows the
/// interval past them.
proof fn lemma_axis_through(
    bmin: int,
    bmax: int,
    o: int,
    d: int,
    t_min: int,
    t_max: int,
    ta: int,
    tb: int,
)
    requires
        t_min <= ta < tb <= t_max,
        bmin * SCALE < o * SCALE + ta * d < bmax * SCALE,
        bmin * SCALE < o * SCALE + tb * d < bmax * SCALE,
    ensures
        !axis_out(bmin, bmax, o, d),
        axis_lo(bmin, bmax, o, d, t_min) <= ta,
        axis_hi(bmin, bmax, o, d, t_max) >= tb,
{
    if d == 0 {
        assert(ta * d == 0 && tb * d == 0) by (nonlinear_arith) requires d == 0, {}
        assert(bmin < o < bmax);
    } else if d > 0 {
        assert(ta * d <= tb * d) by (nonlinear_arith) requires ta < tb && d > 0, {}
        assert((bmin - o) * SCALE < ta * d && (bmax - o) * SCALE > tb * d) by (nonlinear_arith)
            requires
                bmin * SCALE < o * SCALE + ta * d,
                o * SCALE + tb * d < bmax * SCALE,
                ta * d <= tb * d,
            {
                assert((bmin - o) * SCALE == bmin * SCALE - o * SCALE);
                assert((bmax - o) * SCALE == bmax * SCALE - o * SCALE);
            }
        lemma_tdiv_mono((bmin - o) * SCALE, ta * d, d);
        lemma_tdiv_exact(ta, d);
        lemma_tdiv_mono(tb * d, (bmax - o) * SCALE, d);
        lemma_tdiv_exact(tb, d);
    } else {
        assert((o - bmax) * SCALE < ta * (-d) && (o - bmin) * SCALE > tb * (-d))
            by (nonlinear_arith)
            requires
                o * SCALE + ta * d < bmax * SCALE,
                bmin * SCALE < o * SCALE + tb * d,
                d < 0,
                ta < tb,
            {
                assert((o - bmax) * SCALE == o * SCALE - bmax * SCALE);
                assert((o - bmin) * SCALE == o * SCALE - bmin * SCALE);
                assert(ta * (-d) == -(ta * d));
                assert(tb * (-d) == -(tb * d));
            }
        lemma_tdiv_mono((o - bmax) * SCALE, ta * (-d), -d);
        lemma_tdiv_exact(ta, -d);
        lemma_tdiv_mono(tb * (-d), (o - bmin) * SCALE, -d);
        lemma_tdiv_exact(tb, -d);
    }
}

/// The law of the slab test: a ray that visibly passes through the
/// box, strictly inside it at two parameters of the open query window,
/// is reported as a hit.
pub proof fn lemma_slab_hit_through(
    bb: BoundingBox,
    r: Ray,
    t_min: int,
    t_max: int,
    ta: int,
    tb: int,
)
    requires
        t_min <= ta < tb <= t_max,
        strictly_inside(bb, r, ta),
        strictly_inside(bb, r, tb),
    ensures
        spec_box_hit(bb, r, t_min, t_max),
{
    lemma_axis_through(
        bb.min.x as int, bb.max.x as int, r.origin.x as int, r.dir.x as int, t_min, t_max, ta, tb);
    lemma_axis_through(
        bb.min.y as int, bb.max.y as int, r.origin.y as int, r.dir.y as int, t_min, t_max, ta, tb);
    lemma_axis_through(
        bb.min.z as int, bb.max.z as int, r.origin.z as int, r.dir.z as int, t_min, t_max, ta, tb);
}

} // verus!
