//! The bounding-volume hierarchy: a binary spatial index over surfaces.
//!
//! The query prunes a whole subtree when the slab test misses its box, and
//! shrinks the search interval to the closest hit found so far before
//! descending into the right child.  The slab test is exact on the grid and
//! the primitives accept a hit only inside their own stored boxes, so
//! pruning never loses a hit: the query returns exactly what the linear
//! scan over the tree's surfaces returns.

use crate::aabb::{
    aabb_bounded, aabb_union, box_inside, contains_raw, lemma_raw_mono, lemma_union_grows,
    ray_hits_box, Aabb,
};
use crate::hit_record::HitRecord;
use crate::hittable::hittable_list::{lemma_surface_hit_t, scan_hit, HittableList};
use crate::hittable::{
    hit_in_range, lemma_surface_hit_range, surface_bbox, surface_hit, surface_wf, Surface,
};
use crate::interval::Interval;
use crate::ray::{ray_at_raw_x, ray_at_raw_y, ray_at_raw_z, ray_bounded, Ray, GEOM_MAX, T_MAX};
use crate::rng::Rng;
use vstd::prelude::*;
use vstd::seq_lib::lemma_multiset_commutative;
use vstd::seq_lib::to_multiset_update;

verus! {

/// A node of the hierarchy: either one surface, or two children with the box
/// that encloses them both.
pub enum BvhNode {
    Leaf(Surface),
    Node { left: Box<BvhNode>, right: Box<BvhNode>, bbox: Aabb },
}

/// The surfaces stored beneath a node, left to right.
pub open spec fn bvh_surfaces(b: BvhNode) -> Seq<Surface>
    decreases b,
{
    match b {
        BvhNode::Leaf(s) => seq![s],
        BvhNode::Node { left, right, .. } => bvh_surfaces(*left) + bvh_surfaces(*right),
    }
}

/// The node's own bounding box.
pub open spec fn bvh_box(b: BvhNode) -> Aabb {
    match b {
        BvhNode::Leaf(s) => surface_bbox(s),
        BvhNode::Node { bbox, .. } => bbox,
    }
}

/// Structural well-formedness: surfaces are well-formed and every node's box
/// encloses its children's boxes.
pub open spec fn bvh_wf(b: BvhNode) -> bool
    decreases b,
{
    match b {
        BvhNode::Leaf(s) => surface_wf(s),
        BvhNode::Node { left, right, bbox } => {
            &&& bvh_wf(*left)
            &&& bvh_wf(*right)
            &&& box_inside(bvh_box(*left), bbox)
            &&& box_inside(bvh_box(*right), bbox)
            &&& aabb_bounded(bbox, GEOM_MAX as int)
        },
    }
}

/// Every hit this surface reports (over machine-range search intervals)
/// lies inside its own stored box at the exact, raw position scale.  The
/// primitives guarantee this by construction - their intersection routines
/// accept a hit only after checking raw containment - and it is what makes
/// box pruning complete.
pub open spec fn hits_in_own_box(s: Surface, r: Ray) -> bool {
    forall|a: int, b: int|
        -0x8000000000000000 <= a && b <= 0x7fffffffffffffff && (#[trigger] surface_hit(
            s,
            r,
            a,
            b,
        )) is Some ==> contains_raw(
            surface_bbox(s),
            ray_at_raw_x(r, surface_hit(s, r, a, b)->Some_0.t as int),
            ray_at_raw_y(r, surface_hit(s, r, a, b)->Some_0.t as int),
            ray_at_raw_z(r, surface_hit(s, r, a, b)->Some_0.t as int),
        )
}

/// The same containment fact, over a whole collection of surfaces.
pub open spec fn seq_conservative(surfs: Seq<Surface>, r: Ray) -> bool {
    forall|i: int| 0 <= i < surfs.len() ==> hits_in_own_box(#[trigger] surfs[i], r)
}

/// The primitives' containment guards make `hits_in_own_box` a theorem: any
/// accepted hit sits inside the surface's stored box.
pub proof fn lemma_hits_in_own_box(s: Surface, r: Ray)
    ensures
        hits_in_own_box(s, r),
{
    assert forall|a: int, b: int|
        -0x8000000000000000 <= a && b <= 0x7fffffffffffffff && (#[trigger] surface_hit(
            s,
            r,
            a,
            b,
        )) is Some implies contains_raw(
        surface_bbox(s),
        ray_at_raw_x(r, surface_hit(s, r, a, b)->Some_0.t as int),
        ray_at_raw_y(r, surface_hit(s, r, a, b)->Some_0.t as int),
        ray_at_raw_z(r, surface_hit(s, r, a, b)->Some_0.t as int),
    ) by {
        match s {
            Surface::Sphere(sp) => {
                assert(surface_hit(s, r, a, b) == crate::hittable::sphere::sphere_hit(
                    sp,
                    r,
                    a,
                    b,
                ));
            },
            Surface::Quad(q) => {
                assert(surface_hit(s, r, a, b) == crate::hittable::quad::quad_hit(q, r, a, b));
            },
        }
    }
}

/// And hence every member of a collection keeps its hits in its own box.
pub proof fn lemma_seq_conservative(surfs: Seq<Surface>, r: Ray)
    ensures
        seq_conservative(surfs, r),
{
    assert forall|i: int| 0 <= i < surfs.len() implies hits_in_own_box(
        #[trigger] surfs[i],
        r,
    ) by {
        lemma_hits_in_own_box(surfs[i], r);
    }
}

/// The union of a collection's stored boxes, folded left to right.
pub open spec fn boxes_union(surfs: Seq<Surface>) -> Aabb
    decreases surfs.len(),
{
    if surfs.len() <= 1 {
        surface_bbox(surfs[0])
    } else {
        aabb_union(boxes_union(surfs.drop_last()), surface_bbox(surfs.last()))
    }
}

/// Box union is associative (per-axis minima and maxima are).
pub proof fn lemma_union_assoc(a: Aabb, b: Aabb, c: Aabb)
    ensures
        aabb_union(aabb_union(a, b), c) == aabb_union(a, aabb_union(b, c)),
{
}

/// The union fold over a concatenation is the union of the two folds.
pub proof fn lemma_boxes_union_concat(s1: Seq<Surface>, s2: Seq<Surface>)
    requires
        s1.len() >= 1,
        s2.len() >= 1,
    ensures
        boxes_union(s1 + s2) == aabb_union(boxes_union(s1), boxes_union(s2)),
    decreases s2.len(),
{
    if s2.len() == 1 {
        assert((s1 + s2).drop_last() =~= s1);
        assert((s1 + s2).last() == s2[0]);
        assert(boxes_union(s2) == surface_bbox(s2[0]));
    } else {
        lemma_boxes_union_concat(s1, s2.drop_last());
        assert((s1 + s2).drop_last() =~= s1 + s2.drop_last());
        assert((s1 + s2).last() == s2.last());
        lemma_union_assoc(boxes_union(s1), boxes_union(s2.drop_last()), surface_bbox(s2.last()));
    }
}

/// Every member's box sits inside the union fold.
pub proof fn lemma_member_inside_union(surfs: Seq<Surface>, k: int)
    requires
        0 <= k < surfs.len(),
    ensures
        box_inside(surface_bbox(surfs[k]), boxes_union(surfs)),
    decreases surfs.len(),
{
    if surfs.len() > 1 {
        lemma_union_grows(boxes_union(surfs.drop_last()), surface_bbox(surfs.last()));
        if k < surfs.len() - 1 {
            lemma_member_inside_union(surfs.drop_last(), k);
        }
    }
}

/// The union fold is the smallest box holding every member's box.
pub proof fn lemma_union_fold_minimal(surfs: Seq<Surface>, c: Aabb)
    requires
        surfs.len() >= 1,
        forall|k: int| 0 <= k < surfs.len() ==> box_inside(surface_bbox(#[trigger] surfs[k]), c),
    ensures
        box_inside(boxes_union(surfs), c),
    decreases surfs.len(),
{
    if surfs.len() > 1 {
        lemma_union_fold_minimal(surfs.drop_last(), c);
    }
}

/// The union fold ignores the order of the collection: any two sequences
/// holding the same surfaces fold to the same box.
pub proof fn lemma_boxes_union_permutation(s1: Seq<Surface>, s2: Seq<Surface>)
    requires
        s1.len() >= 1,
        s1.to_multiset() == s2.to_multiset(),
    ensures
        boxes_union(s1) == boxes_union(s2),
{
    broadcast use vstd::seq_lib::group_to_multiset_ensures;

    assert(s1.to_multiset().len() == s1.len());
    assert(s2.to_multiset().len() == s2.len());
    assert(s2.len() == s1.len());
    assert forall|k: int| 0 <= k < s2.len() implies box_inside(
        surface_bbox(#[trigger] s2[k]),
        boxes_union(s1),
    ) by {
        assert(s2.contains(s2[k]));
        assert(s1.to_multiset().count(s2[k]) > 0);
        assert(s1.contains(s2[k]));
        let j = choose|j: int| 0 <= j < s1.len() && s1[j] == s2[k];
        lemma_member_inside_union(s1, j);
    }
    lemma_union_fold_minimal(s2, boxes_union(s1));
    assert forall|k: int| 0 <= k < s1.len() implies box_inside(
        surface_bbox(#[trigger] s1[k]),
        boxes_union(s2),
    ) by {
        assert(s1.contains(s1[k]));
        assert(s2.to_multiset().count(s1[k]) > 0);
        assert(s2.contains(s1[k]));
        let j = choose|j: int| 0 <= j < s2.len() && s2[j] == s1[k];
        lemma_member_inside_union(s2, j);
    }
    lemma_union_fold_minimal(s1, boxes_union(s2));
}

/// The key a build step sorts by: the box minimum along the chosen axis.
pub open spec fn axis_key(s: Surface, axis: i32) -> int {
    if axis == 1 {
        surface_bbox(s).y.min as int
    } else if axis == 2 {
        surface_bbox(s).z.min as int
    } else {
        surface_bbox(s).x.min as int
    }
}

/// A well-formed surface's stored box is bounded.
pub proof fn lemma_surface_box_bounded(s: Surface)
    requires
        surface_wf(s),
    ensures
        aabb_bounded(surface_bbox(s), GEOM_MAX as int),
{
    match s {
        Surface::Sphere(sp) => {},
        Surface::Quad(q) => {},
    }
}

/// A well-formed node's box is bounded.
pub proof fn lemma_bvh_box_bounded(b: BvhNode)
    requires
        bvh_wf(b),
    ensures
        aabb_bounded(bvh_box(b), GEOM_MAX as int),
{
    match b {
        BvhNode::Leaf(s) => {
            lemma_surface_box_bounded(s);
        },
        BvhNode::Node { .. } => {},
    }
}

/// Every surface beneath a well-formed node sits inside the node's box, and
/// there is at least one.
pub proof fn lemma_bvh_boxes(b: BvhNode)
    requires
        bvh_wf(b),
    ensures
        bvh_surfaces(b).len() >= 1,
        forall|i: int|
            0 <= i < bvh_surfaces(b).len() ==> box_inside(
                surface_bbox(#[trigger] bvh_surfaces(b)[i]),
                bvh_box(b),
            ),
        forall|i: int| 0 <= i < bvh_surfaces(b).len() ==> surface_wf(#[trigger] bvh_surfaces(b)[i]),
    decreases b,
{
    match b {
        BvhNode::Leaf(s) => {},
        BvhNode::Node { left, right, bbox } => {
            lemma_bvh_boxes(*left);
            lemma_bvh_boxes(*right);
            let ls = bvh_surfaces(*left);
            let rs = bvh_surfaces(*right);
            assert forall|i: int| 0 <= i < bvh_surfaces(b).len() implies box_inside(
                surface_bbox(#[trigger] bvh_surfaces(b)[i]),
                bvh_box(b),
            ) && surface_wf(bvh_surfaces(b)[i]) by {
                if i < ls.len() {
                    assert(bvh_surfaces(b)[i] == ls[i]);
                } else {
                    assert(bvh_surfaces(b)[i] == rs[i - ls.len()]);
                }
            }
        },
    }
}

/// If the ray misses a box that encloses every surface of a collection whose
/// hits stay in their own boxes, the linear scan misses too.
pub proof fn lemma_scan_none(surfs: Seq<Surface>, bx: Aabb, r: Ray, tmin: int, tmax: int)
    requires
        seq_conservative(surfs, r),
        forall|i: int|
            0 <= i < surfs.len() ==> box_inside(surface_bbox(#[trigger] surfs[i]), bx),
        !ray_hits_box(bx, r, tmin, tmax),
        -0x8000000000000000 <= tmin,
        tmax <= 0x7fffffffffffffff,
    ensures
        scan_hit(surfs, r, tmin, tmax) is None,
    decreases surfs.len(),
{
    if surfs.len() > 0 {
        let prefix = surfs.drop_last();
        assert forall|i: int| 0 <= i < prefix.len() implies hits_in_own_box(
            #[trigger] prefix[i],
            r,
        ) && box_inside(surface_bbox(prefix[i]), bx) by {
            assert(prefix[i] == surfs[i]);
        }
        lemma_scan_none(prefix, bx, r, tmin, tmax);
        let s = surfs.last();
        let sh = surface_hit(s, r, tmin, tmax);
        if sh is Some {
            let h = sh->Some_0;
            lemma_surface_hit_t(s, r, tmin, tmax);
            assert(hits_in_own_box(s, r));
            lemma_raw_mono(
                surface_bbox(s),
                bx,
                ray_at_raw_x(r, h.t as int),
                ray_at_raw_y(r, h.t as int),
                ray_at_raw_z(r, h.t as int),
            );
            assert(tmin <= h.t as int <= tmax && contains_raw(
                bx,
                ray_at_raw_x(r, h.t as int),
                ray_at_raw_y(r, h.t as int),
                ray_at_raw_z(r, h.t as int),
            ));
            assert(false);
        }
    }
}

/// Scanning a concatenation is scanning the first half, then the second half
/// over the interval shrunk to the first half's best hit.
pub proof fn lemma_scan_concat(s1: Seq<Surface>, s2: Seq<Surface>, r: Ray, tmin: int, tmax: int)
    ensures
        ({
            let p = scan_hit(s1, r, tmin, tmax);
            let bd = match p {
                Some(h) => h.t as int,
                None => tmax,
            };
            scan_hit(s1 + s2, r, tmin, tmax) == (match scan_hit(s2, r, tmin, bd) {
                Some(h) => Some(h),
                None => p,
            })
        }),
    decreases s2.len(),
{
    let p = scan_hit(s1, r, tmin, tmax);
    let bd = match p {
        Some(h) => h.t as int,
        None => tmax,
    };
    if s2.len() == 0 {
        assert(s1 + s2 =~= s1);
    } else {
        lemma_scan_concat(s1, s2.drop_last(), r, tmin, tmax);
        assert((s1 + s2).drop_last() =~= s1 + s2.drop_last());
        assert((s1 + s2).last() == s2.last());
        assert((s1 + s2).len() > 0);
    }
}

impl BvhNode {
    /// Whether `a`'s box starts strictly before `b`'s along the axis.
    pub fn box_compare(a: &Surface, b: &Surface, axis: i32) -> (r: bool)
        requires
            0 <= axis <= 2,
        ensures
            r == (axis_key(*a, axis) < axis_key(*b, axis)),
    {
        let ba = a.bounding_box();
        let bb = b.bounding_box();
        ba.axis(axis).min < bb.axis(axis).min
    }

    /// Build a hierarchy over `objects[start..end)`, consuming the vector.
    /// Each node picks a uniformly random axis and orders or sorts by the box
    /// minimum along it.
    pub fn new(objects: Vec<Surface>, start: usize, end: usize, rng: &mut Rng) -> (b: BvhNode)
        requires
            start < end <= objects@.len(),
            forall|i: int| 0 <= i < objects@.len() ==> surface_wf(#[trigger] objects@[i]),
        ensures
            bvh_wf(b),
            bvh_surfaces(b).to_multiset() == objects@.subrange(
                start as int,
                end as int,
            ).to_multiset(),
            bvh_box(b) == boxes_union(bvh_surfaces(b)),
            bvh_box(b) == boxes_union(objects@.subrange(start as int, end as int)),
    {
        let mut objects = objects;
        let ghost orig = objects@;
        let b = build(&mut objects, start, end, rng);
        proof {
            lemma_bvh_boxes(b);
            lemma_boxes_union_permutation(
                bvh_surfaces(b),
                orig.subrange(start as int, end as int),
            );
        }
        b
    }

    /// Build from a whole list.
    pub fn from_hittable_list(list: HittableList, rng: &mut Rng) -> (b: BvhNode)
        requires
            list.objects@.len() >= 1,
            crate::hittable::hittable_list::list_wf(list),
        ensures
            bvh_wf(b),
            bvh_surfaces(b).to_multiset() == list.objects@.to_multiset(),
            bvh_box(b) == boxes_union(bvh_surfaces(b)),
            bvh_box(b) == boxes_union(list.objects@),
    {
        let n = list.objects.len();
        proof {
            assert(list.objects@.subrange(0, n as int) =~= list.objects@);
        }
        BvhNode::new(list.objects, 0, n, rng)
    }

    /// The node's bounding box.
    pub fn bounding_box(&self) -> (b: Aabb)
        ensures
            b == bvh_box(*self),
    {
        match self {
            BvhNode::Leaf(s) => s.bounding_box(),
            BvhNode::Node { bbox, .. } => *bbox,
        }
    }

    /// The closest hit beneath this node: exactly what the plain linear
    /// scan over the node's surfaces returns, found with box pruning and a
    /// search interval that shrinks to the left subtree's best hit.  Any
    /// returned record is a well-formed hit within the search interval.
    pub fn hit(&self, r: &Ray, ray_t: &Interval) -> (res: Option<HitRecord>)
        requires
            bvh_wf(*self),
            ray_bounded(*r),
            0 <= r.time <= 65536,
            0 <= ray_t.min <= ray_t.max,
            ray_t.max <= T_MAX,
        ensures
            res == scan_hit(bvh_surfaces(*self), *r, ray_t.min as int, ray_t.max as int),
            res is Some ==> hit_in_range(res->Some_0, ray_t.min as int, ray_t.max as int),
        decreases *self,
    {
        let tmin = ray_t.min;
        let tmax = ray_t.max;
        match self {
            BvhNode::Leaf(s) => {
                let res = s.hit(r, ray_t);
                proof {
                    assert(bvh_surfaces(*self) =~= seq![*s]);
                    assert(seq![*s].drop_last() =~= Seq::<Surface>::empty());
                    assert(scan_hit(Seq::<Surface>::empty(), *r, tmin as int, tmax as int) is None);
                    lemma_surface_hit_range(*s, *r, tmin as int, tmax as int);
                    assert(res == scan_hit(bvh_surfaces(*self), *r, tmin as int, tmax as int));
                }
                res
            },
            BvhNode::Node { left, right, bbox } => {
                if !bbox.hit(r, ray_t) {
                    proof {
                        lemma_seq_conservative(bvh_surfaces(*self), *r);
                        lemma_bvh_boxes(*self);
                        lemma_scan_none(bvh_surfaces(*self), *bbox, *r, tmin as int, tmax as int);
                    }
                    return None;
                }
                let lres = left.hit(r, ray_t);
                let bound: i64 = match &lres {
                    Some(h) => h.t,
                    None => tmax,
                };
                let sub = Interval { min: tmin, max: bound };
                let rres = right.hit(r, &sub);
                let res: Option<HitRecord> = match rres {
                    Some(h) => Some(h),
                    None => lres,
                };
                proof {
                    let ls = bvh_surfaces(**left);
                    let rs = bvh_surfaces(**right);
                    assert(bvh_surfaces(*self) == ls + rs);
                    lemma_scan_concat(ls, rs, *r, tmin as int, tmax as int);
                    assert(lres == scan_hit(ls, *r, tmin as int, tmax as int));
                    assert(rres == scan_hit(rs, *r, tmin as int, bound as int));
                    assert(res == scan_hit(bvh_surfaces(*self), *r, tmin as int, tmax as int));
                }
                res
            },
        }
    }
}

/// Sort `objects[start..end)` in place by the box minimum along `axis`
/// (insertion sort): the segment becomes ordered, nothing outside it moves,
/// and the segment keeps exactly the same surfaces.
fn sort_range(objects: &mut Vec<Surface>, start: usize, end: usize, axis: i32)
    requires
        0 <= axis <= 2,
        start <= end <= old(objects)@.len(),
        forall|i: int| 0 <= i < old(objects)@.len() ==> surface_wf(#[trigger] old(objects)@[i]),
    ensures
        final(objects)@.len() == old(objects)@.len(),
        forall|i: int|
            0 <= i < old(objects)@.len() && !(start <= i < end) ==> final(objects)@[i] == old(
                objects,
            )@[i],
        forall|i: int| 0 <= i < final(objects)@.len() ==> surface_wf(#[trigger] final(objects)@[i]),
        final(objects)@.subrange(start as int, end as int).to_multiset() == old(
            objects,
        )@.subrange(start as int, end as int).to_multiset(),
        forall|i: int, j: int|
            #![trigger final(objects)@[i], final(objects)@[j]]
            start <= i < j < end ==> axis_key(final(objects)@[i], axis) <= axis_key(
                final(objects)@[j],
                axis,
            ),
{
    let ghost orig = objects@;
    if start == end {
        return ;
    }
    let mut i: usize = start + 1;
    while i < end
        invariant
            0 <= axis <= 2,
            start < i <= end <= objects@.len(),
            objects@.len() == orig.len(),
            forall|k: int| 0 <= k < orig.len() && !(start <= k < end) ==> objects@[k] == orig[k],
            forall|k: int| 0 <= k < objects@.len() ==> surface_wf(#[trigger] objects@[k]),
            objects@.subrange(start as int, end as int).to_multiset() == orig.subrange(
                start as int,
                end as int,
            ).to_multiset(),
            forall|p: int, q: int|
                #![trigger objects@[p], objects@[q]]
                start <= p < q < i ==> axis_key(objects@[p], axis) <= axis_key(
                    objects@[q],
                    axis,
                ),
        decreases end - i,
    {
        let mut j: usize = i;
        while j > start
            invariant
                0 <= axis <= 2,
                start <= j <= i < end <= objects@.len(),
                objects@.len() == orig.len(),
                forall|k: int|
                    0 <= k < orig.len() && !(start <= k < end) ==> objects@[k] == orig[k],
                forall|k: int| 0 <= k < objects@.len() ==> surface_wf(#[trigger] objects@[k]),
                objects@.subrange(start as int, end as int).to_multiset() == orig.subrange(
                    start as int,
                    end as int,
                ).to_multiset(),
                forall|p: int, q: int|
                    #![trigger objects@[p], objects@[q]]
                    start <= p < q <= i && q != j ==> axis_key(objects@[p], axis) <= axis_key(
                        objects@[q],
                        axis,
                    ),
            ensures
                start <= j <= i < end <= objects@.len(),
                objects@.len() == orig.len(),
                forall|k: int|
                    0 <= k < orig.len() && !(start <= k < end) ==> objects@[k] == orig[k],
                forall|k: int| 0 <= k < objects@.len() ==> surface_wf(#[trigger] objects@[k]),
                objects@.subrange(start as int, end as int).to_multiset() == orig.subrange(
                    start as int,
                    end as int,
                ).to_multiset(),
                forall|p: int, q: int|
                    #![trigger objects@[p], objects@[q]]
                    start <= p < q <= i && q != j ==> axis_key(objects@[p], axis) <= axis_key(
                        objects@[q],
                        axis,
                    ),
                j == start || axis_key(objects@[j - 1], axis) <= axis_key(objects@[j as int], axis),
            decreases j,
        {
            let c = BvhNode::box_compare(&objects[j], &objects[j - 1], axis);
            if !c {
                break ;
            }
            let a = objects[j - 1];
            let b = objects[j];
            let ghost before = objects@;
            objects[j - 1] = b;
            objects[j] = a;
            proof {
                lemma_swap_multiset(before, objects@, start as int, end as int, (j - 1) as int);
            }
            j = j - 1;
        }
        proof {
            assert forall|p: int, q: int|
                #![trigger objects@[p], objects@[q]]
                start <= p < q <= i implies axis_key(objects@[p], axis) <= axis_key(
                objects@[q],
                axis,
            ) by {
                if q == j && p < j {
                    assert(axis_key(objects@[j - 1], axis) <= axis_key(objects@[j as int], axis));
                    if p < j - 1 {
                        assert(axis_key(objects@[p], axis) <= axis_key(objects@[(j - 1) as int], axis));
                    }
                }
            }
        }
        i = i + 1;
    }
}

/// Swapping two adjacent entries inside a segment keeps its multiset.
proof fn lemma_swap_multiset(before: Seq<Surface>, after: Seq<Surface>, start: int, end: int, j: int)
    requires
        0 <= start <= j < j + 1 < end <= before.len(),
        after == before.update(j, before[j + 1]).update(j + 1, before[j]),
    ensures
        after.subrange(start, end).to_multiset() == before.subrange(start, end).to_multiset(),
{
    broadcast use vstd::seq_lib::group_to_multiset_ensures;
    broadcast use vstd::multiset::group_multiset_axioms;

    let sb = before.subrange(start, end);
    let sa = after.subrange(start, end);
    let a = sb[j - start];
    let bb = sb[j + 1 - start];
    assert(sa =~= sb.update(j - start, bb).update(j + 1 - start, a));
    let sm = sb.update(j - start, bb);
    to_multiset_update(sb, j - start, bb);
    assert(sm[j + 1 - start] == bb);
    to_multiset_update(sm, j + 1 - start, a);
    assert(sb.contains(a) && sb.contains(bb));
    assert(sb.to_multiset().count(a) > 0 && sb.to_multiset().count(bb) > 0);
    assert(sa.to_multiset() =~= sb.to_multiset());
}

/// The recursive builder over `objects[start..end)`.
fn build(objects: &mut Vec<Surface>, start: usize, end: usize, rng: &mut Rng) -> (b: BvhNode)
    requires
        start < end <= old(objects)@.len(),
        forall|i: int| 0 <= i < old(objects)@.len() ==> surface_wf(#[trigger] old(objects)@[i]),
    ensures
        final(objects)@.len() == old(objects)@.len(),
        forall|i: int|
            0 <= i < old(objects)@.len() && !(start <= i < end) ==> final(objects)@[i] == old(
                objects,
            )@[i],
        forall|i: int| 0 <= i < final(objects)@.len() ==> surface_wf(#[trigger] final(objects)@[i]),
        bvh_wf(b),
        bvh_surfaces(b).to_multiset() == old(objects)@.subrange(
            start as int,
            end as int,
        ).to_multiset(),
        bvh_box(b) == boxes_union(bvh_surfaces(b)),
    decreases end - start,
{
    let span = end - start;
    let axis = rng.below(3) as i32;
    if span == 1 {
        let s = objects[start];
        proof {
            assert(surface_wf(old(objects)@[start as int]));
            assert(objects@.subrange(start as int, end as int) =~= seq![s]);
            assert(bvh_wf(BvhNode::Leaf(s)));
            assert(bvh_surfaces(BvhNode::Leaf(s)) == seq![s]);
            assert(boxes_union(seq![s]) == surface_bbox(s));
        }
        BvhNode::Leaf(s)
    } else if span == 2 {
        let s0 = objects[start];
        let s1 = objects[start + 1];
        proof {
            assert(surface_wf(old(objects)@[start as int]));
            assert(surface_wf(old(objects)@[start + 1 as int]));
        }
        let swap = BvhNode::box_compare(&s0, &s1, axis);
        let (first, second) = if swap {
            (s0, s1)
        } else {
            (s1, s0)
        };
        let b0 = first.bounding_box();
        let b1 = second.bounding_box();
        let bbox = Aabb::from_boxes(b0, b1);
        let node = BvhNode::Node {
            left: Box::new(BvhNode::Leaf(first)),
            right: Box::new(BvhNode::Leaf(second)),
            bbox,
        };
        proof {
            lemma_surface_box_bounded(first);
            lemma_surface_box_bounded(second);
            lemma_union_grows(surface_bbox(first), surface_bbox(second));
            assert(bvh_surfaces(BvhNode::Leaf(first)) == seq![first]);
            assert(bvh_surfaces(BvhNode::Leaf(second)) == seq![second]);
            assert(bvh_surfaces(node) =~= seq![first] + seq![second]);
            lemma_multiset_commutative(seq![first], seq![second]);
            lemma_multiset_commutative(seq![second], seq![first]);
            assert(objects@.subrange(start as int, end as int) =~= seq![s0] + seq![s1]);
            lemma_multiset_commutative(seq![s0], seq![s1]);
            assert(bvh_surfaces(node).to_multiset() =~= objects@.subrange(
                start as int,
                end as int,
            ).to_multiset());
            assert(bvh_wf(BvhNode::Leaf(first)));
            assert(bvh_wf(BvhNode::Leaf(second)));
            assert(bvh_wf(node));
            assert(bvh_surfaces(node) =~= seq![first, second]);
            assert(seq![first, second].drop_last() =~= seq![first]);
            assert(boxes_union(seq![first]) == surface_bbox(first));
            assert(boxes_union(seq![first, second]) == aabb_union(
                surface_bbox(first),
                surface_bbox(second),
            ));
        }
        node
    } else {
        sort_range(objects, start, end, axis);
        let ghost sorted = objects@;
        let mid = start + span / 2;
        let left = build(objects, start, mid, rng);
        let ghost after_left = objects@;
        let right = build(objects, mid, end, rng);
        let lb = left.bounding_box();
        let rb = right.bounding_box();
        let bbox = Aabb::from_boxes(lb, rb);
        let node = BvhNode::Node { left: Box::new(left), right: Box::new(right), bbox };
        proof {
            lemma_bvh_box_bounded(left);
            lemma_bvh_box_bounded(right);
            lemma_union_grows(bvh_box(left), bvh_box(right));
            assert(bvh_wf(node));
            // The two halves' multisets recombine into the segment's.
            assert(after_left.subrange(mid as int, end as int) =~= sorted.subrange(
                mid as int,
                end as int,
            ));
            assert(objects@.subrange(start as int, mid as int) =~= after_left.subrange(
                start as int,
                mid as int,
            ));
            let s_left = sorted.subrange(start as int, mid as int);
            let s_right = sorted.subrange(mid as int, end as int);
            assert(sorted.subrange(start as int, end as int) =~= s_left + s_right);
            lemma_multiset_commutative(s_left, s_right);
            lemma_multiset_commutative(bvh_surfaces(left), bvh_surfaces(right));
            assert(bvh_surfaces(node) == bvh_surfaces(left) + bvh_surfaces(right));
            lemma_bvh_boxes(left);
            lemma_bvh_boxes(right);
            lemma_boxes_union_concat(bvh_surfaces(left), bvh_surfaces(right));
            assert(bvh_box(node) == boxes_union(bvh_surfaces(node)));
        }
        node
    }
}

} // verus!
