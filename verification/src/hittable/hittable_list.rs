//! A flat, unordered collection of surfaces with a linear closest-hit scan.

use crate::aabb::{aabb_union, Aabb};
use crate::hit_record::HitRecord;
use crate::hittable::{hit_in_range, lemma_surface_hit_range, surface_hit, surface_wf, Surface};
use crate::interval::Interval;
use crate::ray::{ray_bounded, Ray, T_MAX};
use vstd::prelude::*;

verus! {

/// The closest hit over a sequence of surfaces, scanned in order with the
/// shrinking upper bound: each surface is queried over `[tmin, best-so-far]`,
/// so a later surface replaces the record only by hitting at least as close
/// as its own query interval allows.
pub open spec fn scan_hit(surfs: Seq<Surface>, r: Ray, tmin: int, tmax: int) -> Option<HitRecord>
    decreases surfs.len(),
{
    if surfs.len() == 0 {
        None
    } else {
        let prev = scan_hit(surfs.drop_last(), r, tmin, tmax);
        let bound = match prev {
            Some(h) => h.t as int,
            None => tmax,
        };
        match surface_hit(surfs.last(), r, tmin, bound) {
            Some(h) => Some(h),
            None => prev,
        }
    }
}

/// A surface hit's parameter lies within the queried interval.
pub proof fn lemma_surface_hit_t(s: Surface, r: Ray, tmin: int, tmax: int)
    requires
        -0x8000000000000000 <= tmin,
        tmax <= 0x7fffffffffffffff,
    ensures
        surface_hit(s, r, tmin, tmax) is Some ==> tmin <= surface_hit(
            s,
            r,
            tmin,
            tmax,
        )->Some_0.t <= tmax,
{
    match s {
        Surface::Sphere(sp) => {
            assert(surface_hit(s, r, tmin, tmax) == crate::hittable::sphere::sphere_hit(
                sp,
                r,
                tmin,
                tmax,
            ));
        },
        Surface::Quad(q) => {
            assert(surface_hit(s, r, tmin, tmax) == crate::hittable::quad::quad_hit(
                q,
                r,
                tmin,
                tmax,
            ));
        },
    }
}

/// A surface hit's record carries the surface's own material index.
pub proof fn lemma_surface_hit_mat(s: Surface, r: Ray, tmin: int, tmax: int)
    requires
        -0x8000000000000000 <= tmin,
        tmax <= 0x7fffffffffffffff,
    ensures
        surface_hit(s, r, tmin, tmax) is Some ==> surface_hit(s, r, tmin, tmax)->Some_0.mat as int
            == crate::hittable::surface_mat(s),
{
    match s {
        Surface::Sphere(sp) => {
            assert(surface_hit(s, r, tmin, tmax) == crate::hittable::sphere::sphere_hit(
                sp,
                r,
                tmin,
                tmax,
            ));
        },
        Surface::Quad(q) => {
            assert(surface_hit(s, r, tmin, tmax) == crate::hittable::quad::quad_hit(
                q,
                r,
                tmin,
                tmax,
            ));
        },
    }
}

/// A scan result's material index belongs to one of the scanned surfaces.
pub proof fn lemma_scan_hit_mat(surfs: Seq<Surface>, r: Ray, tmin: int, tmax: int)
    requires
        tmin <= tmax,
        -0x8000000000000000 <= tmin,
        tmax <= 0x7fffffffffffffff,
    ensures
        scan_hit(surfs, r, tmin, tmax) is Some ==> exists|i: int|
            0 <= i < surfs.len() && scan_hit(surfs, r, tmin, tmax)->Some_0.mat as int
                == crate::hittable::surface_mat(#[trigger] surfs[i]),
    decreases surfs.len(),
{
    if surfs.len() > 0 {
        let prefix = surfs.drop_last();
        lemma_scan_hit_mat(prefix, r, tmin, tmax);
        lemma_scan_hit_t(prefix, r, tmin, tmax);
        let prev = scan_hit(prefix, r, tmin, tmax);
        let bound = match prev {
            Some(h) => h.t as int,
            None => tmax,
        };
        lemma_surface_hit_mat(surfs.last(), r, tmin, bound);
        let res = scan_hit(surfs, r, tmin, tmax);
        if res is Some {
            if surface_hit(surfs.last(), r, tmin, bound) is Some {
                assert(res->Some_0.mat as int == crate::hittable::surface_mat(
                    surfs[surfs.len() - 1],
                ));
            } else {
                let i = choose|i: int|
                    0 <= i < prefix.len() && prev->Some_0.mat as int
                        == crate::hittable::surface_mat(#[trigger] prefix[i]);
                assert(res->Some_0.mat as int == crate::hittable::surface_mat(surfs[i]));
            }
        }
    }
}

/// A scan result over well-formed surfaces is a well-formed in-range hit.
pub proof fn lemma_scan_hit_range(surfs: Seq<Surface>, r: Ray, tmin: int, tmax: int)
    requires
        tmin <= tmax,
        -0x8000000000000000 <= tmin,
        tmax <= 0x7fffffffffffffff,
        forall|i: int| 0 <= i < surfs.len() ==> surface_wf(#[trigger] surfs[i]),
    ensures
        scan_hit(surfs, r, tmin, tmax) is Some ==> hit_in_range(
            scan_hit(surfs, r, tmin, tmax)->Some_0,
            tmin,
            tmax,
        ),
    decreases surfs.len(),
{
    if surfs.len() > 0 {
        let prefix = surfs.drop_last();
        assert(forall|i: int| 0 <= i < prefix.len() ==> surface_wf(#[trigger] prefix[i]));
        lemma_scan_hit_range(prefix, r, tmin, tmax);
        lemma_scan_hit_t(prefix, r, tmin, tmax);
        let prev = scan_hit(prefix, r, tmin, tmax);
        let bound = match prev {
            Some(h) => h.t as int,
            None => tmax,
        };
        lemma_surface_hit_range(surfs.last(), r, tmin, bound);
        lemma_surface_hit_t(surfs.last(), r, tmin, bound);
    }
}

/// A scan result's parameter lies within the queried interval.
pub proof fn lemma_scan_hit_t(surfs: Seq<Surface>, r: Ray, tmin: int, tmax: int)
    requires
        tmin <= tmax,
        -0x8000000000000000 <= tmin,
        tmax <= 0x7fffffffffffffff,
    ensures
        scan_hit(surfs, r, tmin, tmax) is Some ==> tmin <= scan_hit(
            surfs,
            r,
            tmin,
            tmax,
        )->Some_0.t <= tmax,
    decreases surfs.len(),
{
    if surfs.len() > 0 {
        lemma_scan_hit_t(surfs.drop_last(), r, tmin, tmax);
        let prev = scan_hit(surfs.drop_last(), r, tmin, tmax);
        let bound = match prev {
            Some(h) => h.t as int,
            None => tmax,
        };
        lemma_surface_hit_t(surfs.last(), r, tmin, bound);
    }
}

#[derive(Clone, Debug)]
pub struct HittableList {
    pub objects: Vec<Surface>,
    pub bbox: Aabb,
}

/// Every member surface is well-formed.
pub open spec fn list_wf(l: HittableList) -> bool {
    forall|i: int| 0 <= i < l.objects@.len() ==> surface_wf(#[trigger] l.objects@[i])
}

/// The default list is empty.
impl Default for HittableList {
    fn default() -> (l: HittableList)
        ensures
            l.objects@.len() == 0,
            list_wf(l),
    {
        HittableList::new()
    }
}

impl HittableList {
    /// An empty list with an empty (crossed) box.
    pub fn new() -> (l: HittableList)
        ensures
            l.objects@.len() == 0,
            list_wf(l),
    {
        HittableList {
            objects: Vec::new(),
            bbox: Aabb {
                x: Interval { min: i64::MAX, max: i64::MIN },
                y: Interval { min: i64::MAX, max: i64::MIN },
                z: Interval { min: i64::MAX, max: i64::MIN },
            },
        }
    }

    /// Append a surface, growing the collection box.
    pub fn add(&mut self, object: Surface)
        requires
            surface_wf(object),
            list_wf(*old(self)),
        ensures
            final(self).objects@ == old(self).objects@.push(object),
            final(self).bbox == aabb_union(old(self).bbox, crate::hittable::surface_bbox(object)),
            list_wf(*final(self)),
    {
        let b = object.bounding_box();
        self.bbox = Aabb::from_boxes(self.bbox, b);
        self.objects.push(object);
    }

    pub fn bounding_box(&self) -> (b: Aabb)
        ensures
            b == self.bbox,
    {
        self.bbox
    }

    /// The closest hit across all members: a linear scan with a shrinking
    /// search interval.
    pub fn hit(&self, r: &Ray, ray_t: &Interval) -> (res: Option<HitRecord>)
        requires
            list_wf(*self),
            ray_bounded(*r),
            0 <= r.time <= 65536,
            0 <= ray_t.min <= ray_t.max,
            ray_t.max <= T_MAX,
        ensures
            res == scan_hit(self.objects@, *r, ray_t.min as int, ray_t.max as int),
            res is Some ==> hit_in_range(res->Some_0, ray_t.min as int, ray_t.max as int),
    {
        proof {
            lemma_scan_hit_range(self.objects@, *r, ray_t.min as int, ray_t.max as int);
        }
        let tmin = ray_t.min;
        let tmax = ray_t.max;
        let ghost all = self.objects@;
        let mut best: Option<HitRecord> = None;
        let mut i: usize = 0;
        proof {
            assert(all.take(0) =~= Seq::<Surface>::empty());
        }
        while i < self.objects.len()
            invariant
                0 <= i <= self.objects@.len(),
                self.objects@ == all,
                list_wf(*self),
                ray_bounded(*r),
                0 <= r.time <= 65536,
                0 <= tmin <= tmax <= T_MAX,
                best == scan_hit(all.take(i as int), *r, tmin as int, tmax as int),
            decreases self.objects@.len() - i,
        {
            proof {
                lemma_scan_hit_t(all.take(i as int), *r, tmin as int, tmax as int);
            }
            let bound: i64 = match &best {
                Some(h) => h.t,
                None => tmax,
            };
            let sub = Interval { min: tmin, max: bound };
            let res = self.objects[i].hit(r, &sub);
            proof {
                assert(all.take(i + 1).drop_last() =~= all.take(i as int));
                assert(all.take(i + 1).last() == all[i as int]);
            }
            match res {
                Some(h) => {
                    best = Some(h);
                },
                None => {},
            }
            i = i + 1;
        }
        proof {
            assert(all.take(all.len() as int) =~= all);
        }
        best
    }
}

} // verus!
