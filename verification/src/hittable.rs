//! Traceable surfaces: spheres, quads, flat lists and the spatial index.

pub mod bvh;
pub mod hittable_list;
pub mod quad;
pub mod sphere;

use crate::hit_record::HitRecord;
use crate::interval::Interval;
use crate::ray::Ray;
use vstd::prelude::*;

pub use bvh::BvhNode;
pub use hittable_list::HittableList;
pub use quad::Quad;
pub use sphere::Sphere;

verus! {

/// A concrete traceable surface; the polymorphic surface capability,
/// represented as a sum type.
#[derive(Clone, Copy, Debug)]
pub enum Surface {
    Sphere(Sphere),
    Quad(Quad),
}

/// Well-formedness of a surface: the coordinate bounds its intersection
/// arithmetic relies on.
pub open spec fn surface_wf(s: Surface) -> bool {
    match s {
        Surface::Sphere(sp) => sphere::sphere_wf(sp),
        Surface::Quad(q) => quad::quad_wf(q),
    }
}

/// The material index a surface refers to.
pub open spec fn surface_mat(s: Surface) -> int {
    match s {
        Surface::Sphere(sp) => sp.mat as int,
        Surface::Quad(q) => q.mat as int,
    }
}

/// The stored bounding box of a surface.
pub open spec fn surface_bbox(s: Surface) -> crate::aabb::Aabb {
    match s {
        Surface::Sphere(sp) => sp.bbox,
        Surface::Quad(q) => q.bbox,
    }
}

/// The intersection result of a single surface, as the specs of the two
/// primitive kinds define it.
pub open spec fn surface_hit(s: Surface, r: Ray, tmin: int, tmax: int) -> Option<HitRecord> {
    match s {
        Surface::Sphere(sp) => sphere::sphere_hit(sp, r, tmin, tmax),
        Surface::Quad(q) => quad::quad_hit(q, r, tmin, tmax),
    }
}

/// A returned hit record is geometrically in range: its point and normal are
/// bounded and its parameter lies in the queried interval.
pub open spec fn hit_in_range(h: HitRecord, tmin: int, tmax: int) -> bool {
    &&& crate::vec3::vec_bounded(h.p, crate::ray::GEOM_MAX as int)
    &&& crate::vec3::vec_bounded(h.normal, 0x20000)
    &&& tmin <= h.t <= tmax
}

/// Any hit a well-formed surface reports is in range.
pub proof fn lemma_surface_hit_range(s: Surface, r: Ray, tmin: int, tmax: int)
    requires
        surface_wf(s),
        -0x8000000000000000 <= tmin,
        tmax <= 0x7fffffffffffffff,
    ensures
        surface_hit(s, r, tmin, tmax) is Some ==> hit_in_range(
            surface_hit(s, r, tmin, tmax)->Some_0,
            tmin,
            tmax,
        ),
{
    match s {
        Surface::Sphere(sp) => {
            assert(surface_hit(s, r, tmin, tmax) == sphere::sphere_hit(sp, r, tmin, tmax));
        },
        Surface::Quad(q) => {
            assert(surface_hit(s, r, tmin, tmax) == quad::quad_hit(q, r, tmin, tmax));
        },
    }
}

impl Surface {
    /// Dispatch the intersection query to the concrete surface.
    pub fn hit(&self, r: &Ray, ray_t: &Interval) -> (res: Option<HitRecord>)
        requires
            surface_wf(*self),
            crate::ray::ray_bounded(*r),
            0 <= r.time <= 65536,
            0 <= ray_t.min,
            ray_t.max <= crate::ray::T_MAX,
        ensures
            res == surface_hit(*self, *r, ray_t.min as int, ray_t.max as int),
    {
        match self {
            Surface::Sphere(sp) => sp.hit(r, ray_t),
            Surface::Quad(q) => q.hit(r, ray_t),
        }
    }

    /// The surface's bounding box.
    pub fn bounding_box(&self) -> (b: crate::aabb::Aabb)
        ensures
            b == surface_bbox(*self),
    {
        match self {
            Surface::Sphere(sp) => sp.bounding_box(),
            Surface::Quad(q) => q.bounding_box(),
        }
    }
}

} // verus!
