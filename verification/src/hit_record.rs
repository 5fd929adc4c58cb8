//! The record produced by a successful ray-surface intersection.

use crate::ray::Ray;
use crate::vec3::{fx_dot, vec_bounded, Point3, Vec3, VEC_MAX};
use vstd::prelude::*;

verus! {

/// Everything the integrator needs at a hit: the point, the oriented unit
/// normal, the ray parameter, texture coordinates, which side was struck and
/// the index of the material in the scene's material arena.
#[derive(Clone, Copy, Debug, PartialEq, Eq, Structural)]
pub struct HitRecord {
    pub p: Point3,
    pub normal: Vec3,
    pub t: i64,
    pub u: i64,
    pub v: i64,
    pub front_face: bool,
    pub mat: usize,
}

/// The front-face rule: the stored normal always opposes the ray, and the
/// flag records whether the outward normal already did.
pub open spec fn face_normal(r: Ray, outward: Vec3) -> (bool, Vec3) {
    let ff = fx_dot(r.direction, outward) < 0;
    (
        ff,
        if ff {
            outward
        } else {
            Vec3 {
                x: (-(outward.x as int)) as i64,
                y: (-(outward.y as int)) as i64,
                z: (-(outward.z as int)) as i64,
            }
        },
    )
}

impl HitRecord {
    /// Orient the normal against the ray and remember the side.
    pub fn set_face_normal(&mut self, r: &Ray, outward_normal: Vec3)
        requires
            vec_bounded(r.direction, VEC_MAX as int),
            vec_bounded(outward_normal, VEC_MAX as int),
        ensures
            final(self).front_face == face_normal(*r, outward_normal).0,
            final(self).normal == face_normal(*r, outward_normal).1,
            final(self).p == old(self).p,
            final(self).t == old(self).t,
            final(self).u == old(self).u,
            final(self).v == old(self).v,
            final(self).mat == old(self).mat,
    {
        let ff = r.direction.dot(&outward_normal) < 0;
        self.front_face = ff;
        self.normal = if ff {
            outward_normal
        } else {
            outward_normal.neg()
        };
    }
}

} // verus!
