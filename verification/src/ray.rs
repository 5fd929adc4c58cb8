//! Rays: an origin, a direction and a time (for motion blur).

use crate::fixed::{floor_div, floor_div_i128, lemma_floor_div_fund};
use crate::vec3::{vec_bounded, Point3, Vec3};
use vstd::prelude::*;

verus! {

/// Bound on geometry coordinates (4096 units) under which the intersection
/// arithmetic stays exact in wide integers.
pub const GEOM_MAX: i64 = 0x10000000;

/// Bound on ray parameters (about sixteen million units of travel).
pub const T_MAX: i64 = 0x10000000000;

#[derive(Clone, Copy, Debug, PartialEq, Eq, Structural)]
pub struct Ray {
    pub origin: Point3,
    pub direction: Vec3,
    pub time: i64,
}

/// The exact position along a ray at parameter `t`, per axis, at the raw
/// (2^-32) scale: `origin + t * direction` with no rounding at all.
pub open spec fn ray_at_raw_x(r: Ray, t: int) -> int {
    r.origin.x * 65536 + t * r.direction.x
}

pub open spec fn ray_at_raw_y(r: Ray, t: int) -> int {
    r.origin.y * 65536 + t * r.direction.y
}

pub open spec fn ray_at_raw_z(r: Ray, t: int) -> int {
    r.origin.z * 65536 + t * r.direction.z
}

/// The grid position along the ray: the raw position floored per axis.
pub open spec fn fx_ray_at_x(r: Ray, t: int) -> int {
    floor_div(ray_at_raw_x(r, t), 65536)
}

pub open spec fn fx_ray_at_y(r: Ray, t: int) -> int {
    floor_div(ray_at_raw_y(r, t), 65536)
}

pub open spec fn fx_ray_at_z(r: Ray, t: int) -> int {
    floor_div(ray_at_raw_z(r, t), 65536)
}

/// A ray whose origin and direction are within the geometry bound.
pub open spec fn ray_bounded(r: Ray) -> bool {
    &&& vec_bounded(r.origin, GEOM_MAX as int)
    &&& vec_bounded(r.direction, GEOM_MAX as int)
}

impl Ray {
    pub fn new(origin: Point3, direction: Vec3, time: i64) -> (r: Ray)
        ensures
            r == (Ray { origin, direction, time }),
    {
        Ray { origin, direction, time }
    }

    pub fn origin(&self) -> (r: Point3)
        ensures
            r == self.origin,
    {
        self.origin
    }

    pub fn direction(&self) -> (r: Vec3)
        ensures
            r == self.direction,
    {
        self.direction
    }

    pub fn time(&self) -> (r: i64)
        ensures
            r == self.time,
    {
        self.time
    }

    /// The grid point reached after travelling `t` along the ray.
    pub fn at(&self, t: i64) -> (p: Point3)
        requires
            ray_bounded(*self),
            0 <= t <= T_MAX,
        ensures
            p.x == fx_ray_at_x(*self, t as int),
            p.y == fx_ray_at_y(*self, t as int),
            p.z == fx_ray_at_z(*self, t as int),
            vec_bounded(p, 0x20000000000000),
    {
        proof {
            lemma_at_raw_bound(*self, t as int);
            lemma_floor_div_fund(ray_at_raw_x(*self, t as int), 65536);
            lemma_floor_div_fund(ray_at_raw_y(*self, t as int), 65536);
            lemma_floor_div_fund(ray_at_raw_z(*self, t as int), 65536);
        }
        let px = floor_div_i128(
            (self.origin.x as i128) * 65536 + (t as i128) * (self.direction.x as i128),
            65536,
        );
        let py = floor_div_i128(
            (self.origin.y as i128) * 65536 + (t as i128) * (self.direction.y as i128),
            65536,
        );
        let pz = floor_div_i128(
            (self.origin.z as i128) * 65536 + (t as i128) * (self.direction.z as i128),
            65536,
        );
        Vec3 { x: px as i64, y: py as i64, z: pz as i64 }
    }
}

/// Raw positions along a bounded ray stay far inside the wide-integer range.
pub proof fn lemma_at_raw_bound(r: Ray, t: int)
    requires
        ray_bounded(r),
        0 <= t <= T_MAX,
    ensures
        -0x200000000000000000 <= ray_at_raw_x(r, t) <= 0x200000000000000000,
        -0x200000000000000000 <= ray_at_raw_y(r, t) <= 0x200000000000000000,
        -0x200000000000000000 <= ray_at_raw_z(r, t) <= 0x200000000000000000,
{
    assert(-0x100000000000000000 <= t * r.direction.x <= 0x100000000000000000
        && -0x100000000000000000 <= t * r.direction.y <= 0x100000000000000000
        && -0x100000000000000000 <= t * r.direction.z <= 0x100000000000000000)
        by (nonlinear_arith)
        requires
            0 <= t <= 0x10000000000,
            -0x10000000 <= r.direction.x <= 0x10000000,
            -0x10000000 <= r.direction.y <= 0x10000000,
            -0x10000000 <= r.direction.z <= 0x10000000,
    ;
}

} // verus!
