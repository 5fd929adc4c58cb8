//! Spheres, static or with a linearly moving center.

use crate::aabb::{aabb_bounded, aabb_wf, box_from_points, contains_raw, Aabb};
use crate::fixed::{
    floor_div, floor_div_i128, fx_div, fx_mul, isqrt_u128, lemma_floor_div_bound,
    lemma_floor_div_fund, lemma_prod_bound, mul_fx, sqrt_floor,
};
use crate::hit_record::{face_normal, HitRecord};
use crate::interval::Interval;
use crate::ray::{fx_ray_at_x, fx_ray_at_y, fx_ray_at_z, ray_at_raw_x, ray_at_raw_y, ray_at_raw_z, ray_bounded, Ray, GEOM_MAX, T_MAX};
use crate::vec3::{clamp_unit, clamp_unit_s, vec_bounded, Point3, Vec3};
use vstd::prelude::*;

verus! {

/// Coordinate bound for sphere centers, motion vectors and radii (1024
/// units), chosen so all intersection intermediates fit wide integers.
pub const SPHERE_MAX: i64 = 0x4000000;

#[derive(Clone, Copy, Debug)]
pub struct Sphere {
    pub center: Point3,
    pub center_vec: Vec3,
    pub is_moving: bool,
    pub radius: i64,
    pub mat: usize,
    pub bbox: Aabb,
}

pub open spec fn sphere_wf(s: Sphere) -> bool {
    &&& vec_bounded(s.center, SPHERE_MAX as int)
    &&& vec_bounded(s.center_vec, 2 * SPHERE_MAX as int)
    &&& -SPHERE_MAX <= s.radius <= SPHERE_MAX
    &&& s.radius != 0
    &&& aabb_bounded(s.bbox, GEOM_MAX as int)
    &&& aabb_wf(s.bbox)
}

/// The sphere's center at a ray time (linear interpolation on the grid).
pub open spec fn sphere_center_x(s: Sphere, time: int) -> int {
    if s.is_moving {
        s.center.x + fx_mul(time, s.center_vec.x as int)
    } else {
        s.center.x as int
    }
}

pub open spec fn sphere_center_y(s: Sphere, time: int) -> int {
    if s.is_moving {
        s.center.y + fx_mul(time, s.center_vec.y as int)
    } else {
        s.center.y as int
    }
}

pub open spec fn sphere_center_z(s: Sphere, time: int) -> int {
    if s.is_moving {
        s.center.z + fx_mul(time, s.center_vec.z as int)
    } else {
        s.center.z as int
    }
}

/// The ray-sphere intersection on the grid: the half-angle quadratic with an
/// exact integer discriminant, the nearer admissible root first, the exact
/// position floored to the grid, and two guards that treat numerically
/// degenerate hits as misses: the position must lie in the coordinate range,
/// and the exact position must lie inside the sphere's stored box (which
/// makes box pruning complete by construction).
pub open spec fn sphere_hit(s: Sphere, r: Ray, tmin: int, tmax: int) -> Option<HitRecord> {
    let cx = sphere_center_x(s, r.time as int);
    let cy = sphere_center_y(s, r.time as int);
    let cz = sphere_center_z(s, r.time as int);
    let ocx = r.origin.x - cx;
    let ocy = r.origin.y - cy;
    let ocz = r.origin.z - cz;
    let dx = r.direction.x as int;
    let dy = r.direction.y as int;
    let dz = r.direction.z as int;
    let a = dx * dx + dy * dy + dz * dz;
    let hb = ocx * dx + ocy * dy + ocz * dz;
    let cc = ocx * ocx + ocy * ocy + ocz * ocz - s.radius * s.radius;
    let disc = hb * hb - a * cc;
    if a == 0 || disc < 0 {
        None
    } else {
        let sq = sqrt_floor(disc);
        let r1 = floor_div((-hb - sq) * 65536, a);
        let r2 = floor_div((-hb + sq) * 65536, a);
        let root = if tmin < r1 && r1 < tmax {
            r1
        } else {
            r2
        };
        if !(tmin < root && root < tmax) {
            None
        } else {
            let px = fx_ray_at_x(r, root);
            let py = fx_ray_at_y(r, root);
            let pz = fx_ray_at_z(r, root);
            if px < -0x10000000 || px > 0x10000000 || py < -0x10000000 || py > 0x10000000 || pz
                < -0x10000000 || pz > 0x10000000 {
                None
            } else if !contains_raw(
                s.bbox,
                ray_at_raw_x(r, root),
                ray_at_raw_y(r, root),
                ray_at_raw_z(r, root),
            ) {
                None
            } else {
                let nx = clamp_unit_s(fx_div(px - cx, s.radius as int));
                let ny = clamp_unit_s(fx_div(py - cy, s.radius as int));
                let nz = clamp_unit_s(fx_div(pz - cz, s.radius as int));
                let outward = Vec3 { x: nx as i64, y: ny as i64, z: nz as i64 };
                let fnr = face_normal(r, outward);
                Some(
                    HitRecord {
                        p: Vec3 { x: px as i64, y: py as i64, z: pz as i64 },
                        normal: fnr.1,
                        t: root as i64,
                        u: 0,
                        v: 0,
                        front_face: fnr.0,
                        mat: s.mat,
                    },
                )
            }
        }
    }
}

impl Sphere {
    /// A static sphere; `radius` may be negative (a hollow interface), but
    /// not zero.
    pub fn new(center: Point3, radius: i64, mat: usize) -> (s: Sphere)
        requires
            vec_bounded(center, SPHERE_MAX as int),
            -SPHERE_MAX <= radius <= SPHERE_MAX,
            radius != 0,
        ensures
            s.center == center,
            s.radius == radius,
            s.mat == mat,
            s.is_moving == false,
            sphere_wf(s),
            ({
                let ar: int = if radius >= 0 {
                    radius as int
                } else {
                    -radius
                };
                s.bbox == box_from_points(
                    Vec3 {
                        x: (center.x - ar) as i64,
                        y: (center.y - ar) as i64,
                        z: (center.z - ar) as i64,
                    },
                    Vec3 {
                        x: (center.x + ar) as i64,
                        y: (center.y + ar) as i64,
                        z: (center.z + ar) as i64,
                    },
                )
            }),
    {
        let ar: i64 = if radius >= 0 {
            radius
        } else {
            -radius
        };
        let lo = Vec3 { x: center.x - ar, y: center.y - ar, z: center.z - ar };
        let hi = Vec3 { x: center.x + ar, y: center.y + ar, z: center.z + ar };
        let bbox = Aabb::from_points(lo, hi);
        Sphere { center, center_vec: Vec3 { x: 0, y: 0, z: 0 }, is_moving: false, radius, mat, bbox }
    }

    /// A sphere whose center moves linearly from `center` to `center_end`
    /// over the unit time interval.
    pub fn new_moving(center: Point3, center_end: Point3, radius: i64, mat: usize) -> (s: Sphere)
        requires
            vec_bounded(center, SPHERE_MAX as int),
            vec_bounded(center_end, SPHERE_MAX as int),
            -SPHERE_MAX <= radius <= SPHERE_MAX,
            radius != 0,
        ensures
            s.center == center,
            s.radius == radius,
            s.mat == mat,
            s.is_moving == true,
            s.center_vec.x == center_end.x - center.x,
            s.center_vec.y == center_end.y - center.y,
            s.center_vec.z == center_end.z - center.z,
            sphere_wf(s),
            ({
                let ar: int = if radius >= 0 {
                    radius as int
                } else {
                    -radius
                };
                s.bbox == crate::aabb::aabb_union(
                    box_from_points(
                        Vec3 {
                            x: (center.x - ar) as i64,
                            y: (center.y - ar) as i64,
                            z: (center.z - ar) as i64,
                        },
                        Vec3 {
                            x: (center.x + ar) as i64,
                            y: (center.y + ar) as i64,
                            z: (center.z + ar) as i64,
                        },
                    ),
                    box_from_points(
                        Vec3 {
                            x: (center_end.x - ar) as i64,
                            y: (center_end.y - ar) as i64,
                            z: (center_end.z - ar) as i64,
                        },
                        Vec3 {
                            x: (center_end.x + ar) as i64,
                            y: (center_end.y + ar) as i64,
                            z: (center_end.z + ar) as i64,
                        },
                    ),
                )
            }),
    {
        let ar: i64 = if radius >= 0 {
            radius
        } else {
            -radius
        };
        let lo0 = Vec3 { x: center.x - ar, y: center.y - ar, z: center.z - ar };
        let hi0 = Vec3 { x: center.x + ar, y: center.y + ar, z: center.z + ar };
        let lo1 = Vec3 { x: center_end.x - ar, y: center_end.y - ar, z: center_end.z - ar };
        let hi1 = Vec3 { x: center_end.x + ar, y: center_end.y + ar, z: center_end.z + ar };
        let box0 = Aabb::from_points(lo0, hi0);
        let box1 = Aabb::from_points(lo1, hi1);
        let bbox = Aabb::from_boxes(box0, box1);
        Sphere {
            center,
            center_vec: Vec3 {
                x: center_end.x - center.x,
                y: center_end.y - center.y,
                z: center_end.z - center.z,
            },
            is_moving: true,
            radius,
            mat,
            bbox,
        }
    }

    pub fn bounding_box(&self) -> (b: Aabb)
        ensures
            b == self.bbox,
    {
        self.bbox
    }

    /// The intersection query; mirrors `sphere_hit` exactly.
    pub fn hit(&self, r: &Ray, ray_t: &Interval) -> (res: Option<HitRecord>)
        requires
            sphere_wf(*self),
            ray_bounded(*r),
            0 <= r.time <= 65536,
            0 <= ray_t.min,
            ray_t.max <= T_MAX,
        ensures
            res == sphere_hit(*self, *r, ray_t.min as int, ray_t.max as int),
    {
        let tmin = ray_t.min;
        let tmax = ray_t.max;
        let time = r.time;
        let (cx, cy, cz): (i64, i64, i64) = if self.is_moving {
            proof {
                lemma_center_interp_bound(time as int, self.center_vec.x as int);
                lemma_center_interp_bound(time as int, self.center_vec.y as int);
                lemma_center_interp_bound(time as int, self.center_vec.z as int);
            }
            (
                self.center.x + mul_fx(time, self.center_vec.x),
                self.center.y + mul_fx(time, self.center_vec.y),
                self.center.z + mul_fx(time, self.center_vec.z),
            )
        } else {
            (self.center.x, self.center.y, self.center.z)
        };
        let ocx: i128 = (r.origin.x as i128) - (cx as i128);
        let ocy: i128 = (r.origin.y as i128) - (cy as i128);
        let ocz: i128 = (r.origin.z as i128) - (cz as i128);
        let dx: i128 = r.direction.x as i128;
        let dy: i128 = r.direction.y as i128;
        let dz: i128 = r.direction.z as i128;
        proof {
            lemma_prod_bound(dx as int, dx as int, 0x10000000, 0x10000000);
            lemma_prod_bound(dy as int, dy as int, 0x10000000, 0x10000000);
            lemma_prod_bound(dz as int, dz as int, 0x10000000, 0x10000000);
            lemma_prod_bound(ocx as int, dx as int, 0x20000000, 0x10000000);
            lemma_prod_bound(ocy as int, dy as int, 0x20000000, 0x10000000);
            lemma_prod_bound(ocz as int, dz as int, 0x20000000, 0x10000000);
            lemma_prod_bound(ocx as int, ocx as int, 0x20000000, 0x20000000);
            lemma_prod_bound(ocy as int, ocy as int, 0x20000000, 0x20000000);
            lemma_prod_bound(ocz as int, ocz as int, 0x20000000, 0x20000000);
            lemma_prod_bound(self.radius as int, self.radius as int, 0x4000000, 0x4000000);
        }
        let a: i128 = dx * dx + dy * dy + dz * dz;
        let hb: i128 = ocx * dx + ocy * dy + ocz * dz;
        let cc: i128 = ocx * ocx + ocy * ocy + ocz * ocz - (self.radius as i128) * (self.radius
            as i128);
        proof {
            lemma_prod_bound(hb as int, hb as int, 0x800000000000000, 0x800000000000000);
            lemma_prod_bound(a as int, cc as int, 0x400000000000000, 0x2000000000000000);
        }
        let disc: i128 = hb * hb - a * cc;
        if a == 0 || disc < 0 {
            return None;
        }
        proof {
            assert(a as int >= 1) by (nonlinear_arith)
                requires
                    a as int == (dx as int) * (dx as int) + (dy as int) * (dy as int) + (dz as int)
                        * (dz as int),
                    a as int != 0,
            ;
        }
        let squ = isqrt_u128(disc as u128);
        let sq: i128 = squ as i128;
        proof {
            crate::fixed::lemma_sqrt_floor(disc as int);
            assert(sq as int <= 0x1000000000000000) by (nonlinear_arith)
                requires
                    sq as int >= 0,
                    (sq as int) * (sq as int) <= disc as int,
                    disc as int <= 0x1000000000000000 * 0x1000000000000000,
            ;
            lemma_floor_div_bound((-(hb as int) - sq) * 65536, a as int, 0x100000000000000000000);
            lemma_floor_div_bound((-(hb as int) + sq) * 65536, a as int, 0x100000000000000000000);
        }
        let r1 = floor_div_i128((-hb - sq) * 65536, a);
        let r2 = floor_div_i128((-hb + sq) * 65536, a);
        let root128: i128 = if (tmin as i128) < r1 && r1 < (tmax as i128) {
            r1
        } else {
            r2
        };
        if !((tmin as i128) < root128 && root128 < (tmax as i128)) {
            return None;
        }
        let root = root128 as i64;
        let p = r.at(root);
        if p.x < -GEOM_MAX || p.x > GEOM_MAX || p.y < -GEOM_MAX || p.y > GEOM_MAX || p.z < -GEOM_MAX
            || p.z > GEOM_MAX {
            return None;
        }
        let qx: i128 = (r.origin.x as i128) * 65536 + (root as i128) * (r.direction.x as i128);
        let qy: i128 = (r.origin.y as i128) * 65536 + (root as i128) * (r.direction.y as i128);
        let qz: i128 = (r.origin.z as i128) * 65536 + (root as i128) * (r.direction.z as i128);
        proof {
            crate::ray::lemma_at_raw_bound(*r, root as int);
        }
        if !((self.bbox.x.min as i128) * 65536 <= qx && qx <= (self.bbox.x.max as i128) * 65536
            && (self.bbox.y.min as i128) * 65536 <= qy && qy <= (self.bbox.y.max as i128) * 65536
            && (self.bbox.z.min as i128) * 65536 <= qz && qz <= (self.bbox.z.max as i128)
            * 65536) {
            return None;
        }
        proof {
            lemma_normal_div_bound(p.x as int, cx as int, self.radius as int);
            lemma_normal_div_bound(p.y as int, cy as int, self.radius as int);
            lemma_normal_div_bound(p.z as int, cz as int, self.radius as int);
        }
        let nx = clamp_unit(crate::fixed::div_fx(p.x - cx, self.radius));
        let ny = clamp_unit(crate::fixed::div_fx(p.y - cy, self.radius));
        let nz = clamp_unit(crate::fixed::div_fx(p.z - cz, self.radius));
        let outward = Vec3 { x: nx, y: ny, z: nz };
        let mut rec = HitRecord {
            p,
            normal: outward,
            t: root,
            u: 0,
            v: 0,
            front_face: false,
            mat: self.mat,
        };
        rec.set_face_normal(r, outward);
        Some(rec)
    }
}

/// A grid interpolation coefficient in `[0, 1]` keeps a motion component
/// within its own bound.
proof fn lemma_center_interp_bound(time: int, cv: int)
    requires
        0 <= time <= 65536,
        -0x8000000 <= cv <= 0x8000000,
    ensures
        -0x8000000 <= fx_mul(time, cv) <= 0x8000000,
        i64::MIN <= fx_mul(time, cv) <= i64::MAX,
{
    lemma_prod_bound(time, cv, 65536, 0x8000000);
    lemma_floor_div_fund(time * cv, 65536);
}

/// The normal division by a non-zero radius fits the machine word.
proof fn lemma_normal_div_bound(p: int, c: int, radius: int)
    requires
        -0x10000000 <= p <= 0x10000000,
        -0x10000000 <= c <= 0x10000000,
        radius != 0,
        -0x4000000 <= radius <= 0x4000000,
    ensures
        i64::MIN <= fx_div(p - c, radius) <= i64::MAX,
{
    let a = (p - c) * 65536;
    if radius > 0 {
        lemma_floor_div_bound(a, radius, 0x200000000000);
    } else {
        lemma_floor_div_bound(-a, -radius, 0x200000000000);
        assert(fx_div(p - c, radius) == floor_div(-a, -radius));
    }
}

} // verus!
