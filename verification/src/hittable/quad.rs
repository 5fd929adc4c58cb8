//! Planar parallelograms.

use crate::aabb::{aabb_bounded, aabb_wf, box_from_points, contains_raw, pad_box, Aabb};
use crate::fixed::{
    div_fx, floor_div, floor_div_i128, fx_div, fx_sqrt, lemma_floor_div_bound,
    lemma_floor_div_fund, lemma_prod_bound, sqrt_fx,
};
use crate::hit_record::{face_normal, HitRecord};
use crate::interval::Interval;
use crate::ray::{fx_ray_at_x, fx_ray_at_y, fx_ray_at_z, ray_at_raw_x, ray_at_raw_y, ray_at_raw_z, ray_bounded, Ray, GEOM_MAX, T_MAX};
use crate::vec3::{clamp_unit, clamp_unit_s, cross_x, cross_y, cross_z, dot_raw, fx_dot, fx_len2, vec_bounded, Point3, Vec3};
use vstd::prelude::*;

verus! {

/// Coordinate bound for quad corners and edges (1024 units).
pub const QUAD_MAX: i64 = 0x4000000;

/// Rejection threshold for near-parallel rays: 43 at the 2^-32 scale,
/// the grid's closest analogue of a 1e-8 cutoff.
pub const DENOM_EPS: i128 = 43;

#[derive(Clone, Copy, Debug)]
pub struct Quad {
    pub q: Point3,
    pub u: Vec3,
    pub v: Vec3,
    pub w: Vec3,
    pub normal: Vec3,
    pub d: i64,
    pub mat: usize,
    pub bbox: Aabb,
}

pub open spec fn quad_wf(qd: Quad) -> bool {
    &&& vec_bounded(qd.q, QUAD_MAX as int)
    &&& vec_bounded(qd.u, QUAD_MAX as int)
    &&& vec_bounded(qd.v, QUAD_MAX as int)
    &&& vec_bounded(qd.normal, 0x20000)
    &&& vec_bounded(qd.w, 0x100000000000000)
    &&& -0x20000000 <= qd.d <= 0x20000000
    &&& aabb_bounded(qd.bbox, GEOM_MAX as int)
    &&& aabb_wf(qd.bbox)
}

/// Everything `Quad::new` derives from the three defining vectors: the unit
/// normal (clamped, with a fixed fallback for degenerate edges), the plane
/// offset, the interior-coordinate basis and the padded box.
pub open spec fn quad_make(qp: Point3, u: Vec3, v: Vec3, mat: usize) -> Quad {
    let nx = cross_x(u, v);
    let ny = cross_y(u, v);
    let nz = cross_z(u, v);
    let n = Vec3 { x: nx as i64, y: ny as i64, z: nz as i64 };
    let l2 = fx_len2(n);
    let len = fx_sqrt(l2);
    let far = Vec3 {
        x: (qp.x + u.x + v.x) as i64,
        y: (qp.y + u.y + v.y) as i64,
        z: (qp.z + u.z + v.z) as i64,
    };
    let bbox = pad_box(box_from_points(qp, far));
    if len < 1 {
        Quad {
            q: qp,
            u,
            v,
            w: Vec3 { x: 0, y: 0, z: 0 },
            normal: Vec3 { x: 0, y: 0, z: 65536 },
            d: 0,
            mat,
            bbox,
        }
    } else {
        let normal = Vec3 {
            x: clamp_unit_s(fx_div(nx, len)) as i64,
            y: clamp_unit_s(fx_div(ny, len)) as i64,
            z: clamp_unit_s(fx_div(nz, len)) as i64,
        };
        Quad {
            q: qp,
            u,
            v,
            w: Vec3 {
                x: fx_div(n.x as int, l2) as i64,
                y: fx_div(n.y as int, l2) as i64,
                z: fx_div(n.z as int, l2) as i64,
            },
            normal,
            d: fx_dot(normal, qp) as i64,
            mat,
            bbox,
        }
    }
}

/// The ray-quad intersection on the grid: reject near-parallel rays, solve
/// the plane equation with one floor division, map the hit into the edge
/// basis exactly, and accept interior coordinates only.  Two numeric guards
/// treat degenerate hits as misses: the position must lie in the coordinate
/// range, and the exact position must lie inside the quad's padded box
/// (which makes box pruning complete by construction).
pub open spec fn quad_hit(qd: Quad, r: Ray, tmin: int, tmax: int) -> Option<HitRecord> {
    let denom = dot_raw(qd.normal, r.direction);
    if -43 < denom < 43 {
        None
    } else {
        let t = floor_div((qd.d * 65536 - dot_raw(qd.normal, r.origin)) * 65536, denom);
        if !(tmin <= t <= tmax) {
            None
        } else {
            let px = fx_ray_at_x(r, t);
            let py = fx_ray_at_y(r, t);
            let pz = fx_ray_at_z(r, t);
            if px < -0x10000000 || px > 0x10000000 || py < -0x10000000 || py > 0x10000000 || pz
                < -0x10000000 || pz > 0x10000000 {
                None
            } else if !contains_raw(
                qd.bbox,
                ray_at_raw_x(r, t),
                ray_at_raw_y(r, t),
                ray_at_raw_z(r, t),
            ) {
                None
            } else {
                let php = Vec3 {
                    x: (px - qd.q.x) as i64,
                    y: (py - qd.q.y) as i64,
                    z: (pz - qd.q.z) as i64,
                };
                let cr1 = Vec3 {
                    x: cross_x(php, qd.v) as i64,
                    y: cross_y(php, qd.v) as i64,
                    z: cross_z(php, qd.v) as i64,
                };
                let cr2 = Vec3 {
                    x: cross_x(qd.u, php) as i64,
                    y: cross_y(qd.u, php) as i64,
                    z: cross_z(qd.u, php) as i64,
                };
                let alpha = dot_raw(qd.w, cr1);
                let beta = dot_raw(qd.w, cr2);
                if !(0 <= alpha <= 0x100000000 && 0 <= beta <= 0x100000000) {
                    None
                } else {
                    let fnr = face_normal(r, qd.normal);
                    Some(
                        HitRecord {
                            p: Vec3 { x: px as i64, y: py as i64, z: pz as i64 },
                            normal: fnr.1,
                            t: t as i64,
                            u: floor_div(alpha, 65536) as i64,
                            v: floor_div(beta, 65536) as i64,
                            front_face: fnr.0,
                            mat: qd.mat,
                        },
                    )
                }
            }
        }
    }
}

/// Interior test on the raw (2^-32 scale) planar coordinates: both must lie
/// within `[0, 1]`.
pub fn is_interior(alpha: i128, beta: i128) -> (r: bool)
    ensures
        r == (0 <= alpha <= 0x100000000 && 0 <= beta <= 0x100000000),
{
    0 <= alpha && alpha <= 0x100000000 && 0 <= beta && beta <= 0x100000000
}

impl Quad {
    /// A parallelogram with corner `q` and edge vectors `u`, `v`.
    pub fn new(qp: Point3, u: Vec3, v: Vec3, mat: usize) -> (s: Quad)
        requires
            vec_bounded(qp, QUAD_MAX as int),
            vec_bounded(u, QUAD_MAX as int),
            vec_bounded(v, QUAD_MAX as int),
        ensures
            s == quad_make(qp, u, v, mat),
            quad_wf(s),
    {
        let n = u.cross(&v);
        proof {
            lemma_edge_cross_bound(u, v);
        }
        let l2 = n.length_squared();
        let len = sqrt_fx(l2);
        let far = Vec3 { x: qp.x + u.x + v.x, y: qp.y + u.y + v.y, z: qp.z + u.z + v.z };
        let bbox = Aabb::from_points(qp, far).pad();
        if len < 1 {
            Quad {
                q: qp,
                u,
                v,
                w: Vec3 { x: 0, y: 0, z: 0 },
                normal: Vec3 { x: 0, y: 0, z: 65536 },
                d: 0,
                mat,
                bbox,
            }
        } else {
            proof {
                assert(l2 >= 1);
                lemma_floor_div_bound(n.x * 65536, len as int, 0x40000000000000);
                lemma_floor_div_bound(n.y * 65536, len as int, 0x40000000000000);
                lemma_floor_div_bound(n.z * 65536, len as int, 0x40000000000000);
                lemma_floor_div_bound(n.x * 65536, l2 as int, 0x40000000000000);
                lemma_floor_div_bound(n.y * 65536, l2 as int, 0x40000000000000);
                lemma_floor_div_bound(n.z * 65536, l2 as int, 0x40000000000000);
            }
            let normal = Vec3 {
                x: clamp_unit(div_fx(n.x, len)),
                y: clamp_unit(div_fx(n.y, len)),
                z: clamp_unit(div_fx(n.z, len)),
            };
            let w = Vec3 { x: div_fx(n.x, l2), y: div_fx(n.y, l2), z: div_fx(n.z, l2) };
            proof {
                lemma_prod_bound(normal.x as int, qp.x as int, 0x20000, 0x4000000);
                lemma_prod_bound(normal.y as int, qp.y as int, 0x20000, 0x4000000);
                lemma_prod_bound(normal.z as int, qp.z as int, 0x20000, 0x4000000);
                lemma_floor_div_fund(dot_raw(normal, qp), 65536);
            }
            let d = normal.dot(&qp);
            Quad { q: qp, u, v, w, normal, d, mat, bbox }
        }
    }

    pub fn bounding_box(&self) -> (b: Aabb)
        ensures
            b == self.bbox,
    {
        self.bbox
    }

    /// The intersection query; mirrors `quad_hit` exactly.
    pub fn hit(&self, r: &Ray, ray_t: &Interval) -> (res: Option<HitRecord>)
        requires
            quad_wf(*self),
            ray_bounded(*r),
            0 <= ray_t.min,
            ray_t.max <= T_MAX,
        ensures
            res == quad_hit(*self, *r, ray_t.min as int, ray_t.max as int),
    {
        let tmin = ray_t.min;
        let tmax = ray_t.max;
        proof {
            lemma_prod_bound(self.normal.x as int, r.direction.x as int, 0x20000, 0x10000000);
            lemma_prod_bound(self.normal.y as int, r.direction.y as int, 0x20000, 0x10000000);
            lemma_prod_bound(self.normal.z as int, r.direction.z as int, 0x20000, 0x10000000);
            lemma_prod_bound(self.normal.x as int, r.origin.x as int, 0x20000, 0x10000000);
            lemma_prod_bound(self.normal.y as int, r.origin.y as int, 0x20000, 0x10000000);
            lemma_prod_bound(self.normal.z as int, r.origin.z as int, 0x20000, 0x10000000);
        }
        let denom: i128 = (self.normal.x as i128) * (r.direction.x as i128) + (self.normal.y
            as i128) * (r.direction.y as i128) + (self.normal.z as i128) * (r.direction.z as i128);
        if -DENOM_EPS < denom && denom < DENOM_EPS {
            return None;
        }
        let no: i128 = (self.normal.x as i128) * (r.origin.x as i128) + (self.normal.y as i128) * (
        r.origin.y as i128) + (self.normal.z as i128) * (r.origin.z as i128);
        let num: i128 = ((self.d as i128) * 65536 - no) * 65536;
        proof {
            if denom > 0 {
                lemma_floor_div_bound(num as int, denom as int, 0x100000000000000000);
            } else {
                lemma_floor_div_bound(-(num as int), -(denom as int), 0x100000000000000000);
            }
        }
        let t128 = floor_div_i128(num, denom);
        if !((tmin as i128) <= t128 && t128 <= (tmax as i128)) {
            return None;
        }
        let t = t128 as i64;
        let p = r.at(t);
        if p.x < -GEOM_MAX || p.x > GEOM_MAX || p.y < -GEOM_MAX || p.y > GEOM_MAX || p.z < -GEOM_MAX
            || p.z > GEOM_MAX {
            return None;
        }
        let qx: i128 = (r.origin.x as i128) * 65536 + (t as i128) * (r.direction.x as i128);
        let qy: i128 = (r.origin.y as i128) * 65536 + (t as i128) * (r.direction.y as i128);
        let qz: i128 = (r.origin.z as i128) * 65536 + (t as i128) * (r.direction.z as i128);
        proof {
            crate::ray::lemma_at_raw_bound(*r, t as int);
        }
        if !((self.bbox.x.min as i128) * 65536 <= qx && qx <= (self.bbox.x.max as i128) * 65536
            && (self.bbox.y.min as i128) * 65536 <= qy && qy <= (self.bbox.y.max as i128) * 65536
            && (self.bbox.z.min as i128) * 65536 <= qz && qz <= (self.bbox.z.max as i128)
            * 65536) {
            return None;
        }
        let php = Vec3 { x: p.x - self.q.x, y: p.y - self.q.y, z: p.z - self.q.z };
        let cr1 = php.cross(&self.v);
        let cr2 = self.u.cross(&php);
        proof {
            lemma_cross_bound(php, self.v);
            lemma_cross_bound(self.u, php);
            lemma_prod_bound(self.w.x as int, cr1.x as int, 0x100000000000000, 0x100000000000);
            lemma_prod_bound(self.w.y as int, cr1.y as int, 0x100000000000000, 0x100000000000);
            lemma_prod_bound(self.w.z as int, cr1.z as int, 0x100000000000000, 0x100000000000);
            lemma_prod_bound(self.w.x as int, cr2.x as int, 0x100000000000000, 0x100000000000);
            lemma_prod_bound(self.w.y as int, cr2.y as int, 0x100000000000000, 0x100000000000);
            lemma_prod_bound(self.w.z as int, cr2.z as int, 0x100000000000000, 0x100000000000);
        }
        let alpha: i128 = (self.w.x as i128) * (cr1.x as i128) + (self.w.y as i128) * (cr1.y
            as i128) + (self.w.z as i128) * (cr1.z as i128);
        let beta: i128 = (self.w.x as i128) * (cr2.x as i128) + (self.w.y as i128) * (cr2.y as i128)
            + (self.w.z as i128) * (cr2.z as i128);
        if !is_interior(alpha, beta) {
            return None;
        }
        proof {
            lemma_floor_div_fund(alpha as int, 65536);
            lemma_floor_div_fund(beta as int, 65536);
        }
        let ucoord = floor_div_i128(alpha, 65536) as i64;
        let vcoord = floor_div_i128(beta, 65536) as i64;
        let mut rec = HitRecord {
            p,
            normal: self.normal,
            t,
            u: ucoord,
            v: vcoord,
            front_face: false,
            mat: self.mat,
        };
        rec.set_face_normal(r, self.normal);
        Some(rec)
    }
}

/// Components of a cross product of two edge vectors stay within 2^38.
proof fn lemma_edge_cross_bound(a: Vec3, b: Vec3)
    requires
        vec_bounded(a, 0x4000000),
        vec_bounded(b, 0x4000000),
    ensures
        -0x4000000000 <= cross_x(a, b) <= 0x4000000000,
        -0x4000000000 <= cross_y(a, b) <= 0x4000000000,
        -0x4000000000 <= cross_z(a, b) <= 0x4000000000,
{
    lemma_prod_bound(a.y as int, b.z as int, 0x4000000, 0x4000000);
    lemma_prod_bound(a.z as int, b.y as int, 0x4000000, 0x4000000);
    lemma_prod_bound(a.z as int, b.x as int, 0x4000000, 0x4000000);
    lemma_prod_bound(a.x as int, b.z as int, 0x4000000, 0x4000000);
    lemma_prod_bound(a.x as int, b.y as int, 0x4000000, 0x4000000);
    lemma_prod_bound(a.y as int, b.x as int, 0x4000000, 0x4000000);
    lemma_floor_div_fund(a.y * b.z - a.z * b.y, 65536);
    lemma_floor_div_fund(a.z * b.x - a.x * b.z, 65536);
    lemma_floor_div_fund(a.x * b.y - a.y * b.x, 65536);
}

/// Components of a cross product of vectors at the hit-point scale stay
/// within 2^44.
proof fn lemma_cross_bound(a: Vec3, b: Vec3)
    requires
        vec_bounded(a, 0x20000000),
        vec_bounded(b, 0x20000000),
    ensures
        -0x100000000000 <= cross_x(a, b) <= 0x100000000000,
        -0x100000000000 <= cross_y(a, b) <= 0x100000000000,
        -0x100000000000 <= cross_z(a, b) <= 0x100000000000,
{
    lemma_prod_bound(a.y as int, b.z as int, 0x20000000, 0x20000000);
    lemma_prod_bound(a.z as int, b.y as int, 0x20000000, 0x20000000);
    lemma_prod_bound(a.z as int, b.x as int, 0x20000000, 0x20000000);
    lemma_prod_bound(a.x as int, b.z as int, 0x20000000, 0x20000000);
    lemma_prod_bound(a.x as int, b.y as int, 0x20000000, 0x20000000);
    lemma_prod_bound(a.y as int, b.x as int, 0x20000000, 0x20000000);
    lemma_floor_div_fund(a.y * b.z - a.z * b.y, 65536);
    lemma_floor_div_fund(a.z * b.x - a.x * b.z, 65536);
    lemma_floor_div_fund(a.x * b.y - a.y * b.x, 65536);
}

} // verus!
