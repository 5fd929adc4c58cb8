//! Axis-aligned bounding boxes and the slab intersection test.
//!
//! On the fixed-point grid the slab test can be made exact: for each axis the
//! admissible ray parameters form an interval whose grid endpoints are a ceil
//! and a floor division, so the test decides precisely whether some grid
//! parameter in the search interval puts the ray inside the box.

use crate::fixed::{floor_div, floor_div_i128, lemma_floor_div_bound, lemma_floor_div_fund};
use crate::interval::Interval;
use crate::ray::{ray_at_raw_x, ray_at_raw_y, ray_at_raw_z, ray_bounded, Ray, GEOM_MAX, T_MAX};
use crate::vec3::Point3;
use vstd::prelude::*;

verus! {

/// Minimum box thickness per axis after padding, in grid units.
pub const PAD_EPS: i64 = 8;

#[derive(Clone, Copy, Debug, PartialEq, Eq, Structural)]
pub struct Aabb {
    pub x: Interval,
    pub y: Interval,
    pub z: Interval,
}

/// Closed containment of a grid point.
pub open spec fn contains_point(b: Aabb, p: Point3) -> bool {
    &&& b.x.min <= p.x <= b.x.max
    &&& b.y.min <= p.y <= b.y.max
    &&& b.z.min <= p.z <= b.z.max
}

/// Closed containment of a raw-scale (2^-32) position.
pub open spec fn contains_raw(b: Aabb, px: int, py: int, pz: int) -> bool {
    &&& b.x.min * 65536 <= px <= b.x.max * 65536
    &&& b.y.min * 65536 <= py <= b.y.max * 65536
    &&& b.z.min * 65536 <= pz <= b.z.max * 65536
}

/// Whether some grid parameter within `[tmin, tmax]` puts the ray's exact
/// position inside the box.
pub open spec fn ray_hits_box(b: Aabb, r: Ray, tmin: int, tmax: int) -> bool {
    exists|t: int|
        tmin <= t <= tmax && contains_raw(
            b,
            ray_at_raw_x(r, t),
            ray_at_raw_y(r, t),
            ray_at_raw_z(r, t),
        )
}

/// The box spanned by two corner points, per axis.
pub open spec fn box_from_points(a: Point3, b: Point3) -> Aabb {
    Aabb {
        x: Interval {
            min: if a.x <= b.x {
                a.x
            } else {
                b.x
            },
            max: if a.x >= b.x {
                a.x
            } else {
                b.x
            },
        },
        y: Interval {
            min: if a.y <= b.y {
                a.y
            } else {
                b.y
            },
            max: if a.y >= b.y {
                a.y
            } else {
                b.y
            },
        },
        z: Interval {
            min: if a.z <= b.z {
                a.z
            } else {
                b.z
            },
            max: if a.z >= b.z {
                a.z
            } else {
                b.z
            },
        },
    }
}

/// Every thin axis widened to the minimum thickness.
pub open spec fn pad_box(b: Aabb) -> Aabb {
    Aabb {
        x: if b.x.max - b.x.min >= 8 {
            b.x
        } else {
            Interval { min: (b.x.min - 4) as i64, max: (b.x.max + 4) as i64 }
        },
        y: if b.y.max - b.y.min >= 8 {
            b.y
        } else {
            Interval { min: (b.y.min - 4) as i64, max: (b.y.max + 4) as i64 }
        },
        z: if b.z.max - b.z.min >= 8 {
            b.z
        } else {
            Interval { min: (b.z.min - 4) as i64, max: (b.z.max + 4) as i64 }
        },
    }
}

/// The per-axis union of two boxes.
pub open spec fn aabb_union(a: Aabb, b: Aabb) -> Aabb {
    Aabb {
        x: Interval {
            min: if a.x.min <= b.x.min {
                a.x.min
            } else {
                b.x.min
            },
            max: if a.x.max >= b.x.max {
                a.x.max
            } else {
                b.x.max
            },
        },
        y: Interval {
            min: if a.y.min <= b.y.min {
                a.y.min
            } else {
                b.y.min
            },
            max: if a.y.max >= b.y.max {
                a.y.max
            } else {
                b.y.max
            },
        },
        z: Interval {
            min: if a.z.min <= b.z.min {
                a.z.min
            } else {
                b.z.min
            },
            max: if a.z.max >= b.z.max {
                a.z.max
            } else {
                b.z.max
            },
        },
    }
}

/// All endpoints within `[-m, m]`.
pub open spec fn aabb_bounded(b: Aabb, m: int) -> bool {
    &&& -m <= b.x.min <= m && -m <= b.x.max <= m
    &&& -m <= b.y.min <= m && -m <= b.y.max <= m
    &&& -m <= b.z.min <= m && -m <= b.z.max <= m
}

/// Non-crossed endpoints on every axis.
pub open spec fn aabb_wf(b: Aabb) -> bool {
    &&& b.x.min <= b.x.max
    &&& b.y.min <= b.y.max
    &&& b.z.min <= b.z.max
}

/// `inner` lies within `outer` on every axis.
pub open spec fn box_inside(inner: Aabb, outer: Aabb) -> bool {
    &&& outer.x.min <= inner.x.min && inner.x.max <= outer.x.max
    &&& outer.y.min <= inner.y.min && inner.y.max <= outer.y.max
    &&& outer.z.min <= inner.z.min && inner.z.max <= outer.z.max
}

/// The union contains every point of each operand.
pub proof fn lemma_union_contains(a: Aabb, b: Aabb, p: Point3)
    ensures
        contains_point(a, p) ==> contains_point(aabb_union(a, b), p),
        contains_point(b, p) ==> contains_point(aabb_union(a, b), p),
{
}

/// Each operand sits inside the union.
pub proof fn lemma_union_grows(a: Aabb, b: Aabb)
    ensures
        box_inside(a, aabb_union(a, b)),
        box_inside(b, aabb_union(a, b)),
{
}

/// The union is the smallest box containing both operands: any box that
/// contains every point of two non-empty boxes encloses their union on each
/// axis.
pub proof fn lemma_union_minimal(a: Aabb, b: Aabb, c: Aabb)
    requires
        aabb_wf(a),
        aabb_wf(b),
        forall|p: Point3| contains_point(a, p) ==> contains_point(c, p),
        forall|p: Point3| contains_point(b, p) ==> contains_point(c, p),
    ensures
        box_inside(aabb_union(a, b), c),
{
    let a_lo = Point3 { x: a.x.min, y: a.y.min, z: a.z.min };
    let a_hi = Point3 { x: a.x.max, y: a.y.max, z: a.z.max };
    let b_lo = Point3 { x: b.x.min, y: b.y.min, z: b.z.min };
    let b_hi = Point3 { x: b.x.max, y: b.y.max, z: b.z.max };
    assert(contains_point(a, a_lo));
    assert(contains_point(a, a_hi));
    assert(contains_point(b, b_lo));
    assert(contains_point(b, b_hi));
}

/// Raw containment is monotone under box inclusion.
pub proof fn lemma_raw_mono(inner: Aabb, outer: Aabb, px: int, py: int, pz: int)
    requires
        box_inside(inner, outer),
        contains_raw(inner, px, py, pz),
    ensures
        contains_raw(outer, px, py, pz),
{
}

/// One axis' slab constraint at parameter `t`: the exact position stays
/// between the two planes.
pub open spec fn axis_ok(o: int, d: int, lo_b: int, hi_b: int, t: int) -> bool {
    lo_b * 65536 <= o * 65536 + t * d <= hi_b * 65536
}

/// Clip the running parameter interval `[lo, hi]` by one axis' slab
/// constraint; `false` means the constraint is unsatisfiable there.
fn axis_clip(o: i64, d: i64, lo_b: i64, hi_b: i64, lo: &mut i128, hi: &mut i128) -> (ok: bool)
    requires
        -0x10000000 <= o <= 0x10000000,
        -0x10000000 <= d <= 0x10000000,
        -0x10000000 <= lo_b <= 0x10000000,
        -0x10000000 <= hi_b <= 0x10000000,
        -0x1000000000000 <= *old(lo) <= 0x1000000000000,
        -0x1000000000000 <= *old(hi) <= 0x1000000000000,
    ensures
        -0x1000000000000 <= *final(lo) <= 0x1000000000000,
        -0x1000000000000 <= *final(hi) <= 0x1000000000000,
        ok ==> forall|t: int|
            ((*final(lo) <= t <= *final(hi)) <==> (*old(lo) <= t <= *old(hi) && #[trigger] axis_ok(
                o as int,
                d as int,
                lo_b as int,
                hi_b as int,
                t,
            ))),
        !ok ==> forall|t: int|
            !(*old(lo) <= t <= *old(hi) && #[trigger] axis_ok(
                o as int,
                d as int,
                lo_b as int,
                hi_b as int,
                t,
            )),
{
    if d == 0 {
        if lo_b <= o && o <= hi_b {
            proof {
                assert forall|t: int| #[trigger] axis_ok(
                    o as int,
                    d as int,
                    lo_b as int,
                    hi_b as int,
                    t,
                ) by {
                    assert(t * d == 0) by (nonlinear_arith)
                        requires
                            d == 0,
                    ;
                }
            }
            true
        } else {
            proof {
                assert forall|t: int| !#[trigger] axis_ok(
                    o as int,
                    d as int,
                    lo_b as int,
                    hi_b as int,
                    t,
                ) by {
                    assert(t * d == 0) by (nonlinear_arith)
                        requires
                            d == 0,
                    ;
                }
            }
            false
        }
    } else {
        let dd: i128 = if d > 0 {
            d as i128
        } else {
            (-d) as i128
        };
        let a128: i128 = if d > 0 {
            ((lo_b - o) as i128) * 65536
        } else {
            ((o - hi_b) as i128) * 65536
        };
        let b128: i128 = if d > 0 {
            ((hi_b - o) as i128) * 65536
        } else {
            ((o - lo_b) as i128) * 65536
        };
        let f0: i128 = floor_div_i128(-a128, dd);
        proof {
            lemma_floor_div_bound(-(a128 as int), dd as int, 0x200000000000);
            lemma_floor_div_bound(b128 as int, dd as int, 0x200000000000);
        }
        let lt: i128 = -f0;
        let ht: i128 = floor_div_i128(b128, dd);
        proof {
            lemma_floor_div_fund(-(a128 as int), dd as int);
            lemma_floor_div_fund(b128 as int, dd as int);
            assert forall|t: int|
                ((lt as int <= t <= ht as int) <==> #[trigger] axis_ok(
                    o as int,
                    d as int,
                    lo_b as int,
                    hi_b as int,
                    t,
                )) by {
                lemma_axis_window(
                    t,
                    o as int,
                    d as int,
                    lo_b as int,
                    hi_b as int,
                    dd as int,
                    a128 as int,
                    b128 as int,
                    lt as int,
                    ht as int,
                );
            }
        }
        if lt > *lo {
            *lo = lt;
        }
        if ht < *hi {
            *hi = ht;
        }
        true
    }
}

/// One axis of the slab test, for one candidate parameter: the grid window
/// `[lt, ht]` derived by ceil and floor division captures the axis constraint
/// exactly.
proof fn lemma_axis_window(
    t: int,
    o: int,
    d: int,
    lo_b: int,
    hi_b: int,
    dd: int,
    a: int,
    b: int,
    lt: int,
    ht: int,
)
    requires
        d != 0,
        dd == if d > 0 {
            d
        } else {
            -d
        },
        a == if d > 0 {
            (lo_b - o) * 65536
        } else {
            (o - hi_b) * 65536
        },
        b == if d > 0 {
            (hi_b - o) * 65536
        } else {
            (o - lo_b) * 65536
        },
        lt == -floor_div(-a, dd),
        ht == floor_div(b, dd),
    ensures
        (lt <= t <= ht) <==> (lo_b * 65536 <= o * 65536 + t * d <= hi_b * 65536),
{
    lemma_floor_div_fund(b, dd);
    lemma_floor_div_fund(-a, dd);
    let qb = floor_div(b, dd);
    let qa = floor_div(-a, dd);
    // t <= ht exactly captures t * dd <= b.
    assert((t <= qb ==> t * dd <= b) && (t * dd <= b ==> t <= qb)) by (nonlinear_arith)
        requires
            dd >= 1,
            dd * qb <= b < dd * (qb + 1),
    ;
    // t >= lt exactly captures a <= t * dd.
    assert((-t <= qa ==> (-t) * dd <= -a) && ((-t) * dd <= -a ==> -t <= qa)) by (nonlinear_arith)
        requires
            dd >= 1,
            dd * qa <= -a < dd * (qa + 1),
    ;
    assert((-t) * dd == -(t * dd)) by (nonlinear_arith);
    // Fold the |d| normalisation back into the signed two-sided bound.
    if d > 0 {
        assert(t * d == t * dd);
    } else {
        assert(t * d == -(t * dd)) by (nonlinear_arith)
            requires
                d == -dd,
        ;
    }
}

impl Aabb {
    pub fn new(x: Interval, y: Interval, z: Interval) -> (r: Aabb)
        ensures
            r == (Aabb { x, y, z }),
    {
        Aabb { x, y, z }
    }

    /// The box spanned by two corner points.
    pub fn from_points(a: Point3, b: Point3) -> (r: Aabb)
        ensures
            r.x.min == if a.x <= b.x {
                a.x
            } else {
                b.x
            },
            r.x.max == if a.x >= b.x {
                a.x
            } else {
                b.x
            },
            r.y.min == if a.y <= b.y {
                a.y
            } else {
                b.y
            },
            r.y.max == if a.y >= b.y {
                a.y
            } else {
                b.y
            },
            r.z.min == if a.z <= b.z {
                a.z
            } else {
                b.z
            },
            r.z.max == if a.z >= b.z {
                a.z
            } else {
                b.z
            },
            aabb_wf(r),
            r == box_from_points(a, b),
    {
        Aabb {
            x: Interval {
                min: if a.x <= b.x {
                    a.x
                } else {
                    b.x
                },
                max: if a.x >= b.x {
                    a.x
                } else {
                    b.x
                },
            },
            y: Interval {
                min: if a.y <= b.y {
                    a.y
                } else {
                    b.y
                },
                max: if a.y >= b.y {
                    a.y
                } else {
                    b.y
                },
            },
            z: Interval {
                min: if a.z <= b.z {
                    a.z
                } else {
                    b.z
                },
                max: if a.z >= b.z {
                    a.z
                } else {
                    b.z
                },
            },
        }
    }

    /// The union of two boxes.
    pub fn from_boxes(box0: Aabb, box1: Aabb) -> (r: Aabb)
        ensures
            r == aabb_union(box0, box1),
    {
        Aabb {
            x: box0.x.combined(box1.x),
            y: box0.y.combined(box1.y),
            z: box0.z.combined(box1.z),
        }
    }

    /// The interval for the given axis index (an index outside the three
    /// axes is a caller error).
    pub fn axis(&self, n: i32) -> (r: &Interval)
        requires
            0 <= n <= 2,
        ensures
            *r == if n == 1 {
                self.y
            } else if n == 2 {
                self.z
            } else {
                self.x
            },
    {
        if n == 1 {
            &self.y
        } else if n == 2 {
            &self.z
        } else {
            &self.x
        }
    }

    /// Exact slab test: decides whether some grid parameter in the search
    /// interval puts the ray inside this box.
    pub fn hit(&self, r: &Ray, ray_t: &Interval) -> (res: bool)
        requires
            ray_bounded(*r),
            aabb_bounded(*self, GEOM_MAX as int),
            -T_MAX <= ray_t.min <= T_MAX,
            -T_MAX <= ray_t.max <= T_MAX,
        ensures
            res == ray_hits_box(*self, *r, ray_t.min as int, ray_t.max as int),
    {
        let tmin = ray_t.min;
        let tmax = ray_t.max;
        let mut lo: i128 = tmin as i128;
        let mut hi: i128 = tmax as i128;
        let ok_x = axis_clip(self.x_min_o(r, 0), r.direction.x, self.x.min, self.x.max, &mut lo, &mut hi);
        if !ok_x {
            proof {
                if ray_hits_box(*self, *r, tmin as int, tmax as int) {
                    let t = choose|t: int|
                        tmin <= t <= tmax && contains_raw(
                            *self,
                            ray_at_raw_x(*r, t),
                            ray_at_raw_y(*r, t),
                            ray_at_raw_z(*r, t),
                        );
                    assert(axis_ok(
                        r.origin.x as int,
                        r.direction.x as int,
                        self.x.min as int,
                        self.x.max as int,
                        t,
                    ));
                    assert(false);
                }
            }
            return false;
        }
        let ghost lo1 = lo;
        let ghost hi1 = hi;
        let ok_y = axis_clip(self.x_min_o(r, 1), r.direction.y, self.y.min, self.y.max, &mut lo, &mut hi);
        if !ok_y {
            proof {
                if ray_hits_box(*self, *r, tmin as int, tmax as int) {
                    let t = choose|t: int|
                        tmin <= t <= tmax && contains_raw(
                            *self,
                            ray_at_raw_x(*r, t),
                            ray_at_raw_y(*r, t),
                            ray_at_raw_z(*r, t),
                        );
                    assert(axis_ok(
                        r.origin.x as int,
                        r.direction.x as int,
                        self.x.min as int,
                        self.x.max as int,
                        t,
                    ));
                    assert(axis_ok(
                        r.origin.y as int,
                        r.direction.y as int,
                        self.y.min as int,
                        self.y.max as int,
                        t,
                    ));
                    assert(lo1 <= t <= hi1);
                    assert(false);
                }
            }
            return false;
        }
        let ghost lo2 = lo;
        let ghost hi2 = hi;
        let ok_z = axis_clip(self.x_min_o(r, 2), r.direction.z, self.z.min, self.z.max, &mut lo, &mut hi);
        if !ok_z {
            proof {
                if ray_hits_box(*self, *r, tmin as int, tmax as int) {
                    let t = choose|t: int|
                        tmin <= t <= tmax && contains_raw(
                            *self,
                            ray_at_raw_x(*r, t),
                            ray_at_raw_y(*r, t),
                            ray_at_raw_z(*r, t),
                        );
                    assert(axis_ok(
                        r.origin.x as int,
                        r.direction.x as int,
                        self.x.min as int,
                        self.x.max as int,
                        t,
                    ));
                    assert(lo1 <= t <= hi1);
                    assert(axis_ok(
                        r.origin.y as int,
                        r.direction.y as int,
                        self.y.min as int,
                        self.y.max as int,
                        t,
                    ));
                    assert(lo2 <= t <= hi2);
                    assert(axis_ok(
                        r.origin.z as int,
                        r.direction.z as int,
                        self.z.min as int,
                        self.z.max as int,
                        t,
                    ));
                    assert(false);
                }
            }
            return false;
        }
        let res = lo <= hi;
        proof {
            if lo <= hi {
                let t = lo as int;
                assert(axis_ok(
                    r.origin.z as int,
                    r.direction.z as int,
                    self.z.min as int,
                    self.z.max as int,
                    t,
                ));
                assert(lo2 <= t <= hi2);
                assert(axis_ok(
                    r.origin.y as int,
                    r.direction.y as int,
                    self.y.min as int,
                    self.y.max as int,
                    t,
                ));
                assert(lo1 <= t <= hi1);
                assert(axis_ok(
                    r.origin.x as int,
                    r.direction.x as int,
                    self.x.min as int,
                    self.x.max as int,
                    t,
                ));
                assert(tmin <= t <= tmax && contains_raw(
                    *self,
                    ray_at_raw_x(*r, t),
                    ray_at_raw_y(*r, t),
                    ray_at_raw_z(*r, t),
                ));
            } else {
                if ray_hits_box(*self, *r, tmin as int, tmax as int) {
                    let t = choose|t: int|
                        tmin <= t <= tmax && contains_raw(
                            *self,
                            ray_at_raw_x(*r, t),
                            ray_at_raw_y(*r, t),
                            ray_at_raw_z(*r, t),
                        );
                    assert(axis_ok(
                        r.origin.x as int,
                        r.direction.x as int,
                        self.x.min as int,
                        self.x.max as int,
                        t,
                    ));
                    assert(lo1 <= t <= hi1);
                    assert(axis_ok(
                        r.origin.y as int,
                        r.direction.y as int,
                        self.y.min as int,
                        self.y.max as int,
                        t,
                    ));
                    assert(lo2 <= t <= hi2);
                    assert(axis_ok(
                        r.origin.z as int,
                        r.direction.z as int,
                        self.z.min as int,
                        self.z.max as int,
                        t,
                    ));
                    assert(lo as int <= t <= hi as int);
                    assert(false);
                }
            }
        }
        res
    }

    /// Origin component along axis `n` (a helper keeping `hit` readable).
    fn x_min_o(&self, r: &Ray, n: i32) -> (v: i64)
        ensures
            v == if n == 1 {
                r.origin.y
            } else if n == 2 {
                r.origin.z
            } else {
                r.origin.x
            },
    {
        if n == 1 {
            r.origin.y
        } else if n == 2 {
            r.origin.z
        } else {
            r.origin.x
        }
    }

    /// Pad every thin axis up to a minimum thickness, so flat geometry keeps
    /// a usable box.
    pub fn pad(&self) -> (r: Aabb)
        requires
            aabb_wf(*self),
            aabb_bounded(*self, GEOM_MAX as int),
        ensures
            r.x == if self.x.max - self.x.min >= PAD_EPS {
                self.x
            } else {
                Interval { min: (self.x.min - 4) as i64, max: (self.x.max + 4) as i64 }
            },
            r.y == if self.y.max - self.y.min >= PAD_EPS {
                self.y
            } else {
                Interval { min: (self.y.min - 4) as i64, max: (self.y.max + 4) as i64 }
            },
            r.z == if self.z.max - self.z.min >= PAD_EPS {
                self.z
            } else {
                Interval { min: (self.z.min - 4) as i64, max: (self.z.max + 4) as i64 }
            },
            aabb_wf(r),
            r.x.max - r.x.min >= PAD_EPS,
            r.y.max - r.y.min >= PAD_EPS,
            r.z.max - r.z.min >= PAD_EPS,
            box_inside(*self, r),
            r == pad_box(*self),
    {
        let x = if self.x.size() >= PAD_EPS {
            self.x
        } else {
            self.x.expand(PAD_EPS)
        };
        let y = if self.y.size() >= PAD_EPS {
            self.y
        } else {
            self.y.expand(PAD_EPS)
        };
        let z = if self.z.size() >= PAD_EPS {
            self.z
        } else {
            self.z.expand(PAD_EPS)
        };
        Aabb::new(x, y, z)
    }
}

} // verus!
