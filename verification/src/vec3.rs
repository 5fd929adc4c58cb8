//! Three-component vectors (and points) on the fixed-point grid.
//!
//! Compound expressions (dot products, cross products, reflections) are
//! evaluated exactly over wide integers and floored back to the grid once,
//! so each operation's contract is a single floor of an exact polynomial.

use crate::fixed::{
    div_fx, floor_div, floor_div_i128, fx_div, fx_mul, fx_sqrt, lemma_floor_div_bound,
    lemma_floor_div_fund, lemma_prod_bound, mul_fx, sqrt_fx,
};
use crate::rng::Rng;
use vstd::prelude::*;

verus! {

/// Component bound under which dot and cross products stay inside `i64`.
pub const VEC_MAX: i64 = 0x4000000000;

/// Component bound for direction-scale vectors (a few units long at most).
pub const UNIT_MAX: i64 = 0x100000;

#[derive(Clone, Copy, Debug, PartialEq, Eq, Structural)]
pub struct Vec3 {
    pub x: i64,
    pub y: i64,
    pub z: i64,
}

/// Points share the grid representation of vectors.
pub type Point3 = Vec3;

/// The exact integer dot product, at twice the fractional scale.
pub open spec fn dot_raw(a: Vec3, b: Vec3) -> int {
    a.x * b.x + a.y * b.y + a.z * b.z
}

/// Dot product floored back to the grid.
pub open spec fn fx_dot(a: Vec3, b: Vec3) -> int {
    floor_div(dot_raw(a, b), 65536)
}

/// Squared length on the grid.
pub open spec fn fx_len2(a: Vec3) -> int {
    fx_dot(a, a)
}

/// Length on the grid: floor square root of the floored squared length.
pub open spec fn fx_len(a: Vec3) -> int {
    fx_sqrt(fx_len2(a))
}

/// Cross-product components, each floored once.
pub open spec fn cross_x(a: Vec3, b: Vec3) -> int {
    floor_div(a.y * b.z - a.z * b.y, 65536)
}

pub open spec fn cross_y(a: Vec3, b: Vec3) -> int {
    floor_div(a.z * b.x - a.x * b.z, 65536)
}

pub open spec fn cross_z(a: Vec3, b: Vec3) -> int {
    floor_div(a.x * b.y - a.y * b.x, 65536)
}

/// Reflection of `v` about normal `n`: `v - 2 (v.n) n`, with the doubled
/// projection floored once per component.
pub open spec fn reflect_x(v: Vec3, n: Vec3) -> int {
    v.x - floor_div(2 * fx_dot(v, n) * n.x, 65536)
}

pub open spec fn reflect_y(v: Vec3, n: Vec3) -> int {
    v.y - floor_div(2 * fx_dot(v, n) * n.y, 65536)
}

pub open spec fn reflect_z(v: Vec3, n: Vec3) -> int {
    v.z - floor_div(2 * fx_dot(v, n) * n.z, 65536)
}

/// The refraction computation on the grid, given the ratio of refractive
/// indices; returns the three result components.
pub open spec fn fx_refract(v: Vec3, n: Vec3, ratio: int) -> (int, int, int) {
    let cos0 = floor_div(-dot_raw(v, n), 65536);
    let cos = if cos0 > 65536 {
        65536
    } else if cos0 < -65536 {
        -65536
    } else {
        cos0
    };
    let px = fx_mul(ratio, v.x + fx_mul(cos, n.x as int));
    let py = fx_mul(ratio, v.y + fx_mul(cos, n.y as int));
    let pz = fx_mul(ratio, v.z + fx_mul(cos, n.z as int));
    let plen2 = floor_div(px * px + py * py + pz * pz, 65536);
    let k = if 65536 - plen2 >= 0 {
        65536 - plen2
    } else {
        plen2 - 65536
    };
    let s = fx_sqrt(k);
    (px - fx_mul(s, n.x as int), py - fx_mul(s, n.y as int), pz - fx_mul(s, n.z as int))
}

/// Clamp a would-be unit-vector component to twice the unit scale; a guard
/// against degenerate divisions, never active for genuine geometry.
pub open spec fn clamp_unit_s(x: int) -> int {
    if x < -0x20000 {
        -0x20000
    } else if x > 0x20000 {
        0x20000
    } else {
        x
    }
}

pub fn clamp_unit(x: i64) -> (r: i64)
    ensures
        r == clamp_unit_s(x as int),
{
    if x < -0x20000 {
        -0x20000
    } else if x > 0x20000 {
        0x20000
    } else {
        x
    }
}

/// The clamped unit direction of a vector, as a spec value.
pub open spec fn unit_cl(v: Vec3) -> Vec3 {
    Vec3 {
        x: clamp_unit_s(fx_div(v.x as int, fx_len(v))) as i64,
        y: clamp_unit_s(fx_div(v.y as int, fx_len(v))) as i64,
        z: clamp_unit_s(fx_div(v.z as int, fx_len(v))) as i64,
    }
}

/// All components within `[-m, m]`.
pub open spec fn vec_bounded(v: Vec3, m: int) -> bool {
    &&& -m <= v.x <= m
    &&& -m <= v.y <= m
    &&& -m <= v.z <= m
}

/// Componentwise product and sum bounds for a dot product of bounded vectors.
pub proof fn lemma_dot_raw_bound(a: Vec3, b: Vec3, m: int)
    requires
        vec_bounded(a, m),
        vec_bounded(b, m),
        0 <= m,
    ensures
        -(m * m) <= a.x * b.x <= m * m,
        -(m * m) <= a.y * b.y <= m * m,
        -(m * m) <= a.z * b.z <= m * m,
        -3 * (m * m) <= dot_raw(a, b) <= 3 * (m * m),
{
    assert(-(m * m) <= a.x * b.x <= m * m && -(m * m) <= a.y * b.y <= m * m && -(m * m) <= a.z
        * b.z <= m * m) by (nonlinear_arith)
        requires
            -m <= a.x <= m,
            -m <= a.y <= m,
            -m <= a.z <= m,
            -m <= b.x <= m,
            -m <= b.y <= m,
            -m <= b.z <= m,
            0 <= m,
    ;
}

/// All nine componentwise products of two bounded vectors stay within the
/// square of the bound.
pub proof fn lemma_prod_grid_bound(a: Vec3, b: Vec3, m: int)
    requires
        vec_bounded(a, m),
        vec_bounded(b, m),
        0 <= m,
    ensures
        -(m * m) <= a.y * b.z <= m * m,
        -(m * m) <= a.z * b.y <= m * m,
        -(m * m) <= a.z * b.x <= m * m,
        -(m * m) <= a.x * b.z <= m * m,
        -(m * m) <= a.x * b.y <= m * m,
        -(m * m) <= a.y * b.x <= m * m,
{
    assert(-(m * m) <= a.y * b.z <= m * m && -(m * m) <= a.z * b.y <= m * m && -(m * m) <= a.z
        * b.x <= m * m && -(m * m) <= a.x * b.z <= m * m && -(m * m) <= a.x * b.y <= m * m && -(m
        * m) <= a.y * b.x <= m * m) by (nonlinear_arith)
        requires
            -m <= a.x <= m,
            -m <= a.y <= m,
            -m <= a.z <= m,
            -m <= b.x <= m,
            -m <= b.y <= m,
            -m <= b.z <= m,
            0 <= m,
    ;
}

/// A grid quotient of a short vector component by a length of at least one
/// half stays within a couple of units.
pub proof fn lemma_unit_div_bound(v: int, l: int, q: int)
    requires
        l >= 32768,
        -65536 <= v <= 65536,
        l * q <= v * 65536 < l * (q + 1),
    ensures
        -0x40000 <= q <= 0x40000,
{
    assert(-0x40000 <= q <= 0x40000) by (nonlinear_arith)
        requires
            l >= 32768,
            -65536 <= v <= 65536,
            l * q <= v * 65536 < l * (q + 1),
    ;
}

/// The mirror law: relative to any normal, the exact reflection of a vector
/// carries the opposite projection onto that normal.  Stated over the exact
/// (unfloored) reflection `v * (n.n) - 2 (v.n) n` that the grid computation
/// approximates.
pub proof fn lemma_reflect_mirror(v: Vec3, n: Vec3)
    ensures
        (v.x * dot_raw(n, n) - 2 * dot_raw(v, n) * n.x) * n.x + (v.y * dot_raw(n, n) - 2 * dot_raw(
            v,
            n,
        ) * n.y) * n.y + (v.z * dot_raw(n, n) - 2 * dot_raw(v, n) * n.z) * n.z == -dot_raw(n, n)
            * dot_raw(v, n),
{
    let nn = dot_raw(n, n);
    let vn = dot_raw(v, n);
    assert((v.x * nn - 2 * vn * n.x) * n.x == (v.x * n.x) * nn - 2 * vn * (n.x * n.x))
        by (nonlinear_arith);
    assert((v.y * nn - 2 * vn * n.y) * n.y == (v.y * n.y) * nn - 2 * vn * (n.y * n.y))
        by (nonlinear_arith);
    assert((v.z * nn - 2 * vn * n.z) * n.z == (v.z * n.z) * nn - 2 * vn * (n.z * n.z))
        by (nonlinear_arith);
    assert((v.x * n.x) * nn + (v.y * n.y) * nn + (v.z * n.z) * nn == vn * nn) by (nonlinear_arith)
        requires
            vn == v.x * n.x + v.y * n.y + v.z * n.z,
    ;
    assert(2 * vn * (n.x * n.x) + 2 * vn * (n.y * n.y) + 2 * vn * (n.z * n.z) == 2 * vn * nn)
        by (nonlinear_arith)
        requires
            nn == n.x * n.x + n.y * n.y + n.z * n.z,
    ;
    assert(vn * nn - 2 * vn * nn == -nn * vn) by (nonlinear_arith);
}

/// Expansion of the square of a weighted sum, used to relate a perpendicular
/// component to the dot products that build it.
pub proof fn lemma_square_of_sum(u: int, s: int, c: int, n: int)
    ensures
        (u * s + c * n) * (u * s + c * n) == (u * u) * (s * s) + 2 * s * c * (u * n) + (c * c) * (n
            * n),
{
    let a = u * s;
    let b = c * n;
    assert((a + b) * (a + b) == a * a + 2 * (a * b) + b * b) by (nonlinear_arith);
    assert((u * s) * (u * s) == (u * u) * (s * s)) by (nonlinear_arith);
    assert((c * n) * (c * n) == (c * c) * (n * n)) by (nonlinear_arith);
    assert(2 * ((u * s) * (c * n)) == 2 * s * c * (u * n)) by (nonlinear_arith);
}

/// At a refraction ratio of one, exact refraction is the identity: with unit
/// incident and normal vectors and the normal opposing the ray, the exact
/// perpendicular part `uv + c n` has squared length `1 - c^2`, so the exact
/// parallel part restores `-c n` and the sum is the incident vector again.
pub proof fn lemma_refract_identity(uv: Vec3, n: Vec3)
    requires
        dot_raw(uv, uv) == 0x100000000,
        dot_raw(n, n) == 0x100000000,
        dot_raw(uv, n) <= 0,
    ensures
        ({
            let c = -dot_raw(uv, n);
            let px = uv.x * 0x100000000 + c * n.x;
            let py = uv.y * 0x100000000 + c * n.y;
            let pz = uv.z * 0x100000000 + c * n.z;
            &&& px * px + py * py + pz * pz == 0x1000000000000000000000000 - (c * 65536) * (c
                * 65536)
            &&& px - c * n.x == uv.x * 0x100000000
            &&& py - c * n.y == uv.y * 0x100000000
            &&& pz - c * n.z == uv.z * 0x100000000
        }),
{
    let c = -dot_raw(uv, n);
    let s: int = 0x100000000;
    let px = uv.x * s + c * n.x;
    let py = uv.y * s + c * n.y;
    let pz = uv.z * s + c * n.z;
    let duu = dot_raw(uv, uv);
    let dnn = dot_raw(n, n);
    let dun = dot_raw(uv, n);
    lemma_square_of_sum(uv.x as int, s, c, n.x as int);
    lemma_square_of_sum(uv.y as int, s, c, n.y as int);
    lemma_square_of_sum(uv.z as int, s, c, n.z as int);
    assert(px * px == (uv.x * uv.x) * (s * s) + 2 * s * c * (uv.x * n.x) + (c * c) * (n.x * n.x));
    assert(py * py == (uv.y * uv.y) * (s * s) + 2 * s * c * (uv.y * n.y) + (c * c) * (n.y * n.y));
    assert(pz * pz == (uv.z * uv.z) * (s * s) + 2 * s * c * (uv.z * n.z) + (c * c) * (n.z * n.z));
    assert((uv.x * uv.x) * (s * s) + (uv.y * uv.y) * (s * s) + (uv.z * uv.z) * (s * s) == duu * (s
        * s)) by (nonlinear_arith)
        requires
            duu == uv.x * uv.x + uv.y * uv.y + uv.z * uv.z,
    ;
    assert(2 * s * c * (uv.x * n.x) + 2 * s * c * (uv.y * n.y) + 2 * s * c * (uv.z * n.z) == 2 * s
        * c * dun) by (nonlinear_arith)
        requires
            dun == uv.x * n.x + uv.y * n.y + uv.z * n.z,
    ;
    assert((c * c) * (n.x * n.x) + (c * c) * (n.y * n.y) + (c * c) * (n.z * n.z) == (c * c) * dnn)
        by (nonlinear_arith)
        requires
            dnn == n.x * n.x + n.y * n.y + n.z * n.z,
    ;
    assert(duu * (s * s) + 2 * s * c * dun + (c * c) * dnn == 0x1000000000000000000000000 - (c
        * 65536) * (c * 65536)) by (nonlinear_arith)
        requires
            duu == s,
            dnn == s,
            dun == -c,
            s == 0x100000000,
    ;
}

impl Vec3 {
    pub fn new(x: i64, y: i64, z: i64) -> (r: Vec3)
        ensures
            r == (Vec3 { x, y, z }),
    {
        Vec3 { x, y, z }
    }

    pub fn x(&self) -> (r: i64)
        ensures
            r == self.x,
    {
        self.x
    }

    pub fn y(&self) -> (r: i64)
        ensures
            r == self.y,
    {
        self.y
    }

    pub fn z(&self) -> (r: i64)
        ensures
            r == self.z,
    {
        self.z
    }

    pub fn plus(&self, o: &Vec3) -> (r: Vec3)
        requires
            i64::MIN <= self.x + o.x <= i64::MAX,
            i64::MIN <= self.y + o.y <= i64::MAX,
            i64::MIN <= self.z + o.z <= i64::MAX,
        ensures
            r.x == self.x + o.x,
            r.y == self.y + o.y,
            r.z == self.z + o.z,
    {
        Vec3 { x: self.x + o.x, y: self.y + o.y, z: self.z + o.z }
    }

    pub fn minus(&self, o: &Vec3) -> (r: Vec3)
        requires
            i64::MIN <= self.x - o.x <= i64::MAX,
            i64::MIN <= self.y - o.y <= i64::MAX,
            i64::MIN <= self.z - o.z <= i64::MAX,
        ensures
            r.x == self.x - o.x,
            r.y == self.y - o.y,
            r.z == self.z - o.z,
    {
        Vec3 { x: self.x - o.x, y: self.y - o.y, z: self.z - o.z }
    }

    pub fn neg(&self) -> (r: Vec3)
        requires
            self.x != i64::MIN,
            self.y != i64::MIN,
            self.z != i64::MIN,
        ensures
            r.x == -self.x,
            r.y == -self.y,
            r.z == -self.z,
    {
        Vec3 { x: -self.x, y: -self.y, z: -self.z }
    }

    /// Scale by a fixed-point factor.
    pub fn scaled(&self, s: i64) -> (r: Vec3)
        requires
            i64::MIN <= fx_mul(s as int, self.x as int) <= i64::MAX,
            i64::MIN <= fx_mul(s as int, self.y as int) <= i64::MAX,
            i64::MIN <= fx_mul(s as int, self.z as int) <= i64::MAX,
        ensures
            r.x == fx_mul(s as int, self.x as int),
            r.y == fx_mul(s as int, self.y as int),
            r.z == fx_mul(s as int, self.z as int),
    {
        Vec3 { x: mul_fx(s, self.x), y: mul_fx(s, self.y), z: mul_fx(s, self.z) }
    }

    pub fn dot(&self, o: &Vec3) -> (r: i64)
        requires
            vec_bounded(*self, VEC_MAX as int),
            vec_bounded(*o, VEC_MAX as int),
        ensures
            r == fx_dot(*self, *o),
    {
        proof {
            lemma_dot_raw_bound(*self, *o, VEC_MAX as int);
            lemma_floor_div_fund(dot_raw(*self, *o), 65536);
        }
        let p: i128 = (self.x as i128) * (o.x as i128) + (self.y as i128) * (o.y as i128) + (
        self.z as i128) * (o.z as i128);
        let q = floor_div_i128(p, 65536);
        q as i64
    }

    pub fn cross(&self, o: &Vec3) -> (r: Vec3)
        requires
            vec_bounded(*self, VEC_MAX as int),
            vec_bounded(*o, VEC_MAX as int),
        ensures
            r.x == cross_x(*self, *o),
            r.y == cross_y(*self, *o),
            r.z == cross_z(*self, *o),
    {
        proof {
            lemma_prod_grid_bound(*self, *o, VEC_MAX as int);
            lemma_floor_div_fund(self.y * o.z - self.z * o.y, 65536);
            lemma_floor_div_fund(self.z * o.x - self.x * o.z, 65536);
            lemma_floor_div_fund(self.x * o.y - self.y * o.x, 65536);
        }
        let cx = floor_div_i128(
            (self.y as i128) * (o.z as i128) - (self.z as i128) * (o.y as i128),
            65536,
        );
        let cy = floor_div_i128(
            (self.z as i128) * (o.x as i128) - (self.x as i128) * (o.z as i128),
            65536,
        );
        let cz = floor_div_i128(
            (self.x as i128) * (o.y as i128) - (self.y as i128) * (o.x as i128),
            65536,
        );
        Vec3 { x: cx as i64, y: cy as i64, z: cz as i64 }
    }

    pub fn length_squared(&self) -> (r: i64)
        requires
            vec_bounded(*self, VEC_MAX as int),
        ensures
            r == fx_len2(*self),
            r >= 0,
    {
        proof {
            lemma_floor_div_fund(dot_raw(*self, *self), 65536);
            assert(dot_raw(*self, *self) >= 0) by (nonlinear_arith);
        }
        self.dot(self)
    }

    pub fn length(&self) -> (r: i64)
        requires
            vec_bounded(*self, VEC_MAX as int),
        ensures
            r == fx_len(*self),
            r >= 0,
    {
        let l2 = self.length_squared();
        sqrt_fx(l2)
    }

    /// Direction of `self` scaled to (approximately) unit length.
    pub fn unit_vector(&self) -> (r: Vec3)
        requires
            vec_bounded(*self, VEC_MAX as int),
            fx_len(*self) >= 1,
        ensures
            r.x == fx_div(self.x as int, fx_len(*self)),
            r.y == fx_div(self.y as int, fx_len(*self)),
            r.z == fx_div(self.z as int, fx_len(*self)),
    {
        let l = self.length();
        proof {
            lemma_floor_div_bound(self.x * 65536, l as int, 0x400000000000000);
            lemma_floor_div_bound(self.y * 65536, l as int, 0x400000000000000);
            lemma_floor_div_bound(self.z * 65536, l as int, 0x400000000000000);
        }
        Vec3 { x: div_fx(self.x, l), y: div_fx(self.y, l), z: div_fx(self.z, l) }
    }

    /// A vector with each component drawn uniformly from `[0, 1)`.
    pub fn random(rng: &mut Rng) -> (r: Vec3)
        ensures
            0 <= r.x < 65536,
            0 <= r.y < 65536,
            0 <= r.z < 65536,
    {
        let x = rng.unit_fx();
        let y = rng.unit_fx();
        let z = rng.unit_fx();
        Vec3 { x, y, z }
    }

    /// A vector with each component drawn uniformly from `[lo, hi)`.
    pub fn random_range(rng: &mut Rng, lo: i64, hi: i64) -> (r: Vec3)
        requires
            lo < hi,
            hi - lo <= i64::MAX,
        ensures
            lo <= r.x < hi,
            lo <= r.y < hi,
            lo <= r.z < hi,
    {
        let x = rng.range_fx(lo, hi);
        let y = rng.range_fx(lo, hi);
        let z = rng.range_fx(lo, hi);
        Vec3 { x, y, z }
    }

    /// Rejection-sample a direction inside the unit ball.  Draws whose length
    /// is below one half are also rejected so that normalising the result
    /// stays well conditioned on the grid; a bounded number of attempts keeps
    /// the routine total, with a fixed in-range fallback.
    pub fn random_in_unit_sphere(rng: &mut Rng) -> (r: Vec3)
        ensures
            vec_bounded(r, 0x10000),
            16384 <= fx_len2(r) < 65536,
    {
        let mut i: usize = 0;
        while i < 64
            invariant
                i <= 64,
            decreases 64 - i,
        {
            let p = Vec3::random_range(rng, -65536, 65536);
            let l2 = p.length_squared();
            if 16384 <= l2 && l2 < 65536 {
                return p;
            }
            i = i + 1;
        }
        let f = Vec3 { x: 32768, y: 0, z: 0 };
        proof {
            assert(dot_raw(f, f) == 0x40000000);
            lemma_floor_div_fund(0x40000000, 65536);
        }
        f
    }

    /// A direction of (approximately) unit length, sampled uniformly.
    pub fn random_unit_vector(rng: &mut Rng) -> (r: Vec3)
        ensures
            vec_bounded(r, 0x40000),
    {
        let p = Vec3::random_in_unit_sphere(rng);
        let l2 = p.length_squared();
        let l = sqrt_fx(l2);
        proof {
            assert(l >= 32768) by (nonlinear_arith)
                requires
                    l >= 0,
                    (l + 1) * (l + 1) > l2 * 65536,
                    l2 >= 16384,
            ;
            lemma_floor_div_fund(p.x * 65536, l as int);
            lemma_floor_div_fund(p.y * 65536, l as int);
            lemma_floor_div_fund(p.z * 65536, l as int);
            lemma_unit_div_bound(p.x as int, l as int, fx_div(p.x as int, l as int));
            lemma_unit_div_bound(p.y as int, l as int, fx_div(p.y as int, l as int));
            lemma_unit_div_bound(p.z as int, l as int, fx_div(p.z as int, l as int));
        }
        Vec3 { x: div_fx(p.x, l), y: div_fx(p.y, l), z: div_fx(p.z, l) }
    }

    /// A unit-ball sample on the side of the given normal (or its negation).
    pub fn random_on_hemisphere(rng: &mut Rng, normal: &Vec3) -> (r: Vec3)
        requires
            vec_bounded(*normal, VEC_MAX as int),
        ensures
            vec_bounded(r, 0x10000),
    {
        let on_sphere = Vec3::random_in_unit_sphere(rng);
        if on_sphere.dot(normal) > 0 {
            on_sphere
        } else {
            on_sphere.neg()
        }
    }

    /// Rejection-sample a point in the unit disk of the xy-plane.
    pub fn random_in_unit_disk(rng: &mut Rng) -> (r: Vec3)
        ensures
            vec_bounded(r, 0x10000),
            fx_len2(r) < 65536,
            r.z == 0,
    {
        let mut i: usize = 0;
        while i < 64
            invariant
                i <= 64,
            decreases 64 - i,
        {
            let x = rng.range_fx(-65536, 65536);
            let y = rng.range_fx(-65536, 65536);
            let p = Vec3 { x, y, z: 0 };
            let l2 = p.length_squared();
            if l2 < 65536 {
                return p;
            }
            i = i + 1;
        }
        let f = Vec3 { x: 0, y: 0, z: 0 };
        proof {
            lemma_floor_div_fund(0, 65536);
        }
        f
    }

    /// The unit direction with each component clamped to twice the unit
    /// scale (a numeric guard for skewed divisions).
    pub fn unit_clamped(&self) -> (r: Vec3)
        requires
            vec_bounded(*self, VEC_MAX as int),
            fx_len(*self) >= 1,
        ensures
            r == unit_cl(*self),
            vec_bounded(r, 0x20000),
    {
        let u = self.unit_vector();
        Vec3 { x: clamp_unit(u.x), y: clamp_unit(u.y), z: clamp_unit(u.z) }
    }

    /// Refraction of this (unit-scale) direction about a unit-scale normal,
    /// for the given ratio of refractive indices; mirrors `fx_refract`.
    pub fn refracted(&self, n: &Vec3, ratio: i64) -> (r: Vec3)
        requires
            vec_bounded(*self, 0x20000),
            vec_bounded(*n, 0x20000),
            0 <= ratio <= 0x40000,
        ensures
            r.x == fx_refract(*self, *n, ratio as int).0,
            r.y == fx_refract(*self, *n, ratio as int).1,
            r.z == fx_refract(*self, *n, ratio as int).2,
            vec_bounded(r, 0x2000000),
    {
        proof {
            lemma_dot_raw_bound(*self, *n, 0x20000);
            lemma_floor_div_fund(-dot_raw(*self, *n), 65536);
        }
        let draw: i128 = (self.x as i128) * (n.x as i128) + (self.y as i128) * (n.y as i128) + (
        self.z as i128) * (n.z as i128);
        let cos0 = floor_div_i128(-draw, 65536) as i64;
        let cos: i64 = if cos0 > 65536 {
            65536
        } else if cos0 < -65536 {
            -65536
        } else {
            cos0
        };
        proof {
            lemma_prod_bound(cos as int, n.x as int, 0x10000, 0x20000);
            lemma_prod_bound(cos as int, n.y as int, 0x10000, 0x20000);
            lemma_prod_bound(cos as int, n.z as int, 0x10000, 0x20000);
            lemma_floor_div_fund(cos as int * n.x, 65536);
            lemma_floor_div_fund(cos as int * n.y, 65536);
            lemma_floor_div_fund(cos as int * n.z, 65536);
        }
        let cnx = mul_fx(cos, n.x);
        let cny = mul_fx(cos, n.y);
        let cnz = mul_fx(cos, n.z);
        proof {
            lemma_prod_bound(ratio as int, (self.x + cnx) as int, 0x40000, 0x40002);
            lemma_prod_bound(ratio as int, (self.y + cny) as int, 0x40000, 0x40002);
            lemma_prod_bound(ratio as int, (self.z + cnz) as int, 0x40000, 0x40002);
            lemma_floor_div_fund(ratio as int * (self.x + cnx), 65536);
            lemma_floor_div_fund(ratio as int * (self.y + cny), 65536);
            lemma_floor_div_fund(ratio as int * (self.z + cnz), 65536);
        }
        let px = mul_fx(ratio, self.x + cnx);
        let py = mul_fx(ratio, self.y + cny);
        let pz = mul_fx(ratio, self.z + cnz);
        let pv = Vec3 { x: px, y: py, z: pz };
        proof {
            lemma_dot_raw_bound(pv, pv, 0x200000);
            lemma_floor_div_fund(dot_raw(pv, pv), 65536);
        }
        let plen2 = pv.dot(&pv);
        let k: i64 = if 65536 - plen2 >= 0 {
            65536 - plen2
        } else {
            plen2 - 65536
        };
        let s = sqrt_fx(k);
        proof {
            assert((s as int) * (s as int) <= (k as int) * 65536);
            assert(s as int <= 0x800000) by (nonlinear_arith)
                requires
                    s as int >= 0,
                    (s as int) * (s as int) <= (k as int) * 65536,
                    0 <= k as int <= 0x10010000,
            ;
            lemma_prod_bound(s as int, n.x as int, 0x800000, 0x20000);
            lemma_prod_bound(s as int, n.y as int, 0x800000, 0x20000);
            lemma_prod_bound(s as int, n.z as int, 0x800000, 0x20000);
            lemma_floor_div_fund(s as int * n.x, 65536);
            lemma_floor_div_fund(s as int * n.y, 65536);
            lemma_floor_div_fund(s as int * n.z, 65536);
        }
        let sx = mul_fx(s, n.x);
        let sy = mul_fx(s, n.y);
        let sz = mul_fx(s, n.z);
        Vec3 { x: px - sx, y: py - sy, z: pz - sz }
    }

    /// Whether every component is exactly zero (the grid's notion of a
    /// degenerate direction).
    pub fn near_zero(&self) -> (r: bool)
        ensures
            r == (self.x == 0 && self.y == 0 && self.z == 0),
    {
        self.x == 0 && self.y == 0 && self.z == 0
    }

    /// Reflection about a normal.
    pub fn reflected(&self, n: &Vec3) -> (r: Vec3)
        requires
            vec_bounded(*self, UNIT_MAX as int),
            vec_bounded(*n, UNIT_MAX as int),
        ensures
            r.x == reflect_x(*self, *n),
            r.y == reflect_y(*self, *n),
            r.z == reflect_z(*self, *n),
            vec_bounded(r, 0x100000000000),
            vec_bounded(*self, 0x20000) && vec_bounded(*n, 0x20000) ==> vec_bounded(r, 0x800000),
    {
        proof {
            lemma_dot_raw_bound(*self, *n, UNIT_MAX as int);
            if vec_bounded(*self, 0x20000) && vec_bounded(*n, 0x20000) {
                lemma_dot_raw_bound(*self, *n, 0x20000);
            }
            lemma_floor_div_fund(dot_raw(*self, *n), 65536);
        }
        let d = self.dot(n);
        proof {
            if vec_bounded(*self, 0x20000) && vec_bounded(*n, 0x20000) {
                lemma_prod_bound(d as int, n.x as int, 0x100000, 0x20000);
                lemma_prod_bound(d as int, n.y as int, 0x100000, 0x20000);
                lemma_prod_bound(d as int, n.z as int, 0x100000, 0x20000);
                assert(2 * (d as int) * n.x == 2 * ((d as int) * n.x)) by (nonlinear_arith);
                assert(2 * (d as int) * n.y == 2 * ((d as int) * n.y)) by (nonlinear_arith);
                assert(2 * (d as int) * n.z == 2 * ((d as int) * n.z)) by (nonlinear_arith);
            }
            lemma_floor_div_fund(2 * (d as int) * n.x, 65536);
            lemma_floor_div_fund(2 * (d as int) * n.y, 65536);
            lemma_floor_div_fund(2 * (d as int) * n.z, 65536);
            assert(-0x10000000000000 <= 2 * (d as int) * n.x <= 0x10000000000000
                && -0x10000000000000 <= 2 * (d as int) * n.y <= 0x10000000000000
                && -0x10000000000000 <= 2 * (d as int) * n.z <= 0x10000000000000)
                by (nonlinear_arith)
                requires
                    -0x4000000 <= d as int <= 0x4000000,
                    -0x100000 <= n.x <= 0x100000,
                    -0x100000 <= n.y <= 0x100000,
                    -0x100000 <= n.z <= 0x100000,
            ;
        }
        let tx = floor_div_i128(2 * (d as i128) * (n.x as i128), 65536);
        let ty = floor_div_i128(2 * (d as i128) * (n.y as i128), 65536);
        let tz = floor_div_i128(2 * (d as i128) * (n.z as i128), 65536);
        Vec3 { x: self.x - (tx as i64), y: self.y - (ty as i64), z: self.z - (tz as i64) }
    }
}

} // verus!
