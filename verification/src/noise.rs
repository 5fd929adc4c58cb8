//! Perlin gradient noise on the grid, driving the procedural textures.
//!
//! The generator follows the classic construction: three shuffled
//! permutation tables pick a pseudo-random gradient per lattice corner, and
//! the eight corner contributions are blended with Hermite-smoothed
//! fractional weights.  All blending arithmetic is exact in wide integers
//! with one floor at the end.

use crate::fixed::{floor_div, floor_div_i128, lemma_floor_div_bound, lemma_floor_div_fund};
use crate::rng::Rng;
use crate::vec3::{vec_bounded, Point3, Vec3};
use vstd::prelude::*;
use vstd::seq_lib::to_multiset_update;

verus! {

/// Lattice cell of a coordinate.
pub open spec fn lat(x: int) -> int {
    floor_div(x, 65536)
}

/// Fractional part of a coordinate, in `[0, 1)` on the grid.
pub open spec fn frac(x: int) -> int {
    x - 65536 * floor_div(x, 65536)
}

/// Hermite cubic `x * x * (3 - 2 x)`, exact product floored once.
pub open spec fn herm(x: int) -> int {
    floor_div(x * x * (3 * 65536 - 2 * x), 0x100000000)
}

pub struct Perlin {
    pub ranvec: Vec<Vec3>,
    pub perm_x: Vec<u8>,
    pub perm_y: Vec<u8>,
    pub perm_z: Vec<u8>,
}

pub open spec fn perlin_wf(pl: Perlin) -> bool {
    &&& pl.ranvec@.len() == 256
    &&& forall|i: int| 0 <= i < 256 ==> vec_bounded(#[trigger] pl.ranvec@[i], 0x10000)
    &&& pl.perm_x@.len() == 256
    &&& pl.perm_y@.len() == 256
    &&& pl.perm_z@.len() == 256
}

/// One corner's contribution: the gradient picked by the xor of the three
/// permutation entries, dotted with the offset to the corner and weighted by
/// the doubly-smoothed blend factors (at the 2^-80 scale).
#[verifier::opaque]
pub open spec fn corner_term(
    pl: Perlin,
    lx: int,
    ly: int,
    lz: int,
    su: int,
    sv: int,
    sw: int,
    di: int,
    dj: int,
    dk: int,
) -> int {
    let ix = (lx + di) % 256;
    let iy = (ly + dj) % 256;
    let iz = (lz + dk) % 256;
    let g = pl.ranvec@[(pl.perm_x@[ix] ^ pl.perm_y@[iy] ^ pl.perm_z@[iz]) as int];
    let wx = su - di * 65536;
    let wy = sv - dj * 65536;
    let wz = sw - dk * 65536;
    let d = g.x * wx + g.y * wy + g.z * wz;
    let fu = if di == 1 {
        herm(su)
    } else {
        65536 - herm(su)
    };
    let fv = if dj == 1 {
        herm(sv)
    } else {
        65536 - herm(sv)
    };
    let fw = if dk == 1 {
        herm(sw)
    } else {
        65536 - herm(sw)
    };
    fu * fv * fw * d
}

/// The noise value at a point: smooth the fractional offsets once, blend the
/// eight corner contributions (which smooth them a second time), and floor
/// the exact sum back to the grid.
#[verifier::opaque]
pub open spec fn perlin_noise(pl: Perlin, p: Point3) -> int {
    let lx = lat(p.x as int);
    let ly = lat(p.y as int);
    let lz = lat(p.z as int);
    let su = herm(frac(p.x as int));
    let sv = herm(frac(p.y as int));
    let sw = herm(frac(p.z as int));
    floor_div(
        corner_term(pl, lx, ly, lz, su, sv, sw, 0, 0, 0) + corner_term(
            pl,
            lx,
            ly,
            lz,
            su,
            sv,
            sw,
            0,
            0,
            1,
        ) + corner_term(pl, lx, ly, lz, su, sv, sw, 0, 1, 0) + corner_term(
            pl,
            lx,
            ly,
            lz,
            su,
            sv,
            sw,
            0,
            1,
            1,
        ) + corner_term(pl, lx, ly, lz, su, sv, sw, 1, 0, 0) + corner_term(
            pl,
            lx,
            ly,
            lz,
            su,
            sv,
            sw,
            1,
            0,
            1,
        ) + corner_term(pl, lx, ly, lz, su, sv, sw, 1, 1, 0) + corner_term(
            pl,
            lx,
            ly,
            lz,
            su,
            sv,
            sw,
            1,
            1,
            1,
        ),
        0x10000000000000000,
    )
}

/// Double a coordinate, leaving it unchanged once it would leave the wide
/// safe range (a guard that no real texture scale reaches).
pub open spec fn double_coord(x: int) -> int {
    if -0x2000000000000000 <= x <= 0x2000000000000000 {
        2 * x
    } else {
        x
    }
}

pub open spec fn double_point(p: Vec3) -> Vec3 {
    Vec3 {
        x: double_coord(p.x as int) as i64,
        y: double_coord(p.y as int) as i64,
        z: double_coord(p.z as int) as i64,
    }
}

/// The turbulence recursion: accumulate octaves of noise with halving
/// weights at doubling frequencies.
pub open spec fn turb_rec(pl: Perlin, p: Vec3, depth: int, weight: int) -> int
    decreases depth,
{
    if depth <= 0 {
        0
    } else {
        floor_div(weight * perlin_noise(pl, p), 65536) + turb_rec(
            pl,
            double_point(p),
            depth - 1,
            floor_div(weight, 2),
        )
    }
}

/// Octave sums stay within `depth` times the single-octave bound.
#[verifier::rlimit(50)]
pub proof fn lemma_turb_bound(pl: Perlin, p: Vec3, depth: int, weight: int)
    requires
        perlin_wf(pl),
        0 <= weight <= 65536,
    ensures
        ({
            let d = if depth >= 0 {
                depth
            } else {
                0
            };
            -d * 0x30001 <= turb_rec(pl, p, depth, weight) <= d * 0x30001
        }),
        depth <= 0 ==> turb_rec(pl, p, depth, weight) == 0,
    decreases depth,
{
    if depth <= 0 {
    } else {
        lemma_floor_div_fund(weight, 2);
        lemma_turb_bound(pl, double_point(p), depth - 1, floor_div(weight, 2));
        lemma_noise_bound(pl, p);
        assert(-0x300010000 <= weight * perlin_noise(pl, p) <= 0x300010000) by (nonlinear_arith)
            requires
                0 <= weight <= 65536,
                -0x30001 <= perlin_noise(pl, p) <= 0x30000,
        ;
        lemma_floor_div_fund(weight * perlin_noise(pl, p), 65536);
        let t1 = floor_div(weight * perlin_noise(pl, p), 65536);
        let rest = turb_rec(pl, double_point(p), depth - 1, floor_div(weight, 2));
        assert(turb_rec(pl, p, depth, weight) == t1 + rest);
        assert(65536 * t1 <= 0x300010000);
        assert(65536 * (t1 + 1) > -0x300010000);
        assert(t1 <= 0x30001);
        assert(-0x30001 <= t1);
        assert(-(depth - 1) * 0x30001 <= rest <= (depth - 1) * 0x30001);
        assert((depth - 1) * 0x30001 + 0x30001 == depth * 0x30001) by (nonlinear_arith);
        assert(-(depth - 1) * 0x30001 - 0x30001 == -depth * 0x30001) by (nonlinear_arith);
    }
}

/// A noise value is at most three in magnitude: the corner weights are
/// non-negative and sum to one, and each corner's gradient-offset product
/// is at most three at the raw scale.
pub proof fn lemma_noise_bound(pl: Perlin, p: Vec3)
    requires
        perlin_wf(pl),
    ensures
        -0x30001 <= perlin_noise(pl, p) <= 0x30000,
{
    reveal(perlin_noise);
    lemma_corner_bound(pl, p, 0, 0, 0);
    lemma_corner_bound(pl, p, 0, 0, 1);
    lemma_corner_bound(pl, p, 0, 1, 0);
    lemma_corner_bound(pl, p, 0, 1, 1);
    lemma_corner_bound(pl, p, 1, 0, 0);
    lemma_corner_bound(pl, p, 1, 0, 1);
    lemma_corner_bound(pl, p, 1, 1, 0);
    lemma_corner_bound(pl, p, 1, 1, 1);
    let lx = lat(p.x as int);
    let ly = lat(p.y as int);
    let lz = lat(p.z as int);
    let su = herm(frac(p.x as int));
    let sv = herm(frac(p.y as int));
    let sw = herm(frac(p.z as int));
    lemma_weights_sum(su, sv, sw);
    let total = corner_term(pl, lx, ly, lz, su, sv, sw, 0, 0, 0) + corner_term(
        pl,
        lx,
        ly,
        lz,
        su,
        sv,
        sw,
        0,
        0,
        1,
    ) + corner_term(pl, lx, ly, lz, su, sv, sw, 0, 1, 0) + corner_term(
        pl,
        lx,
        ly,
        lz,
        su,
        sv,
        sw,
        0,
        1,
        1,
    ) + corner_term(pl, lx, ly, lz, su, sv, sw, 1, 0, 0) + corner_term(
        pl,
        lx,
        ly,
        lz,
        su,
        sv,
        sw,
        1,
        0,
        1,
    ) + corner_term(pl, lx, ly, lz, su, sv, sw, 1, 1, 0) + corner_term(
        pl,
        lx,
        ly,
        lz,
        su,
        sv,
        sw,
        1,
        1,
        1,
    );
    assert(-(0x1000000000000 * 0x300000000) <= total <= 0x1000000000000 * 0x300000000);
    lemma_floor_div_fund(total, 0x10000000000000000);
}

/// The trilinear blend weight of one corner: the product of its three
/// doubly-smoothed factors.
pub open spec fn corner_weight(su: int, sv: int, sw: int, di: int, dj: int, dk: int) -> int {
    (if di == 1 {
        herm(su)
    } else {
        65536 - herm(su)
    }) * (if dj == 1 {
        herm(sv)
    } else {
        65536 - herm(sv)
    }) * (if dk == 1 {
        herm(sw)
    } else {
        65536 - herm(sw)
    })
}

/// The eight corner weights partition unity: they sum to one at the cubed
/// scale.
proof fn lemma_weights_sum(su: int, sv: int, sw: int)
    ensures
        corner_weight(su, sv, sw, 0, 0, 0) + corner_weight(su, sv, sw, 0, 0, 1) + corner_weight(
            su,
            sv,
            sw,
            0,
            1,
            0,
        ) + corner_weight(su, sv, sw, 0, 1, 1) + corner_weight(su, sv, sw, 1, 0, 0)
            + corner_weight(su, sv, sw, 1, 0, 1) + corner_weight(su, sv, sw, 1, 1, 0)
            + corner_weight(su, sv, sw, 1, 1, 1) == 0x1000000000000,
{
    let a1 = herm(su);
    let a0 = 65536 - a1;
    let b1 = herm(sv);
    let b0 = 65536 - b1;
    let c1 = herm(sw);
    let c0 = 65536 - c1;
    assert(a0 * b0 + a0 * b1 + a1 * b0 + a1 * b1 == 65536 * 65536) by (nonlinear_arith)
        requires
            a0 + a1 == 65536,
            b0 + b1 == 65536,
    ;
    assert(a0 * b0 * c0 + a0 * b0 * c1 == a0 * b0 * 65536) by (nonlinear_arith)
        requires
            c0 + c1 == 65536,
    ;
    assert(a0 * b1 * c0 + a0 * b1 * c1 == a0 * b1 * 65536) by (nonlinear_arith)
        requires
            c0 + c1 == 65536,
    ;
    assert(a1 * b0 * c0 + a1 * b0 * c1 == a1 * b0 * 65536) by (nonlinear_arith)
        requires
            c0 + c1 == 65536,
    ;
    assert(a1 * b1 * c0 + a1 * b1 * c1 == a1 * b1 * 65536) by (nonlinear_arith)
        requires
            c0 + c1 == 65536,
    ;
    assert(a0 * b0 * 65536 + a0 * b1 * 65536 + a1 * b0 * 65536 + a1 * b1 * 65536 == (a0 * b0 + a0
        * b1 + a1 * b0 + a1 * b1) * 65536) by (nonlinear_arith);
}

/// One corner's contribution is bounded by its blend weight times the
/// largest gradient-offset product (three, at the raw scale).
proof fn lemma_corner_bound(pl: Perlin, p: Vec3, di: int, dj: int, dk: int)
    requires
        perlin_wf(pl),
        di == 0 || di == 1,
        dj == 0 || dj == 1,
        dk == 0 || dk == 1,
    ensures
        ({
            let lx = lat(p.x as int);
            let ly = lat(p.y as int);
            let lz = lat(p.z as int);
            let su = herm(frac(p.x as int));
            let sv = herm(frac(p.y as int));
            let sw = herm(frac(p.z as int));
            let w = corner_weight(su, sv, sw, di, dj, dk);
            &&& 0 <= w <= 0x1000000000000
            &&& -(w * 0x300000000) <= corner_term(pl, lx, ly, lz, su, sv, sw, di, dj, dk) <= w
                * 0x300000000
        }),
{
    reveal(corner_term);
    let su = herm(frac(p.x as int));
    let sv = herm(frac(p.y as int));
    let sw = herm(frac(p.z as int));
    lemma_smooth_bound(p.x as int);
    lemma_smooth_bound(p.y as int);
    lemma_smooth_bound(p.z as int);
    lemma_herm_range(su);
    lemma_herm_range(sv);
    lemma_herm_range(sw);
    let lx = lat(p.x as int);
    let ly = lat(p.y as int);
    let lz = lat(p.z as int);
    let ix = (lx + di) % 256;
    let iy = (ly + dj) % 256;
    let iz = (lz + dk) % 256;
    let gi = (pl.perm_x@[ix] ^ pl.perm_y@[iy] ^ pl.perm_z@[iz]) as int;
    vstd::arithmetic::div_mod::lemma_mod_division_less_than_divisor(lx + di, 256);
    vstd::arithmetic::div_mod::lemma_mod_division_less_than_divisor(ly + dj, 256);
    vstd::arithmetic::div_mod::lemma_mod_division_less_than_divisor(lz + dk, 256);
    let g = pl.ranvec@[gi];
    assert(vec_bounded(g, 0x10000));
    let wx = su - di * 65536;
    let wy = sv - dj * 65536;
    let wz = sw - dk * 65536;
    let d = g.x * wx + g.y * wy + g.z * wz;
    let fu = if di == 1 {
        herm(su)
    } else {
        65536 - herm(su)
    };
    let fv = if dj == 1 {
        herm(sv)
    } else {
        65536 - herm(sv)
    };
    let fw = if dk == 1 {
        herm(sw)
    } else {
        65536 - herm(sw)
    };
    crate::fixed::lemma_prod_bound(g.x as int, wx, 0x10000, 0x10000);
    crate::fixed::lemma_prod_bound(g.y as int, wy, 0x10000, 0x10000);
    crate::fixed::lemma_prod_bound(g.z as int, wz, 0x10000, 0x10000);
    assert(0 <= fu * fv <= 0x100000000) by (nonlinear_arith)
        requires
            0 <= fu <= 65536,
            0 <= fv <= 65536,
    ;
    assert(0 <= fu * fv * fw <= 0x1000000000000) by (nonlinear_arith)
        requires
            0 <= fu * fv <= 0x100000000,
            0 <= fw <= 65536,
    ;
    assert(-((fu * fv * fw) * 0x300000000) <= (fu * fv * fw) * d <= (fu * fv * fw) * 0x300000000)
        by (nonlinear_arith)
        requires
            0 <= fu * fv * fw,
            -0x300000000 <= d <= 0x300000000,
    ;
}

/// The once-smoothed fraction of any coordinate stays in `[0, 1]`.
proof fn lemma_smooth_bound(x: int)
    ensures
        0 <= frac(x) < 65536,
        0 <= herm(frac(x)) <= 65536,
{
    lemma_floor_div_fund(x, 65536);
    lemma_herm_range(frac(x));
}

/// The Hermite cubic maps `[0, 1]` into `[0, 1]`: the gap to one factors as
/// a square times a non-negative term.
proof fn lemma_herm_range(s: int)
    requires
        0 <= s <= 65536,
    ensures
        0 <= herm(s) <= 65536,
{
    assert(65536 * 65536 * 65536 - s * s * (3 * 65536 - 2 * s) == (65536 - s) * (65536 - s) * (
    65536 + 2 * s)) by (nonlinear_arith);
    assert((65536 - s) * (65536 - s) * (65536 + 2 * s) >= 0) by (nonlinear_arith)
        requires
            0 <= s <= 65536,
    ;
    assert(s * s * (3 * 65536 - 2 * s) >= 0) by (nonlinear_arith)
        requires
            0 <= s <= 65536,
    ;
    lemma_floor_div_fund(s * s * (3 * 65536 - 2 * s), 0x100000000);
}

/// The identity table: 0 through 255 in order.
pub fn identity_table() -> (v: Vec<u8>)
    ensures
        v@.len() == 256,
        forall|i: int| 0 <= i < 256 ==> v@[i] == i as u8,
{
    let mut v: Vec<u8> = Vec::new();
    let mut i: usize = 0;
    while i < 256
        invariant
            i <= 256,
            v@.len() == i,
            forall|k: int| 0 <= k < i ==> v@[k] == k as u8,
        decreases 256 - i,
    {
        v.push(i as u8);
        i = i + 1;
    }
    v
}

/// Swapping two entries of a byte table keeps its multiset.
proof fn lemma_swap_table(before: Seq<u8>, after: Seq<u8>, i: int, j: int)
    requires
        0 <= i < before.len(),
        0 <= j < before.len(),
        after == before.update(i, before[j]).update(j, before[i]),
    ensures
        after.to_multiset() == before.to_multiset(),
{
    broadcast use vstd::seq_lib::group_to_multiset_ensures;
    broadcast use vstd::multiset::group_multiset_axioms;

    to_multiset_update(before, i, before[j]);
    let mid = before.update(i, before[j]);
    to_multiset_update(mid, j, before[i]);
    if i == j {
        assert(after =~= before.update(i, before[i]));
        assert(after.to_multiset() =~= before.to_multiset());
    } else {
        assert(mid[j] == before[j]);
        assert(after.to_multiset() =~= before.to_multiset());
    }
}

/// Shuffle the first `n` entries of a byte table in place (Fisher-Yates),
/// keeping exactly the same entries.
pub fn permute(p: Vec<u8>, n: usize, rng: &mut Rng) -> (r: Vec<u8>)
    requires
        n == p@.len(),
    ensures
        r@.len() == p@.len(),
        r@.to_multiset() == p@.to_multiset(),
{
    let mut v = p;
    if n < 2 {
        return v;
    }
    let mut i: usize = n - 1;
    while i >= 1
        invariant
            1 <= i <= n - 1,
            v@.len() == n,
            v@.to_multiset() == p@.to_multiset(),
        decreases i,
    {
        let target = rng.below((i + 1) as u64) as usize;
        let a = v[i];
        let b = v[target];
        let ghost before = v@;
        v[i] = b;
        v[target] = a;
        proof {
            lemma_swap_table(before, v@, i as int, target as int);
        }
        if i == 1 {
            break ;
        }
        i = i - 1;
    }
    v
}

/// A freshly shuffled permutation table over 0..255.
pub fn perlin_generate_perm(rng: &mut Rng) -> (r: Vec<u8>)
    ensures
        r@.len() == 256,
        r@.to_multiset() == Seq::new(256, |i: int| i as u8).to_multiset(),
{
    let p = identity_table();
    proof {
        assert(p@ =~= Seq::new(256, |i: int| i as u8));
    }
    permute(p, 256, rng)
}

impl Perlin {
    /// Fresh gradients and permutation tables from the generator.
    pub fn new(rng: &mut Rng) -> (pl: Perlin)
        ensures
            perlin_wf(pl),
    {
        let mut ranvec: Vec<Vec3> = Vec::new();
        let mut i: usize = 0;
        while i < 256
            invariant
                i <= 256,
                ranvec@.len() == i,
                forall|k: int| 0 <= k < i ==> vec_bounded(#[trigger] ranvec@[k], 0x10000),
            decreases 256 - i,
        {
            // Clamp each gradient component to unit magnitude; the division
            // in the normalisation can overshoot one by a few grid steps.
            let g0 = Vec3::random_unit_vector(rng);
            let g = Vec3 { x: clamp_one(g0.x), y: clamp_one(g0.y), z: clamp_one(g0.z) };
            ranvec.push(g);
            i = i + 1;
        }
        let perm_x = perlin_generate_perm(rng);
        let perm_y = perlin_generate_perm(rng);
        let perm_z = perlin_generate_perm(rng);
        Perlin { ranvec, perm_x, perm_y, perm_z }
    }

    /// The noise value at a point (any grid point at all).
    pub fn noise(&self, p: &Point3) -> (r: i64)
        requires
            perlin_wf(*self),
        ensures
            r == perlin_noise(*self, *p),
            -0x30001 <= r <= 0x30000,
    {
        proof {
            lemma_smooth_bound(p.x as int);
            lemma_smooth_bound(p.y as int);
            lemma_smooth_bound(p.z as int);
            lemma_floor_div_bound(p.x as int, 65536, 0x8000000000000000);
            lemma_floor_div_bound(p.y as int, 65536, 0x8000000000000000);
            lemma_floor_div_bound(p.z as int, 65536, 0x8000000000000000);
            reveal(perlin_noise);
        }
        let lx = floor_div_i128(p.x as i128, 65536) as i64;
        let ly = floor_div_i128(p.y as i128, 65536) as i64;
        let lz = floor_div_i128(p.z as i128, 65536) as i64;
        let fu = p.x - lx * 65536;
        let fv = p.y - ly * 65536;
        let fw = p.z - lz * 65536;
        let su = self.smooth(fu);
        let sv = self.smooth(fv);
        let sw = self.smooth(fw);
        let t0 = self.corner(lx, ly, lz, su, sv, sw, 0, 0, 0);
        let t1 = self.corner(lx, ly, lz, su, sv, sw, 0, 0, 1);
        let t2 = self.corner(lx, ly, lz, su, sv, sw, 0, 1, 0);
        let t3 = self.corner(lx, ly, lz, su, sv, sw, 0, 1, 1);
        let t4 = self.corner(lx, ly, lz, su, sv, sw, 1, 0, 0);
        let t5 = self.corner(lx, ly, lz, su, sv, sw, 1, 0, 1);
        let t6 = self.corner(lx, ly, lz, su, sv, sw, 1, 1, 0);
        let t7 = self.corner(lx, ly, lz, su, sv, sw, 1, 1, 1);
        let acc: i128 = t0 + t1 + t2 + t3 + t4 + t5 + t6 + t7;
        proof {
            lemma_noise_bound(*self, *p);
            lemma_floor_div_fund(acc as int, 0x10000000000000000);
        }
        floor_div_i128(acc, 0x10000000000000000) as i64
    }

    /// Hermite smoothing of a fractional offset.
    fn smooth(&self, f: i64) -> (r: i64)
        requires
            0 <= f < 65536,
        ensures
            r == herm(f as int),
            0 <= r <= 0x10000,
    {
        proof {
            assert(0 <= (f as int) * (f as int) <= 0x100000000 && 0 <= (f as int) * (f as int) * (3
                * 65536 - 2 * (f as int)) <= 0x30000 * 0x100000000) by (nonlinear_arith)
                requires
                    0 <= (f as int) < 65536,
            ;
            lemma_herm_range(f as int);
            lemma_floor_div_fund((f as int) * (f as int) * (3 * 65536 - 2 * (f as int)), 0x100000000);
        }
        let ff = f as i128;
        floor_div_i128(ff * ff * (3 * 65536 - 2 * ff), 0x100000000) as i64
    }

    /// One corner's contribution.
    fn corner(&self, lx: i64, ly: i64, lz: i64, su: i64, sv: i64, sw: i64, di: i64, dj: i64, dk: i64) -> (t:
        i128)
        requires
            perlin_wf(*self),
            0 <= su <= 0x10000,
            0 <= sv <= 0x10000,
            0 <= sw <= 0x10000,
            di == 0 || di == 1,
            dj == 0 || dj == 1,
            dk == 0 || dk == 1,
            -0x100000000000000 <= lx <= 0x100000000000000,
            -0x100000000000000 <= ly <= 0x100000000000000,
            -0x100000000000000 <= lz <= 0x100000000000000,
        ensures
            t == corner_term(
                *self,
                lx as int,
                ly as int,
                lz as int,
                su as int,
                sv as int,
                sw as int,
                di as int,
                dj as int,
                dk as int,
            ),
            -0x8000000000000000000000000000 <= t <= 0x8000000000000000000000000000,
    {
        proof {
            reveal(corner_term);
        }
        let ix = emod256(lx + di);
        let iy = emod256(ly + dj);
        let iz = emod256(lz + dk);
        let gi = (self.perm_x[ix] ^ self.perm_y[iy]) ^ self.perm_z[iz];
        let g = self.ranvec[gi as usize];
        let wx: i128 = (su as i128) - (di as i128) * 65536;
        let wy: i128 = (sv as i128) - (dj as i128) * 65536;
        let wz: i128 = (sw as i128) - (dk as i128) * 65536;
        proof {
            crate::fixed::lemma_prod_bound(g.x as int, wx as int, 0x40000, 0x40000);
            crate::fixed::lemma_prod_bound(g.y as int, wy as int, 0x40000, 0x40000);
            crate::fixed::lemma_prod_bound(g.z as int, wz as int, 0x40000, 0x40000);
        }
        let d: i128 = (g.x as i128) * wx + (g.y as i128) * wy + (g.z as i128) * wz;
        let hu = self.smooth2(su);
        let hv = self.smooth2(sv);
        let hw = self.smooth2(sw);
        let fu: i128 = if di == 1 {
            hu as i128
        } else {
            65536 - (hu as i128)
        };
        let fv: i128 = if dj == 1 {
            hv as i128
        } else {
            65536 - (hv as i128)
        };
        let fw: i128 = if dk == 1 {
            hw as i128
        } else {
            65536 - (hw as i128)
        };
        proof {
            crate::fixed::lemma_prod_bound(fu as int, fv as int, 0x1000000, 0x1000000);
            crate::fixed::lemma_prod_bound(
                (fu as int) * (fv as int),
                fw as int,
                0x1000000000000,
                0x1000000,
            );
            crate::fixed::lemma_prod_bound(
                (fu as int) * (fv as int) * (fw as int),
                d as int,
                0x1000000000000000000,
                0x8000000000,
            );
        }
        fu * fv * fw * d
    }

    /// Hermite smoothing of an already-smoothed value.
    fn smooth2(&self, s: i64) -> (r: i64)
        requires
            0 <= s <= 0x10000,
        ensures
            r == herm(s as int),
            0 <= r <= 0x10000,
    {
        proof {
            lemma_herm_range(s as int);
            assert(0 <= (s as int) * (s as int) <= 0x900000000) by (nonlinear_arith)
                requires
                    0 <= s as int <= 0x30000,
            ;
            crate::fixed::lemma_prod_bound(
                (s as int) * (s as int),
                3 * 65536 - 2 * (s as int),
                0x900000000,
                0x60000,
            );
            lemma_floor_div_fund((s as int) * (s as int) * (3 * 65536 - 2 * (s as int)), 0x100000000);
        }
        let s128 = s as i128;
        floor_div_i128(s128 * s128 * (3 * 65536 - 2 * s128), 0x100000000) as i64
    }

    /// Turbulence: seven octaves.
    pub fn turb(&self, p: &Point3) -> (r: i64)
        requires
            perlin_wf(*self),
        ensures
            r == ({
                let t = turb_rec(*self, *p, 7, 65536);
                if t >= 0 {
                    t
                } else {
                    -t
                }
            }),
            0 <= r <= 0x800000,
    {
        self.turb_depth(p, 7)
    }

    /// Turbulence with an explicit octave count.
    pub fn turb_depth(&self, p: &Point3, depth: i32) -> (r: i64)
        requires
            perlin_wf(*self),
            0 <= depth <= 32,
        ensures
            r == ({
                let t = turb_rec(*self, *p, depth as int, 65536);
                if t >= 0 {
                    t
                } else {
                    -t
                }
            }),
            0 <= r <= 0x800000,
    {
        let mut acc: i128 = 0;
        let mut weight: i64 = 65536;
        let mut cur = *p;
        let mut i: i32 = 0;
        while i < depth
            invariant
                perlin_wf(*self),
                0 <= i <= depth <= 32,
                0 <= weight <= 65536,
                turb_rec(*self, *p, depth as int, 65536) == acc + turb_rec(
                    *self,
                    cur,
                    depth - i,
                    weight as int,
                ),
            decreases depth - i,
        {
            proof {
                lemma_turb_bound(*self, *p, depth as int, 65536);
                lemma_turb_bound(*self, cur, depth - i, weight as int);
                lemma_turb_bound(
                    *self,
                    double_point(cur),
                    depth - i - 1,
                    floor_div(weight as int, 2),
                );
                lemma_noise_bound(*self, cur);
                lemma_floor_div_fund(weight as int, 2);
            }
            let n = self.noise(&cur);
            proof {
                assert(-0x300010000 <= (weight as int) * (n as int) <= 0x300010000)
                    by (nonlinear_arith)
                    requires
                        0 <= weight as int <= 65536,
                        -0x30001 <= n as int <= 0x30000,
                ;
                lemma_floor_div_fund((weight as int) * (n as int), 65536);
            }
            let term = floor_div_i128((weight as i128) * (n as i128), 65536);
            acc = acc + term;
            weight = floor_div_i128(weight as i128, 2) as i64;
            cur = Vec3 {
                x: if -0x2000000000000000 <= cur.x && cur.x <= 0x2000000000000000 {
                    2 * cur.x
                } else {
                    cur.x
                },
                y: if -0x2000000000000000 <= cur.y && cur.y <= 0x2000000000000000 {
                    2 * cur.y
                } else {
                    cur.y
                },
                z: if -0x2000000000000000 <= cur.z && cur.z <= 0x2000000000000000 {
                    2 * cur.z
                } else {
                    cur.z
                },
            };
            i = i + 1;
        }
        proof {
            lemma_turb_bound(*self, *p, depth as int, 65536);
            lemma_turb_bound(*self, cur, depth - i, weight as int);
        }
        let t = acc as i64;
        if t >= 0 {
            t
        } else {
            -t
        }
    }
}

/// Clamp a gradient component to unit magnitude.
fn clamp_one(x: i64) -> (r: i64)
    ensures
        -65536 <= r <= 65536,
        -65536 <= x <= 65536 ==> r == x,
{
    if x > 65536 {
        65536
    } else if x < -65536 {
        -65536
    } else {
        x
    }
}

/// Reduce an index to `[0, 256)` the Euclidean way.
fn emod256(a: i64) -> (r: usize)
    requires
        -0x200000000000000 <= a <= 0x200000000000000,
    ensures
        r as int == (a as int) % 256,
        r < 256,
{
    proof {
        lemma_floor_div_fund(a as int, 256);
        assert((a as int) % 256 == a as int - 256 * floor_div(a as int, 256))
            by {
            vstd::arithmetic::div_mod::lemma_fundamental_div_mod(a as int, 256);
        }
    }
    let q = floor_div_i128(a as i128, 256);
    (a as i128 - 256 * q) as usize
}

} // verus!
