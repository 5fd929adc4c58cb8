//! Fixed-point scalars: signed mantissas with 16 fractional bits.
//!
//! A mantissa `m: i64` denotes the rational value `m / 65536`.  Products and
//! quotients are rounded toward negative infinity (floor), and square roots
//! round down as well, so every operation here has an exact integer
//! description that the contracts state directly.

use vstd::arithmetic::div_mod::{lemma_fundamental_div_mod, lemma_fundamental_div_mod_converse};
use vstd::prelude::*;

verus! {

/// Mantissa of the scalar one: 2^16.
pub const ONE: i64 = 65536;

/// Floor division of mathematical integers: the unique `q` with
/// `q * b <= a < (q + 1) * b` for `b > 0` (mirrored for `b < 0`).
pub open spec fn floor_div(a: int, b: int) -> int {
    if b >= 0 {
        a / b
    } else {
        (-a) / (-b)
    }
}

/// The fixed-point product: exact integer product, floor-scaled back.
pub open spec fn fx_mul(a: int, b: int) -> int {
    floor_div(a * b, 65536)
}

/// The fixed-point quotient: floor of the exact rational quotient.
pub open spec fn fx_div(a: int, b: int) -> int {
    floor_div(a * 65536, b)
}

/// Floor of a fixed-point value as a plain integer.
pub open spec fn fx_floor(a: int) -> int {
    floor_div(a, 65536)
}

/// The integer square root: greatest `r` with `r * r <= x`.
pub open spec fn sqrt_floor(x: int) -> int
    decreases x,
{
    if x < 1 {
        0
    } else {
        let r = sqrt_floor(x - 1);
        if (r + 1) * (r + 1) <= x {
            r + 1
        } else {
            r
        }
    }
}

/// Square root of a non-negative fixed-point value, rounded down to the grid:
/// `sqrt(m / 2^16) = sqrt(m * 2^16) / 2^16`.
pub open spec fn fx_sqrt(a: int) -> int {
    sqrt_floor(a * 65536)
}

pub proof fn lemma_sqrt_floor(x: int)
    ensures
        sqrt_floor(x) >= 0,
        sqrt_floor(x) * sqrt_floor(x) <= x || x < 0,
        x < (sqrt_floor(x) + 1) * (sqrt_floor(x) + 1),
    decreases x,
{
    if x < 1 {
        assert(sqrt_floor(x) == 0);
    } else {
        lemma_sqrt_floor(x - 1);
        let r = sqrt_floor(x - 1);
        if (r + 1) * (r + 1) <= x {
            assert(x < (r + 2) * (r + 2)) by (nonlinear_arith)
                requires
                    r >= 0,
                    x - 1 < (r + 1) * (r + 1),
            ;
        }
    }
}

/// The square root characterisation pins the value down uniquely.
pub proof fn lemma_sqrt_floor_unique(x: int, r: int)
    requires
        r >= 0,
        r * r <= x,
        x < (r + 1) * (r + 1),
    ensures
        r == sqrt_floor(x),
{
    lemma_sqrt_floor(x);
    let s = sqrt_floor(x);
    assert(r == s) by (nonlinear_arith)
        requires
            r >= 0,
            s >= 0,
            r * r <= x,
            x < (r + 1) * (r + 1),
            s * s <= x,
            x < (s + 1) * (s + 1),
    ;
}

/// The fundamental inequality pinning a floor quotient between the two
/// nearest multiples of the divisor.
pub proof fn lemma_floor_div_fund(a: int, b: int)
    requires
        b >= 1,
    ensures
        b * floor_div(a, b) <= a < b * (floor_div(a, b) + 1),
{
    lemma_fundamental_div_mod(a, b);
    vstd::arithmetic::div_mod::lemma_mod_division_less_than_divisor(a, b);
    let q = a / b;
    let r = a % b;
    assert(floor_div(a, b) == q);
    assert(b * q <= a < b * (q + 1)) by (nonlinear_arith)
        requires
            a == b * q + r,
            0 <= r < b,
    ;
}

/// Euclidean division on `u128`, packaged so callers get the fundamental
/// identity without re-deriving it.
fn div_mod_u128(a: u128, b: u128) -> (qr: (u128, u128))
    requires
        b > 0,
    ensures
        a == b * qr.0 + qr.1,
        0 <= qr.1 < b,
        qr.0 == a as int / b as int,
{
    let q = a / b;
    let r = a % b;
    proof {
        lemma_fundamental_div_mod(a as int, b as int);
    }
    (q, r)
}

/// Floor division on `i128` operands.  Rust's `/` truncates toward zero, so
/// the negative cases are assembled from unsigned division by hand.
pub fn floor_div_i128(a: i128, b: i128) -> (q: i128)
    requires
        b != 0,
        a != i128::MIN,
        b != i128::MIN,
    ensures
        q == floor_div(a as int, b as int),
{
    let neg = (a < 0) != (b < 0);
    let ua: u128 = if a < 0 {
        (-a) as u128
    } else {
        a as u128
    };
    let ub: u128 = if b < 0 {
        (-b) as u128
    } else {
        b as u128
    };
    let (q0, r0) = div_mod_u128(ua, ub);
    proof {
        assert((q0 as int) <= (ua as int) && ((r0 as int) > 0 ==> (q0 as int) < (ua as int)))
            by (nonlinear_arith)
            requires
                ua as int == ub as int * (q0 as int) + r0 as int,
                ub as int >= 1,
                r0 as int >= 0,
                q0 as int >= 0,
        ;
    }
    if neg {
        let q: i128 = if r0 != 0 {
            -((q0 + 1) as i128)
        } else {
            -(q0 as i128)
        };
        proof {
            let pa = ua as int;
            let pb = ub as int;
            let qi = q0 as int;
            let ri = r0 as int;
            assert(pa == pb * qi + ri);
            // The divided magnitudes recombine into a floor quotient: one of
            // the operands is negated, so the remainder flips to pb - ri.
            if ri != 0 {
                assert(-pa == (-(qi + 1)) * pb + (pb - ri)) by (nonlinear_arith)
                    requires
                        pa == pb * qi + ri,
                ;
                if b > 0 {
                    lemma_fundamental_div_mod_converse(a as int, b as int, q as int, pb - ri);
                } else {
                    lemma_fundamental_div_mod_converse(
                        -(a as int),
                        -(b as int),
                        q as int,
                        pb - ri,
                    );
                }
            } else {
                assert(-pa == (-qi) * pb + 0) by (nonlinear_arith)
                    requires
                        pa == pb * qi + ri,
                        ri == 0,
                ;
                if b > 0 {
                    lemma_fundamental_div_mod_converse(a as int, b as int, q as int, 0);
                } else {
                    lemma_fundamental_div_mod_converse(-(a as int), -(b as int), q as int, 0);
                }
            }
        }
        q
    } else {
        let q: i128 = q0 as i128;
        proof {
            let pa = ua as int;
            let pb = ub as int;
            let qi = q0 as int;
            let ri = r0 as int;
            if a >= 0 && b > 0 {
                assert(a as int == pa);
                assert(b as int == pb);
                assert(q as int == qi);
                assert(a as int == (b as int) * (q as int) + ri) by (nonlinear_arith)
                    requires
                        pa == pb * qi + ri,
                        a as int == pa,
                        b as int == pb,
                        q as int == qi,
                ;
                lemma_fundamental_div_mod_converse(a as int, b as int, q as int, ri);
            } else {
                assert(-(a as int) == pa);
                assert(-(b as int) == pb);
                assert(q as int == qi);
                assert(-(a as int) == (-(b as int)) * (q as int) + ri) by (nonlinear_arith)
                    requires
                        pa == pb * qi + ri,
                        -(a as int) == pa,
                        -(b as int) == pb,
                        q as int == qi,
                ;
                lemma_fundamental_div_mod_converse(-(a as int), -(b as int), q as int, ri);
            }
        }
        q
    }
}

/// Integer square root by bisection over the mantissa range.
pub fn isqrt_u128(x: u128) -> (r: u128)
    ensures
        r == sqrt_floor(x as int),
        r < 0x10000000000000000,
{
    let mut lo: u128 = 0;
    let mut hi: u128 = 0x10000000000000000;
    proof {
        assert((hi as int) * (hi as int) > x as int) by (nonlinear_arith)
            requires
                hi == 0x10000000000000000,
                x < 0x100000000000000000000000000000000,
        ;
    }
    while lo + 1 < hi
        invariant
            lo < hi <= 0x10000000000000000,
            (lo as int) * (lo as int) <= x as int,
            (hi as int) * (hi as int) > x as int,
        decreases hi - lo,
    {
        let mid = lo + (hi - lo) / 2;
        proof {
            assert((mid as int) * (mid as int) < 0x100000000000000000000000000000000)
                by (nonlinear_arith)
                requires
                    mid < 0x10000000000000000,
            ;
        }
        if mid * mid <= x {
            lo = mid;
        } else {
            hi = mid;
        }
    }
    proof {
        lemma_sqrt_floor_unique(x as int, lo as int);
    }
    lo
}

/// Fixed-point multiplication.  The callers carry the range facts that make
/// the result fit; the exact product always fits an `i128`.
pub fn mul_fx(a: i64, b: i64) -> (r: i64)
    requires
        i64::MIN <= fx_mul(a as int, b as int) <= i64::MAX,
    ensures
        r == fx_mul(a as int, b as int),
{
    proof {
        assert(-0x40000000000000000000000000000000 <= (a as int) * (b as int)
            <= 0x40000000000000000000000000000000) by (nonlinear_arith)
            requires
                -0x8000000000000000 <= a as int <= 0x7fffffffffffffff,
                -0x8000000000000000 <= b as int <= 0x7fffffffffffffff,
        ;
    }
    let p: i128 = (a as i128) * (b as i128);
    let q = floor_div_i128(p, 65536);
    q as i64
}

/// Fixed-point division, rounding toward negative infinity.
pub fn div_fx(a: i64, b: i64) -> (r: i64)
    requires
        b != 0,
        i64::MIN <= fx_div(a as int, b as int) <= i64::MAX,
    ensures
        r == fx_div(a as int, b as int),
{
    let p: i128 = (a as i128) * 65536;
    let q = floor_div_i128(p, b as i128);
    q as i64
}

/// Fixed-point square root of a non-negative value.
pub fn sqrt_fx(a: i64) -> (r: i64)
    requires
        a >= 0,
    ensures
        r == fx_sqrt(a as int),
        r >= 0,
        r * r <= a * 65536 < (r + 1) * (r + 1),
{
    let x: u128 = (a as u128) * 65536;
    let r = isqrt_u128(x);
    proof {
        lemma_sqrt_floor(x as int);
        assert(sqrt_floor(x as int) * sqrt_floor(x as int) <= x as int);
        assert((r as int) * (r as int) <= 0x7fffffffffffffff * 65536) by (nonlinear_arith)
            requires
                (r as int) * (r as int) <= x as int,
                x as int <= 0x7fffffffffffffff * 65536,
        ;
        assert(r as int <= 0x7fffffffffffffff) by (nonlinear_arith)
            requires
                r >= 0,
                (r as int) * (r as int) <= 0x7fffffffffffffff * 65536,
        ;
    }
    r as i64
}

/// Floor of a fixed-point value, as a plain (unscaled) integer.
pub fn floor_fx(a: i64) -> (r: i64)
    ensures
        r == fx_floor(a as int),
        -0x8000000000000 <= r <= 0x8000000000000,
{
    let q = floor_div_i128(a as i128, 65536);
    q as i64
}

/// A floor quotient by a positive divisor is no larger in magnitude than the
/// dividend (plus one on the negative side).
pub proof fn lemma_floor_div_bound(a: int, b: int, m: int)
    requires
        b >= 1,
        -m <= a <= m,
        0 <= m,
    ensures
        -m - 1 <= floor_div(a, b) <= m,
{
    lemma_floor_div_fund(a, b);
    let q = floor_div(a, b);
    assert(-m - 1 <= q <= m) by (nonlinear_arith)
        requires
            b >= 1,
            -m <= a <= m,
            0 <= m,
            b * q <= a < b * (q + 1),
    ;
}

/// Magnitude bound for a product of two individually bounded integers.
pub proof fn lemma_prod_bound(a: int, b: int, m1: int, m2: int)
    requires
        -m1 <= a <= m1,
        -m2 <= b <= m2,
        0 <= m1,
        0 <= m2,
    ensures
        -(m1 * m2) <= a * b <= m1 * m2,
{
    assert(-(m1 * m2) <= a * b <= m1 * m2) by (nonlinear_arith)
        requires
            -m1 <= a <= m1,
            -m2 <= b <= m2,
            0 <= m1,
            0 <= m2,
    ;
}

/// The product of two `i64` values always fits an `i128`.
pub proof fn lemma_i64_prod_fits(a: int, b: int)
    requires
        -0x8000000000000000 <= a <= 0x7fffffffffffffff,
        -0x8000000000000000 <= b <= 0x7fffffffffffffff,
    ensures
        -0x40000000000000000000000000000000 <= a * b <= 0x40000000000000000000000000000000,
{
    assert(-0x40000000000000000000000000000000 <= a * b <= 0x40000000000000000000000000000000)
        by (nonlinear_arith)
        requires
            -0x8000000000000000 <= a <= 0x7fffffffffffffff,
            -0x8000000000000000 <= b <= 0x7fffffffffffffff,
    ;
}

} // verus!
