//! Colors on the fixed-point grid.
//!
//! Channel arithmetic saturates into `[0, COLOR_CAP]` (zero to 65536 in
//! scalar value): physically meaningful radiance is non-negative, and
//! anything above the cap quantises to full brightness anyway, so the
//! operations are total and every color stays representable.

use crate::fixed::{floor_div, floor_div_i128, fx_sqrt, lemma_floor_div_fund, lemma_i64_prod_fits, sqrt_fx};
use crate::rng::Rng;
use vstd::prelude::*;

verus! {

/// Upper saturation bound for a channel (the scalar 65536).
pub const COLOR_CAP: i64 = 0x100000000;

/// Saturate a channel value into `[0, COLOR_CAP]`.
pub open spec fn sat(x: int) -> int {
    if x < 0 {
        0
    } else if x > 0x100000000 {
        0x100000000
    } else {
        x
    }
}

/// The quantised byte for a channel: clamp to `[0, 0.999]` on the grid, then
/// keep the top eight fractional bits.
pub open spec fn channel_byte(c: int) -> int {
    floor_div(
        if c < 0 {
            0
        } else if c > 65470 {
            65470
        } else {
            c
        },
        256,
    )
}

#[derive(Clone, Copy, Debug, PartialEq, Eq, Structural)]
pub struct Color {
    pub r: i64,
    pub g: i64,
    pub b: i64,
}

/// The saturating channelwise sum.
pub open spec fn sat_add(a: Color, b: Color) -> Color {
    Color { r: sat(a.r + b.r) as i64, g: sat(a.g + b.g) as i64, b: sat(a.b + b.b) as i64 }
}

/// The saturating channelwise product.
pub open spec fn sat_mul(a: Color, b: Color) -> Color {
    Color {
        r: sat(floor_div(a.r * b.r, 65536)) as i64,
        g: sat(floor_div(a.g * b.g, 65536)) as i64,
        b: sat(floor_div(a.b * b.b, 65536)) as i64,
    }
}

/// Every channel saturated (the invariant all operations return).
pub open spec fn color_wf(c: Color) -> bool {
    &&& 0 <= c.r <= 0x100000000
    &&& 0 <= c.g <= 0x100000000
    &&& 0 <= c.b <= 0x100000000
}

fn sat_exec(x: i128) -> (r: i64)
    ensures
        r == sat(x as int),
{
    if x < 0 {
        0
    } else if x > 0x100000000 {
        0x100000000
    } else {
        x as i64
    }
}

impl Color {
    pub fn new(r: i64, g: i64, b: i64) -> (c: Color)
        ensures
            c == (Color { r, g, b }),
    {
        Color { r, g, b }
    }

    pub fn r(&self) -> (v: i64)
        ensures
            v == self.r,
    {
        self.r
    }

    pub fn g(&self) -> (v: i64)
        ensures
            v == self.g,
    {
        self.g
    }

    pub fn b(&self) -> (v: i64)
        ensures
            v == self.b,
    {
        self.b
    }

    /// Channelwise saturating sum.
    pub fn plus(&self, o: &Color) -> (c: Color)
        ensures
            c == sat_add(*self, *o),
            c.r == sat(self.r + o.r),
            c.g == sat(self.g + o.g),
            c.b == sat(self.b + o.b),
            color_wf(c),
    {
        Color {
            r: sat_exec((self.r as i128) + (o.r as i128)),
            g: sat_exec((self.g as i128) + (o.g as i128)),
            b: sat_exec((self.b as i128) + (o.b as i128)),
        }
    }

    /// Channelwise saturating product (attenuation).
    pub fn attenuate(&self, o: &Color) -> (c: Color)
        ensures
            c == sat_mul(*self, *o),
            c.r == sat(floor_div(self.r * o.r, 65536)),
            c.g == sat(floor_div(self.g * o.g, 65536)),
            c.b == sat(floor_div(self.b * o.b, 65536)),
            color_wf(c),
    {
        proof {
            lemma_i64_prod_fits(self.r as int, o.r as int);
            lemma_i64_prod_fits(self.g as int, o.g as int);
            lemma_i64_prod_fits(self.b as int, o.b as int);
            lemma_floor_div_fund(self.r * o.r, 65536);
            lemma_floor_div_fund(self.g * o.g, 65536);
            lemma_floor_div_fund(self.b * o.b, 65536);
        }
        Color {
            r: sat_exec(floor_div_i128((self.r as i128) * (o.r as i128), 65536)),
            g: sat_exec(floor_div_i128((self.g as i128) * (o.g as i128), 65536)),
            b: sat_exec(floor_div_i128((self.b as i128) * (o.b as i128), 65536)),
        }
    }

    /// Saturating scale by a fixed-point factor.
    pub fn scaled(&self, s: i64) -> (c: Color)
        ensures
            c.r == sat(floor_div(s * self.r, 65536)),
            c.g == sat(floor_div(s * self.g, 65536)),
            c.b == sat(floor_div(s * self.b, 65536)),
            color_wf(c),
    {
        proof {
            lemma_i64_prod_fits(s as int, self.r as int);
            lemma_i64_prod_fits(s as int, self.g as int);
            lemma_i64_prod_fits(s as int, self.b as int);
            lemma_floor_div_fund(s * self.r, 65536);
            lemma_floor_div_fund(s * self.g, 65536);
            lemma_floor_div_fund(s * self.b, 65536);
        }
        Color {
            r: sat_exec(floor_div_i128((s as i128) * (self.r as i128), 65536)),
            g: sat_exec(floor_div_i128((s as i128) * (self.g as i128), 65536)),
            b: sat_exec(floor_div_i128((s as i128) * (self.b as i128), 65536)),
        }
    }

    /// Average an accumulated color over the sample count.
    pub fn sample_scale(&mut self, samples: i64)
        requires
            samples >= 1,
        ensures
            final(self).r == sat(floor_div(old(self).r as int, samples as int)),
            final(self).g == sat(floor_div(old(self).g as int, samples as int)),
            final(self).b == sat(floor_div(old(self).b as int, samples as int)),
            color_wf(*final(self)),
    {
        let r = sat_exec(floor_div_i128(self.r as i128, samples as i128));
        let g = sat_exec(floor_div_i128(self.g as i128, samples as i128));
        let b = sat_exec(floor_div_i128(self.b as i128, samples as i128));
        self.r = r;
        self.g = g;
        self.b = b;
    }

    /// Gamma correction with exponent two: the square root of each saturated
    /// channel.
    pub fn gamma(&self) -> (c: Color)
        ensures
            c.r == fx_sqrt(sat(self.r as int)),
            c.g == fx_sqrt(sat(self.g as int)),
            c.b == fx_sqrt(sat(self.b as int)),
            color_wf(c),
    {
        let r = sat_exec(self.r as i128);
        let g = sat_exec(self.g as i128);
        let b = sat_exec(self.b as i128);
        let sr = sqrt_fx(r);
        let sg = sqrt_fx(g);
        let sb = sqrt_fx(b);
        proof {
            lemma_gamma_bound(r as int, sr as int);
            lemma_gamma_bound(g as int, sg as int);
            lemma_gamma_bound(b as int, sb as int);
        }
        Color { r: sr, g: sg, b: sb }
    }

    pub fn r_as_u8(&self) -> (v: u8)
        ensures
            v == channel_byte(self.r as int),
    {
        channel_to_u8(self.r)
    }

    pub fn g_as_u8(&self) -> (v: u8)
        ensures
            v == channel_byte(self.g as int),
    {
        channel_to_u8(self.g)
    }

    pub fn b_as_u8(&self) -> (v: u8)
        ensures
            v == channel_byte(self.b as int),
    {
        channel_to_u8(self.b)
    }

    /// A color with each channel drawn uniformly from `[0, 1)`.
    pub fn random(rng: &mut Rng) -> (c: Color)
        ensures
            color_wf(c),
    {
        let r = rng.unit_fx();
        let g = rng.unit_fx();
        let b = rng.unit_fx();
        Color { r, g, b }
    }

    /// A color with each channel drawn uniformly from `[lo, hi)`.
    pub fn random_range(rng: &mut Rng, lo: i64, hi: i64) -> (c: Color)
        requires
            0 <= lo < hi <= 0x100000000,
        ensures
            color_wf(c),
            lo <= c.r < hi,
            lo <= c.g < hi,
            lo <= c.b < hi,
    {
        let r = rng.range_fx(lo, hi);
        let g = rng.range_fx(lo, hi);
        let b = rng.range_fx(lo, hi);
        Color { r, g, b }
    }
}

/// Quantise one channel to a byte.
pub fn channel_to_u8(c: i64) -> (v: u8)
    ensures
        v == channel_byte(c as int),
        v <= 255,
{
    let cl: i64 = if c < 0 {
        0
    } else if c > 65470 {
        65470
    } else {
        c
    };
    proof {
        lemma_floor_div_fund(cl as int, 256);
    }
    let q = floor_div_i128(cl as i128, 256);
    q as u8
}

/// The square root of a saturated channel stays within the cap.
proof fn lemma_gamma_bound(c: int, s: int)
    requires
        0 <= c <= 0x100000000,
        s >= 0,
        s * s <= c * 65536,
        c * 65536 < (s + 1) * (s + 1),
        s == fx_sqrt(c),
    ensures
        0 <= s <= 0x100000000,
{
    assert(s <= 0x100000000) by (nonlinear_arith)
        requires
            s >= 0,
            s * s <= 0x100000000 * 65536,
    ;
}

} // verus!
