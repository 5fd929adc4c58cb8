//! Textures: solid colors, object-space checkers, bitmap lookups and the
//! two noise-driven procedural patterns.

use crate::color::{color_wf, sat, Color};
use crate::fixed::{
    floor_div, floor_div_i128, fx_div, fx_floor, fx_mul, lemma_floor_div_fund, lemma_prod_bound,
};
use crate::noise::{perlin_wf, turb_rec, Perlin};
use crate::rng::Rng;
use crate::trig::{fx_sin, sin_fx};
use crate::vec3::{vec_bounded, Point3, Vec3};
use vstd::prelude::*;

verus! {

pub struct SolidColor {
    pub color: Color,
}

pub struct CheckerTexture {
    pub inv_scale: i64,
    pub even: Box<Texture>,
    pub odd: Box<Texture>,
}

pub struct ImageTexture {
    pub width: usize,
    pub height: usize,
    pub pixels: Vec<u8>,
}

pub struct NoiseTexture {
    pub scale: i64,
    pub noise: Perlin,
}

pub struct MarbleTexture {
    pub scale: i64,
    pub noise: Perlin,
}

/// The polymorphic texture capability, as a sum type.
pub enum Texture {
    Solid(SolidColor),
    Checker(CheckerTexture),
    Image(ImageTexture),
    Noise(NoiseTexture),
    Marble(MarbleTexture),
}

/// Well-formedness: saturated solid colors, bounded scales, consistent
/// bitmap dimensions, well-formed noise tables.
pub open spec fn texture_wf(t: Texture) -> bool
    decreases t,
{
    match t {
        Texture::Solid(s) => color_wf(s.color),
        Texture::Checker(c) => {
            &&& texture_wf(*c.even)
            &&& texture_wf(*c.odd)
            &&& -0x100000000 <= c.inv_scale <= 0x100000000
        },
        Texture::Image(im) => {
            &&& im.width <= 0x8000
            &&& im.height <= 0x8000
            &&& im.pixels@.len() == 3 * im.width * im.height
        },
        Texture::Noise(n) => perlin_wf(n.noise) && 0 <= n.scale <= 0x1000000,
        Texture::Marble(m) => perlin_wf(m.noise) && 0 <= m.scale <= 0x1000000,
    }
}

/// The point scaled by a noise texture's frequency.
pub open spec fn noise_point(scale: int, p: Point3) -> Vec3 {
    Vec3 {
        x: fx_mul(scale, p.x as int) as i64,
        y: fx_mul(scale, p.y as int) as i64,
        z: fx_mul(scale, p.z as int) as i64,
    }
}

/// The turbulence magnitude a noise texture reads at a point.
pub open spec fn turb_at(pl: Perlin, sp: Vec3) -> int {
    let t = turb_rec(pl, sp, 7, 65536);
    if t >= 0 {
        t
    } else {
        -t
    }
}

/// A bitmap lookup: clamp the coordinates, flip v, index the nearest texel,
/// and widen its bytes to grid channels; a missing bitmap yields cyan.
pub open spec fn image_value(im: ImageTexture, u: int, v: int) -> Color {
    if im.width == 0 || im.height == 0 {
        Color { r: 0, g: 65536, b: 65536 }
    } else {
        let uc = if u < 0 {
            0
        } else if u > 65536 {
            65536
        } else {
            u
        };
        let vc0 = if v < 0 {
            0
        } else if v > 65536 {
            65536
        } else {
            v
        };
        let vc = 65536 - vc0;
        let i0 = floor_div(uc * im.width, 65536);
        let j0 = floor_div(vc * im.height, 65536);
        let i = if i0 >= im.width {
            im.width as int - 1
        } else {
            i0
        };
        let j = if j0 >= im.height {
            im.height as int - 1
        } else {
            j0
        };
        let idx = 3 * (j * im.width + i);
        Color {
            r: floor_div(im.pixels@[idx] * 65536, 255) as i64,
            g: floor_div(im.pixels@[idx + 1] * 65536, 255) as i64,
            b: floor_div(im.pixels@[idx + 2] * 65536, 255) as i64,
        }
    }
}

/// The value of a texture at surface coordinates `(u, v)` and point `p`.
pub open spec fn texture_value(t: Texture, u: int, v: int, p: Point3) -> Color
    decreases t,
{
    match t {
        Texture::Solid(s) => s.color,
        Texture::Checker(c) => {
            let xf = fx_floor(fx_mul(c.inv_scale as int, p.x as int));
            let yf = fx_floor(fx_mul(c.inv_scale as int, p.y as int));
            let zf = fx_floor(fx_mul(c.inv_scale as int, p.z as int));
            if (xf + yf + zf) % 2 == 0 {
                texture_value(*c.even, u, v, p)
            } else {
                texture_value(*c.odd, u, v, p)
            }
        },
        Texture::Image(im) => image_value(im, u, v),
        Texture::Noise(n) => {
            let t0 = turb_at(n.noise, noise_point(n.scale as int, p));
            Color { r: sat(t0) as i64, g: sat(t0) as i64, b: sat(t0) as i64 }
        },
        Texture::Marble(m) => {
            let sp = noise_point(m.scale as int, p);
            let t0 = turb_at(m.noise, sp);
            let band = floor_div(65536 + fx_sin(sp.z + 10 * t0), 2);
            Color { r: sat(band) as i64, g: sat(band) as i64, b: sat(band) as i64 }
        },
    }
}

impl SolidColor {
    pub fn new(color: Color) -> (s: SolidColor)
        ensures
            s.color == color,
    {
        SolidColor { color }
    }

    pub fn from_rgb(r: i64, g: i64, b: i64) -> (s: SolidColor)
        ensures
            s.color == (Color { r, g, b }),
    {
        SolidColor { color: Color { r, g, b } }
    }
}

impl CheckerTexture {
    /// A checker with the given tile scale and two child textures.
    pub fn new(scale: i64, even: Texture, odd: Texture) -> (s: CheckerTexture)
        requires
            scale >= 1,
        ensures
            s.inv_scale == fx_div(65536, scale as int),
            *s.even == even,
            *s.odd == odd,
            -0x100000000 <= s.inv_scale <= 0x100000000,
    {
        proof {
            crate::fixed::lemma_floor_div_bound((65536 * 65536) as int, scale as int, 0x100000000);
        }
        CheckerTexture {
            inv_scale: crate::fixed::div_fx(65536, scale),
            even: Box::new(even),
            odd: Box::new(odd),
        }
    }

    /// A checker between two solid colors.
    pub fn new_with_colours(scale: i64, c1: Color, c2: Color) -> (s: CheckerTexture)
        requires
            scale >= 1,
        ensures
            s.inv_scale == fx_div(65536, scale as int),
            *s.even == Texture::Solid(SolidColor { color: c1 }),
            *s.odd == Texture::Solid(SolidColor { color: c2 }),
            -0x100000000 <= s.inv_scale <= 0x100000000,
    {
        CheckerTexture::new(
            scale,
            Texture::Solid(SolidColor { color: c1 }),
            Texture::Solid(SolidColor { color: c2 }),
        )
    }
}

impl ImageTexture {
    /// A texture over an already-decoded bitmap of packed RGB bytes; a
    /// mismatched or empty buffer behaves as a missing image.
    pub fn new(width: usize, height: usize, pixels: Vec<u8>) -> (s: ImageTexture)
        requires
            width <= 0x8000,
            height <= 0x8000,
            pixels@.len() == 3 * width * height,
        ensures
            s.width == width,
            s.height == height,
            s.pixels == pixels,
    {
        ImageTexture { width, height, pixels }
    }
}

impl NoiseTexture {
    pub fn new(scale: i64, rng: &mut Rng) -> (s: NoiseTexture)
        requires
            0 <= scale <= 0x1000000,
        ensures
            s.scale == scale,
            perlin_wf(s.noise),
    {
        NoiseTexture { scale, noise: Perlin::new(rng) }
    }
}

impl MarbleTexture {
    pub fn new(scale: i64, rng: &mut Rng) -> (s: MarbleTexture)
        requires
            0 <= scale <= 0x1000000,
        ensures
            s.scale == scale,
            perlin_wf(s.noise),
    {
        MarbleTexture { scale, noise: Perlin::new(rng) }
    }
}

/// Scale a point by a texture frequency.
fn scale_point(scale: i64, p: &Point3) -> (sp: Vec3)
    requires
        0 <= scale <= 0x1000000,
        vec_bounded(*p, 0x40000000),
    ensures
        sp == noise_point(scale as int, *p),
{
    proof {
        lemma_prod_bound(scale as int, p.x as int, 0x1000000, 0x40000000);
        lemma_prod_bound(scale as int, p.y as int, 0x1000000, 0x40000000);
        lemma_prod_bound(scale as int, p.z as int, 0x1000000, 0x40000000);
        lemma_floor_div_fund(scale as int * p.x, 65536);
        lemma_floor_div_fund(scale as int * p.y, 65536);
        lemma_floor_div_fund(scale as int * p.z, 65536);
    }
    Vec3 {
        x: crate::fixed::mul_fx(scale, p.x),
        y: crate::fixed::mul_fx(scale, p.y),
        z: crate::fixed::mul_fx(scale, p.z),
    }
}

impl Texture {
    /// Evaluate the texture.
    pub fn value(&self, u: i64, v: i64, p: &Point3, ) -> (c: Color)
        requires
            texture_wf(*self),
            vec_bounded(*p, 0x40000000),
        ensures
            c == texture_value(*self, u as int, v as int, *p),
            color_wf(c),
        decreases *self,
    {
        match self {
            Texture::Solid(s) => s.color,
            Texture::Checker(ck) => {
                proof {
                    lemma_prod_bound(ck.inv_scale as int, p.x as int, 0x100000000, 0x40000000);
                    lemma_prod_bound(ck.inv_scale as int, p.y as int, 0x100000000, 0x40000000);
                    lemma_prod_bound(ck.inv_scale as int, p.z as int, 0x100000000, 0x40000000);
                    lemma_floor_div_fund(ck.inv_scale as int * p.x, 65536);
                    lemma_floor_div_fund(ck.inv_scale as int * p.y, 65536);
                    lemma_floor_div_fund(ck.inv_scale as int * p.z, 65536);
                }
                let xs = crate::fixed::mul_fx(ck.inv_scale, p.x);
                let ys = crate::fixed::mul_fx(ck.inv_scale, p.y);
                let zs = crate::fixed::mul_fx(ck.inv_scale, p.z);
                let xf = crate::fixed::floor_fx(xs);
                let yf = crate::fixed::floor_fx(ys);
                let zf = crate::fixed::floor_fx(zs);
                let s: i64 = xf + yf + zf;
                proof {
                    lemma_floor_div_fund(s as int, 2);
                    vstd::arithmetic::div_mod::lemma_fundamental_div_mod(s as int, 2);
                }
                let q = floor_div_i128(s as i128, 2);
                let m: i64 = (s as i128 - 2 * q) as i64;
                if m == 0 {
                    ck.even.value(u, v, p)
                } else {
                    ck.odd.value(u, v, p)
                }
            },
            Texture::Image(im) => im.lookup(u, v),
            Texture::Noise(n) => {
                let sp = scale_point(n.scale, p);
                let t0 = n.noise.turb(&sp);
                let white = Color { r: 65536, g: 65536, b: 65536 };
                let c = white.scaled(t0);
                proof {
                    lemma_floor_div_fund(t0 as int * 65536, 65536);
                }
                c
            },
            Texture::Marble(m) => {
                let sp = scale_point(m.scale, p);
                let t0 = m.noise.turb(&sp);
                proof {
                    lemma_prod_bound(m.scale as int, p.z as int, 0x1000000, 0x40000000);
                    lemma_floor_div_fund(m.scale as int * p.z, 65536);
                }
                let band0 = sin_fx(sp.z + 10 * t0);
                proof {
                    lemma_floor_div_fund(65536 + band0 as int, 2);
                }
                let band = floor_div_i128(65536 + band0 as i128, 2) as i64;
                let white = Color { r: 65536, g: 65536, b: 65536 };
                let c = white.scaled(band);
                proof {
                    lemma_floor_div_fund(band as int * 65536, 65536);
                }
                c
            },
        }
    }
}

impl ImageTexture {
    /// The texel lookup behind `Texture::value`.
    pub fn lookup(&self, u: i64, v: i64) -> (c: Color)
        requires
            self.width <= 0x8000,
            self.height <= 0x8000,
            self.pixels@.len() == 3 * self.width * self.height,
        ensures
            c == image_value(*self, u as int, v as int),
            color_wf(c),
    {
        if self.width == 0 || self.height == 0 {
            return Color { r: 0, g: 65536, b: 65536 };
        }
        let uc: i64 = if u < 0 {
            0
        } else if u > 65536 {
            65536
        } else {
            u
        };
        let vc0: i64 = if v < 0 {
            0
        } else if v > 65536 {
            65536
        } else {
            v
        };
        let vc: i64 = 65536 - vc0;
        proof {
            lemma_prod_bound(uc as int, self.width as int, 65536, 0x8000);
            lemma_prod_bound(vc as int, self.height as int, 65536, 0x8000);
            lemma_floor_div_fund(uc as int * self.width as int, 65536);
            lemma_floor_div_fund(vc as int * self.height as int, 65536);
        }
        let i0 = ((uc as u64) * (self.width as u64) / 65536) as usize;
        let j0 = ((vc as u64) * (self.height as u64) / 65536) as usize;
        let i = if i0 >= self.width {
            self.width - 1
        } else {
            i0
        };
        let j = if j0 >= self.height {
            self.height - 1
        } else {
            j0
        };
        proof {
            assert(3 * ((j as int) * (self.width as int) + i as int) + 2 < 3 * (self.width as int)
                * (self.height as int) && (j as int) * (self.width as int) <= 0x40000000 && (
            self.width as int) * (self.height as int) <= 0x40000000) by (nonlinear_arith)
                requires
                    0 <= (i as int) < (self.width as int),
                    0 <= (j as int) < (self.height as int),
                    self.width as int <= 0x8000,
                    self.height as int <= 0x8000,
            ;
        }
        let idx = 3 * (j * self.width + i);
        let pr = self.pixels[idx];
        let pg = self.pixels[idx + 1];
        let pb = self.pixels[idx + 2];
        proof {
            lemma_floor_div_fund(pr as int * 65536, 255);
            lemma_floor_div_fund(pg as int * 65536, 255);
            lemma_floor_div_fund(pb as int * 65536, 255);
        }
        Color {
            r: ((pr as u64) * 65536 / 255) as i64,
            g: ((pg as u64) * 65536 / 255) as i64,
            b: ((pb as u64) * 65536 / 255) as i64,
        }
    }
}

} // verus!
