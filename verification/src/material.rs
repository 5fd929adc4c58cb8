//! Materials: the scattering and emission model.

use crate::color::{color_wf, Color};
use crate::fixed::{
    div_fx, floor_div, fx_div, fx_mul, lemma_floor_div_bound, lemma_floor_div_fund,
    lemma_prod_bound, mul_fx,
};
use crate::hit_record::HitRecord;
use crate::ray::{Ray, GEOM_MAX};
use crate::rng::Rng;
use crate::texture::{texture_value, texture_wf, SolidColor, Texture};
use crate::vec3::{
    fx_dot, fx_refract, reflect_x, reflect_y, reflect_z, unit_cl, vec_bounded, Vec3,
};
use vstd::prelude::*;

verus! {

/// What a scatter call needs of a hit record: a point inside the geometry
/// range and a unit-scale normal.
pub open spec fn rec_ok(rec: HitRecord) -> bool {
    &&& vec_bounded(rec.p, GEOM_MAX as int)
    &&& vec_bounded(rec.normal, 0x20000)
}

pub struct Lambertian {
    pub albedo: Texture,
}

pub struct Metal {
    pub albedo: Color,
    pub fuzz: i64,
}

pub struct Dielectric {
    pub index_of_refraction: i64,
}

pub struct DiffuseLight {
    pub tex: Texture,
}

/// The polymorphic material capability, as a sum type.
pub enum Material {
    Lambertian(Lambertian),
    Metal(Metal),
    Dielectric(Dielectric),
    DiffuseLight(DiffuseLight),
}

pub open spec fn material_wf(m: Material) -> bool {
    match m {
        Material::Lambertian(l) => texture_wf(l.albedo),
        Material::Metal(mt) => color_wf(mt.albedo) && 0 <= mt.fuzz <= 65536,
        Material::Dielectric(d) => 16384 <= d.index_of_refraction <= 0x40000,
        Material::DiffuseLight(dl) => texture_wf(dl.tex),
    }
}

/// The radiance a material emits at a hit: its texture for a light, black
/// for everything else.
pub open spec fn emitted_of(m: Material, u: int, v: int, p: crate::vec3::Point3) -> Color {
    match m {
        Material::DiffuseLight(dl) => texture_value(dl.tex, u, v, p),
        _ => Color { r: 0, g: 0, b: 0 },
    }
}

/// The attenuation a successful scatter reports: the albedo texture for a
/// diffuse surface, the metal's albedo, white for glass (lights never
/// scatter, so their entry is unused).
pub open spec fn scatter_att(m: Material, u: int, v: int, p: crate::vec3::Point3) -> Color {
    match m {
        Material::Lambertian(l) => texture_value(l.albedo, u, v, p),
        Material::Metal(mt) => mt.albedo,
        Material::Dielectric(_) => Color { r: 65536, g: 65536, b: 65536 },
        Material::DiffuseLight(_) => Color { r: 0, g: 0, b: 0 },
    }
}

/// The floored mirror reflection of the clamped unit incoming direction
/// about the hit normal (the deterministic part of metal and glass bounces).
pub open spec fn mirror_of(dir: Vec3, normal: Vec3) -> Vec3 {
    Vec3 {
        x: reflect_x(unit_cl(dir), normal) as i64,
        y: reflect_y(unit_cl(dir), normal) as i64,
        z: reflect_z(unit_cl(dir), normal) as i64,
    }
}

/// Schlick's reflectance approximation on the grid.
pub open spec fn schlick(cosine: int, ref_idx: int) -> int {
    let a = fx_div(65536 - ref_idx, 65536 + ref_idx);
    let r0 = fx_mul(a, a);
    let omc = 65536 - cosine;
    let p5 = floor_div(omc * omc * omc * omc * omc, 0x10000000000000000);
    r0 + fx_mul(65536 - r0, p5)
}

/// The grid condition for total internal reflection: the sine scaled by the
/// refraction ratio exceeds one, so refraction is impossible and the sample
/// is not consulted.
pub open spec fn dielectric_tir(dir: Vec3, normal: Vec3, ratio: int) -> bool {
    let ud = unit_cl(dir);
    let c0 = floor_div(-crate::vec3::dot_raw(ud, normal), 65536);
    let c = if c0 > 65536 {
        65536
    } else if c0 < -65536 {
        -65536
    } else {
        c0
    };
    let c2 = fx_mul(c, c);
    let s2 = if 65536 - c2 >= 0 {
        65536 - c2
    } else {
        0
    };
    fx_mul(ratio, crate::fixed::fx_sqrt(s2)) > 65536
}

/// The refraction ratio a dielectric uses at a hit.
pub open spec fn refraction_ratio(ior: int, front_face: bool) -> int {
    if front_face {
        fx_div(65536, ior)
    } else {
        ior
    }
}

impl Lambertian {
    pub fn new(albedo: Texture) -> (m: Lambertian)
        ensures
            m.albedo == albedo,
    {
        Lambertian { albedo }
    }

    pub fn new_with_color(albedo: Color) -> (m: Lambertian)
        ensures
            m.albedo == Texture::Solid(SolidColor { color: albedo }),
    {
        Lambertian { albedo: Texture::Solid(SolidColor { color: albedo }) }
    }

    /// Diffuse scatter: the normal plus a random unit direction, with the
    /// normal itself as a fallback for a degenerate sum; always succeeds.
    pub fn scatter(&self, r_in: &Ray, rec: &HitRecord, rng: &mut Rng) -> (res: Option<
        (Color, Ray),
    >)
        requires
            texture_wf(self.albedo),
            rec_ok(*rec),
        ensures
            res is Some,
            ({
                let (att, sc) = res->Some_0;
                &&& att == texture_value(self.albedo, rec.u as int, rec.v as int, rec.p)
                &&& color_wf(att)
                &&& sc.origin == rec.p
                &&& sc.time == r_in.time
                &&& vec_bounded(sc.direction, 0x100000)
                &&& exists|g: Vec3|
                    vec_bounded(g, 0x40000) && sc.direction == (if rec.normal.x + g.x == 0
                        && rec.normal.y + g.y == 0 && rec.normal.z + g.z == 0 {
                        rec.normal
                    } else {
                        Vec3 {
                            x: (rec.normal.x + g.x) as i64,
                            y: (rec.normal.y + g.y) as i64,
                            z: (rec.normal.z + g.z) as i64,
                        }
                    })
            }),
    {
        let g = Vec3::random_unit_vector(rng);
        let sum = rec.normal.plus(&g);
        let dir = if sum.near_zero() {
            rec.normal
        } else {
            sum
        };
        let att = self.albedo.value(rec.u, rec.v, &rec.p);
        let sc = Ray { origin: rec.p, direction: dir, time: r_in.time };
        proof {
            assert(vec_bounded(g, 0x40000) && sc.direction == (if rec.normal.x + g.x == 0
                && rec.normal.y + g.y == 0 && rec.normal.z + g.z == 0 {
                rec.normal
            } else {
                Vec3 {
                    x: (rec.normal.x + g.x) as i64,
                    y: (rec.normal.y + g.y) as i64,
                    z: (rec.normal.z + g.z) as i64,
                }
            }));
        }
        Some((att, sc))
    }
}

impl Metal {
    pub fn new(albedo: Color, fuzz: i64) -> (m: Metal)
        requires
            0 <= fuzz <= 65536,
        ensures
            m.albedo == albedo,
            m.fuzz == fuzz,
    {
        Metal { albedo, fuzz }
    }

    /// Mirror scatter with fuzz: reflect the unit incoming direction, then
    /// perturb by a fuzzed random unit vector; absorbed when the result
    /// points into the surface.
    pub fn scatter(&self, r_in: &Ray, rec: &HitRecord, rng: &mut Rng) -> (res: Option<
        (Color, Ray),
    >)
        requires
            0 <= self.fuzz <= 65536,
            rec_ok(*rec),
            vec_bounded(r_in.direction, GEOM_MAX as int),
        ensures
            res is Some ==> ({
                let (att, sc) = res->Some_0;
                &&& att == self.albedo
                &&& sc.origin == rec.p
                &&& sc.time == r_in.time
                &&& vec_bounded(sc.direction, 0x1000000)
                &&& fx_dot(sc.direction, rec.normal) > 0
                &&& exists|g: Vec3|
                    vec_bounded(g, 0x40000) && sc.direction == ({
                        let ud = unit_cl(r_in.direction);
                        Vec3 {
                            x: (reflect_x(ud, rec.normal) + fx_mul(self.fuzz as int, g.x as int)) as i64,
                            y: (reflect_y(ud, rec.normal) + fx_mul(self.fuzz as int, g.y as int)) as i64,
                            z: (reflect_z(ud, rec.normal) + fx_mul(self.fuzz as int, g.z as int)) as i64,
                        }
                    })
            }),
            self.fuzz == 0 && crate::vec3::fx_len(r_in.direction) >= 1 && fx_dot(
                mirror_of(r_in.direction, rec.normal),
                rec.normal,
            ) > 0 ==> res is Some,
            res is None ==> crate::vec3::fx_len(r_in.direction) < 1 || exists|g: Vec3|
                vec_bounded(g, 0x40000) && fx_dot(
                    Vec3 {
                        x: (reflect_x(unit_cl(r_in.direction), rec.normal) + fx_mul(
                            self.fuzz as int,
                            g.x as int,
                        )) as i64,
                        y: (reflect_y(unit_cl(r_in.direction), rec.normal) + fx_mul(
                            self.fuzz as int,
                            g.y as int,
                        )) as i64,
                        z: (reflect_z(unit_cl(r_in.direction), rec.normal) + fx_mul(
                            self.fuzz as int,
                            g.z as int,
                        )) as i64,
                    },
                    rec.normal,
                ) <= 0,
    {
        let dl = r_in.direction.length();
        if dl < 1 {
            return None;
        }
        let ud = r_in.direction.unit_clamped();
        let refl = ud.reflected(&rec.normal);
        let g = Vec3::random_unit_vector(rng);
        proof {
            lemma_prod_bound(self.fuzz as int, g.x as int, 65536, 0x40000);
            lemma_prod_bound(self.fuzz as int, g.y as int, 65536, 0x40000);
            lemma_prod_bound(self.fuzz as int, g.z as int, 65536, 0x40000);
            lemma_floor_div_fund(self.fuzz as int * g.x, 65536);
            lemma_floor_div_fund(self.fuzz as int * g.y, 65536);
            lemma_floor_div_fund(self.fuzz as int * g.z, 65536);
        }
        let fz = g.scaled(self.fuzz);
        let dir = Vec3 { x: refl.x + fz.x, y: refl.y + fz.y, z: refl.z + fz.z };
        let d = dir.dot(&rec.normal);
        proof {
            assert(refl == mirror_of(r_in.direction, rec.normal));
            if self.fuzz == 0 {
                assert(fx_mul(0, g.x as int) == 0);
                assert(fx_mul(0, g.y as int) == 0);
                assert(fx_mul(0, g.z as int) == 0);
                assert(dir == mirror_of(r_in.direction, rec.normal));
            }
        }
        if d > 0 {
            let sc = Ray { origin: rec.p, direction: dir, time: r_in.time };
            proof {
                assert(fz.x == fx_mul(self.fuzz as int, g.x as int));
            }
            Some((self.albedo, sc))
        } else {
            proof {
                assert(vec_bounded(g, 0x40000) && fx_dot(
                    Vec3 {
                        x: (reflect_x(unit_cl(r_in.direction), rec.normal) + fx_mul(
                            self.fuzz as int,
                            g.x as int,
                        )) as i64,
                        y: (reflect_y(unit_cl(r_in.direction), rec.normal) + fx_mul(
                            self.fuzz as int,
                            g.y as int,
                        )) as i64,
                        z: (reflect_z(unit_cl(r_in.direction), rec.normal) + fx_mul(
                            self.fuzz as int,
                            g.z as int,
                        )) as i64,
                    },
                    rec.normal,
                ) <= 0);
            }
            None
        }
    }
}

/// Schlick's reflectance approximation.
pub fn reflectance(cosine: i64, ref_idx: i64) -> (r: i64)
    requires
        -65536 <= cosine <= 65536,
        0 <= ref_idx <= 0x40000,
    ensures
        r == schlick(cosine as int, ref_idx as int),
{
    proof {
        lemma_floor_div_bound((65536 - ref_idx) * 65536, (65536 + ref_idx) as int, 0x300000000);
        lemma_floor_div_fund((65536 - ref_idx) * 65536, (65536 + ref_idx) as int);
    }
    let a = div_fx(65536 - ref_idx, 65536 + ref_idx);
    proof {
        let ai = a as int;
        let b = (65536 + ref_idx) as int;
        let num = (65536 - ref_idx) * 65536;
        assert(-0x40000 <= ai <= 0x40000) by (nonlinear_arith)
            requires
                b * ai <= num < b * (ai + 1),
                b >= 65536,
                -0x400000000 <= num <= 0x400000000,
        ;
        lemma_prod_bound(ai, ai, 0x40000, 0x40000);
        lemma_floor_div_fund(ai * ai, 65536);
    }
    let r0 = mul_fx(a, a);
    let omc: i64 = 65536 - cosine;
    proof {
        let oi = omc as int;
        assert(0 <= oi * oi <= 0x400000000 && 0 <= oi * oi * oi <= 0x8000000000000 && 0 <= oi * oi
            * oi * oi <= 0x100000000000000000 && 0 <= oi * oi * oi * oi * oi
            <= 0x2000000000000000000000) by (nonlinear_arith)
            requires
                0 <= oi <= 0x20000,
        ;
        lemma_floor_div_fund(oi * oi * oi * oi * oi, 0x10000000000000000);
        lemma_prod_bound(
            65536 - r0 as int,
            floor_div(oi * oi * oi * oi * oi, 0x10000000000000000),
            0x200000,
            0x200000,
        );
        lemma_floor_div_fund(
            (65536 - r0 as int) * floor_div(oi * oi * oi * oi * oi, 0x10000000000000000),
            65536,
        );
    }
    let o128 = omc as i128;
    let p5 = crate::fixed::floor_div_i128(
        o128 * o128 * o128 * o128 * o128,
        0x10000000000000000,
    ) as i64;
    r0 + mul_fx(65536 - r0, p5)
}

impl Dielectric {
    /// The admissible index range (one quarter to four) is a machine bound
    /// of the grid refraction arithmetic.
    pub fn new(index_of_refraction: i64) -> (m: Dielectric)
        requires
            16384 <= index_of_refraction <= 0x40000,
        ensures
            m.index_of_refraction == index_of_refraction,
    {
        Dielectric { index_of_refraction }
    }

    /// Glass scatter: never absorbs; reflects on total internal reflection
    /// or with Schlick probability, refracts otherwise.
    pub fn scatter(&self, r_in: &Ray, rec: &HitRecord, rng: &mut Rng) -> (res: Option<
        (Color, Ray),
    >)
        requires
            16384 <= self.index_of_refraction <= 0x40000,
            rec_ok(*rec),
            vec_bounded(r_in.direction, GEOM_MAX as int),
        ensures
            crate::vec3::fx_len(r_in.direction) >= 1 ==> res is Some,
            res is Some && dielectric_tir(
                r_in.direction,
                rec.normal,
                refraction_ratio(self.index_of_refraction as int, rec.front_face),
            ) ==> res->Some_0.1.direction == mirror_of(r_in.direction, rec.normal),
            res is Some ==> ({
                let (att, sc) = res->Some_0;
                let ud = unit_cl(r_in.direction);
                let ratio = refraction_ratio(self.index_of_refraction as int, rec.front_face);
                &&& att == (Color { r: 65536, g: 65536, b: 65536 })
                &&& sc.origin == rec.p
                &&& sc.time == r_in.time
                &&& vec_bounded(sc.direction, 0x2000000)
                &&& (sc.direction == (Vec3 {
                    x: reflect_x(ud, rec.normal) as i64,
                    y: reflect_y(ud, rec.normal) as i64,
                    z: reflect_z(ud, rec.normal) as i64,
                }) || sc.direction == (Vec3 {
                    x: fx_refract(ud, rec.normal, ratio).0 as i64,
                    y: fx_refract(ud, rec.normal, ratio).1 as i64,
                    z: fx_refract(ud, rec.normal, ratio).2 as i64,
                }))
            }),
    {
        let dl = r_in.direction.length();
        if dl < 1 {
            return None;
        }
        let ratio: i64 = if rec.front_face {
            proof {
                lemma_floor_div_bound((65536 * 65536) as int, self.index_of_refraction as int, 0x100000000);
            }
            div_fx(65536, self.index_of_refraction)
        } else {
            self.index_of_refraction
        };
        proof {
            crate::fixed::lemma_floor_div_fund(
                (65536 * 65536) as int,
                self.index_of_refraction as int,
            );
            if rec.front_face {
                let q = fx_div(65536, self.index_of_refraction as int);
                let b = self.index_of_refraction as int;
                assert(0 <= q <= 0x40000) by (nonlinear_arith)
                    requires
                        b * q <= 0x100000000 < b * (q + 1),
                        16384 <= b <= 0x40000,
                ;
            }
            assert(0 <= ratio as int <= 0x40000);
        }
        let ud = r_in.direction.unit_clamped();
        proof {
            crate::vec3::lemma_dot_raw_bound(ud, rec.normal, 0x20000);
            lemma_floor_div_fund(-crate::vec3::dot_raw(ud, rec.normal), 65536);
        }
        let mud = ud.neg();
        let ct0 = mud.dot(&rec.normal);
        let cos_theta: i64 = if ct0 > 65536 {
            65536
        } else if ct0 < -65536 {
            -65536
        } else {
            ct0
        };
        proof {
            lemma_prod_bound(cos_theta as int, cos_theta as int, 0x10000, 0x10000);
            assert((cos_theta as int) * (cos_theta as int) >= 0) by (nonlinear_arith);
            lemma_floor_div_fund(cos_theta as int * cos_theta as int, 65536);
        }
        let c2 = mul_fx(cos_theta, cos_theta);
        let s2: i64 = if 65536 - c2 >= 0 {
            65536 - c2
        } else {
            0
        };
        let sin_theta = crate::fixed::sqrt_fx(s2);
        proof {
            assert(sin_theta as int <= 0x10000) by (nonlinear_arith)
                requires
                    sin_theta as int >= 0,
                    (sin_theta as int) * (sin_theta as int) <= (s2 as int) * 65536,
                    0 <= s2 as int <= 65536,
            ;
            lemma_prod_bound(ratio as int, sin_theta as int, 0x40000, 0x10000);
            lemma_floor_div_fund(ratio as int * sin_theta as int, 65536);
        }
        let rs = mul_fx(ratio, sin_theta);
        let cannot_refract = rs > 65536;
        let sample = rng.unit_fx();
        let refl = reflectance(cos_theta, ratio);
        proof {
            assert((mud.x as int) * (rec.normal.x as int) == -((ud.x as int) * (
            rec.normal.x as int))) by (nonlinear_arith)
                requires
                    mud.x as int == -(ud.x as int),
            ;
            assert((mud.y as int) * (rec.normal.y as int) == -((ud.y as int) * (
            rec.normal.y as int))) by (nonlinear_arith)
                requires
                    mud.y as int == -(ud.y as int),
            ;
            assert((mud.z as int) * (rec.normal.z as int) == -((ud.z as int) * (
            rec.normal.z as int))) by (nonlinear_arith)
                requires
                    mud.z as int == -(ud.z as int),
            ;
            assert(crate::vec3::dot_raw(mud, rec.normal) == -crate::vec3::dot_raw(
                ud,
                rec.normal,
            ));
            assert(ct0 as int == floor_div(-crate::vec3::dot_raw(ud, rec.normal), 65536));
            assert(ratio as int == refraction_ratio(
                self.index_of_refraction as int,
                rec.front_face,
            ));
            assert(cannot_refract == dielectric_tir(
                r_in.direction,
                rec.normal,
                refraction_ratio(self.index_of_refraction as int, rec.front_face),
            ));
        }
        let dir = if cannot_refract || refl > sample {
            let dr = ud.reflected(&rec.normal);
            proof {
                assert(dr == mirror_of(r_in.direction, rec.normal));
            }
            dr
        } else {
            ud.refracted(&rec.normal, ratio)
        };
        let sc = Ray { origin: rec.p, direction: dir, time: r_in.time };
        Some(((Color { r: 65536, g: 65536, b: 65536 }), sc))
    }
}

impl DiffuseLight {
    pub fn new(tex: Texture) -> (m: DiffuseLight)
        ensures
            m.tex == tex,
    {
        DiffuseLight { tex }
    }

    pub fn from_color(emit: Color) -> (m: DiffuseLight)
        ensures
            m.tex == Texture::Solid(SolidColor { color: emit }),
    {
        DiffuseLight { tex: Texture::Solid(SolidColor { color: emit }) }
    }
}

impl Material {
    /// Dispatch a scatter query; lights never scatter.
    pub fn scatter(&self, r_in: &Ray, rec: &HitRecord, rng: &mut Rng) -> (res: Option<
        (Color, Ray),
    >)
        requires
            material_wf(*self),
            rec_ok(*rec),
            vec_bounded(r_in.direction, GEOM_MAX as int),
        ensures
            res is Some ==> ({
                let (att, sc) = res->Some_0;
                &&& att == scatter_att(*self, rec.u as int, rec.v as int, rec.p)
                &&& color_wf(att) || (self is Metal && att == self->Metal_0.albedo)
                &&& sc.origin == rec.p
                &&& sc.time == r_in.time
                &&& vec_bounded(sc.direction, GEOM_MAX as int)
            }),
            self is DiffuseLight ==> res is None,
            self is Lambertian ==> res is Some,
    {
        match self {
            Material::Lambertian(l) => l.scatter(r_in, rec, rng),
            Material::Metal(m) => m.scatter(r_in, rec, rng),
            Material::Dielectric(d) => d.scatter(r_in, rec, rng),
            Material::DiffuseLight(_) => None,
        }
    }

    /// Emitted radiance; black for everything but lights.
    pub fn emitted(&self, u: i64, v: i64, p: &crate::vec3::Point3) -> (c: Color)
        requires
            material_wf(*self),
            vec_bounded(*p, 0x40000000),
        ensures
            c == emitted_of(*self, u as int, v as int, *p),
            color_wf(c),
    {
        match self {
            Material::DiffuseLight(dl) => dl.tex.value(u, v, p),
            _ => Color { r: 0, g: 0, b: 0 },
        }
    }
}

} // verus!
