//! Colors, materials, textures and noise.

use raytrace::color::Color;
use raytrace::fixed::ONE;
use raytrace::hit_record::HitRecord;
use raytrace::material::{reflectance, Dielectric, Lambertian, Material, Metal};
use raytrace::noise::{perlin_generate_perm, Perlin};
use raytrace::ray::Ray;
use raytrace::rng::Rng;
use raytrace::texture::{CheckerTexture, ImageTexture, SolidColor, Texture};
use raytrace::vec3::Vec3;

fn v(x: i64, y: i64, z: i64) -> Vec3 {
    Vec3 { x, y, z }
}

fn rec_at(p: Vec3, normal: Vec3, front_face: bool) -> HitRecord {
    HitRecord { p, normal, t: ONE, u: 0, v: 0, front_face, mat: 0 }
}

#[test]
fn channel_bytes_clamp_before_scaling() {
    // 1.5 clamps to just under one and quantises to 255.
    let c = Color::new(3 * ONE / 2, -(ONE / 5), 0);
    assert_eq!(c.r_as_u8(), 255);
    // -0.2 clamps to zero.
    assert_eq!(c.g_as_u8(), 0);
    assert_eq!(c.b_as_u8(), 0);
    // 0.5 lands at half brightness.
    assert_eq!(Color::new(ONE / 2, 0, 0).r_as_u8(), 128);
}

#[test]
fn gamma_is_a_square_root() {
    let c = Color::new(ONE / 4, ONE, 0).gamma();
    assert_eq!(c.r, ONE / 2);
    assert_eq!(c.g, ONE);
    assert_eq!(c.b, 0);
}

#[test]
fn color_arithmetic_saturates() {
    let a = Color::new(ONE, ONE / 2, 0);
    let b = Color::new(ONE / 2, ONE / 2, ONE);
    let s = a.plus(&b);
    assert_eq!((s.r, s.g, s.b), (3 * ONE / 2, ONE, ONE));
    let m = a.attenuate(&b);
    assert_eq!((m.r, m.g, m.b), (ONE / 2, ONE / 4, 0));
    let mut avg = Color::new(ONE, ONE, ONE);
    avg.sample_scale(4);
    assert_eq!((avg.r, avg.g, avg.b), (ONE / 4, ONE / 4, ONE / 4));
}

#[test]
fn metal_mirror_with_no_fuzz() {
    let m = Metal::new(Color::new(ONE, ONE, ONE), 0);
    let mut rng = Rng::seeded(5);
    let n = v(0, ONE, 0);
    let rec = rec_at(v(0, 0, 0), n, true);
    let r_in = Ray { origin: v(0, 2 * ONE, 0), direction: v(0, -2 * ONE, 0), time: 0 };
    let (att, sc) = m.scatter(&r_in, &rec, &mut rng).expect("mirror reflects");
    assert_eq!((att.r, att.g, att.b), (ONE, ONE, ONE));
    // Angle in equals angle out: the unit incoming direction flips its
    // normal component exactly.
    assert_eq!(sc.direction, v(0, ONE, 0));
    assert_eq!(sc.direction.dot(&n), ONE);
}

#[test]
fn metal_absorbs_grazing_results() {
    let m = Metal::new(Color::new(ONE, ONE, ONE), 0);
    let mut rng = Rng::seeded(5);
    let n = v(0, ONE, 0);
    // A ray leaving along the surface reflects onto it: absorbed.
    let rec = rec_at(v(0, 0, 0), n, false);
    let r_in = Ray { origin: v(0, 2 * ONE, 0), direction: v(0, 2 * ONE, 0), time: 0 };
    let res = m.scatter(&r_in, &rec, &mut rng);
    assert!(res.is_none() || res.unwrap().1.direction.dot(&n) > 0);
}

#[test]
fn dielectric_with_unit_index_passes_straight_through() {
    let d = Dielectric::new(ONE);
    let mut rng = Rng::seeded(1);
    let n = v(0, 0, -ONE);
    let rec = rec_at(v(0, 0, 0), n, true);
    let r_in = Ray { origin: v(0, 0, -2 * ONE), direction: v(0, 0, 2 * ONE), time: 0 };
    let (att, sc) = d.scatter(&r_in, &rec, &mut rng).expect("glass always scatters");
    assert_eq!((att.r, att.g, att.b), (ONE, ONE, ONE));
    // Refraction at ratio one is the identity on the unit direction.
    assert_eq!(sc.direction, v(0, 0, ONE));
}

#[test]
fn total_internal_reflection_is_a_mirror() {
    // Leaving dense glass at grazing incidence: refraction is impossible
    // and the ray must reflect, whatever the Schlick sample says.
    let d = Dielectric::new(4 * ONE);
    let mut rng = Rng::seeded(17);
    let n = v(0, ONE, 0);
    let rec = rec_at(v(0, 0, 0), n, false);
    let r_in = Ray { origin: v(-2 * ONE, 0, 0), direction: v(2 * ONE, 0, 0), time: 0 };
    let (_, sc) = d.scatter(&r_in, &rec, &mut rng).expect("glass always scatters");
    assert_eq!(sc.direction, v(ONE, 0, 0));
}

#[test]
fn dielectric_accepts_sub_unit_indices() {
    // An exit interface into a denser medium has a ratio below one.
    let d = Dielectric::new(ONE / 2);
    let mut rng = Rng::seeded(2);
    let n = v(0, 0, -ONE);
    let rec = rec_at(v(0, 0, 0), n, true);
    let r_in = Ray { origin: v(0, 0, -2 * ONE), direction: v(0, 0, 2 * ONE), time: 0 };
    assert!(d.scatter(&r_in, &rec, &mut rng).is_some());
}

#[test]
fn schlick_vanishes_at_head_on_unit_index() {
    assert_eq!(reflectance(ONE, ONE), 0);
    // At grazing incidence the reflectance approaches one.
    let r = reflectance(0, 3 * ONE / 2);
    assert!(r > ONE / 2);
}

#[test]
fn lambertian_uses_its_texture() {
    let albedo = Color::new(ONE / 2, ONE / 4, ONE / 8);
    let l = Lambertian::new_with_color(albedo);
    let mut rng = Rng::seeded(3);
    let rec = rec_at(v(0, 0, 0), v(0, ONE, 0), true);
    let r_in = Ray { origin: v(0, ONE, 0), direction: v(0, -ONE, 0), time: 42 };
    let (att, sc) = l.scatter(&r_in, &rec, &mut rng).expect("diffuse always scatters");
    assert_eq!((att.r, att.g, att.b), (albedo.r, albedo.g, albedo.b));
    assert_eq!(sc.origin, rec.p);
    assert_eq!(sc.time, 42);
}

#[test]
fn emitted_is_black_except_for_lights() {
    let lamp = Material::DiffuseLight(raytrace::material::DiffuseLight::from_color(Color::new(
        4 * ONE,
        4 * ONE,
        4 * ONE,
    )));
    let e = lamp.emitted(0, 0, &v(0, 0, 0));
    assert_eq!((e.r, e.g, e.b), (4 * ONE, 4 * ONE, 4 * ONE));
    let plain = Material::Lambertian(Lambertian::new_with_color(Color::new(ONE, 0, 0)));
    let b = plain.emitted(0, 0, &v(0, 0, 0));
    assert_eq!((b.r, b.g, b.b), (0, 0, 0));
}

#[test]
fn checker_alternates_with_parity() {
    let red = Color::new(ONE, 0, 0);
    let blue = Color::new(0, 0, ONE);
    let ck = Texture::Checker(CheckerTexture::new_with_colours(ONE, red, blue));
    let even = ck.value(0, 0, &v(ONE / 2, ONE / 2, ONE / 2));
    let odd = ck.value(0, 0, &v(3 * ONE / 2, ONE / 2, ONE / 2));
    assert_eq!((even.r, even.b), (ONE, 0));
    assert_eq!((odd.r, odd.b), (0, ONE));
    // Negative coordinates keep alternating rather than mirroring.
    let neg = ck.value(0, 0, &v(-ONE / 2, ONE / 2, ONE / 2));
    assert_eq!((neg.r, neg.b), (0, ONE));
}

#[test]
fn image_texture_looks_up_texels_and_degrades_to_cyan() {
    // A 2x1 bitmap: a red texel then a green one.
    let tex = Texture::Image(ImageTexture::new(2, 1, vec![255, 0, 0, 0, 255, 0]));
    let left = tex.value(0, 0, &v(0, 0, 0));
    let right = tex.value(ONE, 0, &v(0, 0, 0));
    assert_eq!((left.r, left.g), (ONE, 0));
    assert_eq!((right.r, right.g), (0, ONE));
    // No bitmap: the fixed debug cyan.
    let missing = Texture::Image(ImageTexture::new(0, 0, vec![]));
    let c = missing.value(0, 0, &v(0, 0, 0));
    assert_eq!((c.r, c.g, c.b), (0, ONE, ONE));
}

#[test]
fn solid_color_ignores_its_inputs() {
    let t = Texture::Solid(SolidColor::from_rgb(1, 2, 3));
    let a = t.value(0, 0, &v(0, 0, 0));
    let b = t.value(ONE, ONE / 2, &v(9 * ONE, -ONE, 5));
    assert_eq!((a.r, a.g, a.b), (1, 2, 3));
    assert_eq!((b.r, b.g, b.b), (1, 2, 3));
}

#[test]
fn permutation_tables_hold_every_index_once() {
    let mut rng = Rng::seeded(99);
    let p = perlin_generate_perm(&mut rng);
    assert_eq!(p.len(), 256);
    let mut seen = [false; 256];
    for &b in p.iter() {
        assert!(!seen[b as usize]);
        seen[b as usize] = true;
    }
    assert!(seen.iter().all(|&s| s));
}

#[test]
fn noise_is_deterministic_for_a_seed_and_turbulence_is_nonnegative() {
    let mut rng_a = Rng::seeded(7);
    let mut rng_b = Rng::seeded(7);
    let pa = Perlin::new(&mut rng_a);
    let pb = Perlin::new(&mut rng_b);
    let p = v(3 * ONE / 2, ONE / 3, 7 * ONE / 5);
    assert_eq!(pa.noise(&p), pb.noise(&p));
    assert!(pa.turb(&p) >= 0);
    assert_eq!(pa.turb(&p), pb.turb(&p));
    // Single-octave noise stays within three in magnitude.
    for k in -4i64..5 {
        let q = v(k * ONE / 3, k * ONE / 7, -k * ONE / 5);
        assert!(pa.noise(&q).abs() <= 3 * ONE);
    }
}
