//! Fixed-point primitives, vectors, intervals and boxes.

use raytrace::aabb::Aabb;
use raytrace::fixed::{div_fx, floor_div_i128, isqrt_u128, mul_fx, sqrt_fx, ONE};
use raytrace::interval::Interval;
use raytrace::ray::Ray;
use raytrace::trig::{sin_fx, tan_half_deg, HALF_PI_FX, PI_FX, TWO_PI_FX};
use raytrace::vec3::Vec3;

fn v(x: i64, y: i64, z: i64) -> Vec3 {
    Vec3 { x, y, z }
}

#[test]
fn floor_division_rounds_toward_negative_infinity() {
    assert_eq!(floor_div_i128(7, 2), 3);
    assert_eq!(floor_div_i128(-7, 2), -4);
    assert_eq!(floor_div_i128(7, -2), -4);
    assert_eq!(floor_div_i128(-7, -2), 3);
    assert_eq!(floor_div_i128(6, 3), 2);
    assert_eq!(floor_div_i128(-6, 3), -2);
}

#[test]
fn integer_square_root_brackets() {
    assert_eq!(isqrt_u128(0), 0);
    assert_eq!(isqrt_u128(1), 1);
    assert_eq!(isqrt_u128(15), 3);
    assert_eq!(isqrt_u128(16), 4);
    assert_eq!(isqrt_u128(1 << 34), 1 << 17);
}

#[test]
fn fixed_point_products_and_quotients() {
    // 1.5 * 2.0 == 3.0 on the grid.
    assert_eq!(mul_fx(98304, 131072), 196608);
    // 3.0 / 2.0 == 1.5.
    assert_eq!(div_fx(196608, 131072), 98304);
    // sqrt(4.0) == 2.0 and sqrt(0.25) == 0.5, exactly on the grid.
    assert_eq!(sqrt_fx(4 * ONE), 2 * ONE);
    assert_eq!(sqrt_fx(ONE / 4), ONE / 2);
}

#[test]
fn dot_cross_and_length() {
    let a = v(ONE, 0, 0);
    let b = v(0, ONE, 0);
    assert_eq!(a.dot(&b), 0);
    assert_eq!(a.dot(&a), ONE);
    let c = a.cross(&b);
    assert_eq!(c, v(0, 0, ONE));
    assert_eq!(v(3 * ONE, 4 * ONE, 0).length(), 5 * ONE);
}

#[test]
fn reflection_is_a_mirror_about_the_normal() {
    // Incoming (1, -1, 0) against the upward normal reflects to (1, 1, 0).
    let d = v(ONE, -ONE, 0);
    let n = v(0, ONE, 0);
    let r = d.reflected(&n);
    assert_eq!(r, v(ONE, ONE, 0));
    // Angle of incidence equals angle of reflection: the projections onto
    // the normal are opposite.
    assert_eq!(r.dot(&n), -d.dot(&n));
}

#[test]
fn interval_membership_and_clamp() {
    let i = Interval::new(0, 10 * ONE);
    assert!(i.contains(0) && i.contains(10 * ONE));
    assert!(!i.surrounds(0) && i.surrounds(ONE));
    assert_eq!(i.clamp(-5), 0);
    assert_eq!(i.clamp(11 * ONE), 10 * ONE);
    assert_eq!(i.clamp(3), 3);
    let d = Interval::default();
    let j = d.combined(i);
    assert_eq!((j.min, j.max), (0, 10 * ONE));
}

#[test]
fn aabb_union_contains_both_and_is_minimal() {
    let a = Aabb::from_points(v(0, 0, 0), v(ONE, ONE, ONE));
    let b = Aabb::from_points(v(-ONE, 2, -3), v(2 * ONE, 5, 7));
    let u = Aabb::from_boxes(a, b);
    // The union spans exactly the componentwise extremes.
    assert_eq!((u.x.min, u.x.max), (-ONE, 2 * ONE));
    assert_eq!((u.y.min, u.y.max), (0, ONE));
    assert_eq!((u.z.min, u.z.max), (-3, ONE));
    // Corner points of both operands are inside.
    for p in [v(0, 0, 0), v(ONE, ONE, ONE), v(-ONE, 2, -3), v(2 * ONE, 5, 7)] {
        assert!(u.x.contains(p.x) && u.y.contains(p.y) && u.z.contains(p.z));
    }
}

#[test]
fn slab_test_hits_and_misses() {
    let b = Aabb::from_points(v(-ONE, -ONE, -ONE), v(ONE, ONE, ONE));
    let hit_ray = Ray { origin: v(0, 0, -3 * ONE), direction: v(0, 0, ONE), time: 0 };
    let miss_ray = Ray { origin: v(0, 3 * ONE, -3 * ONE), direction: v(0, 0, ONE), time: 0 };
    let t = Interval::new(0, 100 * ONE);
    assert!(b.hit(&hit_ray, &t));
    assert!(!b.hit(&miss_ray, &t));
    // A ray parallel to the box, starting outside the slab, misses.
    let parallel = Ray { origin: v(0, 3 * ONE, 0), direction: v(ONE, 0, 0), time: 0 };
    assert!(!b.hit(&parallel, &t));
    // The box behind the ray is out of the search interval.
    let behind = Interval::new(5 * ONE, 100 * ONE);
    assert!(!b.hit(&hit_ray, &behind));
}

#[test]
fn sine_and_half_angle_tangent() {
    assert_eq!(sin_fx(0), 0);
    // sin(pi/2) is one, up to the polynomial's small truncation.
    assert!((sin_fx(HALF_PI_FX) - ONE).abs() < 64);
    // sin is 2-pi periodic on the grid by construction.
    assert_eq!(sin_fx(ONE), sin_fx(ONE + TWO_PI_FX));
    // sin(pi) is nearly zero and sin(-pi/2) nearly minus one.
    assert!(sin_fx(PI_FX).abs() < 8192);
    assert!((sin_fx(-HALF_PI_FX) + ONE).abs() < 64);
    // tan of half of ninety degrees is one, within the polynomial error.
    assert!((tan_half_deg(90 * ONE) - ONE).abs() < 1024);
}

#[test]
fn padding_fattens_thin_axes() {
    let flat = Aabb::from_points(v(0, 0, 0), v(ONE, ONE, 0));
    let p = flat.pad();
    assert!(p.z.max - p.z.min >= 8);
    assert_eq!((p.x.min, p.x.max), (0, ONE));
}
