//! Sphere and quad intersections, the flat list, and the spatial index.

use raytrace::fixed::ONE;
use raytrace::hittable::bvh::BvhNode;
use raytrace::hittable::{HittableList, Quad, Sphere, Surface};
use raytrace::interval::Interval;
use raytrace::ray::{Ray, T_MAX};
use raytrace::rng::Rng;
use raytrace::vec3::Vec3;

fn v(x: i64, y: i64, z: i64) -> Vec3 {
    Vec3 { x, y, z }
}

fn search() -> Interval {
    Interval::new(66, T_MAX)
}

#[test]
fn sphere_hit_from_outside_is_front_face_at_distance_r() {
    let s = Sphere::new(v(0, 0, 0), ONE, 0);
    let r = Ray { origin: v(0, 0, -3 * ONE), direction: v(0, 0, ONE), time: 0 };
    let rec = s.hit(&r, &search()).expect("must hit");
    assert!(rec.front_face);
    assert_eq!(rec.t, 2 * ONE);
    assert_eq!(rec.p, v(0, 0, -ONE));
    // The hit point is at distance r from the center.
    assert_eq!(rec.p.length(), ONE);
    assert_eq!(rec.normal, v(0, 0, -ONE));
}

#[test]
fn sphere_hit_from_inside_is_back_face_at_exit() {
    let s = Sphere::new(v(0, 0, 0), ONE, 0);
    let r = Ray { origin: v(0, 0, 0), direction: v(0, 0, ONE), time: 0 };
    let rec = s.hit(&r, &search()).expect("must hit");
    assert!(!rec.front_face);
    assert_eq!(rec.t, ONE);
    assert_eq!(rec.p, v(0, 0, ONE));
    // The stored normal opposes the ray even on the inside.
    assert_eq!(rec.normal, v(0, 0, -ONE));
}

#[test]
fn sphere_miss_and_behind() {
    let s = Sphere::new(v(0, 0, 0), ONE, 0);
    let miss = Ray { origin: v(0, 3 * ONE, -3 * ONE), direction: v(0, 0, ONE), time: 0 };
    assert!(s.hit(&miss, &search()).is_none());
    let away = Ray { origin: v(0, 0, 3 * ONE), direction: v(0, 0, ONE), time: 0 };
    assert!(s.hit(&away, &search()).is_none());
}

#[test]
fn moving_sphere_follows_its_center() {
    let s = Sphere::new_moving(v(0, 0, 0), v(2 * ONE, 0, 0), ONE / 2, 0);
    // At time zero the sphere sits at the origin...
    let r0 = Ray { origin: v(0, 0, -3 * ONE), direction: v(0, 0, ONE), time: 0 };
    assert!(s.hit(&r0, &search()).is_some());
    // ...and at time one it has moved two units along x.
    let r1 = Ray { origin: v(0, 0, -3 * ONE), direction: v(0, 0, ONE), time: ONE };
    assert!(s.hit(&r1, &search()).is_none());
    let r2 = Ray { origin: v(2 * ONE, 0, -3 * ONE), direction: v(0, 0, ONE), time: ONE };
    assert!(s.hit(&r2, &search()).is_some());
}

#[test]
fn quad_interior_maps_to_half_half() {
    let q = Quad::new(v(0, 0, 0), v(ONE, 0, 0), v(0, ONE, 0), 0);
    let r = Ray { origin: v(ONE / 2, ONE / 2, -ONE), direction: v(0, 0, ONE), time: 0 };
    let rec = q.hit(&r, &search()).expect("interior point must hit");
    assert_eq!(rec.u, ONE / 2);
    assert_eq!(rec.v, ONE / 2);
    assert_eq!(rec.t, ONE);
    assert_eq!(rec.p, v(ONE / 2, ONE / 2, 0));
}

#[test]
fn quad_exterior_point_misses() {
    let q = Quad::new(v(0, 0, 0), v(ONE, 0, 0), v(0, ONE, 0), 0);
    // Aim at q + 1.01 u: alpha exceeds one, so the plane hit is rejected.
    let x = ONE + ONE / 100 + 1;
    let r = Ray { origin: v(x, 0, -ONE), direction: v(0, 0, ONE), time: 0 };
    assert!(q.hit(&r, &search()).is_none());
    // A ray parallel to the plane is rejected outright.
    let par = Ray { origin: v(0, 0, -ONE), direction: v(ONE, 0, 0), time: 0 };
    assert!(q.hit(&par, &search()).is_none());
}

#[test]
fn list_returns_the_closest_hit() {
    let mut list = HittableList::new();
    list.add(Surface::Sphere(Sphere::new(v(0, 0, 2 * ONE), ONE / 2, 7)));
    list.add(Surface::Sphere(Sphere::new(v(0, 0, 5 * ONE), ONE / 2, 9)));
    let r = Ray { origin: v(0, 0, -ONE), direction: v(0, 0, ONE), time: 0 };
    let rec = list.hit(&r, &search()).expect("must hit");
    assert_eq!(rec.mat, 7);
    assert_eq!(rec.t, 5 * ONE / 2);
}

#[test]
fn bvh_build_over_a_subrange() {
    let mut rng = Rng::seeded(3);
    let spheres = vec![
        Surface::Sphere(Sphere::new(v(0, 0, 3 * ONE), ONE / 2, 0)),
        Surface::Sphere(Sphere::new(v(2 * ONE, 0, 5 * ONE), ONE / 2, 1)),
        Surface::Sphere(Sphere::new(v(-2 * ONE, 0, 4 * ONE), ONE / 2, 2)),
        Surface::Sphere(Sphere::new(v(0, 2 * ONE, 6 * ONE), ONE / 2, 3)),
    ];
    // Index only the middle two surfaces.
    let bvh = BvhNode::new(spheres, 1, 3, &mut rng);
    let at_first = Ray { origin: v(0, 0, -ONE), direction: v(0, 0, ONE), time: 0 };
    assert!(bvh.hit(&at_first, &search()).is_none());
    let at_second = Ray { origin: v(2 * ONE, 0, -ONE), direction: v(0, 0, ONE), time: 0 };
    assert_eq!(bvh.hit(&at_second, &search()).unwrap().mat, 1);
}

#[test]
fn bvh_agrees_with_the_linear_scan() {
    let mut rng_build = Rng::seeded(11);
    let mut list = HittableList::new();
    let centers = [
        (0, 0, 3 * ONE),
        (2 * ONE, 0, 5 * ONE),
        (-2 * ONE, ONE, 4 * ONE),
        (0, -2 * ONE, 6 * ONE),
        (ONE, ONE, 8 * ONE),
        (-ONE, -ONE, 2 * ONE),
        (3 * ONE, 3 * ONE, 7 * ONE),
    ];
    for (k, c) in centers.iter().enumerate() {
        list.add(Surface::Sphere(Sphere::new(v(c.0, c.1, c.2), ONE / 2, k)));
    }
    let bvh = BvhNode::from_hittable_list(list.clone(), &mut rng_build);
    for ix in -4i64..5 {
        for iy in -4i64..5 {
            let dir = v(ix * ONE / 4, iy * ONE / 4, ONE);
            let r = Ray { origin: v(0, 0, -ONE), direction: dir, time: 0 };
            let a = list.hit(&r, &search());
            let b = bvh.hit(&r, &search());
            assert_eq!(a, b);
        }
    }
}
