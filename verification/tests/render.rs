//! End-to-end renders: image layout and light transport.

use raytrace::camera::{Camera, Scene, World};
use raytrace::color::Color;
use raytrace::fixed::ONE;
use raytrace::hittable::{BvhNode, HittableList, Quad, Sphere, Surface};
use raytrace::material::{DiffuseLight, Lambertian, Material};
use raytrace::rng::Rng;
use raytrace::vec3::Vec3;

fn v(x: i64, y: i64, z: i64) -> Vec3 {
    Vec3 { x, y, z }
}

/// A diffuse sphere in front of a large emissive quad, black background.
fn light_scene() -> Scene {
    let mut world = HittableList::new();
    world.add(Surface::Sphere(Sphere::new(v(0, 0, 0), ONE / 2, 0)));
    world.add(Surface::Quad(Quad::new(
        v(-3 * ONE, -3 * ONE, 2 * ONE),
        v(6 * ONE, 0, 0),
        v(0, 6 * ONE, 0),
        1,
    )));
    let materials = vec![
        Material::Lambertian(Lambertian::new_with_color(Color::new(
            ONE / 2,
            ONE / 2,
            ONE / 2,
        ))),
        Material::DiffuseLight(DiffuseLight::from_color(Color::new(
            4 * ONE,
            4 * ONE,
            4 * ONE,
        ))),
    ];
    Scene { world: World::List(world), materials }
}

fn small_camera() -> Camera {
    Camera::default()
        .image_width(20)
        .samples_per_pixel(2)
        .max_depth(4)
        .vfov(90 * ONE)
        .lookfrom(v(0, 0, -2 * ONE))
        .lookat(v(0, 0, 0))
        .vup(v(0, ONE, 0))
        .focus_dist(10 * ONE)
        .background(Color::new(0, 0, 0))
}

fn parse_ppm(bytes: &[u8]) -> (usize, usize, Vec<(u32, u32, u32)>) {
    let text = String::from_utf8(bytes.to_vec()).expect("ascii ppm");
    let mut lines = text.lines();
    assert_eq!(lines.next(), Some("P3"));
    let w: usize = lines.next().unwrap().parse().unwrap();
    let h: usize = lines.next().unwrap().parse().unwrap();
    assert_eq!(lines.next(), Some("255"));
    let mut pix = Vec::new();
    for line in lines {
        let mut it = line.split_whitespace();
        let r: u32 = it.next().unwrap().parse().unwrap();
        let g: u32 = it.next().unwrap().parse().unwrap();
        let b: u32 = it.next().unwrap().parse().unwrap();
        assert!(it.next().is_none());
        assert!(r <= 255 && g <= 255 && b <= 255);
        pix.push((r, g, b));
    }
    (w, h, pix)
}

#[test]
fn render_emits_a_wellformed_ppm() {
    let mut cam = small_camera();
    let scene = light_scene();
    let mut rng = Rng::seeded(42);
    let bytes = cam.render(&scene, &mut rng);
    let (w, h, pix) = parse_ppm(&bytes);
    assert_eq!(w, 20);
    assert_eq!(h, 20);
    assert_eq!(pix.len(), w * h);
}

#[test]
fn light_reaches_the_film_and_empty_space_stays_black() {
    let mut cam = small_camera();
    let scene = light_scene();
    let mut rng = Rng::seeded(42);
    let bytes = cam.render(&scene, &mut rng);
    let (w, h, pix) = parse_ppm(&bytes);
    // The corner rays leave the scene with no geometry and no light path:
    // exactly black.
    assert_eq!(pix[0], (0, 0, 0));
    assert_eq!(pix[w - 1], (0, 0, 0));
    assert_eq!(pix[(h - 1) * w], (0, 0, 0));
    assert_eq!(pix[h * w - 1], (0, 0, 0));
    // Rays that see the emissive quad report strictly positive values; the
    // quarter-width pixel on the middle row looks straight at it.
    let mid = (h / 2) * w + w / 4;
    let (r, g, b) = pix[mid];
    assert!(r > 0 && g > 0 && b > 0);
    // Something in the image is lit.
    assert!(pix.iter().any(|&(r, _, _)| r > 0));
}

#[test]
fn bvh_and_list_worlds_render_identically() {
    // The same geometry, once scanned linearly and once through the index.
    let list_scene = light_scene();
    let bvh_scene = {
        let s = light_scene();
        let mut build_rng = Rng::seeded(123);
        match s.world {
            World::List(l) => Scene {
                world: World::Bvh(BvhNode::from_hittable_list(l, &mut build_rng)),
                materials: s.materials,
            },
            w => Scene { world: w, materials: s.materials },
        }
    };
    let mut cam_a = small_camera();
    let mut rng_a = Rng::seeded(9);
    let a = cam_a.render(&list_scene, &mut rng_a);
    let mut cam_b = small_camera();
    let mut rng_b = Rng::seeded(9);
    let b = cam_b.render(&bvh_scene, &mut rng_b);
    assert_eq!(a, b);
}

#[test]
fn renders_are_reproducible_for_a_seed() {
    let scene = light_scene();
    let mut cam_a = small_camera();
    let mut rng_a = Rng::seeded(7);
    let a = cam_a.render(&scene, &mut rng_a);
    let mut cam_b = small_camera();
    let mut rng_b = Rng::seeded(7);
    let b = cam_b.render(&scene, &mut rng_b);
    assert_eq!(a, b);
}

#[test]
fn default_camera_configuration() {
    let c = Camera::default();
    assert_eq!(c.aspect_ratio, ONE);
    assert_eq!(c.image_width, 100);
    assert_eq!(c.samples_per_pixel, 10);
    assert_eq!(c.max_depth, 10);
    assert_eq!(c.vfov, 90 * ONE);
    assert_eq!(c.defocus_angle, 0);
    assert_eq!(c.focus_dist, 10 * ONE);
}
