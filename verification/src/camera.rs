//! The camera and the path-tracing integrator.
//!
//! The camera derives its viewport from the configuration once per render;
//! each sample jitters a pixel center (and, with a positive defocus angle,
//! an aperture disk) to build a ray, and the integrator follows it through
//! the scene up to a fixed recursion depth, gathering emission and
//! attenuated scattered light.  The output is the byte image in plain PPM.

use crate::color::{color_wf, sat_add, sat_mul, Color};
use crate::fixed::{floor_div, floor_div_i128, lemma_floor_div_fund, lemma_i64_prod_fits};
use crate::hit_record::HitRecord;
use crate::hittable::bvh::{bvh_surfaces, bvh_wf, BvhNode};
use crate::hittable::hittable_list::{list_wf, scan_hit, HittableList};
use crate::hittable::{hit_in_range, Surface};
use crate::interval::Interval;
use crate::material::{emitted_of, material_wf, scatter_att, Material};
use crate::ray::{ray_bounded, Ray, T_MAX};
use crate::rng::Rng;
use crate::trig::fx_tan_half;
use crate::vec3::{
    cross_x, cross_y, cross_z, unit_cl, vec_bounded, Point3, Vec3,
};
use vstd::prelude::*;

verus! {

/// The ray parameter below which intersections are ignored (about 0.001).
pub const T_EPS: i64 = 66;

/// The root traceable surface of a scene: a flat list or a spatial index.
pub enum World {
    List(HittableList),
    Bvh(BvhNode),
}

pub open spec fn world_wf(w: World) -> bool {
    match w {
        World::List(l) => list_wf(l),
        World::Bvh(b) => bvh_wf(b),
    }
}

/// The surfaces a world holds, in its scan order.
pub open spec fn world_surfaces(w: World) -> Seq<Surface> {
    match w {
        World::List(l) => l.objects@,
        World::Bvh(b) => bvh_surfaces(b),
    }
}

impl World {
    /// The closest hit in the world over the search interval.
    pub fn hit(&self, r: &Ray, ray_t: &Interval) -> (res: Option<HitRecord>)
        requires
            world_wf(*self),
            ray_bounded(*r),
            0 <= r.time <= 65536,
            0 <= ray_t.min <= ray_t.max,
            ray_t.max <= T_MAX,
        ensures
            res == scan_hit(world_surfaces(*self), *r, ray_t.min as int, ray_t.max as int),
            res is Some ==> hit_in_range(res->Some_0, ray_t.min as int, ray_t.max as int),
    {
        match self {
            World::List(l) => l.hit(r, ray_t),
            World::Bvh(b) => b.hit(r, ray_t),
        }
    }
}

/// A scene: the root world plus the arena of materials that surfaces refer
/// to by index.
pub struct Scene {
    pub world: World,
    pub materials: Vec<Material>,
}

pub open spec fn scene_wf(s: Scene) -> bool {
    &&& world_wf(s.world)
    &&& forall|i: int| 0 <= i < s.materials@.len() ==> material_wf(#[trigger] s.materials@[i])
    &&& forall|i: int|
        0 <= i < world_surfaces(s.world).len() ==> crate::hittable::surface_mat(
            #[trigger] world_surfaces(s.world)[i],
        ) < s.materials@.len()
}

/// The closest hit the world's linear scan reports for an integrator ray.
pub open spec fn world_scan(w: World, r: Ray) -> Option<HitRecord> {
    scan_hit(world_surfaces(w), r, 66, 0x10000000000)
}

/// Decimal digits of a non-negative integer.
pub open spec fn dec_bytes(x: int) -> Seq<u8>
    decreases x,
{
    if x < 10 {
        seq![(48 + x) as u8]
    } else {
        dec_bytes(x / 10) + seq![(48 + (x % 10)) as u8]
    }
}

/// The PPM header: magic, width, height, and the channel maximum.
pub open spec fn ppm_header(w: int, h: int) -> Seq<u8> {
    seq![80u8, 51u8, 10u8] + dec_bytes(w) + seq![10u8] + dec_bytes(h) + seq![10u8] + seq![
        50u8,
        53u8,
        53u8,
        10u8,
    ]
}

/// One pixel's line: the three channel bytes in decimal.
pub open spec fn pixel_line(r: int, g: int, b: int) -> Seq<u8> {
    dec_bytes(r) + seq![32u8] + dec_bytes(g) + seq![32u8] + dec_bytes(b) + seq![10u8]
}

/// The image body: one line per pixel, in raster order.
pub open spec fn ppm_body(pix: Seq<(u8, u8, u8)>) -> Seq<u8>
    decreases pix.len(),
{
    if pix.len() == 0 {
        Seq::empty()
    } else {
        ppm_body(pix.drop_last()) + pixel_line(
            pix.last().0 as int,
            pix.last().1 as int,
            pix.last().2 as int,
        )
    }
}

/// Append the decimal digits of `x`.
pub fn push_dec(out: &mut Vec<u8>, x: u64)
    ensures
        final (out)@ == old(out)@ + dec_bytes(x as int),
    decreases x,
{
    if x < 10 {
        out.push(48 + (x as u8));
        proof {
            assert(final (out)@ =~= old(out)@ + dec_bytes(x as int));
        }
    } else {
        push_dec(out, x / 10);
        out.push(48 + ((x % 10) as u8));
        proof {
            assert(final (out)@ =~= old(out)@ + dec_bytes(x as int));
        }
    }
}

/// Clamp a wide intermediate into the camera's coordinate range.
pub open spec fn clamp_geom_s(x: int) -> int {
    if x < -0x8000000 {
        -0x8000000
    } else if x > 0x8000000 {
        0x8000000
    } else {
        x
    }
}

fn cg(x: i128) -> (r: i64)
    ensures
        r == clamp_geom_s(x as int),
        -0x8000000 <= r <= 0x8000000,
{
    if x < -0x8000000 {
        -0x8000000
    } else if x > 0x8000000 {
        0x8000000
    } else {
        x as i64
    }
}

/// One component of a jittered pixel sample: the pixel origin walked by the
/// integer pixel indices, offset by the sub-pixel jitter, clamped into
/// range.
pub open spec fn sample_comp_s(p00: int, du: int, dv: int, i: int, j: int, px: int, py: int) -> int {
    clamp_geom_s(p00 + i * du + j * dv + floor_div(px * du + py * dv, 65536))
}

/// One component of a defocus-disk origin: the camera center offset along
/// the disk basis, clamped into range.
pub open spec fn disk_comp_s(c: int, du: int, dv: int, a: int, b: int) -> int {
    clamp_geom_s(c + floor_div(a * du + b * dv, 65536))
}

/// What one camera ray looks like for pixel `(i, j)` and the given draws:
/// sub-pixel jitter `(px, py)` in `[-1/2, 1/2)`, an aperture-disk point
/// `(a, b)` (zero with no defocus), the origin at the camera center or on
/// the defocus disk, and the direction from the origin to the jittered
/// pixel sample.
pub open spec fn ray_sampled(c: Camera, i: int, j: int, r: Ray, px: int, py: int, a: int, b: int) -> bool {
    &&& -32768 <= px <= 32767
    &&& -32768 <= py <= 32767
    &&& -0x10000 <= a <= 0x10000
    &&& -0x10000 <= b <= 0x10000
    &&& (c.defocus_angle <= 0 ==> a == 0 && b == 0 && r.origin == c.center)
    &&& (c.defocus_angle > 0 ==> r.origin == (Vec3 {
        x: disk_comp_s(
            c.center.x as int,
            c.defocus_disk_u.x as int,
            c.defocus_disk_v.x as int,
            a,
            b,
        ) as i64,
        y: disk_comp_s(
            c.center.y as int,
            c.defocus_disk_u.y as int,
            c.defocus_disk_v.y as int,
            a,
            b,
        ) as i64,
        z: disk_comp_s(
            c.center.z as int,
            c.defocus_disk_u.z as int,
            c.defocus_disk_v.z as int,
            a,
            b,
        ) as i64,
    }))
    &&& r.direction.x as int == sample_comp_s(
        c.pixel_00_loc.x as int,
        c.pixel_delta_u.x as int,
        c.pixel_delta_v.x as int,
        i,
        j,
        px,
        py,
    ) - r.origin.x
    &&& r.direction.y as int == sample_comp_s(
        c.pixel_00_loc.y as int,
        c.pixel_delta_u.y as int,
        c.pixel_delta_v.y as int,
        i,
        j,
        px,
        py,
    ) - r.origin.y
    &&& r.direction.z as int == sample_comp_s(
        c.pixel_00_loc.z as int,
        c.pixel_delta_u.z as int,
        c.pixel_delta_v.z as int,
        i,
        j,
        px,
        py,
    ) - r.origin.z
}

pub struct Camera {
    pub aspect_ratio: i64,
    pub image_width: i64,
    pub samples_per_pixel: i64,
    pub max_depth: i64,
    pub vfov: i64,
    pub lookfrom: Point3,
    pub lookat: Point3,
    pub vup: Vec3,
    pub defocus_angle: i64,
    pub focus_dist: i64,
    pub background: Color,
    pub image_height: i64,
    pub center: Point3,
    pub pixel_00_loc: Point3,
    pub pixel_delta_u: Vec3,
    pub pixel_delta_v: Vec3,
    pub u: Vec3,
    pub v: Vec3,
    pub w: Vec3,
    pub defocus_disk_u: Vec3,
    pub defocus_disk_v: Vec3,
}

/// The configuration a render needs: bounded extents, a proper field of
/// view, and a usable view frame (the camera looks somewhere, and up is not
/// along the view axis).
pub open spec fn cam_config_wf(c: Camera) -> bool {
    &&& 4096 <= c.aspect_ratio <= 0x100000
    &&& 1 <= c.image_width <= 4096
    &&& 1 <= c.samples_per_pixel <= 65536
    &&& 0 <= c.max_depth <= 1024
    &&& 0 < c.vfov < 11796480
    &&& 0 <= c.defocus_angle < 11796480
    &&& 1 <= c.focus_dist <= 0x4000000
    &&& vec_bounded(c.lookfrom, 0x4000000)
    &&& vec_bounded(c.lookat, 0x4000000)
    &&& vec_bounded(c.vup, 0x100000)
    &&& color_wf(c.background)
    &&& crate::vec3::fx_len(look_dir(c)) >= 1
    &&& crate::vec3::fx_len(up_cross(c)) >= 1
}

/// The direction the camera looks backwards along.
pub open spec fn look_dir(c: Camera) -> Vec3 {
    Vec3 {
        x: (c.lookfrom.x - c.lookat.x) as i64,
        y: (c.lookfrom.y - c.lookat.y) as i64,
        z: (c.lookfrom.z - c.lookat.z) as i64,
    }
}

/// The cross of up with the backward axis, before normalisation.
pub open spec fn up_cross(c: Camera) -> Vec3 {
    Vec3 {
        x: cross_x(c.vup, unit_cl(look_dir(c))) as i64,
        y: cross_y(c.vup, unit_cl(look_dir(c))) as i64,
        z: cross_z(c.vup, unit_cl(look_dir(c))) as i64,
    }
}

/// Everything `initialize` derives from the configuration.
pub open spec fn cam_init(c: Camera) -> Camera {
    let h0 = floor_div(c.image_width * 65536, c.aspect_ratio as int);
    let height = if h0 < 1 {
        1
    } else {
        h0
    };
    let center = c.lookfrom;
    let ht = fx_tan_half(c.vfov as int);
    let vh = clamp_geom_s(2 * floor_div(ht * c.focus_dist, 65536));
    let vw = clamp_geom_s(floor_div(vh * c.image_width, height));
    let w = unit_cl(look_dir(c));
    let u = unit_cl(up_cross(c));
    let v = Vec3 {
        x: cross_x(w, u) as i64,
        y: cross_y(w, u) as i64,
        z: cross_z(w, u) as i64,
    };
    let vux = clamp_geom_s(floor_div(vw * u.x, 65536));
    let vuy = clamp_geom_s(floor_div(vw * u.y, 65536));
    let vuz = clamp_geom_s(floor_div(vw * u.z, 65536));
    let vvx = clamp_geom_s(floor_div(vh * (-v.x), 65536));
    let vvy = clamp_geom_s(floor_div(vh * (-v.y), 65536));
    let vvz = clamp_geom_s(floor_div(vh * (-v.z), 65536));
    let dux = floor_div(vux, c.image_width as int);
    let duy = floor_div(vuy, c.image_width as int);
    let duz = floor_div(vuz, c.image_width as int);
    let dvx = floor_div(vvx, height);
    let dvy = floor_div(vvy, height);
    let dvz = floor_div(vvz, height);
    let ulx = clamp_geom_s(
        center.x - floor_div(c.focus_dist * w.x, 65536) - floor_div(vux, 2) - floor_div(vvx, 2),
    );
    let uly = clamp_geom_s(
        center.y - floor_div(c.focus_dist * w.y, 65536) - floor_div(vuy, 2) - floor_div(vvy, 2),
    );
    let ulz = clamp_geom_s(
        center.z - floor_div(c.focus_dist * w.z, 65536) - floor_div(vuz, 2) - floor_div(vvz, 2),
    );
    let p00x = clamp_geom_s(ulx + floor_div(dux + dvx, 2));
    let p00y = clamp_geom_s(uly + floor_div(duy + dvy, 2));
    let p00z = clamp_geom_s(ulz + floor_div(duz + dvz, 2));
    let dr = if c.defocus_angle <= 0 {
        0
    } else {
        clamp_geom_s(floor_div(c.focus_dist * fx_tan_half(c.defocus_angle as int), 65536))
    };
    let ddux = clamp_geom_s(floor_div(u.x * dr, 65536));
    let dduy = clamp_geom_s(floor_div(u.y * dr, 65536));
    let dduz = clamp_geom_s(floor_div(u.z * dr, 65536));
    let ddvx = clamp_geom_s(floor_div(v.x * dr, 65536));
    let ddvy = clamp_geom_s(floor_div(v.y * dr, 65536));
    let ddvz = clamp_geom_s(floor_div(v.z * dr, 65536));
    Camera {
        image_height: height as i64,
        center,
        pixel_00_loc: Vec3 { x: p00x as i64, y: p00y as i64, z: p00z as i64 },
        pixel_delta_u: Vec3 { x: dux as i64, y: duy as i64, z: duz as i64 },
        pixel_delta_v: Vec3 { x: dvx as i64, y: dvy as i64, z: dvz as i64 },
        u,
        v,
        w,
        defocus_disk_u: Vec3 { x: ddux as i64, y: dduy as i64, z: dduz as i64 },
        defocus_disk_v: Vec3 { x: ddvx as i64, y: ddvy as i64, z: ddvz as i64 },
        ..c
    }
}

/// Derived-state bounds the sampling code relies on.
pub open spec fn cam_derived_wf(c: Camera) -> bool {
    &&& 1 <= c.image_height <= 0x100000
    &&& vec_bounded(c.center, 0x4000000)
    &&& vec_bounded(c.pixel_00_loc, 0x8000000)
    &&& vec_bounded(c.pixel_delta_u, 0x10000000)
    &&& vec_bounded(c.pixel_delta_v, 0x10000000)
    &&& vec_bounded(c.defocus_disk_u, 0x8000000)
    &&& vec_bounded(c.defocus_disk_v, 0x8000000)
}

impl Camera {
    /// Compute every derived quantity from the configuration.
    #[verifier::rlimit(100)]
    pub fn initialize(&mut self)
        requires
            cam_config_wf(*old(self)),
        ensures
            *final (self) == cam_init(*old(self)),
            cam_derived_wf(*final (self)),
            cam_config_wf(*final (self)),
    {
        proof {
            lemma_floor_div_fund(self.image_width * 65536, self.aspect_ratio as int);
            crate::fixed::lemma_floor_div_bound(
                self.image_width * 65536,
                self.aspect_ratio as int,
                0x10000000,
            );
        }
        let h0 = floor_div_i128((self.image_width as i128) * 65536, self.aspect_ratio as i128)
            as i64;
        let height: i64 = if h0 < 1 {
            1
        } else {
            h0
        };
        proof {
            assert(h0 as int <= 0x100000) by (nonlinear_arith)
                requires
                    (self.aspect_ratio as int) * (h0 as int) <= 0x10000000,
                    self.aspect_ratio as int >= 4096,
            ;
        }
        self.image_height = height;
        self.center = self.lookfrom;
        let ld = Vec3 {
            x: self.lookfrom.x - self.lookat.x,
            y: self.lookfrom.y - self.lookat.y,
            z: self.lookfrom.z - self.lookat.z,
        };
        let w = ld.unit_clamped();
        proof {
            crate::vec3::lemma_prod_grid_bound(self.vup, w, 0x100000);
            lemma_floor_div_fund(self.vup.y * w.z - self.vup.z * w.y, 65536);
            lemma_floor_div_fund(self.vup.z * w.x - self.vup.x * w.z, 65536);
            lemma_floor_div_fund(self.vup.x * w.y - self.vup.y * w.x, 65536);
        }
        let uc = self.vup.cross(&w);
        proof {
            assert(uc == up_cross(*old(self)));
        }
        let u = uc.unit_clamped();
        let v = w.cross(&u);
        proof {
            crate::vec3::lemma_prod_grid_bound(w, u, 0x20000);
            lemma_floor_div_fund(w.y * u.z - w.z * u.y, 65536);
            lemma_floor_div_fund(w.z * u.x - w.x * u.z, 65536);
            lemma_floor_div_fund(w.x * u.y - w.y * u.x, 65536);
        }
        self.w = w;
        self.u = u;
        self.v = v;
        let ht = crate::trig::tan_half_deg(self.vfov);
        proof {
            lemma_i64_prod_fits(ht as int, self.focus_dist as int);
        }
        let vh = cg(2 * floor_div_i128((ht as i128) * (self.focus_dist as i128), 65536));
        proof {
            lemma_i64_prod_fits(vh as int, self.image_width as int);
        }
        let vw = cg(floor_div_i128((vh as i128) * (self.image_width as i128), height as i128));
        proof {
            lemma_i64_prod_fits(vw as int, u.x as int);
            lemma_i64_prod_fits(vw as int, u.y as int);
            lemma_i64_prod_fits(vw as int, u.z as int);
            lemma_i64_prod_fits(vh as int, -(v.x as int));
            lemma_i64_prod_fits(vh as int, -(v.y as int));
            lemma_i64_prod_fits(vh as int, -(v.z as int));
            lemma_i64_prod_fits(self.focus_dist as int, w.x as int);
            lemma_i64_prod_fits(self.focus_dist as int, w.y as int);
            lemma_i64_prod_fits(self.focus_dist as int, w.z as int);
        }
        let vux = cg(floor_div_i128((vw as i128) * (u.x as i128), 65536));
        let vuy = cg(floor_div_i128((vw as i128) * (u.y as i128), 65536));
        let vuz = cg(floor_div_i128((vw as i128) * (u.z as i128), 65536));
        let vvx = cg(floor_div_i128((vh as i128) * (-(v.x as i128)), 65536));
        let vvy = cg(floor_div_i128((vh as i128) * (-(v.y as i128)), 65536));
        let vvz = cg(floor_div_i128((vh as i128) * (-(v.z as i128)), 65536));
        proof {
            crate::fixed::lemma_floor_div_bound(vux as int, self.image_width as int, 0x8000000);
            crate::fixed::lemma_floor_div_bound(vuy as int, self.image_width as int, 0x8000000);
            crate::fixed::lemma_floor_div_bound(vuz as int, self.image_width as int, 0x8000000);
            crate::fixed::lemma_floor_div_bound(vvx as int, height as int, 0x8000000);
            crate::fixed::lemma_floor_div_bound(vvy as int, height as int, 0x8000000);
            crate::fixed::lemma_floor_div_bound(vvz as int, height as int, 0x8000000);
        }
        self.pixel_delta_u = Vec3 {
            x: floor_div_i128(vux as i128, self.image_width as i128) as i64,
            y: floor_div_i128(vuy as i128, self.image_width as i128) as i64,
            z: floor_div_i128(vuz as i128, self.image_width as i128) as i64,
        };
        self.pixel_delta_v = Vec3 {
            x: floor_div_i128(vvx as i128, height as i128) as i64,
            y: floor_div_i128(vvy as i128, height as i128) as i64,
            z: floor_div_i128(vvz as i128, height as i128) as i64,
        };
        let ulx = cg(
            (self.center.x as i128) - floor_div_i128(
                (self.focus_dist as i128) * (w.x as i128),
                65536,
            ) - floor_div_i128(vux as i128, 2) - floor_div_i128(vvx as i128, 2),
        );
        let uly = cg(
            (self.center.y as i128) - floor_div_i128(
                (self.focus_dist as i128) * (w.y as i128),
                65536,
            ) - floor_div_i128(vuy as i128, 2) - floor_div_i128(vvy as i128, 2),
        );
        let ulz = cg(
            (self.center.z as i128) - floor_div_i128(
                (self.focus_dist as i128) * (w.z as i128),
                65536,
            ) - floor_div_i128(vuz as i128, 2) - floor_div_i128(vvz as i128, 2),
        );
        self.pixel_00_loc = Vec3 {
            x: cg(
                (ulx as i128) + floor_div_i128(
                    (self.pixel_delta_u.x as i128) + (self.pixel_delta_v.x as i128),
                    2,
                ),
            ),
            y: cg(
                (uly as i128) + floor_div_i128(
                    (self.pixel_delta_u.y as i128) + (self.pixel_delta_v.y as i128),
                    2,
                ),
            ),
            z: cg(
                (ulz as i128) + floor_div_i128(
                    (self.pixel_delta_u.z as i128) + (self.pixel_delta_v.z as i128),
                    2,
                ),
            ),
        };
        let dr: i64 = if self.defocus_angle <= 0 {
            0
        } else {
            let t = crate::trig::tan_half_deg(self.defocus_angle);
            proof {
                lemma_i64_prod_fits(self.focus_dist as int, t as int);
            }
            cg(floor_div_i128((self.focus_dist as i128) * (t as i128), 65536))
        };
        proof {
            lemma_i64_prod_fits(u.x as int, dr as int);
            lemma_i64_prod_fits(u.y as int, dr as int);
            lemma_i64_prod_fits(u.z as int, dr as int);
            lemma_i64_prod_fits(v.x as int, dr as int);
            lemma_i64_prod_fits(v.y as int, dr as int);
            lemma_i64_prod_fits(v.z as int, dr as int);
        }
        self.defocus_disk_u = Vec3 {
            x: cg(floor_div_i128((u.x as i128) * (dr as i128), 65536)),
            y: cg(floor_div_i128((u.y as i128) * (dr as i128), 65536)),
            z: cg(floor_div_i128((u.z as i128) * (dr as i128), 65536)),
        };
        self.defocus_disk_v = Vec3 {
            x: cg(floor_div_i128((v.x as i128) * (dr as i128), 65536)),
            y: cg(floor_div_i128((v.y as i128) * (dr as i128), 65536)),
            z: cg(floor_div_i128((v.z as i128) * (dr as i128), 65536)),
        };
    }

    /// One camera ray through pixel `(i, j)`, jittered within the pixel and
    /// (with a positive defocus angle) across the aperture disk.
    pub fn get_ray(&self, i: i64, j: i64, rng: &mut Rng) -> (r: Ray)
        requires
            cam_derived_wf(*self),
            0 <= i <= 4096,
            0 <= j <= 0x100000,
        ensures
            ray_bounded(r),
            0 <= r.time <= 65536,
            vec_bounded(r.origin, 0x8000000),
            exists|px: int, py: int, a: int, b: int|
                #[trigger] ray_sampled(*self, i as int, j as int, r, px, py, a, b),
    {
        let px = rng.unit_fx() - 32768;
        let py = rng.unit_fx() - 32768;
        let sx = self.sample_comp(
            self.pixel_00_loc.x,
            self.pixel_delta_u.x,
            self.pixel_delta_v.x,
            i,
            j,
            px,
            py,
        );
        let sy = self.sample_comp(
            self.pixel_00_loc.y,
            self.pixel_delta_u.y,
            self.pixel_delta_v.y,
            i,
            j,
            px,
            py,
        );
        let sz = self.sample_comp(
            self.pixel_00_loc.z,
            self.pixel_delta_u.z,
            self.pixel_delta_v.z,
            i,
            j,
            px,
            py,
        );
        let mut da: i64 = 0;
        let mut db: i64 = 0;
        let origin: Point3 = if self.defocus_angle <= 0 {
            self.center
        } else {
            let p = Vec3::random_in_unit_disk(rng);
            da = p.x;
            db = p.y;
            Vec3 {
                x: self.disk_comp(self.center.x, self.defocus_disk_u.x, self.defocus_disk_v.x, p.x, p.y),
                y: self.disk_comp(self.center.y, self.defocus_disk_u.y, self.defocus_disk_v.y, p.x, p.y),
                z: self.disk_comp(self.center.z, self.defocus_disk_u.z, self.defocus_disk_v.z, p.x, p.y),
            }
        };
        let direction = Vec3 { x: sx - origin.x, y: sy - origin.y, z: sz - origin.z };
        let time = rng.unit_fx();
        let r = Ray { origin, direction, time };
        proof {
            assert(ray_sampled(
                *self,
                i as int,
                j as int,
                r,
                px as int,
                py as int,
                da as int,
                db as int,
            ));
        }
        r
    }

    /// One component of a jittered pixel sample, clamped into range.
    fn sample_comp(&self, p00: i64, du: i64, dv: i64, i: i64, j: i64, px: i64, py: i64) -> (r: i64)
        requires
            -0x8000000 <= p00 <= 0x8000000,
            -0x10000000 <= du <= 0x10000000,
            -0x10000000 <= dv <= 0x10000000,
            0 <= i <= 4096,
            0 <= j <= 0x100000,
            -32768 <= px <= 32768,
            -32768 <= py <= 32768,
        ensures
            r as int == sample_comp_s(
                p00 as int,
                du as int,
                dv as int,
                i as int,
                j as int,
                px as int,
                py as int,
            ),
            -0x8000000 <= r <= 0x8000000,
    {
        proof {
            crate::fixed::lemma_prod_bound(i as int, du as int, 4096, 0x10000000);
            crate::fixed::lemma_prod_bound(j as int, dv as int, 0x100000, 0x10000000);
            crate::fixed::lemma_prod_bound(px as int, du as int, 32768, 0x10000000);
            crate::fixed::lemma_prod_bound(py as int, dv as int, 32768, 0x10000000);
            lemma_floor_div_fund(px * du + py * dv, 65536);
        }
        cg(
            (p00 as i128) + (i as i128) * (du as i128) + (j as i128) * (dv as i128)
                + floor_div_i128((px as i128) * (du as i128) + (py as i128) * (dv as i128), 65536),
        )
    }

    /// One component of a defocus-disk origin, clamped into range.
    fn disk_comp(&self, c: i64, du: i64, dv: i64, px: i64, py: i64) -> (r: i64)
        requires
            -0x8000000 <= c <= 0x8000000,
            -0x8000000 <= du <= 0x8000000,
            -0x8000000 <= dv <= 0x8000000,
            -0x10000 <= px <= 0x10000,
            -0x10000 <= py <= 0x10000,
        ensures
            r as int == disk_comp_s(c as int, du as int, dv as int, px as int, py as int),
            -0x8000000 <= r <= 0x8000000,
    {
        proof {
            crate::fixed::lemma_prod_bound(px as int, du as int, 0x10000, 0x8000000);
            crate::fixed::lemma_prod_bound(py as int, dv as int, 0x10000, 0x8000000);
            lemma_floor_div_fund(px * du + py * dv, 65536);
        }
        cg(
            (c as i128) + floor_div_i128(
                (px as i128) * (du as i128) + (py as i128) * (dv as i128),
                65536,
            ),
        )
    }

    /// The light carried back along one ray: black past the depth limit, the
    /// background on a miss, and emission plus attenuated scattered light on
    /// a hit.
    pub fn ray_color(&self, scene: &Scene, r: &Ray, depth: i64, rng: &mut Rng) -> (out: Color)
        requires
            scene_wf(*scene),
            ray_bounded(*r),
            0 <= r.time <= 65536,
            color_wf(self.background),
        ensures
            color_wf(out),
            depth <= 0 ==> out == (Color { r: 0, g: 0, b: 0 }),
            depth > 0 && world_scan(scene.world, *r) is None ==> out == self.background,
            depth > 0 && world_scan(scene.world, *r) is Some ==> ({
                let h = world_scan(scene.world, *r)->Some_0;
                let m = scene.materials@[h.mat as int];
                &&& (m is DiffuseLight ==> out == emitted_of(m, h.u as int, h.v as int, h.p))
                &&& (out == emitted_of(m, h.u as int, h.v as int, h.p) || exists|bounced: Color|
                    color_wf(bounced) && out == sat_add(
                        emitted_of(m, h.u as int, h.v as int, h.p),
                        #[trigger] sat_mul(scatter_att(m, h.u as int, h.v as int, h.p), bounced),
                    ))
            }),
        decreases depth,
    {
        if depth <= 0 {
            return Color { r: 0, g: 0, b: 0 };
        }
        let res = scene.world.hit(r, &Interval { min: T_EPS, max: T_MAX });
        proof {
            crate::hittable::hittable_list::lemma_scan_hit_mat(
                world_surfaces(scene.world),
                *r,
                T_EPS as int,
                T_MAX as int,
            );
        }
        match res {
            None => self.background,
            Some(rec) => {
                proof {
                    assert(rec.mat < scene.materials@.len());
                }
                let emitted = scene.materials[rec.mat].emitted(rec.u, rec.v, &rec.p);
                match scene.materials[rec.mat].scatter(r, &rec, rng) {
                    None => emitted,
                    Some((att, sc)) => {
                        let bounced = self.ray_color(scene, &sc, depth - 1, rng);
                        let out = emitted.plus(&att.attenuate(&bounced));
                        proof {
                            assert(color_wf(bounced) && out == sat_add(
                                emitted_of(
                                    scene.materials@[rec.mat as int],
                                    rec.u as int,
                                    rec.v as int,
                                    rec.p,
                                ),
                                sat_mul(
                                    scatter_att(
                                        scene.materials@[rec.mat as int],
                                        rec.u as int,
                                        rec.v as int,
                                        rec.p,
                                    ),
                                    bounced,
                                ),
                            ));
                        }
                        out
                    },
                }
            },
        }
    }

    /// Render the scene to a PPM byte image: the header, then one `R G B`
    /// line per pixel, rows top to bottom, pixels left to right.
    pub fn render(&mut self, scene: &Scene, rng: &mut Rng) -> (out: Vec<u8>)
        requires
            cam_config_wf(*old(self)),
            scene_wf(*scene),
        ensures
            *final (self) == cam_init(*old(self)),
            exists|pix: Seq<(u8, u8, u8)>|
                out@ == ppm_header(
                    old(self).image_width as int,
                    final (self).image_height as int,
                ) + ppm_body(pix) && pix.len() == final (self).image_height
                    * old(self).image_width,
    {
        self.initialize();
        let width = self.image_width;
        let height = self.image_height;
        let spp = self.samples_per_pixel;
        let mut out: Vec<u8> = Vec::new();
        out.push(80);
        out.push(51);
        out.push(10);
        push_dec(&mut out, width as u64);
        out.push(10);
        push_dec(&mut out, height as u64);
        out.push(10);
        out.push(50);
        out.push(53);
        out.push(53);
        out.push(10);
        proof {
            assert(out@ =~= ppm_header(width as int, height as int));
        }
        let ghost header = out@;
        let ghost mut pix: Seq<(u8, u8, u8)> = Seq::empty();
        proof {
            assert(ppm_body(pix) =~= Seq::<u8>::empty());
            assert(out@ =~= header + ppm_body(pix));
        }
        let mut j: i64 = 0;
        while j < height
            invariant
                0 <= j <= height,
                1 <= height <= 0x100000,
                1 <= width <= 4096,
                1 <= spp <= 65536,
                cam_derived_wf(*self),
                scene_wf(*scene),
                color_wf(self.background),
                0 <= self.max_depth <= 1024,
                out@ == header + ppm_body(pix),
                pix.len() == j * width,
            decreases height - j,
        {
            let mut i: i64 = 0;
            while i < width
                invariant
                    0 <= j < height,
                    0 <= i <= width,
                    1 <= height <= 0x100000,
                    1 <= width <= 4096,
                    1 <= spp <= 65536,
                    cam_derived_wf(*self),
                    scene_wf(*scene),
                    color_wf(self.background),
                    0 <= self.max_depth <= 1024,
                    out@ == header + ppm_body(pix),
                    pix.len() == j * width + i,
                decreases width - i,
            {
                let mut pixel_color = Color { r: 0, g: 0, b: 0 };
                let mut s: i64 = 0;
                while s < spp
                    invariant
                        0 <= s <= spp,
                        0 <= i < width <= 4096,
                        0 <= j < height <= 0x100000,
                        cam_derived_wf(*self),
                        scene_wf(*scene),
                        color_wf(self.background),
                        0 <= self.max_depth <= 1024,
                    decreases spp - s,
                {
                    let ray = self.get_ray(i, j, rng);
                    let c = self.ray_color(scene, &ray, self.max_depth, rng);
                    pixel_color = pixel_color.plus(&c);
                    s = s + 1;
                }
                pixel_color.sample_scale(spp);
                let gc = pixel_color.gamma();
                let rb = gc.r_as_u8();
                let gb = gc.g_as_u8();
                let bb = gc.b_as_u8();
                push_dec(&mut out, rb as u64);
                out.push(32);
                push_dec(&mut out, gb as u64);
                out.push(32);
                push_dec(&mut out, bb as u64);
                out.push(10);
                proof {
                    let np = pix.push((rb, gb, bb));
                    assert(np.drop_last() =~= pix);
                    assert(np.last() == (rb, gb, bb));
                    assert(out@ =~= header + ppm_body(np));
                    pix = np;
                }
                i = i + 1;
            }
            proof {
                assert(j * width + width == (j + 1) * width) by (nonlinear_arith);
            }
            j = j + 1;
        }
        proof {
            assert(pix.len() == height * width) by (nonlinear_arith)
                requires
                    pix.len() == (height as int) * (width as int),
            ;
            assert(pix.len() == (self.image_height as int) * (width as int));
        }
        out
    }

    pub fn aspect_ratio(self, aspect_ratio: i64) -> (c: Camera)
        ensures
            c == (Camera { aspect_ratio, ..self }),
    {
        Camera { aspect_ratio, ..self }
    }

    pub fn image_width(self, image_width: i64) -> (c: Camera)
        ensures
            c == (Camera { image_width, ..self }),
    {
        Camera { image_width, ..self }
    }

    pub fn samples_per_pixel(self, samples_per_pixel: i64) -> (c: Camera)
        ensures
            c == (Camera { samples_per_pixel, ..self }),
    {
        Camera { samples_per_pixel, ..self }
    }

    pub fn max_depth(self, max_depth: i64) -> (c: Camera)
        ensures
            c == (Camera { max_depth, ..self }),
    {
        Camera { max_depth, ..self }
    }

    pub fn vfov(self, vfov: i64) -> (c: Camera)
        ensures
            c == (Camera { vfov, ..self }),
    {
        Camera { vfov, ..self }
    }

    pub fn lookfrom(self, lookfrom: Point3) -> (c: Camera)
        ensures
            c == (Camera { lookfrom, ..self }),
    {
        Camera { lookfrom, ..self }
    }

    pub fn lookat(self, lookat: Point3) -> (c: Camera)
        ensures
            c == (Camera { lookat, ..self }),
    {
        Camera { lookat, ..self }
    }

    pub fn vup(self, vup: Vec3) -> (c: Camera)
        ensures
            c == (Camera { vup, ..self }),
    {
        Camera { vup, ..self }
    }

    pub fn defocus_angle(self, defocus_angle: i64) -> (c: Camera)
        ensures
            c == (Camera { defocus_angle, ..self }),
    {
        Camera { defocus_angle, ..self }
    }

    pub fn focus_dist(self, focus_dist: i64) -> (c: Camera)
        ensures
            c == (Camera { focus_dist, ..self }),
    {
        Camera { focus_dist, ..self }
    }

    pub fn background(self, background: Color) -> (c: Camera)
        ensures
            c == (Camera { background, ..self }),
    {
        Camera { background, ..self }
    }
}

/// The documented defaults: a square viewport, a small image, shallow
/// sampling, a ninety-degree field of view and a black background.
impl Default for Camera {
    fn default() -> (c: Camera)
        ensures
            c.aspect_ratio == 65536,
            c.image_width == 100,
            c.samples_per_pixel == 10,
            c.max_depth == 10,
            c.vfov == 5898240,
            c.lookfrom == (Vec3 { x: 0, y: 0, z: (-65536) as i64 }),
            c.lookat == (Vec3 { x: 0, y: 0, z: 0 }),
            c.vup == (Vec3 { x: 0, y: 65536, z: 0 }),
            c.defocus_angle == 0,
            c.focus_dist == 655360,
            c.background == (Color { r: 0, g: 0, b: 0 }),
    {
        Camera {
            aspect_ratio: 65536,
            image_width: 100,
            samples_per_pixel: 10,
            max_depth: 10,
            vfov: 5898240,
            lookfrom: Vec3 { x: 0, y: 0, z: -65536 },
            lookat: Vec3 { x: 0, y: 0, z: 0 },
            vup: Vec3 { x: 0, y: 65536, z: 0 },
            defocus_angle: 0,
            focus_dist: 655360,
            background: Color { r: 0, g: 0, b: 0 },
            image_height: 0,
            center: Vec3 { x: 0, y: 0, z: 0 },
            pixel_00_loc: Vec3 { x: 0, y: 0, z: 0 },
            pixel_delta_u: Vec3 { x: 0, y: 0, z: 0 },
            pixel_delta_v: Vec3 { x: 0, y: 0, z: 0 },
            u: Vec3 { x: 0, y: 0, z: 0 },
            v: Vec3 { x: 0, y: 0, z: 0 },
            w: Vec3 { x: 0, y: 0, z: 0 },
            defocus_disk_u: Vec3 { x: 0, y: 0, z: 0 },
            defocus_disk_v: Vec3 { x: 0, y: 0, z: 0 },
        }
    }
}

} // verus!
