//! A stochastic ray tracer whose core runs on fixed-point arithmetic.
//!
//! Scalars are signed 64-bit mantissas with 16 fractional bits (the value of a
//! mantissa `m` is `m / 65536`).  Geometry, the bounding-volume hierarchy, the
//! material model and the path-tracing integrator are all written and verified
//! over this grid; randomness comes from a seedable generator threaded
//! explicitly through every sampling call.

pub mod aabb;
pub mod camera;
pub mod color;
pub mod fixed;
pub mod hit_record;
pub mod hittable;
pub mod interval;
pub mod material;
pub mod noise;
pub mod ray;
pub mod rng;
pub mod texture;
pub mod trig;
pub mod vec3;
