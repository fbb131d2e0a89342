//! A stochastic ray tracer over fixed-point coordinates.
//!
//! Geometry, colors and ray parameters are fixed-point numbers: an `i64`
//! counts units of `1 / SCALE` (`SCALE = 2^16`), so the raw value `65536`
//! stands for `1.0`. All arithmetic on them is exact integer arithmetic,
//! with multiplication and division rescaling by `SCALE` and rounding
//! toward zero, and square roots rounding down. Every contract states the
//! result of an operation exactly, over mathematical integers.

pub mod fixed;
pub mod vec3;
pub mod ray;
pub mod bounding_box;
pub mod utils;
pub mod material;
pub mod object;
pub mod sphere;
pub mod bvh_node;
pub mod camera;
pub mod integrator;

pub use fixed::SCALE;
