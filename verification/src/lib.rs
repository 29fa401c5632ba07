//! A deterministic path-tracing kernel over fixed-point arithmetic.
//!
//! Every scalar is an `i64` holding a real value scaled by `fx::SCALE`,
//! so vector algebra, ray-sphere intersection, material scattering and
//! the radiance integrator are all exact integer computations with
//! verified contracts.

pub mod camera;
pub mod fx;
pub mod hittable;
pub mod hittable_list;
pub mod material;
pub mod ray;
pub mod render;
pub mod rng;
pub mod sphere;
pub mod vec3;
