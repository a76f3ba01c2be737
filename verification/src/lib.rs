//! A Monte Carlo path tracer whose core runs on fixed-point arithmetic.
//!
//! Scalars are `i64` values scaled by `fixed::SCALE` (2^16), so every
//! arithmetic step has an exact integer meaning that contracts can state
//! and the verifier can check.

pub mod camera;
pub mod fixed;
pub mod hittable;
pub mod material;
pub mod ray;
pub mod render;
pub mod rng;
pub mod sphere;
pub mod vec;
