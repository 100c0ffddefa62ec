//! A progressive Monte-Carlo path tracer over fixed-point arithmetic.
//!
//! All geometry and radiometry is carried in signed fixed-point numbers
//! (`fixed::FP_ONE` units per 1.0), so every computation in this crate is
//! exact integer arithmetic with stated truncation, and its contracts are
//! proved by Verus. Hit tests compare exact fractions, which is what lets the
//! bounding-volume hierarchy be proved to return exactly the nearest hit a
//! naive scan over every triangle finds.

pub mod fixed;
pub mod math;
pub mod rendering;
pub mod rng;
pub mod scene;
pub mod utils;
pub mod vec3;
