//! Scene primitives and the acceleration structure.

pub mod aabb;
pub mod bvh;
pub mod mesh;
pub mod models;
pub mod plane;
pub mod quad;
pub mod sphere;
pub mod triangle;
