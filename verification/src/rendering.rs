//! The camera, materials, framebuffer and the path-tracing kernel.

pub mod framebuffer;
pub mod materials;
pub mod ray;
pub mod ray_camera;
pub mod renderer;
