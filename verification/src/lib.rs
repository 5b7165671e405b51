//! A small path-tracing renderer whose arithmetic is exact fixed-point
//! integer math: every scalar is an `i64` carrying `SCALE` steps per unit.
//! Geometry, materials, camera and the light-transport integrator live here
//! with contracts; drawing random numbers goes through trusted wrappers
//! around the `rand` crate.

pub mod fixed;
pub mod vec3;
pub mod ray;
pub mod hittable;
pub mod utils;
pub mod materials;
pub mod sphere;
pub mod cube;
pub mod scene;
pub mod camera;
pub mod renderer;
