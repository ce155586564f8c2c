//! A stochastic ray tracer with a verified core.
//!
//! All scene geometry, shading and integration is carried out on `Fx`,
//! a fixed-point scalar counted in millionths, so that every arithmetic
//! step has an exact, machine-checkable meaning.

pub mod fixed;
pub mod rng;
pub mod vec3;
pub mod cvec;
pub mod ray;
pub mod aabb;
pub mod approx;
pub mod perlin;
pub mod loader;
pub mod texture;
pub mod validate;
pub mod objects;
pub mod hittable;
pub mod medium;
pub mod bvh;
pub mod material;
pub mod camera;
pub mod run;
pub mod render;
