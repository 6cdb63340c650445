//! Integer and structural core of a Monte-Carlo path tracer: PPM image
//! encoding, per-pixel seeding, bounding-volume-hierarchy layout, Perlin
//! lattice hashing, bitmap texel lookup, and the scene combinators shared
//! with the floating-point renderer.

mod rng;

pub mod bitmap;
pub mod bvh;
pub mod color;
pub mod perlin;
pub mod ppm;
pub mod raster;
pub mod scene;
