//! A ray-tracing intersection core, verified with Verus.
//!
//! Geometry lives on a fixed-point grid: coordinates are `i64` values in
//! Q16.16 (one world unit is `65536` grid steps).  Ray parameters (`t`
//! values) are exact rationals over `i128`, so interval tests, closest-hit
//! selection and bounding-volume traversal are proved exactly, with no
//! rounding in any comparison.  The only approximation is the integer
//! square root used for sphere roots and vector lengths, and it is part of
//! the stated contracts.
//!
//! The floating-point shell around this core (camera, scene construction,
//! trigonometry, image output) is deliberately outside the library.

pub mod aabb;
pub mod bvh;
pub mod cube;
pub mod equivalence;
pub mod hittable;
pub mod hittable_list;
pub mod material;
pub mod nearest;
pub mod perlin;
pub mod primitive;
pub mod ray;
pub mod rect;
pub mod render;
pub mod rotate;
pub mod sampler;
pub mod scalar;
pub mod sphere;
pub mod texture;
pub mod vec3;
pub mod volume;

pub use scalar::Rat;