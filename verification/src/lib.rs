//! Verified kernel of an offline Monte-Carlo ray tracer.
//!
//! The kernel holds every part of the renderer that is decided by order and
//! structure alone: bounding boxes, their unions and the slab test, the
//! bounding-volume hierarchy and its traversal, closest-hit scanning, the
//! path of a ray from strike to strike, the permutation tables of the noise
//! texture, raster lookups and the split of the sample budget. Real-valued
//! quantities are carried as order keys (see [`scalar`]); the arithmetic on
//! them belongs to the caller, who implements the traits [`hit::Hit`],
//! [`material::Scatter`] and [`material::Value`] for the shapes, materials
//! and textures of a scene.

pub mod scalar;
pub mod vec3;
pub mod aabb;
pub mod rand;
pub mod hit;
pub mod bvh;
pub mod bvh_laws;
pub mod perlin;
pub mod raster;
pub mod texture;
pub mod material;
pub mod medium;
pub mod render;
