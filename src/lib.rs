//! Integer core of a Monte-Carlo path tracer: bounding boxes over ordered
//! coordinate keys, construction and traversal of the bounding volume
//! hierarchy, the steps of the radiance estimator, the division of samples
//! between render workers, Perlin permutation tables and image textures.

pub mod aabb;
pub mod bvh;
pub mod estimate;
pub mod image;
pub mod key;
pub mod perlin;
mod random;
pub mod render;
pub mod scan;
pub mod tag;
