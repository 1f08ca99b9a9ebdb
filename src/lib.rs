//! A path tracer's discrete core: the random integer source, the Perlin lattice
//! permutations and corner hash, texel lookup in RGB images, the shape of the
//! bounding-volume hierarchy, the scene presets' render settings, and the output
//! raster with the row bands that workers fill.
pub mod bvh;
pub mod perlin;
pub mod raster;
pub mod reorder;
pub mod rtweekend;
pub mod scene;
pub mod texture;
