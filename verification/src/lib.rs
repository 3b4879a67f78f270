//! A software rasterizer over fixed-point numbers.
//!
//! A scene of meshes is drawn into an image: each instance is moved into
//! camera space, what the camera cannot see is cut away, the rest is
//! projected onto the canvas, and every triangle is filled scanline by
//! scanline under a depth test. Every function states what it computes over
//! exact integers, and the module `laws` holds what follows for the pipeline
//! as a whole.
pub mod camera;
pub mod clipping;
pub mod color;
pub mod context;
pub mod data_types;
pub mod fixed;
pub mod image;
pub mod laws;
pub mod mat4;
pub mod math;
pub mod point2;
pub mod render;
pub mod scene;
pub mod utils;
pub mod vec3;
