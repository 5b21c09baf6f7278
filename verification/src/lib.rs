//! Integer and index logic of the `oxide` path tracer: the image buffer of the
//! renderer, the layout of the bounding-volume hierarchies, mesh index handling,
//! selection outlines and the scene's sky table.

pub mod bvh;
pub mod editor;
pub mod mesh;
pub mod renderer;
pub mod scene;
pub mod sky;
pub mod world;
