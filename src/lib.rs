//! Layered infographic rendering: a scene of background, hero, image and text
//! layers composited onto a frame, once per source image of a batch.

pub mod color;
pub mod raster;
pub mod compose;
pub mod transform;
pub mod text;
pub mod scene;
pub mod batch;
pub mod template;
