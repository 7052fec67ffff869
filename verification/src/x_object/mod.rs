//! Forms, soft masks, patterns and the drawing of images.

pub mod description_laws;
pub mod draw;
pub mod draw_laws;
pub mod form;
pub mod pattern;
pub mod raster;
pub mod resources;
pub mod soft_mask;
