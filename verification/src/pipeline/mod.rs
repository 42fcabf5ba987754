//! The document pipeline: DOM, styles, layout boxes, display list and raster.
pub mod display_list;
pub mod dom;
pub mod framebuffer;
pub mod layout;
pub mod rasterizer;
pub mod style;
