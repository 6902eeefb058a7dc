//! A small pixel-processing library: a row-major image buffer in gray or RGB
//! form, and spatial filters over it (resize, Sobel edges, binary threshold).
pub mod image;
pub mod filters;
