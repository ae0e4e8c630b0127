//! A verified image-processing core for terminal rendering: a raster of RGB
//! samples with explicit positions, nearest and bilinear resampling, a
//! convolution-based energy (gradient magnitude) engine, greedy seam carving,
//! luminance-threshold compositing, and luminance-to-glyph mapping.

pub mod canvas;
pub mod energy;
pub mod error;
pub mod filter;
pub mod frame;
pub mod pixel;
pub mod seam;
pub mod transform;
