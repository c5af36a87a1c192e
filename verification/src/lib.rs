//! Barnsley fern: a raster of colours, the random choice among the four affine
//! maps of the fern's iterated function system, clipped plotting, and the binary
//! pixel-map encoding of the finished raster.

pub mod color;
pub mod config;
pub mod encode;
pub mod fern;
pub mod raster;
