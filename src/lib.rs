//! A Hold-And-Modify (HAM6) pixel codec with error-diffusion dithering.

pub mod color;
pub mod color_map;
pub mod dithering;
pub mod ham;
pub mod ham_encoding;
pub mod raster;
