//! Image-to-ASCII conversion pipeline.
//!
//! The pipeline turns a decoded raster image into a monochrome text
//! rendering whose glyph density follows the image's luminance:
//! resampling to a glyph grid, linear contrast adjustment, grayscale
//! reduction, separable Gaussian denoising, histogram-equalized level
//! quantization, and a gamma-weighted glyph mapping.
//!
//! Fractional parameters (contrast factor, blur sigma) are carried in
//! hundredths, so every stage is exact integer arithmetic.

pub mod blur;
pub mod config;
pub mod contrast;
pub mod entities;
pub mod format;
pub mod glyph;
pub mod imaging;
pub mod pipeline;
pub mod quantize;
pub mod raster;
pub mod repository;
pub mod use_cases;
pub mod web;
