//! Error-diffusion color quantization.
//!
//! Reduces an image, held as a flat row-major buffer of RGB pixels, to a
//! small palette of colors while preserving perceived detail through
//! Floyd-Steinberg error diffusion.

pub mod buffer;
pub mod color;
pub mod dither;
pub mod metric;
pub mod palette;
