//! Image preparation for texture synthesis: uniform pixel buffers over four
//! pixel formats, alpha-weighted colour, histogram matching and image
//! pyramids.

pub mod buffer;
pub mod error;
pub mod histogram;
pub mod imaging;
pub mod img_pyramid;
pub mod pixel;
pub mod utils;
