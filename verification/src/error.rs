//! What loading an image can fail with.

use vstd::prelude::*;
use image::ImageError;

verus! {

/// The failure of loading an image.
#[derive(Debug)]
pub enum Error {
    /// The decoder did not read an image from what it was given.
    Image(ImageError),
    /// The image cannot be held, or cannot be resampled to the size asked
    /// for: it has no pixel, a side of it is too long, or it needs more bytes
    /// than can be allocated.
    UnsupportedSize,
}

} // verus!
