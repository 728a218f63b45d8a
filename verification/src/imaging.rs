//! The decoded images of the `image` crate, and the calls that this library
//! makes on them.
//!
//! A decoded image is opaque here. What a call on one returns has a name,
//! and a contract says no more of the result than its name, its size, and
//! what converting it back gives. Nothing in this file is proved: each
//! contract restates what the called function does.

use vstd::prelude::*;
use image::DynamicImage;
use image::ImageError;
use crate::buffer::size_fits;
use crate::buffer::Raster;

verus! {

/// A decoded image of any pixel format.
#[verifier::external_type_specification]
#[verifier::external_body]
pub struct ExDynamicImage(image::DynamicImage);

/// The failure of a decoder.
#[verifier::external_type_specification]
#[verifier::external_body]
pub struct ExImageError(image::ImageError);

/// The filters that this library resamples with.
#[derive(Clone, Copy, Debug, PartialEq, Eq)]
pub enum Filter {
    /// Linear interpolation.
    Triangle,
    /// The Catmull-Rom cubic spline.
    CatmullRom,
    /// A Gaussian of standard deviation one half.
    Gaussian,
}

/// The longest side that the resampler takes. It places its samples with
/// single-precision arithmetic, which is exact to half a pixel up to this
/// length; beyond it a sample may fall where no pixel has any weight.
pub const MAX_DIMENSION: u32 = 0x40_0000;

/// Width and height of a decoded image.
pub uninterp spec fn spec_dimensions(image: DynamicImage) -> (u32, u32);

/// The bytes of the image as eight-bit red, green and blue.
pub uninterp spec fn spec_rgb8(image: DynamicImage) -> Seq<u8>;

/// The bytes of the image as eight-bit red, green, blue and alpha.
pub uninterp spec fn spec_rgba8(image: DynamicImage) -> Seq<u8>;

/// The bytes of the image as eight-bit luminance.
pub uninterp spec fn spec_luma8(image: DynamicImage) -> Seq<u8>;

/// The bytes of the image as eight-bit luminance and alpha.
pub uninterp spec fn spec_luma_alpha8(image: DynamicImage) -> Seq<u8>;

/// The decoded image over the bytes of a grid of red, green and blue.
pub uninterp spec fn spec_image_rgb8(width: u32, height: u32, raw: Seq<u8>) -> DynamicImage;

/// The decoded image over the bytes of a grid of red, green, blue and
/// alpha.
pub uninterp spec fn spec_image_rgba8(width: u32, height: u32, raw: Seq<u8>) -> DynamicImage;

/// The decoded image over the bytes of a grid of luminance.
pub uninterp spec fn spec_image_luma8(width: u32, height: u32, raw: Seq<u8>) -> DynamicImage;

/// The decoded image over the bytes of a grid of luminance and alpha.
pub uninterp spec fn spec_image_luma_alpha8(width: u32, height: u32, raw: Seq<u8>) -> DynamicImage;

/// The image resampled to exactly the given size with the given filter.
pub uninterp spec fn spec_resize_exact(
    image: DynamicImage,
    nwidth: u32,
    nheight: u32,
    filter: Filter,
) -> DynamicImage;

/// The image with each pixel replaced by its luminance.
pub uninterp spec fn spec_grayscale(image: DynamicImage) -> DynamicImage;

/// Whether an image of size `from` can be resampled to the size `to`: the
/// image holds a pixel, no side is longer than `MAX_DIMENSION`, and both the
/// result and the image that stands between the two passes, which has the old
/// width and the new height, can be allocated.
pub open spec fn spec_can_resample(from: (u32, u32), to: (u32, u32)) -> bool {
    &&& 1 <= from.0 <= MAX_DIMENSION
    &&& 1 <= from.1 <= MAX_DIMENSION
    &&& to.0 <= MAX_DIMENSION
    &&& to.1 <= MAX_DIMENSION
    &&& Raster::size_fits(from.0, to.1)
    &&& Raster::size_fits(to.0, to.1)
}

/// Whether an image of size `from` can be resampled to the size `to`.
pub fn can_resample(from: (u32, u32), to: (u32, u32)) -> (can: bool)
    ensures
        can == spec_can_resample(from, to),
{
    1 <= from.0 && from.0 <= MAX_DIMENSION && 1 <= from.1 && from.1 <= MAX_DIMENSION && to.0
        <= MAX_DIMENSION && to.1 <= MAX_DIMENSION && size_fits(from.0, to.1) && size_fits(
        to.0,
        to.1,
    )
}

/// `GenericImageView::dimensions`: width and height of the image.
#[verifier::external_body]
pub(crate) fn dimensions(image: &DynamicImage) -> (size: (u32, u32))
    ensures
        size == spec_dimensions(*image),
{
    image::GenericImageView::dimensions(image)
}

/// `image::load_from_memory`: the image that the bytes encode, in a format
/// that the decoder guesses from them, or the decoder's error. Nothing is
/// stated of the outcome: a decoder may start threads, so the same bytes
/// need not decode alike on every machine.
#[verifier::external_body]
pub(crate) fn load_from_memory(buffer: &[u8]) -> (decoded: Result<DynamicImage, ImageError>) {
    image::load_from_memory(buffer)
}

/// `DynamicImage::to_rgb8`: a copy of the image in which each pixel is
/// converted to three bytes. The copy is allocated at the size of the image, so
/// that size has to be one that can be allocated.
#[verifier::external_body]
pub(crate) fn to_rgb8(image: &DynamicImage) -> (raw: Vec<u8>)
    requires
        Raster::size_fits(spec_dimensions(*image).0, spec_dimensions(*image).1),
    ensures
        raw@ == spec_rgb8(*image),
        raw@.len() == spec_dimensions(*image).0 * spec_dimensions(*image).1 * 3,
{
    image.to_rgb8().into_raw()
}

/// `DynamicImage::to_rgba8`: as `to_rgb8`, with four bytes for each pixel.
#[verifier::external_body]
pub(crate) fn to_rgba8(image: &DynamicImage) -> (raw: Vec<u8>)
    requires
        Raster::size_fits(spec_dimensions(*image).0, spec_dimensions(*image).1),
    ensures
        raw@ == spec_rgba8(*image),
        raw@.len() == spec_dimensions(*image).0 * spec_dimensions(*image).1 * 4,
{
    image.to_rgba8().into_raw()
}

/// `DynamicImage::to_luma8`: as `to_rgb8`, with one byte for each pixel.
#[verifier::external_body]
pub(crate) fn to_luma8(image: &DynamicImage) -> (raw: Vec<u8>)
    requires
        Raster::size_fits(spec_dimensions(*image).0, spec_dimensions(*image).1),
    ensures
        raw@ == spec_luma8(*image),
        raw@.len() == spec_dimensions(*image).0 * spec_dimensions(*image).1 * 1,
{
    image.to_luma8().into_raw()
}

/// `DynamicImage::to_luma_alpha8`: as `to_rgb8`, with two bytes for each
/// pixel.
#[verifier::external_body]
pub(crate) fn to_luma_alpha8(image: &DynamicImage) -> (raw: Vec<u8>)
    requires
        Raster::size_fits(spec_dimensions(*image).0, spec_dimensions(*image).1),
    ensures
        raw@ == spec_luma_alpha8(*image),
        raw@.len() == spec_dimensions(*image).0 * spec_dimensions(*image).1 * 2,
{
    image.to_luma_alpha8().into_raw()
}

/// `ImageBuffer::from_raw` inside `DynamicImage::ImageRgb8`: the image of the
/// given size over the given bytes. Converting it to the format it already
/// has copies each pixel unchanged. The bytes of a row are counted before
/// those of the grid, so the size has to be one that can be held.
#[verifier::external_body]
pub(crate) fn from_rgb8(width: u32, height: u32, raw: Vec<u8>) -> (image: DynamicImage)
    requires
        raw@.len() == width * height * 3,
        Raster::size_fits(width, height),
    ensures
        image == spec_image_rgb8(width, height, raw@),
        spec_dimensions(image) == (width, height),
        spec_rgb8(image) == raw@,
{
    DynamicImage::ImageRgb8(image::ImageBuffer::from_raw(width, height, raw).unwrap())
}

/// `ImageBuffer::from_raw` inside `DynamicImage::ImageRgba8`: as `from_rgb8`.
#[verifier::external_body]
pub(crate) fn from_rgba8(width: u32, height: u32, raw: Vec<u8>) -> (image: DynamicImage)
    requires
        raw@.len() == width * height * 4,
        Raster::size_fits(width, height),
    ensures
        image == spec_image_rgba8(width, height, raw@),
        spec_dimensions(image) == (width, height),
        spec_rgba8(image) == raw@,
{
    DynamicImage::ImageRgba8(image::ImageBuffer::from_raw(width, height, raw).unwrap())
}

/// `ImageBuffer::from_raw` inside `DynamicImage::ImageLuma8`: as `from_rgb8`.
#[verifier::external_body]
pub(crate) fn from_luma8(width: u32, height: u32, raw: Vec<u8>) -> (image: DynamicImage)
    requires
        raw@.len() == width * height * 1,
        Raster::size_fits(width, height),
    ensures
        image == spec_image_luma8(width, height, raw@),
        spec_dimensions(image) == (width, height),
        spec_luma8(image) == raw@,
{
    DynamicImage::ImageLuma8(image::ImageBuffer::from_raw(width, height, raw).unwrap())
}

/// `ImageBuffer::from_raw` inside `DynamicImage::ImageLumaA8`: as
/// `from_rgb8`.
#[verifier::external_body]
pub(crate) fn from_luma_alpha8(width: u32, height: u32, raw: Vec<u8>) -> (image: DynamicImage)
    requires
        raw@.len() == width * height * 2,
        Raster::size_fits(width, height),
    ensures
        image == spec_image_luma_alpha8(width, height, raw@),
        spec_dimensions(image) == (width, height),
        spec_luma_alpha8(image) == raw@,
{
    DynamicImage::ImageLumaA8(image::ImageBuffer::from_raw(width, height, raw).unwrap())
}

/// `DynamicImage::resize_exact` with the Catmull-Rom filter: the image
/// resampled to exactly the given size. For each of its two passes it
/// allocates an image, and it divides by the sum of the weights of the pixels
/// that a sample sees, which is why the sizes have to be such as
/// `spec_can_resample` admits.
#[verifier::external_body]
pub(crate) fn resize_catmull_rom(image: &DynamicImage, nwidth: u32, nheight: u32) -> (out:
    DynamicImage)
    requires
        spec_can_resample(spec_dimensions(*image), (nwidth, nheight)),
    ensures
        out == spec_resize_exact(*image, nwidth, nheight, Filter::CatmullRom),
        spec_dimensions(out) == (nwidth, nheight),
{
    image.resize_exact(nwidth, nheight, image::imageops::FilterType::CatmullRom)
}

/// `DynamicImage::resize_exact` with the Gaussian filter: as
/// `resize_catmull_rom`.
#[verifier::external_body]
pub(crate) fn resize_gaussian(image: &DynamicImage, nwidth: u32, nheight: u32) -> (out:
    DynamicImage)
    requires
        spec_can_resample(spec_dimensions(*image), (nwidth, nheight)),
    ensures
        out == spec_resize_exact(*image, nwidth, nheight, Filter::Gaussian),
        spec_dimensions(out) == (nwidth, nheight),
{
    image.resize_exact(nwidth, nheight, image::imageops::FilterType::Gaussian)
}

/// `DynamicImage::resize_exact` with the triangle filter: as
/// `resize_catmull_rom`.
#[verifier::external_body]
pub(crate) fn resize_triangle(image: &DynamicImage, nwidth: u32, nheight: u32) -> (out:
    DynamicImage)
    requires
        spec_can_resample(spec_dimensions(*image), (nwidth, nheight)),
    ensures
        out == spec_resize_exact(*image, nwidth, nheight, Filter::Triangle),
        spec_dimensions(out) == (nwidth, nheight),
{
    image.resize_exact(nwidth, nheight, image::imageops::FilterType::Triangle)
}

/// `DynamicImage::grayscale`: an image of the same size that holds the
/// luminance of each pixel.
#[verifier::external_body]
pub(crate) fn grayscale(image: &DynamicImage) -> (out: DynamicImage)
    ensures
        out == spec_grayscale(*image),
        spec_dimensions(out) == spec_dimensions(*image),
{
    image.grayscale()
}

} // verus!
