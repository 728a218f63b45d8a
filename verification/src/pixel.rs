//! Pixel formats and the symmetric byte scaling used to weight colour by
//! alpha.

use vstd::prelude::*;
use vstd::slice::slice_subrange;
use image::DynamicImage;
use crate::buffer::Raster;
use crate::buffer::SynthPixelBuffer;
use crate::imaging::dimensions;
use crate::imaging::from_luma8;
use crate::imaging::from_luma_alpha8;
use crate::imaging::from_rgb8;
use crate::imaging::from_rgba8;
use crate::imaging::spec_dimensions;
use crate::imaging::spec_image_luma8;
use crate::imaging::spec_image_luma_alpha8;
use crate::imaging::spec_image_rgb8;
use crate::imaging::spec_image_rgba8;
use crate::imaging::spec_luma8;
use crate::imaging::spec_luma_alpha8;
use crate::imaging::spec_rgb8;
use crate::imaging::spec_rgba8;
use crate::imaging::to_luma8;
use crate::imaging::to_luma_alpha8;
use crate::imaging::to_rgb8;
use crate::imaging::to_rgba8;

verus! {

/// Number of steps that make up the value one in a [`Normalized`] fraction.
pub const NORMALIZED_ONE: u32 = 0x4_0000;

/// A fraction held as a count of steps of `1 / NORMALIZED_ONE`.
///
/// A byte `b` stands for the centre of its bucket, `(b + 1/2) / 256`, so that
/// the mapping is symmetric: no byte sits on zero or on one.
#[derive(Clone, Copy, Debug)]
pub struct Normalized {
    /// How many steps of `1 / NORMALIZED_ONE` the fraction holds.
    pub steps: u32,
}

/// The steps of the fraction `(b + 1/2) / 256`.
pub open spec fn spec_normalized_from_byte(b: u8) -> int {
    1024 * b + 512
}

/// `floor(256 * steps / NORMALIZED_ONE)`, held to the range of a byte.
pub open spec fn spec_byte_from_normalized(steps: int) -> int {
    if steps / 1024 > 255 {
        255
    } else if steps < 0 {
        0
    } else {
        steps / 1024
    }
}

/// A colour byte weighted by an alpha byte: both are normalised, multiplied,
/// and the product is scaled back to a byte.
pub open spec fn spec_premultiplied(color: u8, alpha: u8) -> int {
    ((2 * color + 1) * (2 * alpha + 1)) / 1024
}

/// The fraction `(b + 1/2) / 256` that stands for the byte `b`.
pub fn normalized_from_byte(b: u8) -> (x: Normalized)
    ensures
        x.steps == spec_normalized_from_byte(b),
{
    let wide: u32 = b as u32;
    Normalized { steps: 1024 * wide + 512 }
}

/// The byte whose bucket holds the fraction `x`: `floor(256 * x)`, and 255
/// for any fraction of one or more.
pub fn byte_from_normalized(x: Normalized) -> (b: u8)
    ensures
        b == spec_byte_from_normalized(x.steps as int),
{
    let scaled: u32 = x.steps / 1024;
    if scaled > 255 {
        255
    } else {
        scaled as u8
    }
}

impl Normalized {
    /// The product of two fractions, rounded down to a whole step.
    pub fn scale(self, other: Normalized) -> (x: Normalized)
        requires
            self.steps <= NORMALIZED_ONE,
            other.steps <= NORMALIZED_ONE,
        ensures
            x.steps == (self.steps * other.steps) / (NORMALIZED_ONE as int),
            x.steps <= NORMALIZED_ONE,
    {
        let a: u64 = self.steps as u64;
        let b: u64 = other.steps as u64;
        assert(a * b <= 0x4_0000 * 0x4_0000) by (nonlinear_arith)
            requires
                a <= 0x4_0000,
                b <= 0x4_0000,
        ;
        let product: u64 = a * b;
        let steps: u64 = product / 0x4_0000;
        Normalized { steps: steps as u32 }
    }
}

/// The product of the fractions of `color` and `alpha` is a whole number of
/// steps, so nothing is lost between the product and the byte taken from it.
pub proof fn lemma_premultiplied_exact(color: u8, alpha: u8)
    ensures
        spec_normalized_from_byte(color) * spec_normalized_from_byte(alpha) == (2 * color + 1) * (2
            * alpha + 1) * (NORMALIZED_ONE as int),
        0 <= spec_premultiplied(color, alpha) <= 255,
        spec_byte_from_normalized(
            (spec_normalized_from_byte(color) * spec_normalized_from_byte(alpha)) / (
            NORMALIZED_ONE as int),
        ) == spec_premultiplied(color, alpha),
{
    let c = 2 * color + 1;
    let a = 2 * alpha + 1;
    assert((512 * c) * (512 * a) == c * a * 0x4_0000) by (nonlinear_arith);
    assert(0 <= c * a <= 511 * 511) by (nonlinear_arith)
        requires
            0 <= c <= 511,
            0 <= a <= 511,
    ;
    assert((c * a * 0x4_0000) / 0x4_0000 == c * a) by (nonlinear_arith);
}

/// Normalising a byte and scaling it back gives the byte again.
pub proof fn lemma_scaling_round_trip(b: u8)
    ensures
        spec_byte_from_normalized(spec_normalized_from_byte(b)) == b,
        -1 <= spec_byte_from_normalized(spec_normalized_from_byte(b)) - b <= 1,
{
}

/// A colour weighted by alpha never grows, and full alpha leaves it as it
/// is.
pub proof fn lemma_premultiplied_bounds(color: u8, alpha: u8)
    ensures
        0 <= spec_premultiplied(color, alpha) <= color,
        alpha == 255 ==> spec_premultiplied(color, alpha) == color,
{
    let c = 2 * color + 1;
    let a = 2 * alpha + 1;
    assert(0 <= c * a <= c * 511) by (nonlinear_arith)
        requires
            0 <= c,
            0 <= a <= 511,
    ;
    if alpha == 255 {
        assert(c * a == c * 511) by (nonlinear_arith)
            requires
                a == 511,
        ;
    }
}

/// `color` weighted by `alpha`: `floor(256 * ((color + 1/2) / 256) * ((alpha +
/// 1/2) / 256))`.
pub fn premultiplied(color: u8, alpha: u8) -> (weighted: u8)
    ensures
        weighted == spec_premultiplied(color, alpha),
        weighted <= color,
        alpha == 255 ==> weighted == color,
{
    proof {
        lemma_premultiplied_exact(color, alpha);
        lemma_premultiplied_bounds(color, alpha);
    }
    let product = normalized_from_byte(alpha).scale(normalized_from_byte(color));
    assert(product.steps == ((1024 * alpha + 512) * (1024 * color + 512)) / 0x4_0000);
    assert((1024 * alpha + 512) * (1024 * color + 512) == (1024 * color + 512) * (1024 * alpha
        + 512)) by (nonlinear_arith);
    byte_from_normalized(product)
}

/// Number of colour channels of a format of `channels` bytes per pixel.
pub open spec fn spec_color_len(channels: nat, has_alpha: bool) -> nat {
    if has_alpha {
        (channels - 1) as nat
    } else {
        channels
    }
}

/// The colour channels of the pixel `bytes`.
pub open spec fn spec_colors(bytes: Seq<u8>, has_alpha: bool) -> Seq<u8> {
    bytes.take(spec_color_len(bytes.len(), has_alpha) as int)
}

/// The alpha of the pixel `bytes`, where its format has one.
pub open spec fn spec_alpha(bytes: Seq<u8>, has_alpha: bool) -> Option<u8> {
    if has_alpha {
        Some(bytes.last())
    } else {
        None
    }
}

/// The bytes of the opaque grey pixel of intensity `amt`.
pub open spec fn spec_greyscale(channels: nat, has_alpha: bool, amt: u8) -> Seq<u8> {
    Seq::new(
        channels,
        |i: int|
            if i < spec_color_len(channels, has_alpha) {
                amt
            } else {
                255u8
            },
    )
}

/// A colour as it counts when seen through `alpha`.
pub open spec fn spec_weighted(color: u8, alpha: Option<u8>) -> u8 {
    match alpha {
        Some(a) => spec_premultiplied(color, a) as u8,
        None => color,
    }
}

/// The colour channels of the pixel `bytes`, each weighted by its alpha.
pub open spec fn spec_written(bytes: Seq<u8>, has_alpha: bool) -> Seq<u8> {
    Seq::new(
        spec_color_len(bytes.len(), has_alpha),
        |i: int| spec_weighted(bytes[i], spec_alpha(bytes, has_alpha)),
    )
}

/// A pixel format: a fixed number of bytes per pixel, the colour channels
/// first and the alpha channel, where the format has one, last.
pub trait SynthPixel: Copy + Send + Sync + Sized + 'static {
    /// Bytes per pixel, alpha included.
    spec fn spec_channel_count() -> nat;

    /// Whether the last byte of a pixel is its alpha.
    spec fn spec_has_alpha() -> bool;

    /// The bytes of this pixel, in storage order.
    spec fn spec_channels(&self) -> Seq<u8>;

    /// The bytes that a decoded image gives when it is converted to this
    /// format.
    spec fn spec_converted(image: DynamicImage) -> Seq<u8>;

    /// The decoded image that holds a grid of pixels of this format.
    spec fn spec_image(raster: Raster) -> DynamicImage;

    /// Every format has one to four channels, of which at least one is colour.
    proof fn lemma_format()
        ensures
            1 <= Self::spec_channel_count() <= 4,
            Self::spec_has_alpha() ==> Self::spec_channel_count() >= 2,
    ;

    /// A pixel holds as many bytes as its format says.
    proof fn lemma_channels(&self)
        ensures
            self.spec_channels().len() == Self::spec_channel_count(),
    ;

    /// The decoded image that holds the pixels of `buffer`.
    fn into_dynamic_image(buffer: SynthPixelBuffer<Self>) -> (image: DynamicImage)
        requires
            buffer@.well_formed(Self::spec_channel_count()),
        ensures
            image == Self::spec_image(buffer@),
            spec_dimensions(image) == (buffer@.width, buffer@.height),
            Self::spec_converted(image) == buffer@.samples,
    ;

    /// The pixels of `image`, each converted to this format.
    fn from_dynamic_image(image: DynamicImage) -> (buffer: SynthPixelBuffer<Self>)
        requires
            Raster::size_fits(spec_dimensions(image).0, spec_dimensions(image).1),
        ensures
            buffer@.well_formed(Self::spec_channel_count()),
            buffer@.width == spec_dimensions(image).0,
            buffer@.height == spec_dimensions(image).1,
            buffer@.samples == Self::spec_converted(image),
    ;

    /// The colour channels, without alpha.
    fn colors(&self) -> (colors: &[u8])
        ensures
            colors@ == spec_colors(self.spec_channels(), Self::spec_has_alpha()),
    ;

    /// The alpha channel, where the format has one.
    fn alpha(&self) -> (alpha: Option<u8>)
        ensures
            alpha == spec_alpha(self.spec_channels(), Self::spec_has_alpha()),
    ;

    /// Number of colour channels.
    fn color_len() -> (n: usize)
        ensures
            n == spec_color_len(Self::spec_channel_count(), Self::spec_has_alpha()),
    ;

    /// The opaque grey pixel of intensity `amt`.
    fn greyscale(amt: u8) -> (pixel: Self)
        ensures
            pixel.spec_channels() == spec_greyscale(
                Self::spec_channel_count(),
                Self::spec_has_alpha(),
                amt,
            ),
    ;

    /// Writes the colour channels to the front of `slice`, each weighted by
    /// alpha where the format has alpha. A colour never grows by it, and at
    /// full alpha it is unchanged.
    fn write(&self, slice: &mut [u8])
        requires
            old(slice)@.len() >= spec_color_len(Self::spec_channel_count(), Self::spec_has_alpha()),
        ensures
            final(slice)@ == spec_written(self.spec_channels(), Self::spec_has_alpha()) + old(
                slice,
            )@.skip(spec_color_len(Self::spec_channel_count(), Self::spec_has_alpha()) as int),
            forall|i: int|
                0 <= i < spec_color_len(Self::spec_channel_count(), Self::spec_has_alpha())
                    ==> final(slice)@[i] <= self.spec_channels()[i],
            spec_alpha(self.spec_channels(), Self::spec_has_alpha()) != Some(255u8) || forall|
                i: int,
            |
                0 <= i < spec_color_len(Self::spec_channel_count(), Self::spec_has_alpha())
                    ==> final(slice)@[i] == self.spec_channels()[i],
    ;

    /// Bytes per pixel, alpha included.
    fn channel_count() -> (n: usize)
        ensures
            n == Self::spec_channel_count(),
    ;

    /// The pixel stored in `raw`.
    fn from_slice(raw: &[u8]) -> (pixel: Self)
        requires
            raw@.len() == Self::spec_channel_count(),
        ensures
            pixel.spec_channels() == raw@,
    ;

    /// The bytes of this pixel, in storage order.
    fn channels(&self) -> (raw: &[u8])
        ensures
            raw@ == self.spec_channels(),
    ;
}

/// Red, green, blue and alpha.
#[derive(Clone, Copy, Debug, PartialEq, Eq)]
pub struct Rgba(pub [u8; 4]);

impl SynthPixel for Rgba {
    open spec fn spec_channel_count() -> nat {
        4
    }

    open spec fn spec_has_alpha() -> bool {
        true
    }

    open spec fn spec_channels(&self) -> Seq<u8> {
        self.0@
    }

    open spec fn spec_converted(image: DynamicImage) -> Seq<u8> {
        spec_rgba8(image)
    }

    open spec fn spec_image(raster: Raster) -> DynamicImage {
        spec_image_rgba8(raster.width, raster.height, raster.samples)
    }

    proof fn lemma_format() {
    }

    proof fn lemma_channels(&self) {
    }

    fn into_dynamic_image(buffer: SynthPixelBuffer<Self>) -> (image: DynamicImage) {
        let (width, height) = buffer.dimensions();
        from_rgba8(width, height, buffer.into_raw())
    }

    fn from_dynamic_image(image: DynamicImage) -> (buffer: SynthPixelBuffer<Self>) {
        let (width, height) = dimensions(&image);
        let raw = to_rgba8(&image);
        SynthPixelBuffer::from_parts(width, height, raw)
    }

    fn colors(&self) -> (colors: &[u8]) {
        slice_subrange(self.0.as_slice(), 0, 3)
    }

    fn alpha(&self) -> (alpha: Option<u8>) {
        Some(self.0[3])
    }

    fn color_len() -> (n: usize) {
        3
    }

    fn greyscale(amt: u8) -> (pixel: Self) {
        let pixel = Rgba([amt, amt, amt, 255]);
        assert(pixel.0@ =~= spec_greyscale(4, true, amt));
        pixel
    }

    fn write(&self, slice: &mut [u8]) {
        let alpha: u8 = self.0[3];
        slice[0] = premultiplied(self.0[0], alpha);
        slice[1] = premultiplied(self.0[1], alpha);
        slice[2] = premultiplied(self.0[2], alpha);
        assert(slice@ =~= spec_written(self.0@, true) + old(slice)@.skip(3));
    }

    fn channel_count() -> (n: usize) {
        4
    }

    fn from_slice(raw: &[u8]) -> (pixel: Self) {
        let pixel = Rgba([raw[0], raw[1], raw[2], raw[3]]);
        assert(pixel.0@ =~= raw@);
        pixel
    }

    fn channels(&self) -> (raw: &[u8]) {
        self.0.as_slice()
    }
}

/// Red, green and blue.
#[derive(Clone, Copy, Debug, PartialEq, Eq)]
pub struct Rgb(pub [u8; 3]);

impl SynthPixel for Rgb {
    open spec fn spec_channel_count() -> nat {
        3
    }

    open spec fn spec_has_alpha() -> bool {
        false
    }

    open spec fn spec_channels(&self) -> Seq<u8> {
        self.0@
    }

    open spec fn spec_converted(image: DynamicImage) -> Seq<u8> {
        spec_rgb8(image)
    }

    open spec fn spec_image(raster: Raster) -> DynamicImage {
        spec_image_rgb8(raster.width, raster.height, raster.samples)
    }

    proof fn lemma_format() {
    }

    proof fn lemma_channels(&self) {
    }

    fn into_dynamic_image(buffer: SynthPixelBuffer<Self>) -> (image: DynamicImage) {
        let (width, height) = buffer.dimensions();
        from_rgb8(width, height, buffer.into_raw())
    }

    fn from_dynamic_image(image: DynamicImage) -> (buffer: SynthPixelBuffer<Self>) {
        let (width, height) = dimensions(&image);
        let raw = to_rgb8(&image);
        SynthPixelBuffer::from_parts(width, height, raw)
    }

    fn colors(&self) -> (colors: &[u8]) {
        slice_subrange(self.0.as_slice(), 0, 3)
    }

    fn alpha(&self) -> (alpha: Option<u8>) {
        None
    }

    fn color_len() -> (n: usize) {
        3
    }

    fn greyscale(amt: u8) -> (pixel: Self) {
        let pixel = Rgb([amt, amt, amt]);
        assert(pixel.0@ =~= spec_greyscale(3, false, amt));
        pixel
    }

    fn write(&self, slice: &mut [u8]) {
        slice[0] = self.0[0];
        slice[1] = self.0[1];
        slice[2] = self.0[2];
        assert(slice@ =~= spec_written(self.0@, false) + old(slice)@.skip(3));
    }

    fn channel_count() -> (n: usize) {
        3
    }

    fn from_slice(raw: &[u8]) -> (pixel: Self) {
        let pixel = Rgb([raw[0], raw[1], raw[2]]);
        assert(pixel.0@ =~= raw@);
        pixel
    }

    fn channels(&self) -> (raw: &[u8]) {
        self.0.as_slice()
    }
}

/// Luminance and alpha.
#[derive(Clone, Copy, Debug, PartialEq, Eq)]
pub struct LumaA(pub [u8; 2]);

impl SynthPixel for LumaA {
    open spec fn spec_channel_count() -> nat {
        2
    }

    open spec fn spec_has_alpha() -> bool {
        true
    }

    open spec fn spec_channels(&self) -> Seq<u8> {
        self.0@
    }

    open spec fn spec_converted(image: DynamicImage) -> Seq<u8> {
        spec_luma_alpha8(image)
    }

    open spec fn spec_image(raster: Raster) -> DynamicImage {
        spec_image_luma_alpha8(raster.width, raster.height, raster.samples)
    }

    proof fn lemma_format() {
    }

    proof fn lemma_channels(&self) {
    }

    fn into_dynamic_image(buffer: SynthPixelBuffer<Self>) -> (image: DynamicImage) {
        let (width, height) = buffer.dimensions();
        from_luma_alpha8(width, height, buffer.into_raw())
    }

    fn from_dynamic_image(image: DynamicImage) -> (buffer: SynthPixelBuffer<Self>) {
        let (width, height) = dimensions(&image);
        let raw = to_luma_alpha8(&image);
        SynthPixelBuffer::from_parts(width, height, raw)
    }

    fn colors(&self) -> (colors: &[u8]) {
        slice_subrange(self.0.as_slice(), 0, 1)
    }

    fn alpha(&self) -> (alpha: Option<u8>) {
        Some(self.0[1])
    }

    fn color_len() -> (n: usize) {
        1
    }

    fn greyscale(amt: u8) -> (pixel: Self) {
        let pixel = LumaA([amt, 255]);
        assert(pixel.0@ =~= spec_greyscale(2, true, amt));
        pixel
    }

    fn write(&self, slice: &mut [u8]) {
        let alpha: u8 = self.0[1];
        slice[0] = premultiplied(self.0[0], alpha);
        assert(slice@ =~= spec_written(self.0@, true) + old(slice)@.skip(1));
    }

    fn channel_count() -> (n: usize) {
        2
    }

    fn from_slice(raw: &[u8]) -> (pixel: Self) {
        let pixel = LumaA([raw[0], raw[1]]);
        assert(pixel.0@ =~= raw@);
        pixel
    }

    fn channels(&self) -> (raw: &[u8]) {
        self.0.as_slice()
    }
}

/// Luminance.
#[derive(Clone, Copy, Debug, PartialEq, Eq)]
pub struct Luma(pub [u8; 1]);

impl SynthPixel for Luma {
    open spec fn spec_channel_count() -> nat {
        1
    }

    open spec fn spec_has_alpha() -> bool {
        false
    }

    open spec fn spec_channels(&self) -> Seq<u8> {
        self.0@
    }

    open spec fn spec_converted(image: DynamicImage) -> Seq<u8> {
        spec_luma8(image)
    }

    open spec fn spec_image(raster: Raster) -> DynamicImage {
        spec_image_luma8(raster.width, raster.height, raster.samples)
    }

    proof fn lemma_format() {
    }

    proof fn lemma_channels(&self) {
    }

    fn into_dynamic_image(buffer: SynthPixelBuffer<Self>) -> (image: DynamicImage) {
        let (width, height) = buffer.dimensions();
        from_luma8(width, height, buffer.into_raw())
    }

    fn from_dynamic_image(image: DynamicImage) -> (buffer: SynthPixelBuffer<Self>) {
        let (width, height) = dimensions(&image);
        let raw = to_luma8(&image);
        SynthPixelBuffer::from_parts(width, height, raw)
    }

    fn colors(&self) -> (colors: &[u8]) {
        slice_subrange(self.0.as_slice(), 0, 1)
    }

    fn alpha(&self) -> (alpha: Option<u8>) {
        None
    }

    fn color_len() -> (n: usize) {
        1
    }

    fn greyscale(amt: u8) -> (pixel: Self) {
        let pixel = Luma([amt]);
        assert(pixel.0@ =~= spec_greyscale(1, false, amt));
        pixel
    }

    fn write(&self, slice: &mut [u8]) {
        slice[0] = self.0[0];
        assert(slice@ =~= spec_written(self.0@, false) + old(slice)@.skip(1));
    }

    fn channel_count() -> (n: usize) {
        1
    }

    fn from_slice(raw: &[u8]) -> (pixel: Self) {
        let pixel = Luma([raw[0]]);
        assert(pixel.0@ =~= raw@);
        pixel
    }

    fn channels(&self) -> (raw: &[u8]) {
        self.0.as_slice()
    }
}

/// The uniform buffer that a decoded image gives in the format `P`.
pub open spec fn spec_uniform<P: SynthPixel>(image: DynamicImage) -> Raster {
    Raster {
        width: spec_dimensions(image).0,
        height: spec_dimensions(image).1,
        samples: P::spec_converted(image),
    }
}

} // verus!
