//! The uniform pixel buffer: a row-major grid of pixels of one format, held
//! as bytes.

use vstd::prelude::*;
use core::marker::PhantomData;
use crate::pixel::SynthPixel;

verus! {

/// Bytes of the widest pixel that a decoded image can hold.
pub const MAX_PIXEL_BYTES: u32 = 8;

/// What a buffer holds: its size and its bytes, row by row, pixel by pixel.
pub struct Raster {
    pub width: u32,
    pub height: u32,
    pub samples: Seq<u8>,
}

impl Raster {
    /// Number of pixels of the grid.
    pub open spec fn pixel_count(self) -> int {
        self.width * self.height
    }

    /// Whether a grid of this size can be held and handed to the resampler:
    /// at its widest pixel format its bytes can still be allocated, and so
    /// can those of a single row or column, which are counted first and on
    /// their own even where the grid holds no pixel.
    pub open spec fn size_fits(width: u32, height: u32) -> bool {
        &&& width * MAX_PIXEL_BYTES <= isize::MAX
        &&& height * MAX_PIXEL_BYTES <= isize::MAX
        &&& width * height * MAX_PIXEL_BYTES <= isize::MAX
    }

    /// A raster of pixels of `channels` bytes each holds exactly the bytes of
    /// its grid.
    pub open spec fn well_formed(self, channels: nat) -> bool {
        &&& self.samples.len() == self.width * self.height * channels
        &&& Self::size_fits(self.width, self.height)
    }

    /// The bytes of the pixel at `index`, counted row by row.
    pub open spec fn pixel(self, channels: nat, index: int) -> Seq<u8> {
        self.samples.subrange(index * channels, (index + 1) * channels)
    }

    /// The first channel of the pixel at `index`.
    pub open spec fn first_channel(self, channels: nat, index: int) -> u8 {
        self.samples[index * channels]
    }

    /// The index of the pixel in column `x` of row `y`.
    pub open spec fn index_of(self, x: int, y: int) -> int {
        y * self.width + x
    }

    /// This raster with the pixel at `index` replaced by `bytes`.
    pub open spec fn with_pixel(self, index: int, bytes: Seq<u8>) -> Raster {
        Raster {
            width: self.width,
            height: self.height,
            samples: Seq::new(
                self.samples.len(),
                |j: int|
                    if index * bytes.len() <= j < (index + 1) * bytes.len() {
                        bytes[j - index * bytes.len()]
                    } else {
                        self.samples[j]
                    },
            ),
        }
    }
}

/// A pixel inside the grid has its bytes inside the buffer.
pub proof fn lemma_pixel_in_bounds(width: int, height: int, channels: int, x: int, y: int)
    requires
        0 <= x < width,
        0 <= y < height,
        0 <= channels,
    ensures
        0 <= y * width + x < width * height,
        0 <= (y * width + x) * channels,
        (y * width + x) * channels + channels <= width * height * channels,
{
    assert(y * width + x < width * height) by (nonlinear_arith)
        requires
            0 <= x < width,
            0 <= y < height,
    ;
    assert(0 <= y * width + x) by (nonlinear_arith)
        requires
            0 <= x < width,
            0 <= y < height,
    ;
    let index = y * width + x;
    let count = width * height;
    assert(index * channels + channels <= count * channels && 0 <= index * channels)
        by (nonlinear_arith)
        requires
            0 <= index < count,
            0 <= channels,
    ;
}

/// Replacing one pixel changes that pixel and no other.
pub proof fn lemma_with_pixel(raster: Raster, channels: nat, index: int, bytes: Seq<u8>, other: int)
    requires
        raster.well_formed(channels),
        bytes.len() == channels,
        0 <= index < raster.pixel_count(),
        0 <= other < raster.pixel_count(),
    ensures
        raster.with_pixel(index, bytes).well_formed(channels),
        raster.with_pixel(index, bytes).pixel(channels, other) == if other == index {
            bytes
        } else {
            raster.pixel(channels, other)
        },
{
    let count = raster.pixel_count();
    let c = channels as int;
    assert(0 <= other * c && (other + 1) * c <= count * c && (other + 1) * c == other * c + c)
        by (nonlinear_arith)
        requires
            0 <= other < count,
            0 <= c,
    ;
    assert(0 <= index * c && (index + 1) * c <= count * c && (index + 1) * c == index * c + c)
        by (nonlinear_arith)
        requires
            0 <= index < count,
            0 <= c,
    ;
    if other < index {
        assert((other + 1) * c <= index * c) by (nonlinear_arith)
            requires
                other < index,
                0 <= c,
        ;
    }
    if other > index {
        assert((index + 1) * c <= other * c) by (nonlinear_arith)
            requires
                other > index,
                0 <= c,
        ;
    }
    let changed = raster.with_pixel(index, bytes);
    if other == index {
        assert(changed.pixel(channels, other) =~= bytes);
    } else {
        assert(changed.pixel(channels, other) =~= raster.pixel(channels, other));
    }
}

/// Whether a grid of this size can be held: see `Raster::size_fits`.
pub fn size_fits(width: u32, height: u32) -> (fits: bool)
    ensures
        fits == Raster::size_fits(width, height),
{
    let w: u128 = width as u128;
    let h: u128 = height as u128;
    assert(w * h <= 0xffff_ffff * 0xffff_ffff) by (nonlinear_arith)
        requires
            w <= 0xffff_ffff,
            h <= 0xffff_ffff,
    ;
    let most: u128 = isize::MAX as u128;
    w * 8 <= most && h * 8 <= most && w * h * 8 <= most
}

/// A grid of pixels of the format `P`.
pub struct SynthPixelBuffer<P> {
    width: u32,
    height: u32,
    data: Vec<u8>,
    format: PhantomData<P>,
}

impl<P> View for SynthPixelBuffer<P> {
    type V = Raster;

    closed spec fn view(&self) -> Raster {
        Raster { width: self.width, height: self.height, samples: self.data@ }
    }
}

impl<P> Clone for SynthPixelBuffer<P> {
    fn clone(&self) -> (copy: Self)
        ensures
            copy@ == self@,
    {
        let data = self.data.clone();
        assert(data@ =~= self.data@);
        SynthPixelBuffer { width: self.width, height: self.height, data, format: PhantomData }
    }
}

impl<P> SynthPixelBuffer<P> {
    /// The buffer of the given size over `data`, unchecked.
    pub(crate) fn from_parts(width: u32, height: u32, data: Vec<u8>) -> (buffer: Self)
        ensures
            buffer@ == (Raster { width, height, samples: data@ }),
    {
        SynthPixelBuffer { width, height, data, format: PhantomData }
    }

    /// Width and height, in pixels.
    pub fn dimensions(&self) -> (size: (u32, u32))
        ensures
            size == (self@.width, self@.height),
    {
        (self.width, self.height)
    }

    /// Width in pixels.
    pub fn width(&self) -> (width: u32)
        ensures
            width == self@.width,
    {
        self.width
    }

    /// Height in pixels.
    pub fn height(&self) -> (height: u32)
        ensures
            height == self@.height,
    {
        self.height
    }

    /// The bytes of the buffer, row by row.
    pub fn as_raw(&self) -> (raw: &Vec<u8>)
        ensures
            raw@ == self@.samples,
    {
        &self.data
    }

    /// The bytes of the buffer, row by row.
    pub fn into_raw(self) -> (raw: Vec<u8>)
        ensures
            raw@ == self@.samples,
    {
        self.data
    }
}

impl<P: SynthPixel> SynthPixelBuffer<P> {
    /// The buffer holds exactly the bytes of its grid of pixels of `P`.
    pub open spec fn wf(&self) -> bool {
        self@.well_formed(P::spec_channel_count())
    }

    /// The buffer of the given size over `data`, where `data` holds exactly
    /// the bytes of such a grid and the grid is not too large to resample.
    pub fn from_raw(width: u32, height: u32, data: Vec<u8>) -> (buffer: Option<Self>)
        ensures
            buffer is Some <==> (Raster { width, height, samples: data@ }).well_formed(
                P::spec_channel_count(),
            ),
            buffer matches Some(b) ==> b.wf() && b@ == (Raster { width, height, samples: data@ }),
    {
        proof {
            P::lemma_format();
        }
        if !size_fits(width, height) {
            return None;
        }
        let pixels: usize = (width as usize) * (height as usize);
        let channels: usize = P::channel_count();
        assert(pixels * channels <= pixels * 8) by (nonlinear_arith)
            requires
                channels <= 8,
        ;
        if data.len() != pixels * channels {
            return None;
        }
        Some(SynthPixelBuffer { width, height, data, format: PhantomData })
    }

    /// The pixel in column `x` of row `y`.
    pub fn get_pixel(&self, x: u32, y: u32) -> (pixel: P)
        requires
            self.wf(),
            x < self@.width,
            y < self@.height,
        ensures
            pixel.spec_channels() == self@.pixel(
                P::spec_channel_count(),
                self@.index_of(x as int, y as int),
            ),
    {
        proof {
            P::lemma_format();
            lemma_pixel_in_bounds(
                self.width as int,
                self.height as int,
                P::spec_channel_count() as int,
                x as int,
                y as int,
            );
        }
        let channels: usize = P::channel_count();
        let index: usize = (y as usize) * (self.width as usize) + (x as usize);
        assert(index * channels + channels <= self.data.len()) by {
            assert(index == y as int * self.width as int + x as int);
            assert(self.data@.len() == self.width as int * self.height as int * channels as int);
        }
        let start: usize = index * channels;
        assert(start + channels == (index + 1) * channels) by (nonlinear_arith)
            requires
                start == index * channels,
        ;
        P::from_slice(vstd::slice::slice_subrange(self.data.as_slice(), start, start + channels))
    }

    /// Replaces the pixel in column `x` of row `y`.
    pub fn put_pixel(&mut self, x: u32, y: u32, pixel: P)
        requires
            old(self).wf(),
            x < old(self)@.width,
            y < old(self)@.height,
        ensures
            final(self).wf(),
            final(self)@ == old(self)@.with_pixel(
                old(self)@.index_of(x as int, y as int),
                pixel.spec_channels(),
            ),
    {
        proof {
            P::lemma_format();
            pixel.lemma_channels();
            lemma_pixel_in_bounds(
                self.width as int,
                self.height as int,
                P::spec_channel_count() as int,
                x as int,
                y as int,
            );
        }
        let channels: usize = P::channel_count();
        let index: usize = (y as usize) * (self.width as usize) + (x as usize);
        assert(index * channels + channels <= self.data.len()) by {
            assert(index == y as int * self.width as int + x as int);
            assert(self.data@.len() == self.width as int * self.height as int * channels as int);
        }
        let start: usize = index * channels;
        let bytes = pixel.channels();
        let mut k: usize = 0;
        while k < channels
            invariant
                k <= channels,
                channels == bytes@.len(),
                start == index * channels,
                start + channels <= self.data.len(),
                self.width == old(self).width,
                self.height == old(self).height,
                self.data@.len() == old(self).data@.len(),
                forall|j: int|
                    0 <= j < self.data@.len() ==> self.data@[j] == if start <= j < start + k {
                        bytes@[j - start]
                    } else {
                        old(self).data@[j]
                    },
            decreases channels - k,
        {
            self.data[start + k] = bytes[k];
            k += 1;
        }
        assert(self@.samples =~= old(self)@.with_pixel(index as int, bytes@).samples) by {
            assert(start + channels == (index + 1) * channels) by (nonlinear_arith)
                requires
                    start == index * channels,
            ;
        }
    }
}

} // verus!
