//! Image pyramids: a buffer and ever more blurred copies of it, all of one
//! size, the most blurred first.

use vstd::prelude::*;
use crate::buffer::Raster;
use crate::buffer::SynthPixelBuffer;
use crate::imaging::resize_gaussian;
use crate::imaging::spec_dimensions;
use crate::imaging::spec_resize_exact;
use crate::imaging::Filter;
use crate::imaging::MAX_DIMENSION;
use crate::pixel::spec_uniform;
use crate::pixel::SynthPixel;

verus! {

/// Two to the power of `exponent`.
pub open spec fn spec_pow2(exponent: nat) -> nat
    decreases exponent,
{
    if exponent == 0 {
        1
    } else {
        2 * spec_pow2((exponent - 1) as nat)
    }
}

/// The number of times that `n` can be halved before it is one: the whole
/// part of the binary logarithm of `n`, and zero for zero.
pub open spec fn spec_floor_log2(n: nat) -> nat
    decreases n,
{
    if n <= 1 {
        0
    } else {
        1 + spec_floor_log2(n / 2)
    }
}

/// `spec_floor_log2(n)` is the exponent of the greatest power of two that is
/// not above `n`.
pub proof fn lemma_floor_log2(n: nat)
    requires
        n >= 1,
    ensures
        spec_pow2(spec_floor_log2(n)) <= n < 2 * spec_pow2(spec_floor_log2(n)),
    decreases n,
{
    if n > 1 {
        lemma_floor_log2(n / 2);
    }
}

/// Powers of two grow with the exponent, and are at least one.
pub proof fn lemma_pow2_monotonic(low: nat, high: nat)
    requires
        low <= high,
    ensures
        1 <= spec_pow2(low) <= spec_pow2(high),
    decreases high,
{
    if high == 0 {
    } else if low == high {
        lemma_pow2_monotonic((low - 1) as nat, (high - 1) as nat);
    } else {
        lemma_pow2_monotonic(low, (high - 1) as nat);
    }
}

/// A number of thirty-two bits has a logarithm below thirty-two.
pub proof fn lemma_floor_log2_bound(n: u32)
    ensures
        spec_floor_log2(n as nat) <= 31,
{
    if n >= 1 {
        lemma_floor_log2(n as nat);
        if spec_floor_log2(n as nat) >= 32 {
            lemma_pow2_monotonic(32, spec_floor_log2(n as nat));
            assert(spec_pow2(32) == 0x1_0000_0000) by {
                reveal_with_fuel(spec_pow2, 33);
            }
        }
    }
}

/// The whole part of the binary logarithm of `n`, and zero for zero.
pub fn floor_log2(n: u32) -> (log: u32)
    ensures
        log == spec_floor_log2(n as nat),
        log <= 31,
{
    proof {
        lemma_floor_log2_bound(n);
    }
    let mut rest: u32 = n;
    let mut log: u32 = 0;
    while rest > 1
        invariant
            spec_floor_log2(n as nat) == log + spec_floor_log2(rest as nat),
            log + spec_floor_log2(rest as nat) <= 31,
        decreases rest,
    {
        rest = rest / 2;
        log = log + 1;
    }
    log
}

/// Two to the power of `exponent`.
pub fn pow2(exponent: u32) -> (power: u32)
    requires
        exponent <= 31,
    ensures
        power == spec_pow2(exponent as nat),
{
    proof {
        lemma_pow2_monotonic(exponent as nat, 31);
        assert(spec_pow2(31) == 0x8000_0000) by {
            reveal_with_fuel(spec_pow2, 32);
        }
    }
    let mut power: u32 = 1;
    let mut done: u32 = 0;
    while done < exponent
        invariant
            done <= exponent,
            power == spec_pow2(done as nat),
            spec_pow2(exponent as nat) <= 0x8000_0000,
        decreases exponent - done,
    {
        proof {
            lemma_pow2_monotonic((done + 1) as nat, exponent as nat);
        }
        power = power * 2;
        done = done + 1;
    }
    power
}

/// The number of levels of a pyramid over an image of the given size: the
/// number asked for, or else the whole part of the binary logarithm of the
/// longer side.
pub open spec fn spec_level_count(width: u32, height: u32, levels: Option<u32>) -> u32 {
    match levels {
        Some(n) => n,
        None => spec_floor_log2(
            if width >= height {
                width as nat
            } else {
                height as nat
            },
        ) as u32,
    }
}

/// The number of levels of a pyramid over an image of the given size.
pub fn level_count(width: u32, height: u32, levels: Option<u32>) -> (count: u32)
    ensures
        count == spec_level_count(width, height, levels),
{
    match levels {
        Some(n) => n,
        None => {
            if width >= height {
                floor_log2(width)
            } else {
                floor_log2(height)
            }
        },
    }
}

/// Whether a pyramid of `levels` levels can be built over an image of the
/// given size: where a level is to be blurred at all, the image can be
/// resampled, and halving each side once for each level above the first still
/// leaves a pixel.
pub open spec fn spec_pyramid_fits(width: u32, height: u32, levels: u32) -> bool {
    levels >= 2 ==> {
        &&& width <= MAX_DIMENSION
        &&& height <= MAX_DIMENSION
        &&& spec_pow2((levels - 1) as nat) <= width
        &&& spec_pow2((levels - 1) as nat) <= height
    }
}

/// Whether a pyramid of `levels` levels can be built over an image of the
/// given size.
pub fn pyramid_fits(width: u32, height: u32, levels: u32) -> (fits: bool)
    ensures
        fits == spec_pyramid_fits(width, height, levels),
{
    if levels < 2 {
        return true;
    }
    if levels - 1 > 22 {
        proof {
            lemma_pow2_monotonic(23, (levels - 1) as nat);
            assert(spec_pow2(23) == 0x80_0000) by {
                reveal_with_fuel(spec_pow2, 24);
            }
        }
        return false;
    }
    let coarsest: u32 = pow2(levels - 1);
    width <= MAX_DIMENSION && height <= MAX_DIMENSION && coarsest <= width && coarsest <= height
}

/// The buffer `raster` sampled down by `factor` and up again to its own
/// size, both times with the Gaussian filter.
pub open spec fn spec_blurred<P: SynthPixel>(raster: Raster, factor: nat) -> Raster {
    spec_uniform::<P>(
        spec_resize_exact(
            spec_resize_exact(
                P::spec_image(raster),
                (raster.width as nat / factor) as u32,
                (raster.height as nat / factor) as u32,
                Filter::Gaussian,
            ),
            raster.width,
            raster.height,
            Filter::Gaussian,
        ),
    )
}

/// Level `index` of the pyramid of `levels` levels over `raster`: the last
/// level is the buffer itself, and each level before it is blurred by twice
/// the factor of the next.
pub open spec fn spec_level<P: SynthPixel>(raster: Raster, levels: u32, index: int) -> Raster {
    if index >= levels - 1 {
        raster
    } else {
        spec_blurred::<P>(raster, spec_pow2((levels - 1 - index) as nat))
    }
}

/// A buffer and its blurred copies, the most blurred first and the buffer
/// itself last.
#[derive(Clone)]
pub struct ImagePyramid<P: SynthPixel> {
    pub pyramid: Vec<SynthPixelBuffer<P>>,
    pub levels: u32,
}

impl<P: SynthPixel> ImagePyramid<P> {
    /// Every level is a buffer of the size of the last.
    pub open spec fn spec_same_size(pyramid: Seq<SynthPixelBuffer<P>>) -> bool {
        forall|i: int|
            0 <= i < pyramid.len() ==> {
                &&& (#[trigger] pyramid[i]).wf()
                &&& pyramid[i]@.width == pyramid.last()@.width
                &&& pyramid[i]@.height == pyramid.last()@.height
            }
    }

    /// The pyramid has as many levels as it says, at least one, and all of one
    /// size.
    pub open spec fn wf(&self) -> bool {
        &&& self.levels >= 1
        &&& self.pyramid@.len() == self.levels
        &&& Self::spec_same_size(self.pyramid@)
    }

    /// The pyramid over `in_img`, of `levels` levels or else of as many as the
    /// binary logarithm of its longer side. Asked for no level, it still holds
    /// the image.
    pub fn new(in_img: SynthPixelBuffer<P>, levels: Option<u32>) -> (pyr: Self)
        requires
            in_img.wf(),
            spec_pyramid_fits(
                in_img@.width,
                in_img@.height,
                spec_level_count(in_img@.width, in_img@.height, levels),
            ),
        ensures
            pyr.levels == spec_level_count(in_img@.width, in_img@.height, levels),
            pyr.pyramid@.len() == if pyr.levels == 0 {
                1
            } else {
                pyr.levels as int
            },
            Self::spec_same_size(pyr.pyramid@),
            forall|k: int|
                0 <= k < pyr.pyramid@.len() ==> (#[trigger] pyr.pyramid@[k])@ == spec_level::<P>(
                    in_img@,
                    pyr.levels,
                    k,
                ),
            pyr.pyramid@.last()@ == in_img@,
            pyr.levels >= 1 ==> pyr.wf(),
    {
        let (dimx, dimy) = in_img.dimensions();
        let lvls: u32 = level_count(dimx, dimy, levels);
        ImagePyramid { pyramid: Self::build_gaussian(lvls, in_img), levels: lvls }
    }

    /// The levels of the pyramid over `in_img`: for each level but the last
    /// the image sampled down by a power of two and up again, then the image.
    fn build_gaussian(in_lvls: u32, in_img: SynthPixelBuffer<P>) -> (imgs: Vec<
        SynthPixelBuffer<P>,
    >)
        requires
            in_img.wf(),
            spec_pyramid_fits(in_img@.width, in_img@.height, in_lvls),
        ensures
            imgs@.len() == if in_lvls == 0 {
                1
            } else {
                in_lvls as int
            },
            Self::spec_same_size(imgs@),
            forall|k: int|
                0 <= k < imgs@.len() ==> (#[trigger] imgs@[k])@ == spec_level::<P>(
                    in_img@,
                    in_lvls,
                    k,
                ),
            imgs@.last()@ == in_img@,
    {
        let mut imgs: Vec<SynthPixelBuffer<P>> = Vec::new();
        let (dimx, dimy) = in_img.dimensions();

        if in_lvls >= 2 {
            proof {
                if in_lvls - 1 >= 23 {
                    lemma_pow2_monotonic(23, (in_lvls - 1) as nat);
                    assert(spec_pow2(23) == 0x80_0000) by {
                        reveal_with_fuel(spec_pow2, 24);
                    }
                }
            }
            let source = P::into_dynamic_image(in_img.clone());
            let mut i: u32 = in_lvls - 1;
            let mut p: u32 = pow2(i);
            while i >= 1
                invariant
                    i < in_lvls,
                    in_lvls - 1 <= 22,
                    p == spec_pow2(i as nat),
                    in_img.wf(),
                    in_img@.width == dimx,
                    in_img@.height == dimy,
                    spec_dimensions(source) == (dimx, dimy),
                    source == P::spec_image(in_img@),
                    spec_pyramid_fits(dimx, dimy, in_lvls),
                    imgs@.len() == in_lvls - 1 - i,
                    forall|k: int|
                        0 <= k < imgs@.len() ==> {
                            &&& (#[trigger] imgs@[k]).wf()
                            &&& imgs@[k]@.width == dimx
                            &&& imgs@[k]@.height == dimy
                            &&& imgs@[k]@ == spec_level::<P>(in_img@, in_lvls, k)
                        },
                decreases i,
            {
                proof {
                    lemma_pow2_monotonic(i as nat, (in_lvls - 1) as nat);
                    lemma_smaller_fits(dimx, dimy, dimx, dimy / p);
                    lemma_smaller_fits(dimx, dimy, dimx / p, dimy / p);
                    lemma_smaller_fits(dimx, dimy, dimx / p, dimy);
                    assert(dimx / p >= 1 && dimy / p >= 1) by (nonlinear_arith)
                        requires
                            1 <= p <= dimx,
                            p <= dimy,
                    ;
                }
                let small = resize_gaussian(&source, dimx / p, dimy / p);
                let blurred = resize_gaussian(&small, dimx, dimy);
                imgs.push(P::from_dynamic_image(blurred));
                i = i - 1;
                p = p / 2;
            }
        }
        imgs.push(in_img);
        imgs
    }

    /// The last level: the image that the pyramid was built over.
    pub fn bottom(&self) -> (bottom: &SynthPixelBuffer<P>)
        requires
            self.wf(),
        ensures
            *bottom == self.pyramid@.last(),
    {
        &self.pyramid[self.levels as usize - 1]
    }
}

/// A grid that is no wider and no higher than one that can be allocated can
/// be allocated.
pub proof fn lemma_smaller_fits(width: u32, height: u32, smaller_width: u32, smaller_height: u32)
    requires
        Raster::size_fits(width, height),
        smaller_width <= width,
        smaller_height <= height,
    ensures
        Raster::size_fits(smaller_width, smaller_height),
{
    assert(smaller_width * smaller_height <= width * height) by (nonlinear_arith)
        requires
            0 <= smaller_width <= width,
            0 <= smaller_height <= height,
    ;
    assert(smaller_width * 8 <= width * 8 && smaller_height * 8 <= height * 8);
}

} // verus!
