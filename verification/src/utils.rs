//! Loading: from an image source to a uniform buffer of the size asked
//! for, and the two ends of the making of a guide map.

use vstd::prelude::*;
use image::DynamicImage;
use image::ImageError;
use crate::buffer::size_fits;
use crate::buffer::Raster;
use crate::buffer::SynthPixelBuffer;
use crate::error::Error;
use crate::imaging::can_resample;
use crate::imaging::dimensions;
use crate::imaging::grayscale;
use crate::imaging::load_from_memory;
use crate::imaging::resize_catmull_rom;
use crate::imaging::resize_triangle;
use crate::imaging::spec_can_resample;
use crate::imaging::spec_dimensions;
use crate::imaging::spec_grayscale;
use crate::imaging::spec_resize_exact;
use crate::imaging::Filter;
use crate::pixel::spec_uniform;
use crate::pixel::SynthPixel;

verus! {

/// Where an image comes from.
pub enum ImageSource<'a> {
    /// The bytes of an encoded image.
    Memory(&'a [u8]),
    /// An image that is decoded already.
    Image(DynamicImage),
}

/// Whether an image of size `current` is resampled on loading: a size is
/// asked for, and it is not the size that the image has.
pub open spec fn spec_resamples(current: (u32, u32), resize: Option<(u32, u32)>) -> bool {
    resize matches Some(size) && size != current
}

/// Whether an image of size `current` can be loaded: it can be held, and
/// where it is resampled, it can be resampled.
pub open spec fn spec_loadable(current: (u32, u32), resize: Option<(u32, u32)>) -> bool {
    &&& Raster::size_fits(current.0, current.1)
    &&& resize matches Some(size) ==> size != current ==> spec_can_resample(current, size)
}

/// The buffer `uniform` resampled to `size` with the Catmull-Rom filter.
pub open spec fn spec_resampled<P: SynthPixel>(uniform: Raster, size: (u32, u32)) -> Raster {
    spec_uniform::<P>(
        spec_resize_exact(P::spec_image(uniform), size.0, size.1, Filter::CatmullRom),
    )
}

/// What loading gives for each outcome of decoding. A decoder's error is
/// handed on. An image that cannot be loaded is refused. An image of the size
/// asked for, or with no size asked for, is converted and nothing else. Any
/// other image is converted and then resampled to the size asked for.
pub open spec fn spec_loaded<P: SynthPixel>(
    decoded: Result<DynamicImage, ImageError>,
    resize: Option<(u32, u32)>,
    loaded: Result<SynthPixelBuffer<P>, Error>,
) -> bool {
    match decoded {
        Err(e) => loaded == Err::<SynthPixelBuffer<P>, Error>(Error::Image(e)),
        Ok(image) => {
            let current = spec_dimensions(image);
            if !spec_loadable(current, resize) {
                loaded == Err::<SynthPixelBuffer<P>, Error>(Error::UnsupportedSize)
            } else if spec_resamples(current, resize) {
                &&& loaded matches Ok(buffer)
                &&& buffer.wf()
                &&& (buffer@.width, buffer@.height) == resize->0
                &&& buffer@ == spec_resampled::<P>(spec_uniform::<P>(image), resize->0)
            } else {
                &&& loaded matches Ok(buffer)
                &&& buffer.wf()
                &&& buffer@ == spec_uniform::<P>(image)
            }
        },
    }
}

/// Turns the outcome of decoding into a uniform buffer of the size asked
/// for.
pub fn load_decoded<P: SynthPixel>(
    decoded: Result<DynamicImage, ImageError>,
    resize: Option<(u32, u32)>,
) -> (loaded: Result<SynthPixelBuffer<P>, Error>)
    ensures
        spec_loaded::<P>(decoded, resize, loaded),
{
    let img = match decoded {
        Ok(img) => img,
        Err(e) => {
            return Err(Error::Image(e));
        },
    };
    let current = dimensions(&img);
    if !size_fits(current.0, current.1) {
        return Err(Error::UnsupportedSize);
    }
    Ok(
        match resize {
            None => P::from_dynamic_image(img),
            Some(size) => {
                if current.0 != size.0 || current.1 != size.1 {
                    if !can_resample(current, size) {
                        return Err(Error::UnsupportedSize);
                    }
                    let uniform = P::into_dynamic_image(P::from_dynamic_image(img));
                    P::from_dynamic_image(resize_catmull_rom(&uniform, size.0, size.1))
                } else {
                    P::from_dynamic_image(img)
                }
            },
        },
    )
}

/// Loads an image as a uniform buffer of the format `P`, of the size
/// `resize` where one is given. Bytes are decoded first, and the outcome of
/// decoding is then loaded as `load_decoded` says; of a decoded image the
/// result is stated in full.
pub fn load_image<P: SynthPixel>(src: ImageSource<'_>, resize: Option<(u32, u32)>) -> (loaded:
    Result<SynthPixelBuffer<P>, Error>)
    ensures
        src matches ImageSource::Image(image) ==> spec_loaded::<P>(Ok(image), resize, loaded),
        loaded matches Ok(buffer) ==> {
            &&& buffer.wf()
            &&& resize matches Some(size) ==> (buffer@.width, buffer@.height) == size
        },
{
    let decoded = match src {
        ImageSource::Memory(data) => load_from_memory(data),
        ImageSource::Image(img) => Ok(img),
    };
    load_decoded::<P>(decoded, resize)
}

/// Loading an image at the size that it has already gives what loading it
/// with no size asked for gives: the converted image, or the same refusal.
pub proof fn lemma_resize_to_own_size<P: SynthPixel>(
    image: DynamicImage,
    sized: Result<SynthPixelBuffer<P>, Error>,
    plain: Result<SynthPixelBuffer<P>, Error>,
)
    requires
        spec_loaded::<P>(Ok(image), Some(spec_dimensions(image)), sized),
        spec_loaded::<P>(Ok(image), None, plain),
    ensures
        sized is Ok <==> plain is Ok,
        sized is Ok ==> sized->Ok_0@ == plain->Ok_0@ && sized->Ok_0@ == spec_uniform::<P>(image),
        sized is Err ==> sized == plain,
{
}

/// The first half of the making of a guide map: the guide as a decoded
/// image, resampled with the triangle filter to exactly `size` where a size
/// is given that the guide does not have. What is returned is to be blurred
/// and then handed to `finish_guide_map`.
pub fn prepare_guide_map<P: SynthPixel>(
    image: SynthPixelBuffer<P>,
    size: Option<(u32, u32)>,
) -> (prepared: Result<DynamicImage, Error>)
    requires
        image.wf(),
    ensures
        ({
            let current = (image@.width, image@.height);
            if !spec_resamples(current, size) {
                &&& prepared matches Ok(guide)
                &&& guide == P::spec_image(image@)
                &&& spec_dimensions(guide) == current
                &&& P::spec_converted(guide) == image@.samples
            } else if spec_can_resample(current, size->0) {
                &&& prepared matches Ok(guide)
                &&& guide == spec_resize_exact(
                    P::spec_image(image@),
                    (size->0).0,
                    (size->0).1,
                    Filter::Triangle,
                )
                &&& spec_dimensions(guide) == size->0
            } else {
                prepared matches Err(Error::UnsupportedSize)
            }
        }),
{
    let current = image.dimensions();
    let dyn_img = P::into_dynamic_image(image);

    if let Some(s) = size {
        if current.0 != s.0 || current.1 != s.1 {
            if !can_resample(current, s) {
                return Err(Error::UnsupportedSize);
            }
            return Ok(resize_triangle(&dyn_img, s.0, s.1));
        }
    }
    Ok(dyn_img)
}

/// The second half of the making of a guide map: the luminance of the
/// blurred guide, as a uniform buffer. A guide too large to be held is
/// refused.
pub fn finish_guide_map<P: SynthPixel>(blurred: DynamicImage) -> (finished: Result<
    SynthPixelBuffer<P>,
    Error,
>)
    ensures
        ({
            let current = spec_dimensions(blurred);
            if Raster::size_fits(current.0, current.1) {
                &&& finished matches Ok(buffer)
                &&& buffer.wf()
                &&& (buffer@.width, buffer@.height) == current
                &&& buffer@ == spec_uniform::<P>(spec_grayscale(blurred))
            } else {
                finished matches Err(Error::UnsupportedSize)
            }
        }),
{
    let current = dimensions(&blurred);
    if !size_fits(current.0, current.1) {
        return Err(Error::UnsupportedSize);
    }
    let greyscale = grayscale(&blurred);
    Ok(P::from_dynamic_image(greyscale))
}

} // verus!
