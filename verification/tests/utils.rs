use image::imageops::FilterType;
use image::DynamicImage;
use image::GenericImageView;
use image::ImageBuffer;
use image::ImageOutputFormat;
use texture_synthesis::buffer::SynthPixelBuffer;
use texture_synthesis::error::Error;
use texture_synthesis::imaging::can_resample;
use texture_synthesis::imaging::MAX_DIMENSION;
use texture_synthesis::pixel::Luma;
use texture_synthesis::pixel::LumaA;
use texture_synthesis::pixel::Rgb;
use texture_synthesis::pixel::Rgba;
use texture_synthesis::pixel::SynthPixel;
use texture_synthesis::utils::finish_guide_map;
use texture_synthesis::utils::load_decoded;
use texture_synthesis::utils::load_image;
use texture_synthesis::utils::prepare_guide_map;
use texture_synthesis::utils::ImageSource;

fn gradient(width: u32, height: u32) -> Vec<u8> {
    let mut raw = Vec::new();
    for y in 0..height {
        for x in 0..width {
            raw.push(((x * 37 + y * 91) % 256) as u8);
            raw.push(((x * 5 + y * 11) % 256) as u8);
            raw.push(((x * x + y) % 256) as u8);
        }
    }
    raw
}

fn rgb_image(width: u32, height: u32) -> DynamicImage {
    DynamicImage::ImageRgb8(ImageBuffer::from_raw(width, height, gradient(width, height)).unwrap())
}

fn png_of(image: &DynamicImage) -> Vec<u8> {
    let mut bytes = Vec::new();
    image.write_to(&mut bytes, ImageOutputFormat::Png).unwrap();
    bytes
}

#[test]
fn an_image_of_the_format_asked_for_is_taken_as_it_is() {
    let loaded = load_image::<Rgb>(ImageSource::Image(rgb_image(5, 3)), None).unwrap();
    assert_eq!(loaded.dimensions(), (5, 3));
    assert_eq!(loaded.as_raw(), &gradient(5, 3));
}

#[test]
fn an_image_of_another_format_is_converted() {
    let image = DynamicImage::ImageRgb8(
        ImageBuffer::from_raw(2, 1, vec![10u8, 20, 30, 200, 100, 50]).unwrap(),
    );
    let luma = load_image::<Luma>(ImageSource::Image(image.clone()), None).unwrap();
    assert_eq!(luma.dimensions(), (2, 1));
    assert_eq!(luma.as_raw(), &vec![18, 117]);
    let luma_alpha = load_image::<LumaA>(ImageSource::Image(image.clone()), None).unwrap();
    assert_eq!(luma_alpha.as_raw(), &vec![18, 255, 117, 255]);
    let rgba = load_image::<Rgba>(ImageSource::Image(image), None).unwrap();
    assert_eq!(rgba.as_raw(), &vec![10, 20, 30, 255, 200, 100, 50, 255]);
}

#[test]
fn luminance_is_spread_over_the_colors() {
    let image =
        DynamicImage::ImageLumaA8(ImageBuffer::from_raw(2, 1, vec![10u8, 20, 30, 200]).unwrap());
    let rgb = load_image::<Rgb>(ImageSource::Image(image.clone()), None).unwrap();
    assert_eq!(rgb.as_raw(), &vec![10, 10, 10, 30, 30, 30]);
    let rgba = load_image::<Rgba>(ImageSource::Image(image.clone()), None).unwrap();
    assert_eq!(rgba.as_raw(), &vec![10, 10, 10, 20, 30, 30, 30, 200]);
    let luma = load_image::<Luma>(ImageSource::Image(image), None).unwrap();
    assert_eq!(luma.as_raw(), &vec![10, 30]);
}

#[test]
fn sixteen_bits_are_cut_to_eight() {
    let image = DynamicImage::ImageLuma16(
        ImageBuffer::from_raw(2, 1, vec![0x1234u16, 0xff00]).unwrap(),
    );
    let luma = load_image::<Luma>(ImageSource::Image(image), None).unwrap();
    assert_eq!(luma.as_raw(), &vec![0x12, 0xff]);
}

#[test]
fn only_the_pixels_of_the_grid_are_taken() {
    let image =
        DynamicImage::ImageRgb8(ImageBuffer::from_raw(1, 1, vec![1u8, 2, 3, 4, 5, 6, 7]).unwrap());
    let loaded = load_image::<Rgb>(ImageSource::Image(image), None).unwrap();
    assert_eq!(loaded.as_raw(), &vec![1, 2, 3]);
}

#[test]
fn a_resize_to_the_size_of_the_image_converts_only() {
    let plain = load_image::<Rgba>(ImageSource::Image(rgb_image(5, 3)), None).unwrap();
    let sized = load_image::<Rgba>(ImageSource::Image(rgb_image(5, 3)), Some((5, 3))).unwrap();
    assert_eq!(sized.dimensions(), plain.dimensions());
    assert_eq!(sized.as_raw(), plain.as_raw());
}

#[test]
fn a_resize_to_another_size_resamples_the_converted_image() {
    let loaded = load_image::<Luma>(ImageSource::Image(rgb_image(6, 4)), Some((3, 5))).unwrap();
    assert_eq!(loaded.dimensions(), (3, 5));
    let expected = DynamicImage::ImageLuma8(rgb_image(6, 4).to_luma8())
        .resize_exact(3, 5, FilterType::CatmullRom)
        .to_luma8()
        .into_raw();
    assert_eq!(loaded.as_raw(), &expected);
    let plain = load_image::<Luma>(ImageSource::Image(rgb_image(6, 4)), None).unwrap();
    assert_ne!(loaded.as_raw(), plain.as_raw());
}

#[test]
fn a_resize_of_one_side_resamples() {
    let loaded = load_image::<Rgb>(ImageSource::Image(rgb_image(6, 4)), Some((6, 8))).unwrap();
    assert_eq!(loaded.dimensions(), (6, 8));
    let expected = rgb_image(6, 4).resize_exact(6, 8, FilterType::CatmullRom).to_rgb8().into_raw();
    assert_eq!(loaded.as_raw(), &expected);
}

#[test]
fn a_resize_to_no_pixel_gives_an_empty_buffer() {
    let loaded = load_image::<Rgb>(ImageSource::Image(rgb_image(6, 4)), Some((0, 3))).unwrap();
    assert_eq!(loaded.dimensions(), (0, 3));
    assert!(loaded.as_raw().is_empty());
}

#[test]
fn bytes_are_decoded() {
    let bytes = png_of(&rgb_image(5, 3));
    let loaded = load_image::<Rgb>(ImageSource::Memory(&bytes), None).unwrap();
    assert_eq!(loaded.dimensions(), (5, 3));
    assert_eq!(loaded.as_raw(), &gradient(5, 3));
}

#[test]
fn decoded_bytes_are_resized() {
    let bytes = png_of(&rgb_image(5, 3));
    let loaded = load_image::<Rgb>(ImageSource::Memory(&bytes), Some((10, 6))).unwrap();
    assert_eq!(loaded.dimensions(), (10, 6));
    let expected = rgb_image(5, 3).resize_exact(10, 6, FilterType::CatmullRom).to_rgb8().into_raw();
    assert_eq!(loaded.as_raw(), &expected);
}

#[test]
fn bytes_that_are_no_image_are_refused_by_the_decoder() {
    let loaded = load_image::<Rgb>(ImageSource::Memory(&[1, 2, 3, 4, 5]), None);
    assert!(matches!(loaded, Err(Error::Image(_))));
    let loaded = load_image::<Rgb>(ImageSource::Memory(&[]), Some((4, 4)));
    assert!(matches!(loaded, Err(Error::Image(_))));
}

#[test]
fn a_cut_off_image_is_refused_by_the_decoder() {
    let bytes = png_of(&rgb_image(5, 3));
    let loaded = load_image::<Rgb>(ImageSource::Memory(&bytes[..bytes.len() / 2]), None);
    assert!(matches!(loaded, Err(Error::Image(_))));
}

#[test]
fn the_error_of_decoding_is_handed_on() {
    let error = image::load_from_memory(&[9, 9, 9]).unwrap_err();
    let text = error.to_string();
    match load_decoded::<Luma>(Err(error), Some((2, 2))) {
        Err(Error::Image(handed)) => assert_eq!(handed.to_string(), text),
        _ => panic!("the decoder's error was not handed on"),
    }
}

#[test]
fn a_decoded_image_is_loaded() {
    let loaded = load_decoded::<Rgb>(Ok(rgb_image(4, 4)), Some((2, 2))).unwrap();
    assert_eq!(loaded.dimensions(), (2, 2));
    let expected = rgb_image(4, 4).resize_exact(2, 2, FilterType::CatmullRom).to_rgb8().into_raw();
    assert_eq!(loaded.as_raw(), &expected);
}

#[test]
fn an_image_without_a_pixel_is_converted() {
    let image = DynamicImage::ImageRgb8(ImageBuffer::from_raw(0, 0, Vec::new()).unwrap());
    let loaded = load_image::<Rgb>(ImageSource::Image(image.clone()), None).unwrap();
    assert_eq!(loaded.dimensions(), (0, 0));
    let loaded = load_image::<Rgb>(ImageSource::Image(image), Some((0, 0))).unwrap();
    assert_eq!(loaded.dimensions(), (0, 0));
}

#[test]
fn an_image_without_a_pixel_is_not_resampled() {
    let image = DynamicImage::ImageRgb8(ImageBuffer::from_raw(0, 0, Vec::new()).unwrap());
    let loaded = load_image::<Rgb>(ImageSource::Image(image), Some((2, 2)));
    assert!(matches!(loaded, Err(Error::UnsupportedSize)));
    let image = DynamicImage::ImageRgb8(ImageBuffer::from_raw(0, 3, Vec::new()).unwrap());
    let loaded = load_image::<Rgb>(ImageSource::Image(image), Some((2, 2)));
    assert!(matches!(loaded, Err(Error::UnsupportedSize)));
}

#[test]
fn a_side_longer_than_the_resampler_takes_is_refused() {
    let loaded =
        load_image::<Rgb>(ImageSource::Image(rgb_image(4, 4)), Some((MAX_DIMENSION + 1, 1)));
    assert!(matches!(loaded, Err(Error::UnsupportedSize)));
    let loaded =
        load_image::<Rgb>(ImageSource::Image(rgb_image(4, 4)), Some((1, MAX_DIMENSION + 1)));
    assert!(matches!(loaded, Err(Error::UnsupportedSize)));
}

#[test]
fn what_can_be_resampled() {
    assert_eq!(MAX_DIMENSION, 4194304);
    assert!(can_resample((4, 4), (2, 2)));
    assert!(can_resample((1, 1), (0, 0)));
    assert!(can_resample((4, 4), (MAX_DIMENSION, 1)));
    assert!(can_resample((MAX_DIMENSION, 1), (1, 1)));
    assert!(!can_resample((0, 4), (2, 2)));
    assert!(!can_resample((4, 0), (2, 2)));
    assert!(!can_resample((4, 4), (MAX_DIMENSION + 1, 2)));
    assert!(!can_resample((4, 4), (2, MAX_DIMENSION + 1)));
    assert!(!can_resample((MAX_DIMENSION + 1, 4), (2, 2)));
    assert!(!can_resample((4, MAX_DIMENSION + 1), (2, 2)));
}

#[test]
fn a_buffer_goes_to_a_decoded_image_and_back() {
    let raw = gradient(3, 2);
    let buffer = SynthPixelBuffer::<Rgb>::from_raw(3, 2, raw.clone()).unwrap();
    let image = Rgb::into_dynamic_image(buffer);
    assert_eq!(image.dimensions(), (3, 2));
    assert_eq!(image.to_rgb8().into_raw(), raw);
    assert_eq!(Rgb::from_dynamic_image(image.clone()).as_raw(), &raw);
    assert_eq!(Luma::from_dynamic_image(image.clone()).as_raw(), &image.to_luma8().into_raw());
    let buffer = SynthPixelBuffer::<Rgba>::from_raw(1, 1, vec![1, 2, 3, 4]).unwrap();
    assert_eq!(Rgba::into_dynamic_image(buffer).to_rgba8().into_raw(), vec![1, 2, 3, 4]);
    let buffer = SynthPixelBuffer::<LumaA>::from_raw(1, 1, vec![1, 2]).unwrap();
    assert_eq!(LumaA::into_dynamic_image(buffer).to_luma_alpha8().into_raw(), vec![1, 2]);
    let buffer = SynthPixelBuffer::<Luma>::from_raw(1, 1, vec![1]).unwrap();
    assert_eq!(Luma::into_dynamic_image(buffer).to_luma8().into_raw(), vec![1]);
}

#[test]
fn a_guide_of_the_size_asked_for_is_not_resampled() {
    let raw = gradient(4, 3);
    let buffer = SynthPixelBuffer::<Rgb>::from_raw(4, 3, raw.clone()).unwrap();
    let guide = prepare_guide_map(buffer, Some((4, 3))).unwrap();
    assert_eq!(guide.dimensions(), (4, 3));
    assert_eq!(guide.to_rgb8().into_raw(), raw);
    let buffer = SynthPixelBuffer::<Rgb>::from_raw(4, 3, raw.clone()).unwrap();
    let guide = prepare_guide_map(buffer, None).unwrap();
    assert_eq!(guide.dimensions(), (4, 3));
    assert_eq!(guide.to_rgb8().into_raw(), raw);
}

#[test]
fn a_guide_is_resampled_to_the_size_asked_for() {
    let cases = [
        ((10u32, 5u32), (4u32, 4u32)),
        ((5, 10), (4, 4)),
        ((4, 2), (2, 2)),
        ((100, 1), (10, 10)),
        ((3, 7), (20, 20)),
        ((7, 3), (0, 5)),
        ((7, 3), (5, 0)),
        ((1, 1), (3, 9)),
    ];
    for &(from, size) in cases.iter() {
        assert!(can_resample(from, size));
        let buffer =
            SynthPixelBuffer::<Rgb>::from_raw(from.0, from.1, gradient(from.0, from.1)).unwrap();
        let guide = prepare_guide_map(buffer, Some(size)).unwrap();
        assert_eq!(guide.dimensions(), size);
    }
}

#[test]
fn a_guide_is_resampled_with_the_triangle_filter() {
    let buffer = SynthPixelBuffer::<Rgb>::from_raw(10, 5, gradient(10, 5)).unwrap();
    let guide = prepare_guide_map(buffer, Some((4, 4))).unwrap();
    let expected = rgb_image(10, 5).resize_exact(4, 4, FilterType::Triangle).to_rgb8().into_raw();
    assert_eq!(guide.to_rgb8().into_raw(), expected);
    let other = rgb_image(10, 5).resize_exact(4, 4, FilterType::CatmullRom).to_rgb8().into_raw();
    assert_ne!(guide.to_rgb8().into_raw(), other);
}

#[test]
fn a_guide_without_a_pixel_is_not_resampled() {
    let buffer = SynthPixelBuffer::<Rgb>::from_raw(0, 3, Vec::new()).unwrap();
    assert!(matches!(prepare_guide_map(buffer, Some((2, 2))), Err(Error::UnsupportedSize)));
    let buffer = SynthPixelBuffer::<Rgb>::from_raw(3, 0, Vec::new()).unwrap();
    assert!(matches!(prepare_guide_map(buffer, Some((2, 2))), Err(Error::UnsupportedSize)));
    let buffer = SynthPixelBuffer::<Rgb>::from_raw(0, 3, Vec::new()).unwrap();
    assert!(prepare_guide_map(buffer, Some((0, 3))).is_ok());
}

#[test]
fn a_guide_is_not_resampled_to_a_side_too_long() {
    let buffer = SynthPixelBuffer::<Luma>::from_raw(4, 4, vec![0; 16]).unwrap();
    let prepared = prepare_guide_map(buffer, Some((MAX_DIMENSION + 1, 8)));
    assert!(matches!(prepared, Err(Error::UnsupportedSize)));
    let buffer = SynthPixelBuffer::<Luma>::from_raw(4, 4, vec![0; 16]).unwrap();
    let prepared = prepare_guide_map(buffer, Some((8, MAX_DIMENSION + 1)));
    assert!(matches!(prepared, Err(Error::UnsupportedSize)));
}

#[test]
fn a_finished_guide_holds_luminance() {
    let image = DynamicImage::ImageRgb8(
        ImageBuffer::from_raw(2, 1, vec![10u8, 20, 30, 200, 100, 50]).unwrap(),
    );
    let rgb = finish_guide_map::<Rgb>(image.clone()).unwrap();
    assert_eq!(rgb.dimensions(), (2, 1));
    assert_eq!(rgb.as_raw(), &vec![18, 18, 18, 117, 117, 117]);
    let rgba = finish_guide_map::<Rgba>(image.clone()).unwrap();
    assert_eq!(rgba.as_raw(), &vec![18, 18, 18, 255, 117, 117, 117, 255]);
    let luma = finish_guide_map::<Luma>(image).unwrap();
    assert_eq!(luma.as_raw(), &vec![18, 117]);
}

#[test]
fn a_guide_map_is_made_in_two_halves() {
    let buffer = SynthPixelBuffer::<Rgb>::from_raw(10, 5, gradient(10, 5)).unwrap();
    let prepared = prepare_guide_map(buffer, Some((4, 4))).unwrap();
    let finished = finish_guide_map::<Rgb>(prepared.blur(1.5)).unwrap();
    assert_eq!(finished.dimensions(), (4, 4));
    let expected = rgb_image(10, 5)
        .resize_exact(4, 4, FilterType::Triangle)
        .blur(1.5)
        .grayscale()
        .to_rgb8()
        .into_raw();
    assert_eq!(finished.as_raw(), &expected);
}
