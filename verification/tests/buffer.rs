use texture_synthesis::buffer::size_fits;
use texture_synthesis::buffer::SynthPixelBuffer;
use texture_synthesis::pixel::Luma;
use texture_synthesis::pixel::LumaA;
use texture_synthesis::pixel::Rgb;
use texture_synthesis::pixel::Rgba;

#[test]
fn from_raw_takes_exactly_the_bytes_of_the_grid() {
    assert!(SynthPixelBuffer::<Rgb>::from_raw(2, 3, vec![0; 18]).is_some());
    assert!(SynthPixelBuffer::<Rgb>::from_raw(2, 3, vec![0; 17]).is_none());
    assert!(SynthPixelBuffer::<Rgb>::from_raw(2, 3, vec![0; 19]).is_none());
    assert!(SynthPixelBuffer::<Rgba>::from_raw(2, 3, vec![0; 24]).is_some());
    assert!(SynthPixelBuffer::<Rgba>::from_raw(2, 3, vec![0; 18]).is_none());
    assert!(SynthPixelBuffer::<LumaA>::from_raw(2, 3, vec![0; 12]).is_some());
    assert!(SynthPixelBuffer::<Luma>::from_raw(2, 3, vec![0; 6]).is_some());
}

#[test]
fn from_raw_takes_an_empty_grid() {
    let empty = SynthPixelBuffer::<Rgb>::from_raw(0, 5, Vec::new()).unwrap();
    assert_eq!(empty.dimensions(), (0, 5));
    assert!(empty.as_raw().is_empty());
    assert!(SynthPixelBuffer::<Rgb>::from_raw(0, 0, vec![1]).is_none());
}

#[test]
fn from_raw_refuses_a_grid_that_cannot_be_allocated() {
    assert!(SynthPixelBuffer::<Luma>::from_raw(u32::MAX, u32::MAX, Vec::new()).is_none());
}

#[test]
fn size_fits_compares_with_what_can_be_allocated() {
    let most: u128 = (isize::MAX as u128) / 8;
    assert!(size_fits(0, 0));
    assert!(size_fits(4, 4));
    assert!(size_fits(4096, 4096));
    assert!(!size_fits(u32::MAX, u32::MAX));
    assert_eq!(size_fits(65536, 65536), (1u128 << 32) <= most);
    assert_eq!(size_fits(1 << 31, 1 << 29), (1u128 << 60) <= most);
    assert_eq!(size_fits(1 << 31, 1 << 30), (1u128 << 61) <= most);
}

#[test]
fn size_fits_bounds_each_side_by_itself() {
    let most: u128 = (isize::MAX as u128) / 8;
    assert_eq!(size_fits(1 << 31, 0), (1u128 << 31) <= most);
    assert_eq!(size_fits(0, 1 << 31), (1u128 << 31) <= most);
    assert_eq!(size_fits(u32::MAX, 0), (u32::MAX as u128) <= most);
    assert_eq!(size_fits(0, u32::MAX), (u32::MAX as u128) <= most);
    assert_eq!(size_fits(1 << 28, 0), (1u128 << 28) <= most);
    assert!(size_fits(1 << 27, 0));
    assert!(size_fits(0, 1 << 27));
    let fits = size_fits(1 << 31, 0);
    assert_eq!(SynthPixelBuffer::<Rgb>::from_raw(1 << 31, 0, Vec::new()).is_some(), fits);
    assert_eq!(SynthPixelBuffer::<Rgb>::from_raw(0, 1 << 31, Vec::new()).is_some(), fits);
}

#[test]
fn a_buffer_gives_back_its_size_and_bytes() {
    let raw: Vec<u8> = (0..24).collect();
    let buffer = SynthPixelBuffer::<Rgba>::from_raw(3, 2, raw.clone()).unwrap();
    assert_eq!(buffer.dimensions(), (3, 2));
    assert_eq!(buffer.width(), 3);
    assert_eq!(buffer.height(), 2);
    assert_eq!(buffer.as_raw(), &raw);
    assert_eq!(buffer.into_raw(), raw);
}

#[test]
fn get_pixel_reads_row_by_row() {
    let raw: Vec<u8> = (0..18).collect();
    let buffer = SynthPixelBuffer::<Rgb>::from_raw(3, 2, raw).unwrap();
    assert_eq!(buffer.get_pixel(0, 0), Rgb([0, 1, 2]));
    assert_eq!(buffer.get_pixel(2, 0), Rgb([6, 7, 8]));
    assert_eq!(buffer.get_pixel(0, 1), Rgb([9, 10, 11]));
    assert_eq!(buffer.get_pixel(2, 1), Rgb([15, 16, 17]));
}

#[test]
fn put_pixel_changes_one_pixel() {
    let raw: Vec<u8> = (0..12).collect();
    let mut buffer = SynthPixelBuffer::<LumaA>::from_raw(3, 2, raw).unwrap();
    buffer.put_pixel(1, 1, LumaA([100, 200]));
    assert_eq!(buffer.as_raw(), &vec![0, 1, 2, 3, 4, 5, 6, 7, 100, 200, 10, 11]);
    assert_eq!(buffer.get_pixel(1, 1), LumaA([100, 200]));
    assert_eq!(buffer.dimensions(), (3, 2));
}

#[test]
fn a_clone_holds_the_same_pixels() {
    let raw: Vec<u8> = (0..6).collect();
    let buffer = SynthPixelBuffer::<Luma>::from_raw(3, 2, raw.clone()).unwrap();
    let mut copy = buffer.clone();
    assert_eq!(copy.dimensions(), (3, 2));
    assert_eq!(copy.as_raw(), &raw);
    copy.put_pixel(0, 0, Luma([99]));
    assert_eq!(buffer.as_raw(), &raw);
}
