use plinth::pixel_buffer::{ColorSpace, PixelBuffer, PixelBufferRef, PixelFormat};

#[test]
fn conversions() {
    // red, green, blue and white, one byte for each channel
    let colors = [255u8, 0, 0, 255, 0, 255, 0, 255, 0, 0, 255, 255, 255, 255, 255, 255];
    let buffer = PixelBuffer::from_bytes(&colors, 2, PixelFormat::Rgba8, ColorSpace::Srgb);

    assert_eq!(buffer.width(), 2);
    assert_eq!(buffer.height(), 2);

    {
        let mut it = buffer.rows();
        assert_eq!(
            it.next(),
            Some([255u8, 0, 0, 255, 0, 255, 0, 255].as_slice())
        );
        assert_eq!(
            it.next(),
            Some([0, 0, 255, 255, 255, 255, 255, 255].as_slice())
        );
        assert_eq!(it.next(), None);
    }

    {
        let buffer_ref: PixelBufferRef = buffer.as_ref();
        assert_eq!(buffer_ref.format(), buffer.format());
        assert_eq!(buffer_ref.color_space(), buffer.color_space());
        assert_eq!(buffer_ref.width(), buffer.width());
        assert_eq!(buffer_ref.height(), buffer.height());
        assert_eq!(buffer_ref.bytes(), buffer.bytes());
    }
}

#[test]
fn rows_end_behind_the_last_row() {
    let bytes = [7u8; 24];
    let buffer = PixelBuffer::from_bytes(&bytes, 3, PixelFormat::Rgba8, ColorSpace::Srgb);
    let mut it = buffer.as_ref().rows();
    assert_eq!(it.next().unwrap().len(), 12);
    assert_eq!(it.next().unwrap().len(), 12);
    assert_eq!(it.next(), None);
    assert_eq!(it.next(), None);
}

#[test]
fn bytes_per_pixel_is_four() {
    assert_eq!(PixelFormat::Rgba8.bytes_per_pixel(), 4);
    assert_eq!(ColorSpace::default(), ColorSpace::Srgb);
}

#[test]
fn new_takes_bytes_of_the_given_extent() {
    let buffer = PixelBuffer::new(vec![7u8; 3 * 5 * 4], 3, 5, PixelFormat::Rgba8, ColorSpace::Srgb);
    assert_eq!(buffer.width(), 3);
    assert_eq!(buffer.height(), 5);
    assert_eq!(buffer.bytes().len(), 60);
    assert_eq!(buffer.format(), PixelFormat::Rgba8);
    assert_eq!(buffer.color_space(), ColorSpace::Srgb);
    let copy = buffer.clone();
    assert_eq!(copy.bytes(), buffer.bytes());
}

#[test]
fn empty_buffer_has_no_rows() {
    let pixels = PixelBufferRef::from_bytes(&[], 4, PixelFormat::Rgba8, ColorSpace::Srgb);
    assert_eq!(pixels.height(), 0);
    assert_eq!(pixels.rows().next(), None);
}
