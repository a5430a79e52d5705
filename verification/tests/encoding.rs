use raytracer::image::PPMImage;
use raytracer::table::Table;

#[test]
fn new_stores_the_file_name() {
    let image = PPMImage::new("example3.ppm");
    assert_eq!(image.get_file_name(), "example3.ppm");
}

#[test]
fn encode_writes_header_then_pixel_triples() {
    let mut pixels = Table::from_elem((2, 1), (0u8, 0u8, 0u8));
    pixels.set((0, 0), (255, 0, 0));
    pixels.set((0, 1), (0, 255, 10));
    let bytes = PPMImage::encode(&pixels);
    let mut expected = b"P6\n2 1\n255\n".to_vec();
    expected.extend_from_slice(&[255, 0, 0, 0, 255, 10]);
    assert_eq!(bytes, expected);
}

#[test]
fn encode_prints_multi_digit_dimensions_in_decimal() {
    let pixels = Table::from_elem((640, 480), (1u8, 2u8, 3u8));
    let bytes = PPMImage::encode(&pixels);
    assert_eq!(&bytes[..15], b"P6\n640 480\n255\n");
    assert_eq!(bytes.len(), 15 + 640 * 480 * 3);
    assert_eq!(&bytes[15..18], &[1, 2, 3]);
    assert_eq!(&bytes[bytes.len() - 3..], &[1, 2, 3]);
}

#[test]
fn encode_keeps_row_major_pixel_order() {
    let mut pixels = Table::from_elem((2, 2), (0u8, 0u8, 0u8));
    pixels.set((0, 0), (1, 1, 1));
    pixels.set((0, 1), (2, 2, 2));
    pixels.set((1, 0), (3, 3, 3));
    pixels.set((1, 1), (4, 4, 4));
    let bytes = PPMImage::encode(&pixels);
    assert_eq!(&bytes[..11], b"P6\n2 2\n255\n");
    assert_eq!(
        &bytes[11..],
        &[1, 1, 1, 2, 2, 2, 3, 3, 3, 4, 4, 4]
    );
}

#[test]
fn encode_of_empty_grid_is_header_only() {
    let pixels = Table::from_elem((0, 0), (0u8, 0u8, 0u8));
    let bytes = PPMImage::encode(&pixels);
    assert_eq!(bytes, b"P6\n0 0\n255\n".to_vec());
}
