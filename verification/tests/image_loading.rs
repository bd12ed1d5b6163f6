use sam_prep::load_image;
use sam_prep::resize_dims;
use sam_prep::ImageError;

fn png_bytes(height: u32, width: u32, pixels: Vec<u8>) -> Vec<u8> {
    let img = image::RgbImage::from_raw(width, height, pixels).unwrap();
    let mut bytes: Vec<u8> = Vec::new();
    img.write_to(&mut std::io::Cursor::new(&mut bytes), image::ImageFormat::Png).unwrap();
    bytes
}

#[test]
fn landscape_resize_formula() {
    // 1080 x 1920 with target 1024: 1024 * 1080 / 1920 = 576.
    assert_eq!(resize_dims(1080, 1920, 1024), (576, 1024));
}

#[test]
fn portrait_resize_formula() {
    assert_eq!(resize_dims(1920, 1080, 1024), (1024, 576));
}

#[test]
fn square_resize_formula() {
    assert_eq!(resize_dims(500, 500, 100), (100, 100));
}

#[test]
fn resize_formula_is_idempotent_on_its_result() {
    let (h, w) = resize_dims(1080, 1920, 1024);
    assert_eq!(resize_dims(h, w, 1024), (h, w));
    let (h, w) = resize_dims(333, 77, 256);
    assert_eq!(resize_dims(h, w, 256), (h, w));
}

#[test]
fn decode_without_resize_permutes_to_channel_first() {
    // A 2 x 3 image with distinct samples everywhere.
    let hwc: Vec<u8> = (0..18).map(|v| (v * 7) as u8).collect();
    let bytes = png_bytes(2, 3, hwc.clone());
    let (tensor, ih, iw) = load_image(&bytes, None).unwrap();
    assert_eq!((ih, iw), (2, 3));
    assert_eq!((tensor.height, tensor.width), (2, 3));
    assert_eq!(tensor.data.len(), 3 * 2 * 3);
    let mut expected = vec![0u8; 18];
    for c in 0..3 {
        for y in 0..2 {
            for x in 0..3 {
                expected[c * 6 + y * 3 + x] = hwc[(y * 3 + x) * 3 + c];
            }
        }
    }
    assert_eq!(tensor.data, expected);
}

#[test]
fn tensor_shape_is_channel_first_for_both_orientations() {
    let landscape = png_bytes(2, 4, vec![9u8; 24]);
    let (t1, ih1, iw1) = load_image(&landscape, Some(2)).unwrap();
    assert_eq!((ih1, iw1), (2, 4));
    assert_eq!((t1.height, t1.width), (1, 2));
    assert_eq!(t1.data.len(), 3 * 1 * 2);

    let portrait = png_bytes(4, 2, vec![9u8; 24]);
    let (t2, ih2, iw2) = load_image(&portrait, Some(2)).unwrap();
    assert_eq!((ih2, iw2), (4, 2));
    assert_eq!((t2.height, t2.width), (2, 1));
    assert_eq!(t2.data.len(), 3 * 2 * 1);
}

#[test]
fn resize_to_own_size_keeps_pixel_count() {
    let bytes = png_bytes(3, 2, (0..18).map(|v| v as u8).collect());
    let (tensor, ih, iw) = load_image(&bytes, Some(3)).unwrap();
    assert_eq!((ih, iw), (3, 2));
    assert_eq!((tensor.height, tensor.width), (3, 2));
    assert_eq!(tensor.data.len(), 18);
}

#[test]
fn garbage_bytes_fail_with_decode_error() {
    let bytes = b"definitely not an image".to_vec();
    assert_eq!(load_image(&bytes, None).unwrap_err(), ImageError::Decode);
}

#[test]
fn image_error_messages() {
    assert_eq!(ImageError::Decode.message(), "the bytes are not a decodable image");
    assert_eq!(
        ImageError::InvalidDimensions.message(),
        "the resize target gives the image a zero dimension"
    );
}

#[test]
fn degenerate_resize_fails_with_invalid_dimensions() {
    // 1 x 100 with target 50: the scaled height is 50 * 1 / 100 = 0.
    let bytes = png_bytes(1, 100, vec![1u8; 300]);
    assert_eq!(load_image(&bytes, Some(50)).unwrap_err(), ImageError::InvalidDimensions);
}
