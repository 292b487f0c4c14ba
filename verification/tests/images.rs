use superclip::images::{decode_png, encode_png, normalize_to_png, push_decimal};

const PNG_SIGNATURE: [u8; 8] = [0x89, 0x50, 0x4E, 0x47, 0x0D, 0x0A, 0x1A, 0x0A];

fn red_pixel_png() -> Vec<u8> {
    encode_png(1, 1, &[255, 0, 0, 255]).expect("a 1x1 image encodes")
}

#[test]
fn encoding_rgba_gives_a_png_that_decodes_back() {
    let pixels: Vec<u8> = vec![1, 2, 3, 255, 4, 5, 6, 128];
    let png = encode_png(2, 1, &pixels).unwrap();
    assert_eq!(&png[..8], &PNG_SIGNATURE);
    assert_ne!(png, pixels);
    let (back, width, height) = decode_png(&png).unwrap();
    assert_eq!((width, height), (2, 1));
    assert_eq!(back, pixels);
}

#[test]
fn a_buffer_too_small_for_its_dimensions_is_refused() {
    assert_eq!(encode_png(2, 2, &[0; 4]), Err("invalid image dimensions 2x2".to_string()));
    assert_eq!(encode_png(10, 3, &[]), Err("invalid image dimensions 10x3".to_string()));
}

#[test]
fn png_input_passes_through_untouched() {
    let png = red_pixel_png();
    assert_eq!(normalize_to_png(&png), Ok(png.clone()));
    let mut odd = PNG_SIGNATURE.to_vec();
    odd.extend_from_slice(b"not really a png");
    assert_eq!(normalize_to_png(&odd), Ok(odd.clone()));
}

#[test]
fn other_formats_are_converted_to_png() {
    let mut bmp = Vec::new();
    let img = image::RgbaImage::from_raw(2, 1, vec![10, 20, 30, 255, 40, 50, 60, 255]).unwrap();
    image::DynamicImage::ImageRgba8(img)
        .write_to(&mut std::io::Cursor::new(&mut bmp), image::ImageFormat::Bmp)
        .unwrap();
    let png = normalize_to_png(&bmp).unwrap();
    assert_eq!(&png[..8], &PNG_SIGNATURE);
    let (back, width, height) = decode_png(&png).unwrap();
    assert_eq!((width, height), (2, 1));
    assert_eq!(back, vec![10, 20, 30, 255, 40, 50, 60, 255]);
}

#[test]
fn undecodable_bytes_are_reported() {
    let err = normalize_to_png(b"not an image").unwrap_err();
    assert!(err.starts_with("image decode failed: "), "{err}");
    let err = decode_png(b"junk").unwrap_err();
    assert!(err.starts_with("png decode failed: "), "{err}");
}

#[test]
fn decimal_digits_are_appended() {
    let mut s = String::from("n=");
    push_decimal(&mut s, 0);
    assert_eq!(s, "n=0");
    push_decimal(&mut s, 1234);
    assert_eq!(s, "n=01234");
    let mut t = String::new();
    push_decimal(&mut t, u64::MAX);
    assert_eq!(t, "18446744073709551615");
}
