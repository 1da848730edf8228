use anyflipdl::image_header::{is_page_image, parse_image_dimensions};

fn make_test_jpeg(width: u16, height: u16) -> Vec<u8> {
    let mut data = Vec::new();
    data.extend_from_slice(&[0xFF, 0xD8]);
    data.extend_from_slice(&[0xFF, 0xE0]);
    data.extend_from_slice(&16u16.to_be_bytes());
    data.extend_from_slice(&[0; 14]);
    data.extend_from_slice(&[0xFF, 0xC0]);
    data.extend_from_slice(&11u16.to_be_bytes());
    data.push(8);
    data.extend_from_slice(&height.to_be_bytes());
    data.extend_from_slice(&width.to_be_bytes());
    data.push(1);
    data.push(1);
    data.push(0x11);
    data.push(0);
    data.extend_from_slice(&[0xFF, 0xD9]);
    data
}

#[test]
fn test_parse_image_dimensions_valid() {
    let data = make_test_jpeg(640, 480);
    let (w, h) = parse_image_dimensions(&data).unwrap();
    assert_eq!(w, 640);
    assert_eq!(h, 480);
}

#[test]
fn test_parse_image_dimensions_small_image() {
    let data = make_test_jpeg(1, 1);
    let (w, h) = parse_image_dimensions(&data).unwrap();
    assert_eq!(w, 1);
    assert_eq!(h, 1);
}

#[test]
fn test_parse_image_dimensions_large_image() {
    let data = make_test_jpeg(8000, 6000);
    let (w, h) = parse_image_dimensions(&data).unwrap();
    assert_eq!(w, 8000);
    assert_eq!(h, 6000);
}

#[test]
fn test_parse_image_dimensions_invalid_soi() {
    let data = vec![0x00, 0x00, 0x00, 0x00];
    assert!(parse_image_dimensions(&data).is_err());
}

#[test]
fn test_parse_image_dimensions_too_short() {
    let data = vec![0xFF, 0xD8];
    assert!(parse_image_dimensions(&data).is_err());
}

#[test]
fn test_parse_image_dimensions_no_sof() {
    let data = vec![0xFF, 0xD8, 0xFF, 0xD9];
    assert!(parse_image_dimensions(&data).is_err());
}

#[test]
fn page_image_magic_bytes() {
    assert!(is_page_image(&[0xFF, 0xD8]));
    assert!(is_page_image(b"RIFF\0\0\0\0WEBP"));
    assert!(!is_page_image(b"RIFF\0\0\0\0WEBX"));
    assert!(!is_page_image(b"<html>not a jpeg</html>"));
    assert!(!is_page_image(&[0xFF]));
}
