use anyflipdl::pdf::{jpeg_page_from, page_jpeg};

#[test]
fn undecodable_page_names_the_page() {
    let err = page_jpeg(b"not an image", 3).err().unwrap();
    assert!(err.to_string().starts_with("Conversion error: Failed to decode page 3 image: "));
}

#[test]
fn failed_encoding_names_the_page() {
    let err = jpeg_page_from(Err((1, "disk full".to_string())), 7).err().unwrap();
    assert_eq!(err.to_string(), "Conversion error: Failed to encode page 7 as JPEG: disk full");
    let err = jpeg_page_from(Err((0, "bad header".to_string())), 12).err().unwrap();
    assert_eq!(err.to_string(), "Conversion error: Failed to decode page 12 image: bad header");
}

#[test]
fn decoded_page_keeps_its_size() {
    let img = image::RgbImage::from_pixel(4, 3, image::Rgb([200, 10, 10]));
    let mut bytes: Vec<u8> = Vec::new();
    img.write_to(&mut std::io::Cursor::new(&mut bytes), image::ImageFormat::Jpeg).unwrap();
    let page = page_jpeg(&bytes, 1).ok().unwrap();
    assert_eq!((page.width, page.height), (4, 3));
    assert!(page.data.starts_with(&[0xFF, 0xD8]));
    let same = jpeg_page_from(Ok((vec![1, 2, 3], 5, 6)), 2).ok().unwrap();
    assert_eq!((same.data, same.width, same.height), (vec![1, 2, 3], 5, 6));
}
