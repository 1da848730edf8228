//! Preparing a page image for the PDF: the cached page is decoded and
//! re-encoded as an RGB JPEG, which the PDF embeds with its pixel size.

use vstd::prelude::*;
use crate::error::{AppError, ErrorKind};
use crate::text::{decimal, push_decimal};

verus! {

/// What decoding page bytes (`image::load_from_memory`, then `to_rgb8`) and
/// encoding the result as JPEG gives: the JPEG bytes with the width and
/// height, or the failing stage (0 decoding, 1 encoding) with the outside
/// error's text.
pub uninterp spec fn jpeg_of_page(bytes: Seq<u8>) -> Result<(Seq<u8>, u32, u32), (u8, Seq<char>)>;

/// Decodes an image with `image::load_from_memory`, converts it with
/// `to_rgb8`, and writes it with `write_to(.., ImageFormat::Jpeg)`. Claimed:
/// the outcome is the fixed function `jpeg_of_page` of the bytes.
#[verifier::external_body]
fn encode_page_jpeg(bytes: &[u8]) -> (r: Result<(Vec<u8>, u32, u32), (u8, String)>)
    ensures
        match r {
            Ok((j, w, h)) => jpeg_of_page(bytes@) == Ok::<(Seq<u8>, u32, u32), (u8, Seq<char>)>((j@, w, h)),
            Err((s, m)) => jpeg_of_page(bytes@) == Err::<(Seq<u8>, u32, u32), (u8, Seq<char>)>((s, m@)),
        },
{
    let img = match image::load_from_memory(bytes) {
        Ok(i) => i.to_rgb8(),
        Err(e) => return Err((0, e.to_string())),
    };
    let (w, h) = img.dimensions();
    let mut buf: Vec<u8> = Vec::new();
    match img.write_to(&mut std::io::Cursor::new(&mut buf), image::ImageFormat::Jpeg) {
        Ok(()) => Ok((buf, w, h)),
        Err(e) => Err((1, e.to_string())),
    }
}

/// A page image ready for the PDF.
pub struct JpegPage {
    pub data: Vec<u8>,
    pub width: u32,
    pub height: u32,
}

/// The error for page `page` whose image failed at `stage` with `detail`.
pub open spec fn page_image_error(page: nat, stage: u8, detail: Seq<char>) -> Seq<char> {
    if stage == 0 {
        "Failed to decode page "@ + decimal(page) + " image: "@ + detail
    } else {
        "Failed to encode page "@ + decimal(page) + " as JPEG: "@ + detail
    }
}

/// The page image from the outcome of decoding and encoding page `page`: the
/// JPEG with its size, or a conversion error naming the page and the stage.
pub fn jpeg_page_from(outcome: Result<(Vec<u8>, u32, u32), (u8, String)>, page: usize) -> (r: Result<JpegPage, AppError>)
    ensures
        match outcome {
            Ok((j, w, h)) => r matches Ok(p) && p.data@ == j@ && p.width == w && p.height == h,
            Err((s, m)) => r matches Err(e) && e.is(ErrorKind::ConversionError, page_image_error(page as nat, s, m@)),
        },
{
    match outcome {
        Ok((data, width, height)) => Ok(JpegPage { data, width, height }),
        Err((stage, detail)) => {
            let mut m = if stage == 0 {
                "Failed to decode page ".to_owned()
            } else {
                "Failed to encode page ".to_owned()
            };
            push_decimal(&mut m, page as u64);
            if stage == 0 {
                m.append(" image: ");
            } else {
                m.append(" as JPEG: ");
            }
            m.append(detail.as_str());
            Err(AppError::ConversionError(m))
        },
    }
}

/// Decodes the cached image of page `page` and re-encodes it as JPEG.
pub fn page_jpeg(page_data: &[u8], page: usize) -> (r: Result<JpegPage, AppError>)
    ensures
        match jpeg_of_page(page_data@) {
            Ok((j, w, h)) => r matches Ok(p) && p.data@ == j && p.width == w && p.height == h,
            Err((s, m)) => r matches Err(e) && e.is(ErrorKind::ConversionError, page_image_error(page as nat, s, m)),
        },
{
    jpeg_page_from(encode_page_jpeg(page_data), page)
}

} // verus!
