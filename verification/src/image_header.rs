//! Reading image dimensions from JPEG and WebP headers, and recognizing
//! page image data.

use vstd::prelude::*;
use crate::error::{AppError, ErrorKind};
use crate::text::{decimal, push_char, push_decimal};

verus! {

broadcast use vstd::string::group_string_axioms;

/// Big-endian 16-bit value of two bytes.
pub open spec fn be16(a: u8, b: u8) -> u32 {
    ((a as u32) * 256 + (b as u32)) as u32
}

/// Little-endian 16-bit value of two bytes.
pub open spec fn le16(a: u8, b: u8) -> u32 {
    ((b as u32) * 256 + (a as u32)) as u32
}

/// Little-endian 32-bit value of four bytes.
pub open spec fn le32(a: u8, b: u8, c: u8, d: u8) -> u32 {
    ((d as u32) * 16777216 + (c as u32) * 65536 + (b as u32) * 256 + (a as u32)) as u32
}

/// The four bytes at `i` spell `tag`.
pub open spec fn tag_at(d: Seq<u8>, i: int, tag: Seq<u8>) -> bool {
    i + 4 <= d.len() && d.subrange(i, i + 4) == tag
}

pub open spec fn riff() -> Seq<u8> {
    seq![0x52u8, 0x49u8, 0x46u8, 0x46u8]
}

pub open spec fn webp() -> Seq<u8> {
    seq![0x57u8, 0x45u8, 0x42u8, 0x50u8]
}

pub open spec fn vp8_lossy() -> Seq<u8> {
    seq![0x56u8, 0x50u8, 0x38u8, 0x20u8]
}

pub open spec fn vp8_lossless() -> Seq<u8> {
    seq![0x56u8, 0x50u8, 0x38u8, 0x4Cu8]
}

pub open spec fn vp8_extended() -> Seq<u8> {
    seq![0x56u8, 0x50u8, 0x38u8, 0x58u8]
}

/// Markers that stand alone, with no length field.
pub open spec fn is_standalone_marker(m: u8) -> bool {
    m == 0x00 || m == 0x01 || (0xD0 <= m <= 0xD7) || m == 0xD8
}

/// Start-of-frame markers (0xC0..0xCF except DHT 0xC4, JPG 0xC8, DAC 0xCC).
pub open spec fn is_sof_marker(m: u8) -> bool {
    (0xC0 <= m <= 0xC3) || (0xC5 <= m <= 0xC7) || (0xC9 <= m <= 0xCB) || (0xCD <= m <= 0xCF)
}

pub open spec fn hex_digit(v: u8) -> char
    recommends
        v < 16,
{
    if v < 10 {
        ((v + 48) as u32) as char
    } else {
        ((v + 55) as u32) as char
    }
}

/// Two upper-case hexadecimal digits (`{:02X}`).
pub open spec fn hex2(b: u8) -> Seq<char> {
    seq![hex_digit(b / 16), hex_digit(b % 16)]
}

pub open spec fn bad_marker_message(pos: int, b: u8) -> Seq<char> {
    "Invalid JPEG: expected marker byte 0xFF at position "@ + decimal(pos as nat) + ", got 0x"@
        + hex2(b)
}

/// The JPEG segment walk from `pos`: skip segments until a start-of-frame
/// segment gives (width, height).
pub open spec fn jpeg_scan(d: Seq<u8>, pos: int) -> Result<(u32, u32), Seq<char>>
    decreases d.len() - pos,
{
    if pos < 0 || pos + 2 > d.len() {
        Err("Could not find JPEG SOF marker — image may be malformed"@)
    } else if d[pos] != 0xFF {
        Err(bad_marker_message(pos, d[pos]))
    } else {
        let m = d[pos + 1];
        let p = pos + 2;
        if is_standalone_marker(m) {
            jpeg_scan(d, p)
        } else if m == 0xD9 {
            Err("JPEG EOI reached before finding SOF marker"@)
        } else if p + 2 > d.len() {
            Err("JPEG data truncated: expected marker length"@)
        } else {
            let len = be16(d[p], d[p + 1]) as int;
            if is_sof_marker(m) {
                if len < 7 || p + 2 + 7 > d.len() {
                    Err("JPEG SOF segment truncated"@)
                } else {
                    Ok((be16(d[p + 5], d[p + 6]), be16(d[p + 3], d[p + 4])))
                }
            } else if len < 2 || p + len > d.len() {
                Err("JPEG marker length extends beyond data"@)
            } else {
                jpeg_scan(d, p + len)
            }
        }
    }
}

/// The dimensions a WebP header gives, by its first chunk.
pub open spec fn webp_dimensions(d: Seq<u8>) -> Result<(u32, u32), Seq<char>> {
    if tag_at(d, 12, vp8_lossy()) && d.len() >= 30 && le16(d[26], d[27]) > 0 && le16(d[28], d[29])
        > 0 {
        Ok((le16(d[26], d[27]), le16(d[28], d[29])))
    } else if tag_at(d, 12, vp8_lossless()) && d.len() >= 25 {
        let bits = le32(d[21], d[22], d[23], d[24]);
        Ok((((bits & 0x3FFF) + 1) as u32, (((bits >> 14u32) & 0x3FFF) + 1) as u32))
    } else if tag_at(d, 12, vp8_extended()) && d.len() >= 30 {
        Ok(
            (
                ((le32(d[24], d[25], d[26], 0) & 0xFFFFFF) + 1) as u32,
                ((le32(d[27], d[28], d[29], 0) & 0xFFFFFF) + 1) as u32,
            ),
        )
    } else {
        Err("Unsupported WebP variant"@)
    }
}

/// The (width, height) of an image given its bytes, or why they cannot be
/// read.
pub open spec fn image_dimensions(d: Seq<u8>) -> Result<(u32, u32), Seq<char>> {
    if d.len() < 12 {
        Err("Image data too short to determine format"@)
    } else if d.len() >= 24 && tag_at(d, 0, riff()) && tag_at(d, 8, webp()) {
        webp_dimensions(d)
    } else if d.len() < 4 || d[0] != 0xFF || d[1] != 0xD8 {
        Err("Invalid image data: not JPEG or WebP"@)
    } else {
        jpeg_scan(d, 2)
    }
}

fn has_tag(d: &[u8], i: usize, a: u8, b: u8, c: u8, e: u8) -> (r: bool)
    requires
        i + 4 <= d.len(),
    ensures
        r == tag_at(d@, i as int, seq![a, b, c, e]),
{
    let r = d[i] == a && d[i + 1] == b && d[i + 2] == c && d[i + 3] == e;
    assert(r == (d@.subrange(i as int, i + 4) =~= seq![a, b, c, e]));
    r
}

fn hex_digit_exec(v: u8) -> (c: char)
    requires
        v < 16,
    ensures
        c == hex_digit(v),
{
    match v {
        0 => '0',
        1 => '1',
        2 => '2',
        3 => '3',
        4 => '4',
        5 => '5',
        6 => '6',
        7 => '7',
        8 => '8',
        9 => '9',
        10 => 'A',
        11 => 'B',
        12 => 'C',
        13 => 'D',
        14 => 'E',
        _ => 'F',
    }
}

fn conversion_error(msg: &str) -> (e: AppError)
    ensures
        e.is(ErrorKind::ConversionError, msg@),
{
    AppError::conversion(msg)
}

/// The (width, height) of a JPEG or WebP image from its header bytes.
///
/// WebP: the simple lossy (`VP8 `), lossless (`VP8L`) and extended (`VP8X`)
/// layouts. JPEG: the segments are walked until a start-of-frame segment.
/// Errors with `ConversionError` describing what is wrong.
pub fn parse_image_dimensions(data: &[u8]) -> (r: Result<(u32, u32), AppError>)
    ensures
        match image_dimensions(data@) {
            Ok(wh) => r == Ok::<(u32, u32), AppError>(wh),
            Err(m) => r matches Err(e) && e.is(ErrorKind::ConversionError, m),
        },
{
    let n = data.len();
    if n < 12 {
        return Err(conversion_error("Image data too short to determine format"));
    }
    if n >= 24 && has_tag(data, 0, 0x52, 0x49, 0x46, 0x46) && has_tag(data, 8, 0x57, 0x45, 0x42, 0x50) {
        if has_tag(data, 12, 0x56, 0x50, 0x38, 0x20) && n >= 30 {
            let width: u32 = (data[27] as u32) * 256 + data[26] as u32;
            let height: u32 = (data[29] as u32) * 256 + data[28] as u32;
            if width > 0 && height > 0 {
                return Ok((width, height));
            }
        }
        if has_tag(data, 12, 0x56, 0x50, 0x38, 0x4C) && n >= 25 {
            let bits: u32 = (data[24] as u32) * 16777216 + (data[23] as u32) * 65536 + (data[22] as u32)
                * 256 + data[21] as u32;
            assert((bits & 0x3FFF) <= 0x3FFF) by (bit_vector);
            assert(((bits >> 14u32) & 0x3FFF) <= 0x3FFF) by (bit_vector);
            let width = (bits & 0x3FFF) + 1;
            let height = ((bits >> 14u32) & 0x3FFF) + 1;
            return Ok((width, height));
        }
        if has_tag(data, 12, 0x56, 0x50, 0x38, 0x58) && n >= 30 {
            let wb: u32 = (data[26] as u32) * 65536 + (data[25] as u32) * 256 + data[24] as u32;
            let hb: u32 = (data[29] as u32) * 65536 + (data[28] as u32) * 256 + data[27] as u32;
            assert((wb & 0xFFFFFF) <= 0xFFFFFF) by (bit_vector);
            assert((hb & 0xFFFFFF) <= 0xFFFFFF) by (bit_vector);
            return Ok(((wb & 0xFFFFFF) + 1, (hb & 0xFFFFFF) + 1));
        }
        return Err(conversion_error("Unsupported WebP variant"));
    }
    if n < 4 || data[0] != 0xFF || data[1] != 0xD8 {
        return Err(conversion_error("Invalid image data: not JPEG or WebP"));
    }
    let mut pos: usize = 2;
    while pos <= n - 2
        invariant
            n == data@.len(),
            12 <= n,
            2 <= pos,
            pos <= n,
            image_dimensions(data@) == jpeg_scan(data@, pos as int),
        decreases n - pos,
    {
        if data[pos] != 0xFF {
            let mut m = "Invalid JPEG: expected marker byte 0xFF at position ".to_owned();
            push_decimal(&mut m, pos as u64);
            m.append(", got 0x");
            let b = data[pos];
            push_char(&mut m, hex_digit_exec(b / 16));
            push_char(&mut m, hex_digit_exec(b % 16));
            assert(m@ =~= bad_marker_message(pos as int, b));
            return Err(AppError::ConversionError(m));
        }
        let marker = data[pos + 1];
        pos = pos + 2;
        if marker == 0x00 || marker == 0x01 || (0xD0 <= marker && marker <= 0xD7) || marker == 0xD8 {
            continue;
        }
        if marker == 0xD9 {
            return Err(conversion_error("JPEG EOI reached before finding SOF marker"));
        }
        if pos > n - 2 {
            return Err(conversion_error("JPEG data truncated: expected marker length"));
        }
        let length: usize = (data[pos] as usize) * 256 + data[pos + 1] as usize;
        if (0xC0 <= marker && marker <= 0xC3) || (0xC5 <= marker && marker <= 0xC7) || (0xC9 <= marker
            && marker <= 0xCB) || (0xCD <= marker && marker <= 0xCF) {
            if length < 7 || pos > n - 9 {
                return Err(conversion_error("JPEG SOF segment truncated"));
            }
            let height: u32 = (data[pos + 3] as u32) * 256 + data[pos + 4] as u32;
            let width: u32 = (data[pos + 5] as u32) * 256 + data[pos + 6] as u32;
            return Ok((width, height));
        }
        if length < 2 || length > n - pos {
            return Err(conversion_error("JPEG marker length extends beyond data"));
        }
        pos = pos + length;
    }
    Err(conversion_error("Could not find JPEG SOF marker — image may be malformed"))
}

/// The bytes start like a JPEG (SOI marker) or a WebP (RIFF....WEBP) file.
pub open spec fn is_page_image_spec(d: Seq<u8>) -> bool {
    (d.len() >= 2 && d[0] == 0xFF && d[1] == 0xD8) || (d.len() >= 12 && tag_at(d, 0, riff())
        && tag_at(d, 8, webp()))
}

/// Whether downloaded bytes are a JPEG or WebP image, by their magic bytes.
pub fn is_page_image(data: &[u8]) -> (b: bool)
    ensures
        b == is_page_image_spec(data@),
{
    let is_jpeg = data.len() >= 2 && data[0] == 0xFF && data[1] == 0xD8;
    let is_webp = data.len() >= 12 && has_tag(data, 0, 0x52, 0x49, 0x46, 0x46) && has_tag(
        data,
        8,
        0x57,
        0x45,
        0x42,
        0x50,
    );
    is_jpeg || is_webp
}

} // verus!
