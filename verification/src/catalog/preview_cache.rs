//! The on-disk demosaic preview cache: where entries live, under which
//! key, and how a preview is stored (JPEG).

use std::io::Cursor;
use vstd::prelude::*;
use crate::text::{push_char, push_signed_dec, push_str, signed_dec};

verus! {

/// Name of the cache directory inside the catalog directory.
pub const PREVIEWS_DIR: &'static str = "Previews";

/// `Path::join` of a relative component onto a directory: a `/` goes
/// between them unless the directory is empty or already ends in `/`.
pub open spec fn joined(dir: Seq<char>, name: Seq<char>) -> Seq<char> {
    if dir.len() == 0 || dir.last() == '/' {
        dir + name
    } else {
        dir + seq!['/'] + name
    }
}

/// The cache key of a photo's preview: `demosaic/<id>`.
pub open spec fn preview_key(photo_id: i64) -> Seq<char> {
    "demosaic/"@ + signed_dec(photo_id as int)
}

/// Root directory of the demosaic preview cache: `Previews` inside the
/// catalog directory.
pub fn cache_dir(catalog_dir: &str) -> (r: String)
    ensures
        r@ == joined(catalog_dir@, PREVIEWS_DIR@),
{
    let mut s = String::new();
    push_str(&mut s, catalog_dir);
    let n = catalog_dir.unicode_len();
    if n > 0 && catalog_dir.get_char(n - 1) != '/' {
        push_char(&mut s, '/');
    }
    push_str(&mut s, PREVIEWS_DIR);
    s
}

/// The cache key under which the preview of `photo_id` is stored.
pub fn cache_key(photo_id: i64) -> (r: String)
    ensures
        r@ == preview_key(photo_id),
{
    let mut s = String::new();
    push_str(&mut s, "demosaic/");
    push_signed_dec(&mut s, photo_id);
    s
}

/// JPEG quality of stored previews.
pub const JPEG_QUALITY: u8 = 92;

/// The JPEG the `image` crate writes at `quality` for the RGBA image of
/// `width` by `height` held in `rgba`, converted to RGB; `None` when the
/// encoder fails. It names the fixed chain `RgbaImage::from_raw`,
/// `to_rgb8`, `JpegEncoder::new_with_quality`, `encode` of that one crate.
pub uninterp spec fn jpeg_encoding(width: u32, height: u32, rgba: Seq<u8>, quality: u8) -> Option<Seq<u8>>;


/// Calls `image::RgbaImage::from_raw(width, height, ..)` on a copy of
/// `rgba` (which succeeds: the buffer holds the image), converts it with
/// `DynamicImage::to_rgb8`, and encodes it with
/// `JpegEncoder::new_with_quality(.., quality)` as `Rgb8`. The bytes are
/// those the encoder writes (named by `jpeg_encoding`).
#[verifier::external_body]
fn image_encode_jpeg(width: u32, height: u32, rgba: &[u8], quality: u8) -> (r: Result<Vec<u8>, image::ImageError>)
    requires
        4 * width * height <= rgba@.len(),
    ensures
        r is Ok <==> jpeg_encoding(width, height, rgba@, quality) is Some,
        r matches Ok(v) ==> jpeg_encoding(width, height, rgba@, quality) == Some(v@),
{
    let img = image::RgbaImage::from_raw(width, height, rgba.to_vec()).expect("the buffer holds the image");
    let rgb = image::DynamicImage::ImageRgba8(img).to_rgb8();
    let mut buf = Vec::new();
    let mut encoder = image::codecs::jpeg::JpegEncoder::new_with_quality(&mut buf, quality);
    encoder.encode(&rgb, rgb.width(), rgb.height(), image::ExtendedColorType::Rgb8)?;
    Ok(buf)
}

/// Whether the `image` crate decodes `data` in the format it guesses from
/// the content, and if so the image's width and height (the chain
/// `ImageReader::new`, `with_guessed_format`, `decode`, `to_rgba8`). The
/// sample values are left unnamed.
pub uninterp spec fn guessed_rgba_size(data: Seq<u8>) -> Option<(u32, u32)>;

/// Calls `image::ImageReader::new` over `data`, `with_guessed_format()`,
/// `decode()` (default limits) and `to_rgba8()`, and hands back the width,
/// height and samples; any failure gives `None`. Whether it succeeds and
/// the size are named by `guessed_rgba_size`, and the samples are four
/// per pixel. The sample values are not stated: some format decoders
/// behind the crate pick code by the CPU they run on. That the format
/// decoders return rather than panic on malformed bytes is assumed, not
/// shown by the crate's source.
#[verifier::external_body]
fn image_decode_guessed_rgba(data: &[u8]) -> (r: Option<(u32, u32, Vec<u8>)>)
    ensures
        r is Some <==> guessed_rgba_size(data@) is Some,
        r matches Some((w, h, px)) ==> guessed_rgba_size(data@) == Some((w, h)) && px@.len() == 4 * w * h,
{
    let reader = image::ImageReader::new(Cursor::new(data)).with_guessed_format().ok()?;
    let rgba = reader.decode().ok()?.to_rgba8();
    let (w, h) = rgba.dimensions();
    Some((w, h, rgba.into_raw()))
}

/// Why a preview could not be stored.
#[derive(Debug)]
pub enum PreviewCodecError {
    /// The samples do not cover `width * height` RGBA pixels.
    InvalidDimensions,
    /// The JPEG encoder failed.
    Image(image::ImageError),
}

/// The bytes stored for the RGBA preview of `width` by `height` held in
/// `rgba`: its JPEG at `JPEG_QUALITY`. Fails when `rgba` is shorter than
/// `width * height` pixels, or when the encoder fails.
pub fn encode_jpeg_preview(width: u32, height: u32, rgba: &[u8]) -> (r: Result<Vec<u8>, PreviewCodecError>)
    ensures
        4 * width * height > rgba@.len() ==> r matches Err(PreviewCodecError::InvalidDimensions),
        4 * width * height <= rgba@.len() ==> {
            &&& r is Ok <==> jpeg_encoding(width, height, rgba@, JPEG_QUALITY) is Some
            &&& r matches Ok(v) ==> jpeg_encoding(width, height, rgba@, JPEG_QUALITY) == Some(v@)
            &&& r matches Err(e) ==> e is Image
        },
{
    assert(4 * width * height <= 4 * 0xffff_ffffu128 * 0xffff_ffffu128) by (nonlinear_arith);
    let need: u128 = 4 * (width as u128) * (height as u128);
    if need > rgba.len() as u128 {
        return Err(PreviewCodecError::InvalidDimensions);
    }
    match image_encode_jpeg(width, height, rgba, JPEG_QUALITY) {
        Ok(v) => Ok(v),
        Err(e) => Err(PreviewCodecError::Image(e)),
    }
}

/// A decoded preview, kept only when it has at least one pixel.
pub fn nonempty_image(decoded: Option<(u32, u32, Vec<u8>)>) -> (r: Option<(u32, u32, Vec<u8>)>)
    ensures
        r == match decoded {
            Some((w, h, px)) => if w > 0 && h > 0 { Some((w, h, px)) } else { None },
            None => None,
        },
{
    match decoded {
        Some((w, h, px)) => {
            if w == 0 || h == 0 {
                None
            } else {
                Some((w, h, px))
            }
        },
        None => None,
    }
}

/// The preview stored as `data`: its decoded RGBA image, unless decoding
/// fails or the image is empty (see [`nonempty_image`]).
pub fn decode_jpeg_preview(data: &[u8]) -> (r: Option<(u32, u32, Vec<u8>)>)
    ensures
        r is Some <==> (guessed_rgba_size(data@) matches Some((w, h)) && w > 0 && h > 0),
        r matches Some((w, h, px)) ==> guessed_rgba_size(data@) == Some((w, h)) && px@.len() == 4 * w * h,
{
    nonempty_image(image_decode_guessed_rgba(data))
}

} // verus!
