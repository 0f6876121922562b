//! Thumbnail extraction from raw and standard image files.
//!
//! Strategies, in order:
//! 1. **Embedded JPEG preview** (raw files): every `JPEGInterchangeFormat`
//!    tag of the EXIF data names an (offset, length) candidate; the first
//!    whose bytes start with the JPEG magic `FF D8 FF` and decode wins.
//! 2. **Scan the file** for the largest `FF D8 FF ... FF D9` block.
//! 3. **Full-file decode** (JPEG by extension first, then any format the
//!    image decoder recognises).

use std::io::Cursor;
use vstd::prelude::*;
use crate::import::pixels::{
    cmyk_channel, cmyk_to_rgba, grey_px, l16_to_rgba, l_to_rgba, lemma_rgba_seq, rgb_to_rgba, rgba_seq,
};
use crate::paths::{chars_in_list, extension, extension_of, lower, lower_chars};
use crate::import::exif::{exif_entries_of, read_exif_entries, ExifContext, ExifEntry};

verus! {

#[verifier::external_type_specification]
#[verifier::external_body]
pub struct ExIoError(std::io::Error);

#[verifier::external_type_specification]
#[verifier::external_body]
pub struct ExImageError(image::ImageError);

#[verifier::external_type_specification]
#[verifier::external_body]
pub struct ExJpegError(jpeg_decoder::Error);

/// Target longest edge for the decoded thumbnail, in pixels.
pub const THUMB_MAX_DIM: u32 = 256;

/// How many bytes of the file to scan when hunting for an embedded JPEG.
pub const SCAN_LIMIT: u64 = 64 * 1024 * 1024;

/// A decoded thumbnail ready to be uploaded to the GPU.
#[derive(Debug, Clone)]
pub struct Thumbnail {
    pub width: u32,
    pub height: u32,
    pub rgba: Vec<u8>,
    /// The largest dimension that was asked for. Useful for layout.
    pub max_dim: u32,
}

impl Thumbnail {
    /// `true` if no pixels are set (only possible on an empty image).
    pub fn is_empty(&self) -> (r: bool)
        ensures
            r == (self.rgba@.len() == 0),
    {
        self.rgba.len() == 0
    }

    /// Width and height, as a pair.
    pub fn size(&self) -> (r: (u32, u32))
        ensures
            r == (self.width, self.height),
    {
        (self.width, self.height)
    }
}

/// Errors from thumbnail extraction.
#[derive(Debug)]
pub enum ThumbnailError {
    Io(std::io::Error),
    Image(image::ImageError),
    Unsupported,
    JpegDecode(jpeg_decoder::Error),
    NoEmbedded(String),
    Exif(String),
}

/// The pixel layouts the JPEG decoder produces.
#[derive(Debug, Clone, Copy)]
pub enum JpegPixelFormat {
    L8,
    L16,
    RGB24,
    CMYK32,
}

/// A JPEG decoded at reduced scale: dimensions, layout and raw samples.
#[derive(Debug)]
pub struct JpegPixels {
    pub width: u16,
    pub height: u16,
    pub format: JpegPixelFormat,
    pub pixels: Vec<u8>,
}

/// Whether `jpeg_decoder` decodes `bytes` when asked to scale to at most
/// `max_dim` on each side, and if so the output width and height and the
/// pixel layout (the chain `Decoder::new`, `scale`, `decode`, `info`).
/// These come from parsing the headers and entropy-coded data, which the
/// crate does the same way on every machine; the sample values are left
/// unnamed (see [`jpeg_decode_scaled`]).
pub uninterp spec fn jpeg_scaled_shape(bytes: Seq<u8>, max_dim: u16) -> Option<(u16, u16, JpegPixelFormat)>;

/// Whether the `image` crate decodes `bytes` as JPEG, and if so the
/// width and height after `resize(max_dim, max_dim, Triangle)` (the chain
/// `ImageReader::new`, `set_format(Jpeg)`, `decode`, `resize`,
/// `to_rgba8`). The sample values are left unnamed.
pub uninterp spec fn jpeg_resized_size(bytes: Seq<u8>, max_dim: u32) -> Option<(u32, u32)>;

/// Whether the `image` crate decodes `bytes` in the format it guesses from
/// their content, and if so the width and height after
/// `thumbnail(max_dim, max_dim)` (the chain `ImageReader::new`,
/// `with_guessed_format`, `no_limits`, `decode`, `thumbnail`, `to_rgba8`).
/// The sample values are left unnamed.
pub uninterp spec fn guessed_thumbnail_size(bytes: Seq<u8>, max_dim: u32) -> Option<(u32, u32)>;

/// Calls `jpeg_decoder::Decoder::new` on `bytes`, then `scale(max_dim,
/// max_dim)`, `decode()` and `info()`, and hands back the decoded samples
/// with the frame's output size and pixel layout. Whether it succeeds, the
/// size and the layout are named by `jpeg_scaled_shape`. A decode error is
/// returned as `JpegDecode`, a missing frame header as `Unsupported`.
/// Nothing is stated of the samples: the crate picks its colour
/// conversion and inverse DCT by the CPU it runs on, and those may round
/// differently; nor of their count, which for lossless frames of
/// unusual precision is not one byte per channel. That the decoder
/// returns rather than panics on malformed bytes is assumed, not shown by
/// its source.
#[verifier::external_body]
fn jpeg_decode_scaled(bytes: &[u8], max_dim: u16) -> (r: Result<JpegPixels, ThumbnailError>)
    ensures
        r is Ok <==> jpeg_scaled_shape(bytes@, max_dim) is Some,
        r matches Ok(p) ==> jpeg_scaled_shape(bytes@, max_dim) == Some((p.width, p.height, p.format)),
        r matches Err(e) ==> (e is JpegDecode || e is Unsupported),
{
    let mut decoder = jpeg_decoder::Decoder::new(bytes);
    let _ = decoder.scale(max_dim, max_dim);
    let pixels = decoder.decode().map_err(ThumbnailError::JpegDecode)?;
    let info = decoder.info().ok_or(ThumbnailError::Unsupported)?;
    let format = match info.pixel_format {
        jpeg_decoder::PixelFormat::L8 => JpegPixelFormat::L8,
        jpeg_decoder::PixelFormat::L16 => JpegPixelFormat::L16,
        jpeg_decoder::PixelFormat::RGB24 => JpegPixelFormat::RGB24,
        jpeg_decoder::PixelFormat::CMYK32 => JpegPixelFormat::CMYK32,
    };
    Ok(JpegPixels { width: info.width, height: info.height, format, pixels })
}

/// Calls `image::ImageReader::new` over `bytes` with the format set to
/// JPEG, `decode()`, `resize(max_dim, max_dim, FilterType::Triangle)`,
/// `to_rgba8()`, and hands back the width, height and samples. Whether it
/// succeeds and the size are named by `jpeg_resized_size`; the size fits
/// in `max_dim` on each side and is at least one pixel (`resize` keeps
/// the aspect ratio within the bounds and rounds to at least 1), and the
/// samples are four per pixel (`to_rgba8` builds a buffer of exactly that
/// size). The sample values are not stated: the JPEG decoder behind the
/// crate may pick code by the CPU it runs on. That decoding returns
/// rather than panics on malformed bytes is assumed, not shown by the
/// crate's source.
#[verifier::external_body]
fn image_decode_jpeg_resized(bytes: &[u8], max_dim: u32) -> (r: Result<(u32, u32, Vec<u8>), image::ImageError>)
    requires
        max_dim >= 1,
    ensures
        r is Ok <==> jpeg_resized_size(bytes@, max_dim) is Some,
        r matches Ok((w, h, px)) ==> jpeg_resized_size(bytes@, max_dim) == Some((w, h)) && px@.len() == 4 * w * h
            && 1 <= w <= max_dim && 1 <= h <= max_dim,
{
    let mut reader = image::ImageReader::new(Cursor::new(bytes));
    reader.set_format(image::ImageFormat::Jpeg);
    let img = reader.decode()?;
    let rgba = img.resize(max_dim, max_dim, image::imageops::FilterType::Triangle).to_rgba8();
    let (w, h) = rgba.dimensions();
    Ok((w, h, rgba.into_raw()))
}

/// Calls `image::ImageReader::new` over `bytes`, `with_guessed_format()`,
/// `no_limits()`, `decode()`, `thumbnail(max_dim, max_dim)`,
/// `to_rgba8()`, and hands back the width, height and samples. Whether it
/// succeeds and the size are named by `guessed_thumbnail_size`; the size
/// fits in `max_dim` on each side and is at least one pixel
/// (`thumbnail` keeps the aspect ratio within the bounds and rounds to at
/// least 1), the samples are four per pixel, and failures come back as
/// `Io` (format guessing) or `Image` (decoding). The sample values are
/// not stated: some format decoders behind the crate pick code by the
/// CPU they run on. That the format decoders return rather than panic on
/// malformed bytes is assumed, not shown by the crate's source.
#[verifier::external_body]
fn image_decode_guessed_thumbnail(bytes: &[u8], max_dim: u32) -> (r: Result<(u32, u32, Vec<u8>), ThumbnailError>)
    requires
        max_dim >= 1,
    ensures
        r is Ok <==> guessed_thumbnail_size(bytes@, max_dim) is Some,
        r matches Ok((w, h, px)) ==> guessed_thumbnail_size(bytes@, max_dim) == Some((w, h)) && px@.len() == 4 * w * h
            && 1 <= w <= max_dim && 1 <= h <= max_dim,
        r matches Err(e) ==> (e is Io || e is Image),
{
    let mut reader = image::ImageReader::new(Cursor::new(bytes)).with_guessed_format().map_err(ThumbnailError::Io)?;
    reader.no_limits();
    let img = reader.decode().map_err(ThumbnailError::Image)?;
    let rgba = img.thumbnail(max_dim, max_dim).to_rgba8();
    let (w, h) = rgba.dimensions();
    Ok((w, h, rgba.into_raw()))
}

/// The RGBA samples for decoded JPEG samples of the given layout.
pub open spec fn pixels_rgba(format: JpegPixelFormat, p: Seq<u8>) -> Seq<u8> {
    match format {
        JpegPixelFormat::RGB24 => rgba_seq(p.len() / 3, |i: int| seq![p[3 * i], p[3 * i + 1], p[3 * i + 2], 255u8]),
        JpegPixelFormat::L8 => rgba_seq(p.len(), |i: int| grey_px(p[i])),
        JpegPixelFormat::L16 => rgba_seq(p.len() / 2, |i: int| grey_px(p[2 * i + 1])),
        JpegPixelFormat::CMYK32 => rgba_seq(p.len() / 4, |i: int| seq![
            cmyk_channel(p[4 * i], p[4 * i + 3]),
            cmyk_channel(p[4 * i + 1], p[4 * i + 3]),
            cmyk_channel(p[4 * i + 2], p[4 * i + 3]),
            255u8,
        ]),
    }
}

/// Build a thumbnail from JPEG samples: the dimensions widen to `u32` and
/// the samples become RGBA according to their layout.
pub fn thumbnail_from_jpeg_pixels(p: JpegPixels, max_dim: u32) -> (t: Thumbnail)
    ensures
        t.width == p.width as u32,
        t.height == p.height as u32,
        t.rgba@ == pixels_rgba(p.format, p.pixels@),
        t.max_dim == max_dim,
{
    let px = p.pixels.as_slice();
    let rgba = match p.format {
        JpegPixelFormat::RGB24 => {
            let out = rgb_to_rgba(px);
            proof {
                lemma_rgba_seq(out@, px@.len() / 3, |i: int| seq![px@[3 * i], px@[3 * i + 1], px@[3 * i + 2], 255u8]);
            }
            out
        },
        JpegPixelFormat::L8 => {
            let out = l_to_rgba(px);
            proof {
                lemma_rgba_seq(out@, px@.len(), |i: int| grey_px(px@[i]));
            }
            out
        },
        JpegPixelFormat::L16 => {
            let out = l16_to_rgba(px);
            proof {
                lemma_rgba_seq(out@, px@.len() / 2, |i: int| grey_px(px@[2 * i + 1]));
            }
            out
        },
        JpegPixelFormat::CMYK32 => {
            let out = cmyk_to_rgba(px);
            proof {
                lemma_rgba_seq(out@, px@.len() / 4, |i: int| seq![
                    cmyk_channel(px@[4 * i], px@[4 * i + 3]),
                    cmyk_channel(px@[4 * i + 1], px@[4 * i + 3]),
                    cmyk_channel(px@[4 * i + 2], px@[4 * i + 3]),
                    255u8,
                ]);
            }
            out
        },
    };
    Thumbnail { width: p.width as u32, height: p.height as u32, rgba, max_dim }
}

/// What holds of every thumbnail the decoders hand back: it was asked
/// for at `THUMB_MAX_DIM` and its samples come four per pixel (RGBA).
pub open spec fn decoded_thumb(t: Thumbnail) -> bool {
    t.max_dim == THUMB_MAX_DIM && t.rgba@.len() % 4 == 0
}

/// A thumbnail the `image` crate made: at least one pixel, at most
/// `THUMB_MAX_DIM` on each side, four samples per pixel.
pub open spec fn fitted_thumb(t: Thumbnail) -> bool {
    &&& 1 <= t.width <= THUMB_MAX_DIM
    &&& 1 <= t.height <= THUMB_MAX_DIM
    &&& t.rgba@.len() == 4 * t.width * t.height
}

/// Width and height of a thumbnail.
pub open spec fn thumb_size(t: Thumbnail) -> (u32, u32) {
    (t.width, t.height)
}

/// Four samples per pixel make a multiple of four.
proof fn lemma_four_per_pixel(n: int, w: u32, h: u32)
    requires
        n == 4 * w * h,
    ensures
        n % 4 == 0,
{
    assert(n == (w * h) * 4) by (nonlinear_arith)
        requires
            n == 4 * w * h,
    ;
    vstd::arithmetic::div_mod::lemma_mod_multiples_basic(w * h, 4);
}

/// `pixels_rgba` yields four samples per source pixel.
proof fn lemma_pixels_rgba_len(format: JpegPixelFormat, p: Seq<u8>)
    ensures
        pixels_rgba(format, p).len() % 4 == 0,
{
}

/// The size of the natively scaled decode of `bytes` at `THUMB_MAX_DIM`,
/// when it succeeds.
pub open spec fn native_size(bytes: Seq<u8>) -> Option<(u32, u32)> {
    match jpeg_scaled_shape(bytes, THUMB_MAX_DIM as u16) {
        Some((w, h, _)) => Some((w as u32, h as u32)),
        None => None,
    }
}

/// The size of a JPEG's thumbnail, when one comes out: the native
/// decode's, or else the `image` crate's resized decode's.
pub open spec fn jpeg_thumb_size(bytes: Seq<u8>) -> Option<(u32, u32)> {
    if native_size(bytes) is Some {
        native_size(bytes)
    } else {
        jpeg_resized_size(bytes, THUMB_MAX_DIM)
    }
}

/// Decode in-memory JPEG bytes with the decoder's native downscaling;
/// the samples become RGBA by their layout (see
/// [`thumbnail_from_jpeg_pixels`]).
pub fn decode_jpeg_native(bytes: &[u8]) -> (r: Result<Thumbnail, ThumbnailError>)
    ensures
        r is Ok <==> native_size(bytes@) is Some,
        r matches Ok(t) ==> native_size(bytes@) == Some(thumb_size(t)) && decoded_thumb(t),
        r matches Err(e) ==> (e is JpegDecode || e is Unsupported),
{
    match jpeg_decode_scaled(bytes, THUMB_MAX_DIM as u16) {
        Ok(p) => {
            let ghost (f, px) = (p.format, p.pixels@);
            let t = thumbnail_from_jpeg_pixels(p, THUMB_MAX_DIM);
            proof {
                lemma_pixels_rgba_len(f, px);
            }
            Ok(t)
        },
        Err(e) => Err(e),
    }
}

/// Decode in-memory JPEG bytes to a thumbnail: natively scaled when the
/// JPEG decoder handles them, else through the `image` crate (forced to
/// JPEG) and resized; an error is the `image` crate's.
pub fn decode_jpeg(bytes: &[u8]) -> (r: Result<Thumbnail, ThumbnailError>)
    ensures
        r is Ok <==> jpeg_thumb_size(bytes@) is Some,
        r matches Ok(t) ==> jpeg_thumb_size(bytes@) == Some(thumb_size(t)) && decoded_thumb(t),
        native_size(bytes@) is None ==> (r matches Ok(t) ==> fitted_thumb(t)),
        r matches Err(e) ==> e is Image,
{
    if let Ok(t) = decode_jpeg_native(bytes) {
        return Ok(t);
    }
    match image_decode_jpeg_resized(bytes, THUMB_MAX_DIM) {
        Ok((w, h, rgba)) => {
            proof {
                lemma_four_per_pixel(rgba@.len() as int, w, h);
            }
            Ok(Thumbnail { width: w, height: h, rgba, max_dim: THUMB_MAX_DIM })
        },
        Err(e) => Err(ThumbnailError::Image(e)),
    }
}

/// File extensions (lower case, no dot) the thumbnailer may handle.
pub const THUMB_EXTENSIONS: [&'static str; 27] = [
    "cr2", "cr3", "dng", "nef", "nrw", "arw", "srf", "sr2", "rw2", "orf", "raf", "pef", "iiq",
    "mrw", "srw", "rwl", "r3d", "jpg", "jpeg", "jpe", "tif", "tiff", "png", "heic", "heif",
    "avif", "webp",
];


/// `true` if the extension of `path` (any ASCII case) is one the
/// thumbnailer may handle; informational only.
pub fn is_known_extension(path: &str) -> (r: bool)
    ensures
        r == (extension_of(path@) matches Some(e) && exists|i: int|
            0 <= i < THUMB_EXTENSIONS@.len() && lower(e) == (#[trigger] THUMB_EXTENSIONS@[i])@),
{
    match extension(path) {
        Some(e) => {
            let low = lower_chars(e.as_str());
            chars_in_list(low.as_slice(), &THUMB_EXTENSIONS)
        },
        None => false,
    }
}

/// Extensions (lower case) of JPEG files.
pub const JPEG_EXTENSIONS: [&'static str; 3] = ["jpg", "jpeg", "jpe"];

/// The extension of `path` looks like JPEG.
pub open spec fn jpeg_path(path: Seq<char>) -> bool {
    extension_of(path) matches Some(e) && exists|i: int|
        0 <= i < JPEG_EXTENSIONS@.len() && lower(e) == (#[trigger] JPEG_EXTENSIONS@[i])@
}

/// True if the extension of `path` looks like JPEG.
pub fn is_jpeg(path: &str) -> (r: bool)
    ensures
        r == jpeg_path(path@),
{
    match extension(path) {
        Some(e) => {
            let low = lower_chars(e.as_str());
            chars_in_list(low.as_slice(), &JPEG_EXTENSIONS)
        },
        None => false,
    }
}

// ---------------------------------------------------------------------
// Strategy 2: scanning for the largest JPEG block
// ---------------------------------------------------------------------

/// `buf[i..i + 3]` is the JPEG start-of-image marker `FF D8 FF`.
pub open spec fn soi_at(buf: Seq<u8>, i: int) -> bool {
    i + 3 <= buf.len() && buf[i] == 0xFF && buf[i + 1] == 0xD8 && buf[i + 2] == 0xFF
}

/// The end (just past `FF D9`) of the first end-of-image marker at or
/// after `j`, if any.
pub open spec fn find_eoi(buf: Seq<u8>, j: int) -> Option<int>
    decreases buf.len() - j,
{
    if j < 0 || j + 1 >= buf.len() {
        None
    } else if buf[j] == 0xFF && buf[j + 1] == 0xD9 {
        Some(j + 2)
    } else {
        find_eoi(buf, j + 1)
    }
}

/// A span of `len` bytes replaces the best one so far when it is longer.
pub open spec fn longer(best: Option<(int, int)>, len: int) -> bool {
    match best {
        Some((s, e)) => len > e - s,
        None => true,
    }
}

/// Scan from `i` with `best` the largest span found so far: each start
/// marker is paired with the next end marker and scanning resumes after
/// it; a start marker without an end marker runs to the end of `buf` and
/// ends the scan.
pub open spec fn scan_from(buf: Seq<u8>, i: int, best: Option<(int, int)>) -> Option<(int, int)>
    decreases buf.len() - i,
{
    if i < 0 || i + 3 > buf.len() {
        best
    } else if soi_at(buf, i) {
        match find_eoi(buf, i + 3) {
            Some(end) => {
                proof {
                    lemma_find_eoi_after(buf, i + 3);
                }
                scan_from(buf, end, if longer(best, end - i) { Some((i, end)) } else { best })
            },
            None => if longer(best, buf.len() - i) { Some((i, buf.len() as int)) } else { best },
        }
    } else {
        scan_from(buf, i + 1, best)
    }
}

pub proof fn lemma_find_eoi_after(buf: Seq<u8>, j: int)
    ensures
        find_eoi(buf, j) matches Some(e) ==> j + 2 <= e <= buf.len(),
    decreases buf.len() - j,
{
    if !(j < 0 || j + 1 >= buf.len()) && !(buf[j] == 0xFF && buf[j + 1] == 0xD9) {
        lemma_find_eoi_after(buf, j + 1);
    }
}

proof fn lemma_scan_bounds(buf: Seq<u8>, i: int, best: Option<(int, int)>)
    requires
        best matches Some((s, e)) ==> 0 <= s <= e <= buf.len(),
    ensures
        scan_from(buf, i, best) matches Some((s, e)) ==> 0 <= s <= e <= buf.len(),
    decreases buf.len() - i,
{
    if i < 0 || i + 3 > buf.len() {
    } else if soi_at(buf, i) {
        match find_eoi(buf, i + 3) {
            Some(end) => {
                lemma_find_eoi_after(buf, i + 3);
                lemma_scan_bounds(buf, end, if longer(best, end - i) { Some((i, end)) } else { best });
            },
            None => {},
        }
    } else {
        lemma_scan_bounds(buf, i + 1, best);
    }
}

/// The JPEG blocks the scan meets from position `i` on, in order: each
/// start marker is paired with the next end marker and the scan resumes
/// after it; a start marker with no end marker after it runs to the end
/// of `buf` and is the last block.
pub open spec fn jpeg_blocks(buf: Seq<u8>, i: int) -> Seq<(int, int)>
    decreases buf.len() - i,
{
    if i < 0 || i + 3 > buf.len() {
        Seq::empty()
    } else if soi_at(buf, i) {
        match find_eoi(buf, i + 3) {
            Some(end) => {
                proof {
                    lemma_find_eoi_after(buf, i + 3);
                }
                seq![(i, end)] + jpeg_blocks(buf, end)
            },
            None => seq![(i, buf.len() as int)],
        }
    } else {
        jpeg_blocks(buf, i + 1)
    }
}

/// A complete block of `buf`: it starts with `FF D8 FF` and ends just
/// past an `FF D9` marker after it, or at the end of `buf`.
pub open spec fn complete_block(buf: Seq<u8>, b: (int, int)) -> bool {
    &&& soi_at(buf, b.0)
    &&& b.0 + 3 <= b.1 <= buf.len()
    &&& (b.1 == buf.len() || (b.1 >= b.0 + 5 && buf[b.1 - 2] == 0xFF && buf[b.1 - 1] == 0xD9))
}

proof fn lemma_find_eoi_marker(buf: Seq<u8>, j: int)
    ensures
        find_eoi(buf, j) matches Some(e) ==> j + 2 <= e <= buf.len() && buf[e - 2] == 0xFF && buf[e - 1] == 0xD9,
    decreases buf.len() - j,
{
    if !(j < 0 || j + 1 >= buf.len()) && !(buf[j] == 0xFF && buf[j + 1] == 0xD9) {
        lemma_find_eoi_marker(buf, j + 1);
    }
}

/// Every block the scan meets from `i` on is complete and starts at `i`
/// or later.
proof fn lemma_blocks_complete(buf: Seq<u8>, i: int)
    requires
        0 <= i,
    ensures
        forall|k: int| 0 <= k < jpeg_blocks(buf, i).len() ==> complete_block(buf, #[trigger] jpeg_blocks(buf, i)[k])
            && jpeg_blocks(buf, i)[k].0 >= i,
    decreases buf.len() - i,
{
    if i + 3 > buf.len() {
    } else if soi_at(buf, i) {
        lemma_find_eoi_marker(buf, i + 3);
        match find_eoi(buf, i + 3) {
            Some(end) => {
                lemma_blocks_complete(buf, end);
                let rest = jpeg_blocks(buf, end);
                assert(jpeg_blocks(buf, i) == seq![(i, end)] + rest);
                assert forall|k: int| 0 <= k < jpeg_blocks(buf, i).len() implies complete_block(buf, #[trigger] jpeg_blocks(buf, i)[k])
                    && jpeg_blocks(buf, i)[k].0 >= i by {
                    if k > 0 {
                        assert(jpeg_blocks(buf, i)[k] == rest[k - 1]);
                    } else {
                        assert(jpeg_blocks(buf, i)[k] == (i, end));
                    }
                }
            },
            None => {
                assert(jpeg_blocks(buf, i) == seq![(i, buf.len() as int)]);
                assert(complete_block(buf, (i, buf.len() as int)));
            },
        }
    } else {
        lemma_blocks_complete(buf, i + 1);
        assert(jpeg_blocks(buf, i) == jpeg_blocks(buf, i + 1));
    }
}

/// Length of a block.
pub open spec fn block_len(b: (int, int)) -> int {
    b.1 - b.0
}

/// The scan keeps the longest block: its result is the best block so far
/// or a block met from `i` on, no block met is longer, a block met earlier
/// than the result is strictly shorter, and a result other than the best
/// so far is strictly longer than it.
proof fn lemma_scan_keeps_longest(buf: Seq<u8>, i: int, best: Option<(int, int)>)
    requires
        0 <= i,
        best matches Some((s, e)) ==> s < i,
    ensures
        ({
            let r = scan_from(buf, i, best);
            let bs = jpeg_blocks(buf, i);
            &&& (r is None <==> best is None && bs.len() == 0)
            &&& (r matches Some(x) ==> (best == Some(x) || bs.contains(x)))
            &&& (r matches Some(x) ==> forall|k: int| 0 <= k < bs.len() ==> block_len(#[trigger] bs[k]) <= block_len(x))
            &&& (r matches Some(x) ==> forall|k: int, l: int| #![trigger bs[k], bs[l]] 0 <= l < k < bs.len() && bs[k] == x
                ==> block_len(bs[l]) < block_len(x))
            &&& (best matches Some(b) ==> (r matches Some(x) && block_len(b) <= block_len(x)
                && (x != b ==> block_len(b) < block_len(x))))
        }),
    decreases buf.len() - i,
{
    lemma_blocks_complete(buf, i);
    if i + 3 > buf.len() {
    } else if soi_at(buf, i) {
        match find_eoi(buf, i + 3) {
            Some(end) => {
                lemma_find_eoi_after(buf, i + 3);
                let nb = if longer(best, end - i) { Some((i, end)) } else { best };
                lemma_scan_keeps_longest(buf, end, nb);
                lemma_blocks_complete(buf, end);
                let rest = jpeg_blocks(buf, end);
                let bs = jpeg_blocks(buf, i);
                assert(bs == seq![(i, end)] + rest);
                let r = scan_from(buf, i, best);
                assert(r == scan_from(buf, end, nb));
                let x = r->0;
                assert(r is Some);
                if rest.contains(x) {
                    let w = choose|w: int| 0 <= w < rest.len() && rest[w] == x;
                    assert(bs[w + 1] == x);
                    assert(x.0 >= end);
                } else if x == (i, end) {
                    assert(bs[0] == x);
                }
                assert forall|k: int| 0 <= k < bs.len() implies block_len(#[trigger] bs[k]) <= block_len(x) by {
                    if k > 0 {
                        assert(bs[k] == rest[k - 1]);
                    }
                }
                assert forall|k: int, l: int| #![trigger bs[k], bs[l]] 0 <= l < k < bs.len() && bs[k] == x
                    implies block_len(bs[l]) < block_len(x) by {
                    assert(bs[k] == rest[k - 1]);
                    assert(rest[k - 1].0 >= end);
                    if l > 0 {
                        assert(bs[l] == rest[l - 1]);
                    } else {
                        assert(x.0 >= end);
                        assert(nb is Some);
                        assert(x != nb->0);
                    }
                }
            },
            None => {
                let bs = jpeg_blocks(buf, i);
                assert(bs == seq![(i, buf.len() as int)]);
                assert(bs[0] == (i, buf.len() as int));
            },
        }
    } else {
        lemma_scan_keeps_longest(buf, i + 1, best);
        assert(jpeg_blocks(buf, i) == jpeg_blocks(buf, i + 1));
    }
}

/// The block the scan keeps is the longest one: `scan_from(buf, 0, None)`
/// is `None` exactly when `buf` holds no block; otherwise it is one of the
/// blocks the scan meets, it is complete (it starts with `FF D8 FF` and
/// ends past `FF D9` or at the end of `buf`), no block met is longer, and
/// every block met before it is strictly shorter (a later block of the
/// same length, or a shorter one, never replaces it).
pub proof fn law_scan_keeps_the_longest_block(buf: Seq<u8>)
    ensures
        scan_from(buf, 0, None) is None <==> jpeg_blocks(buf, 0).len() == 0,
        scan_from(buf, 0, None) matches Some(x) ==> {
            let bs = jpeg_blocks(buf, 0);
            &&& bs.contains(x)
            &&& complete_block(buf, x)
            &&& forall|k: int| 0 <= k < bs.len() ==> block_len(#[trigger] bs[k]) <= block_len(x)
            &&& forall|k: int, l: int| #![trigger bs[k], bs[l]] 0 <= l < k < bs.len() && bs[k] == x ==> block_len(bs[l]) < block_len(x)
        },
{
    lemma_scan_keeps_longest(buf, 0, None);
    lemma_blocks_complete(buf, 0);
    if scan_from(buf, 0, None) is Some {
        let x = scan_from(buf, 0, None)->0;
        let bs = jpeg_blocks(buf, 0);
        let w = choose|w: int| 0 <= w < bs.len() && bs[w] == x;
        assert(complete_block(buf, bs[w]));
    }
}

/// The largest JPEG block of `buf` (start and end offsets), if any.
pub fn find_largest_jpeg(buf: &[u8]) -> (r: Option<(usize, usize)>)
    ensures
        r matches Some((s, e)) ==> scan_from(buf@, 0, None) == Some((s as int, e as int)) && s <= e <= buf@.len(),
        r is None ==> scan_from(buf@, 0, None) is None,
{
    let n = buf.len();
    let mut best: Option<(usize, usize)> = None;
    let mut i: usize = 0;
    while n - i >= 3
        invariant_except_break
            scan_from(buf@, 0, None) == scan_from(buf@, i as int,
                match best { Some((s, e)) => Some((s as int, e as int)), None => None }),
        invariant
            n == buf@.len(),
            i <= n,
            best matches Some((s, e)) ==> s <= e <= n,
        ensures
            scan_from(buf@, 0, None) == match best { Some((s, e)) => Some((s as int, e as int)), None => None },
        decreases n - i,
    {
        let ghost gbest = match best { Some((s, e)) => Some((s as int, e as int)), None => None::<(int, int)> };
        if buf[i] == 0xFF && buf[i + 1] == 0xD8 && buf[i + 2] == 0xFF {
            let mut j = i + 3;
            let mut found: Option<usize> = None;
            while n - j > 1
                invariant_except_break
                    find_eoi(buf@, i + 3) == find_eoi(buf@, j as int),
                    found is None,
                invariant
                    n == buf@.len(),
                    i + 3 <= j <= n,
                ensures
                    found matches Some(e) ==> find_eoi(buf@, i + 3) == Some(e as int) && e <= n,
                    found is None ==> find_eoi(buf@, i + 3) is None,
                decreases n - j,
            {
                if buf[j] == 0xFF && buf[j + 1] == 0xD9 {
                    found = Some(j + 2);
                    break;
                }
                j = j + 1;
            }
            proof {
                lemma_find_eoi_after(buf@, i + 3);
            }
            match found {
                Some(end) => {
                    let len = end - i;
                    let take = match best {
                        Some((s, e)) => len > e - s,
                        None => true,
                    };
                    if take {
                        best = Some((i, end));
                    }
                    i = end;
                },
                None => {
                    let len = n - i;
                    let take = match best {
                        Some((s, e)) => len > e - s,
                        None => true,
                    };
                    if take {
                        best = Some((i, n));
                    }
                    break;
                },
            }
        } else {
            i = i + 1;
        }
    }
    best
}

/// `buf` restricted to the first `SCAN_LIMIT` bytes.
pub open spec fn scan_window(file: Seq<u8>) -> Seq<u8> {
    if file.len() <= SCAN_LIMIT { file } else { file.subrange(0, SCAN_LIMIT as int) }
}

/// The size of the thumbnail of the largest JPEG block within the scan
/// window, when the window has a block and it decodes.
pub open spec fn scanned_size(file: Seq<u8>) -> Option<(u32, u32)> {
    let w = scan_window(file);
    match scan_from(w, 0, None) {
        Some((s, e)) => jpeg_thumb_size(w.subrange(s, e)),
        None => None,
    }
}

/// Scan the first `SCAN_LIMIT` bytes of the file for the largest
/// contiguous JPEG block (the one [`find_largest_jpeg`] picks) and decode
/// those bytes with [`decode_jpeg`]. Fails with `Exif` exactly when the
/// window holds no JPEG block, and with the decoder's `Image` error when
/// the block does not decode.
pub fn scan_for_largest_jpeg(file: &[u8]) -> (r: Result<Thumbnail, ThumbnailError>)
    ensures
        r is Ok <==> scanned_size(file@) is Some,
        r matches Ok(t) ==> scanned_size(file@) == Some(thumb_size(t)) && decoded_thumb(t),
        (r matches Err(e) && e is Exif) <==> scan_from(scan_window(file@), 0, None) is None,
        r matches Err(e) ==> (e is Exif || e is Image),
{
    let limit = if (file.len() as u64) <= SCAN_LIMIT { file.len() } else { SCAN_LIMIT as usize };
    let window = &file[0..limit];
    assert(window@ == scan_window(file@));
    let (start, end) = match find_largest_jpeg(window) {
        Some(se) => se,
        None => {
            let mut msg = String::new();
            msg.append("no JPEG in scan");
            return Err(ThumbnailError::Exif(msg));
        },
    };
    let block = &window[start..end];
    assert(block@ == window@.subrange(start as int, end as int));
    decode_jpeg(block)
}

// ---------------------------------------------------------------------
// Strategy 1: previews named by EXIF tags
// ---------------------------------------------------------------------

/// The TIFF tag `JPEGInterchangeFormat` (offset of an embedded JPEG).
pub open spec fn is_jif_offset(f: ExifEntry) -> bool {
    f.context is Tiff && f.tag == 0x201
}

/// The TIFF tag `JPEGInterchangeFormatLength` (its length).
pub open spec fn is_jif_length(f: ExifEntry) -> bool {
    f.context is Tiff && f.tag == 0x202
}

/// The first length field of IFD `ifd` at or after position `j`.
pub open spec fn find_length_field(fs: Seq<ExifEntry>, ifd: u16, j: int) -> Option<ExifEntry>
    decreases fs.len() - j,
{
    if j < 0 || j >= fs.len() {
        None
    } else if is_jif_length(fs[j]) && fs[j].ifd == ifd {
        Some(fs[j])
    } else {
        find_length_field(fs, ifd, j + 1)
    }
}

/// The embedded JPEG length recorded for IFD `ifd`: the first unsigned
/// integer of its first length field, or 0.
pub open spec fn jif_length(fs: Seq<ExifEntry>, ifd: u16) -> u32 {
    match find_length_field(fs, ifd, 0) {
        Some(g) => match g.uint0 {
            Some(v) => v,
            None => 0,
        },
        None => 0,
    }
}

/// The (offset, length) candidates among the first `n` fields: every
/// offset field with an integer value whose IFD records a non-zero
/// length, in field order.
pub open spec fn jif_candidates(fs: Seq<ExifEntry>, n: nat) -> Seq<(u64, u64)>
    decreases n,
{
    if n == 0 || n > fs.len() {
        Seq::empty()
    } else {
        let prev = jif_candidates(fs, (n - 1) as nat);
        let f = fs[n - 1];
        if is_jif_offset(f) && f.uint0 is Some && jif_length(fs, f.ifd) != 0 {
            prev.push((f.uint0->0 as u64, jif_length(fs, f.ifd) as u64))
        } else {
            prev
        }
    }
}

/// Field `j` of `fs` names an embedded JPEG: a `JPEGInterchangeFormat`
/// field with an integer value whose IFD records a non-zero length.
pub open spec fn names_candidate(fs: Seq<ExifEntry>, j: int) -> bool {
    is_jif_offset(fs[j]) && fs[j].uint0 is Some && jif_length(fs, fs[j].ifd) != 0
}

/// The (offset, length) candidate that field `j` names.
pub open spec fn candidate_of(fs: Seq<ExifEntry>, j: int) -> (u64, u64) {
    (fs[j].uint0->0 as u64, jif_length(fs, fs[j].ifd) as u64)
}

proof fn lemma_candidates_in_field_order(fs: Seq<ExifEntry>, n: nat) -> (idx: Seq<int>)
    requires
        n <= fs.len(),
    ensures
        idx.len() == jif_candidates(fs, n).len(),
        forall|k: int| 0 <= k < idx.len() ==> 0 <= #[trigger] idx[k] < n && names_candidate(fs, idx[k])
            && jif_candidates(fs, n)[k] == candidate_of(fs, idx[k]),
        forall|k: int, l: int| 0 <= k < l < idx.len() ==> #[trigger] idx[k] < #[trigger] idx[l],
        forall|j: int| 0 <= j < n && #[trigger] names_candidate(fs, j) ==> idx.contains(j),
    decreases n,
{
    if n == 0 {
        Seq::empty()
    } else {
        let prev = lemma_candidates_in_field_order(fs, (n - 1) as nat);
        let j = n - 1;
        if names_candidate(fs, j) {
            let idx = prev.push(j);
            assert forall|i: int| 0 <= i < n && #[trigger] names_candidate(fs, i) implies idx.contains(i) by {
                if i < j {
                    let w = choose|w: int| 0 <= w < prev.len() && prev[w] == i;
                    assert(idx[w] == i);
                } else {
                    assert(idx[prev.len() as int] == i);
                }
            }
            idx
        } else {
            assert forall|i: int| 0 <= i < n && #[trigger] names_candidate(fs, i) implies prev.contains(i) by {
                if i == j {
                    assert(false);
                }
            }
            prev
        }
    }
}

/// The embedded-preview candidates keep the order of the EXIF fields:
/// there is a strictly increasing list of field positions such that
/// candidate `k` is the one named by field `idx[k]`, and every field that
/// names a candidate is on the list. So the first qualifying offset field
/// yields the first candidate, and no candidate comes before one named by
/// an earlier field.
pub proof fn law_candidates_follow_field_order(fs: Seq<ExifEntry>) -> (idx: Seq<int>)
    ensures
        idx.len() == jif_candidates(fs, fs.len()).len(),
        forall|k: int| 0 <= k < idx.len() ==> 0 <= #[trigger] idx[k] < fs.len() && names_candidate(fs, idx[k])
            && jif_candidates(fs, fs.len())[k] == candidate_of(fs, idx[k]),
        forall|k: int, l: int| 0 <= k < l < idx.len() ==> #[trigger] idx[k] < #[trigger] idx[l],
        forall|j: int| 0 <= j < fs.len() && #[trigger] names_candidate(fs, j) ==> idx.contains(j),
{
    lemma_candidates_in_field_order(fs, fs.len())
}

/// The first unsigned integer of the first length field of IFD `ifd`.
fn length_for(fs: &[ExifEntry], ifd: u16) -> (r: u32)
    ensures
        r == jif_length(fs@, ifd),
{
    let mut j: usize = 0;
    while j < fs.len()
        invariant
            j <= fs@.len(),
            find_length_field(fs@, ifd, 0) == find_length_field(fs@, ifd, j as int),
        decreases fs@.len() - j,
    {
        let g = &fs[j];
        let is_len = match g.context {
            ExifContext::Tiff => g.tag == 0x202,
            _ => false,
        };
        if is_len && g.ifd == ifd {
            return match g.uint0 {
                Some(v) => v,
                None => 0,
            };
        }
        j = j + 1;
    }
    0
}

/// The (offset, length) candidates of embedded JPEGs named by `fs`.
pub fn embedded_candidates(fs: &[ExifEntry]) -> (r: Vec<(u64, u64)>)
    ensures
        r@ == jif_candidates(fs@, fs@.len()),
{
    let mut out: Vec<(u64, u64)> = Vec::new();
    let mut i: usize = 0;
    while i < fs.len()
        invariant
            i <= fs@.len(),
            out@ == jif_candidates(fs@, i as nat),
        decreases fs@.len() - i,
    {
        let f = &fs[i];
        let is_off = match f.context {
            ExifContext::Tiff => f.tag == 0x201,
            _ => false,
        };
        if is_off {
            if let Some(offset) = f.uint0 {
                let length = length_for(fs, f.ifd);
                if length != 0 {
                    out.push((offset as u64, length as u64));
                }
            }
        }
        i = i + 1;
    }
    out
}

/// The bytes a candidate names, when the file holds all of them.
pub open spec fn candidate_bytes(file: Seq<u8>, c: (u64, u64)) -> Option<Seq<u8>> {
    if c.0 + c.1 <= file.len() {
        Some(file.subrange(c.0 as int, c.0 + c.1))
    } else {
        None
    }
}

/// The bytes start with the JPEG marker `FF D8 FF`.
pub open spec fn starts_with_soi(b: Seq<u8>) -> bool {
    soi_at(b, 0)
}

/// The size of a candidate's thumbnail: when it is worth decoding and
/// its bytes decode.
pub open spec fn candidate_size(file: Seq<u8>, c: (u64, u64)) -> Option<(u32, u32)> {
    match candidate_bytes(file, c) {
        Some(b) => if starts_with_soi(b) { jpeg_thumb_size(b) } else { None },
        None => None,
    }
}

/// The size from the first candidate, at position `i` or later, whose
/// thumbnail comes out.
pub open spec fn first_candidate_size(file: Seq<u8>, cs: Seq<(u64, u64)>, i: int) -> Option<(u32, u32)>
    decreases cs.len() - i,
{
    if i < 0 || i >= cs.len() {
        None
    } else if candidate_size(file, cs[i]) is Some {
        candidate_size(file, cs[i])
    } else {
        first_candidate_size(file, cs, i + 1)
    }
}

/// The size of the embedded preview's thumbnail: from the first
/// candidate, in field order, whose bytes lie in the file, start like a
/// JPEG and decode.
pub open spec fn embedded_size(file: Seq<u8>) -> Option<(u32, u32)> {
    match exif_entries_of(file) {
        Some(fs) => first_candidate_size(file, jif_candidates(fs, fs.len()), 0),
        None => None,
    }
}

/// Message of the error for a file without an EXIF block.
pub const NO_EXIF_BLOCK: &'static str = "no exif block";

/// Message of the error for EXIF data naming no embedded JPEG.
pub const NO_JIF_TAG: &'static str = "no JPEGInterchangeFormat tag";

/// Message of the error when no named embedded JPEG decodes.
pub const NO_EMBEDDED_JPEG: &'static str = "no embedded JPEG found via EXIF tags";

fn exif_error(msg: &str) -> (e: ThumbnailError)
    ensures
        e matches ThumbnailError::Exif(m) && m@ == msg@,
{
    ThumbnailError::Exif(msg.to_string())
}

/// Try every IFD's `JPEGInterchangeFormat` tag, in field order (see
/// [`embedded_candidates`]); the first candidate whose bytes lie in the
/// file, start with the JPEG magic and decode with [`decode_jpeg`] wins,
/// and candidates that do not start with the magic are never decoded.
/// Raw data is never handed to a format guesser. Fails with
/// `NO_EXIF_BLOCK` exactly when the EXIF reader finds no block, with
/// `NO_JIF_TAG` exactly when the block names no embedded JPEG, and with
/// `NO_EMBEDDED_JPEG` exactly when no candidate yields a thumbnail.
pub fn extract_embedded(file: &[u8]) -> (r: Result<Thumbnail, ThumbnailError>)
    ensures
        r is Ok <==> embedded_size(file@) is Some,
        r matches Ok(t) ==> embedded_size(file@) == Some(thumb_size(t)) && decoded_thumb(t),
        (r matches Err(ThumbnailError::Exif(m)) && m@ == NO_EXIF_BLOCK@) <==> exif_entries_of(file@) is None,
        (r matches Err(ThumbnailError::Exif(m)) && m@ == NO_JIF_TAG@) <==> (exif_entries_of(file@) matches Some(fs)
            && jif_candidates(fs, fs.len()).len() == 0),
        (r matches Err(ThumbnailError::Exif(m)) && m@ == NO_EMBEDDED_JPEG@) <==> (exif_entries_of(file@) matches Some(fs)
            && jif_candidates(fs, fs.len()).len() > 0 && embedded_size(file@) is None),
        r matches Err(e) ==> e is Exif,
{
    proof {
        reveal_strlit("no exif block");
        reveal_strlit("no JPEGInterchangeFormat tag");
        reveal_strlit("no embedded JPEG found via EXIF tags");
        assert(NO_EXIF_BLOCK@.len() == 13);
        assert(NO_JIF_TAG@.len() == 28);
        assert(NO_EMBEDDED_JPEG@.len() == 36);
    }
    let fields = match read_exif_entries(file) {
        Some(f) => f,
        None => { return Err(exif_error(NO_EXIF_BLOCK)); },
    };
    let cands = embedded_candidates(fields.as_slice());
    let ghost cs = cands@;
    if cands.len() == 0 {
        return Err(exif_error(NO_JIF_TAG));
    }
    let n = cands.len();
    let mut i: usize = 0;
    while i < n
        invariant
            cs == cands@,
            n == cs.len(),
            i <= n,
            (exif_entries_of(file@) matches Some(fs) && cs == jif_candidates(fs, fs.len())),
            embedded_size(file@) == first_candidate_size(file@, cs, i as int),
        decreases n - i,
    {
        let (offset, length) = cands[i];
        let fits = offset <= file.len() as u64 && length <= (file.len() as u64) - offset;
        if fits {
            let start = offset as usize;
            let end = start + (length as usize);
            let part = &file[start..end];
            assert(candidate_bytes(file@, cs[i as int]) == Some(part@));
            if part.len() >= 3 && part[0] == 0xFF && part[1] == 0xD8 && part[2] == 0xFF {
                if let Ok(t) = decode_jpeg(part) {
                    return Ok(t);
                }
            }
        }
        i = i + 1;
    }
    Err(exif_error(NO_EMBEDDED_JPEG))
}

// ---------------------------------------------------------------------
// Strategy 3 and the whole pipeline
// ---------------------------------------------------------------------

/// The size of the full-file thumbnail, when one comes out: JPEG files
/// (by extension) natively scaled when that decode succeeds; otherwise
/// the `image` crate's thumbnail of the file in the format it guesses.
pub open spec fn full_size(file: Seq<u8>, path: Seq<char>) -> Option<(u32, u32)> {
    if jpeg_path(path) && native_size(file) is Some {
        native_size(file)
    } else {
        guessed_thumbnail_size(file, THUMB_MAX_DIM)
    }
}

/// Decode the whole file (bytes `file`, named `path`) to a thumbnail:
/// JPEG files (by extension) through the natively scaled JPEG decoder
/// when it succeeds; otherwise the `image` crate with the format guessed
/// from the content, reduced with `thumbnail` to fit `THUMB_MAX_DIM`.
pub fn extract_full(file: &[u8], path: &str) -> (r: Result<Thumbnail, ThumbnailError>)
    ensures
        r is Ok <==> full_size(file@, path@) is Some,
        r matches Ok(t) ==> full_size(file@, path@) == Some(thumb_size(t)) && decoded_thumb(t),
        !(jpeg_path(path@) && native_size(file@) is Some) ==> (r matches Ok(t) ==> fitted_thumb(t)),
        r matches Err(e) ==> (e is Io || e is Image),
{
    if is_jpeg(path) {
        if let Ok(t) = decode_jpeg_native(file) {
            return Ok(t);
        }
    }
    match image_decode_guessed_thumbnail(file, THUMB_MAX_DIM) {
        Ok((w, h, rgba)) => {
            proof {
                lemma_four_per_pixel(rgba@.len() as int, w, h);
            }
            Ok(Thumbnail { width: w, height: h, rgba, max_dim: THUMB_MAX_DIM })
        },
        Err(e) => Err(e),
    }
}

/// The size of the thumbnail the three strategies yield, each tried only
/// after the previous one gave none: the embedded preview, the largest
/// JPEG block, the whole file.
pub open spec fn thumbnail_size(file: Seq<u8>, path: Seq<char>) -> Option<(u32, u32)> {
    if embedded_size(file) is Some {
        embedded_size(file)
    } else if scanned_size(file) is Some {
        scanned_size(file)
    } else {
        full_size(file, path)
    }
}

/// Try every strategy to produce a thumbnail of the file whose bytes are
/// `file` and whose path is `path`: the embedded preview, then the
/// largest JPEG block, then the whole file, each only after the previous
/// one failed. Fails only if nothing worked, with the error of the
/// full-file decode.
pub fn extract_thumbnail(file: &[u8], path: &str) -> (r: Result<Thumbnail, ThumbnailError>)
    ensures
        r is Ok <==> thumbnail_size(file@, path@) is Some,
        r matches Ok(t) ==> thumbnail_size(file@, path@) == Some(thumb_size(t)) && decoded_thumb(t),
        embedded_size(file@) is None && scanned_size(file@) is None
            && !(jpeg_path(path@) && native_size(file@) is Some) ==> (r matches Ok(t) ==> fitted_thumb(t)),
        r matches Err(e) ==> (e is Io || e is Image),
{
    if let Ok(t) = extract_embedded(file) {
        return Ok(t);
    }
    if let Ok(t) = scan_for_largest_jpeg(file) {
        return Ok(t);
    }
    extract_full(file, path)
}

/// The three strategies run in order, each only after the previous one
/// gave nothing: the embedded preview wins when it yields a thumbnail;
/// otherwise, when the scan window holds a JPEG block that decodes, the
/// result is that block's thumbnail; otherwise the full-file decode's.
/// So the pipeline fails only when all three strategies fail.
pub proof fn law_thumbnail_strategies_in_order(file: Seq<u8>, path: Seq<char>)
    ensures
        embedded_size(file) is Some ==> thumbnail_size(file, path) == embedded_size(file),
        embedded_size(file) is None ==> match scan_from(scan_window(file), 0, None) {
            Some((s, e)) => jpeg_thumb_size(scan_window(file).subrange(s, e)) is Some
                ==> thumbnail_size(file, path) == jpeg_thumb_size(scan_window(file).subrange(s, e)),
            None => thumbnail_size(file, path) == full_size(file, path),
        },
        thumbnail_size(file, path) is None <==> (embedded_size(file) is None && scanned_size(file) is None
            && full_size(file, path) is None),
{
}

} // verus!
