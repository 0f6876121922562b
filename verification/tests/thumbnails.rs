use std::io::Cursor;

use realraw::import::pixels::{cmyk_to_rgba, l16_to_rgba, l_to_rgba, rgb_to_rgba};
use realraw::import::thumbnail::{
    decode_jpeg, decode_jpeg_native,
    extract_embedded, extract_thumbnail, find_largest_jpeg, scan_for_largest_jpeg, ThumbnailError,
    NO_EMBEDDED_JPEG, NO_EXIF_BLOCK, NO_JIF_TAG, THUMB_MAX_DIM,
};

fn png_bytes(w: u32, h: u32) -> Vec<u8> {
    let img = image::RgbImage::from_fn(w, h, |x, y| {
        image::Rgb([(x % 256) as u8, (y % 256) as u8, ((x + y) % 256) as u8])
    });
    let mut buf = Cursor::new(Vec::<u8>::new());
    image::DynamicImage::ImageRgb8(img)
        .write_to(&mut buf, image::ImageFormat::Png)
        .unwrap();
    buf.into_inner()
}

/// A JPEG of `w` by `h` pixels.
fn build_jpeg(w: u32, h: u32) -> Vec<u8> {
    let img = image::RgbImage::from_fn(w, h, |x, _| image::Rgb([(x * 32) as u8, 0, 0]));
    let dyn_img = image::DynamicImage::ImageRgb8(img);
    let mut buf = Cursor::new(Vec::<u8>::new());
    dyn_img.write_to(&mut buf, image::ImageFormat::Jpeg).unwrap();
    buf.into_inner()
}

/// The smallest little-endian TIFF whose IFD0 points
/// JPEGInterchangeFormat at `payload`, which follows the IFD.
fn fake_tiff_with_jpeg(payload: &[u8]) -> Vec<u8> {
    let mut buf: Vec<u8> = Vec::new();
    buf.extend_from_slice(b"II");
    buf.extend_from_slice(&42u16.to_le_bytes());
    buf.extend_from_slice(&8u32.to_le_bytes());
    let count: u16 = 3;
    let ifd_offset: u32 = 8;
    let entries_offset = ifd_offset + 2;
    let next_ifd_offset = entries_offset + count as u32 * 12 + 4;
    buf.resize(next_ifd_offset as usize, 0);
    let entries: [(u16, u16, u32, u32); 3] = [
        (0x0100, 3, 1, 64),
        (0x0201, 4, 1, next_ifd_offset),
        (0x0202, 4, 1, payload.len() as u32),
    ];
    for (idx, (tag, kind, n, value)) in entries.iter().enumerate() {
        let pos = entries_offset as usize + idx * 12;
        buf[pos..pos + 2].copy_from_slice(&tag.to_le_bytes());
        buf[pos + 2..pos + 4].copy_from_slice(&kind.to_le_bytes());
        buf[pos + 4..pos + 8].copy_from_slice(&n.to_le_bytes());
        buf[pos + 8..pos + 12].copy_from_slice(&value.to_le_bytes());
    }
    buf[ifd_offset as usize..ifd_offset as usize + 2].copy_from_slice(&count.to_le_bytes());
    let nxt = entries_offset + count as u32 * 12;
    buf[nxt as usize..nxt as usize + 4].copy_from_slice(&0u32.to_le_bytes());
    buf.extend_from_slice(payload);
    buf
}

#[test]
fn full_decode_of_png_works() {
    let bytes = png_bytes(400, 300);
    let t = extract_thumbnail(&bytes, "a.png").expect("thumbnail");
    assert!(t.width <= THUMB_MAX_DIM);
    assert!(t.height <= THUMB_MAX_DIM);
    let expected_ratio = 400.0 / 300.0;
    let actual_ratio = t.width as f32 / t.height as f32;
    assert!(
        (expected_ratio - actual_ratio).abs() < 0.05,
        "ratio drifted: {expected_ratio} vs {actual_ratio}"
    );
    assert_eq!(t.rgba.len(), (t.width * t.height * 4) as usize);
    assert_eq!(t.max_dim, THUMB_MAX_DIM);
}

#[test]
fn no_exif_jpeg_falls_back_to_full_decode() {
    let bytes = build_jpeg(1, 1);
    let t = extract_thumbnail(&bytes, "a.jpg").expect("thumbnail");
    // jpeg-decoder's native scale never upscales, so a 1x1
    // source stays 1x1.
    assert_eq!(t.width, 1);
    assert_eq!(t.height, 1);
}

#[test]
fn unknown_file_returns_error() {
    let result = extract_thumbnail(b"hello", "a.txt");
    assert!(result.is_err());
}

#[test]
fn scan_finds_jpeg_inside_arbitrary_file() {
    let jpeg_buf = build_jpeg(8, 8);
    let mut all = Vec::new();
    all.extend_from_slice(b"some random prefix data -- not jpeg --\n");
    all.extend_from_slice(&jpeg_buf);
    all.extend_from_slice(b"trailing junk");

    let t = scan_for_largest_jpeg(&all).expect("should find jpeg");
    // jpeg-decoder's native scale never upscales, so the
    // 8x8 source stays 8x8.
    assert_eq!(t.width, 8);
    assert_eq!(t.height, 8);
}

#[test]
fn scan_prefers_the_longest_span() {
    let small = build_jpeg(8, 8);
    let big = build_jpeg(64, 48);
    let mut all = Vec::new();
    all.extend_from_slice(b"junk");
    all.extend_from_slice(&small);
    all.extend_from_slice(b"more junk");
    let big_start = all.len();
    all.extend_from_slice(&big);
    let (start, end) = find_largest_jpeg(&all).expect("spans");
    assert_eq!(start, big_start);
    assert_eq!(end, big_start + big.len());
    let t = scan_for_largest_jpeg(&all).expect("thumbnail");
    assert_eq!((t.width, t.height), (64, 48));
}

#[test]
fn scan_without_jpeg_fails() {
    assert!(find_largest_jpeg(b"no markers here").is_none());
    assert!(scan_for_largest_jpeg(b"no markers here").is_err());
}

#[test]
fn embedded_jpeg_decoded_via_exif_tag() {
    let jpeg_buf = build_jpeg(8, 8);
    let file = fake_tiff_with_jpeg(&jpeg_buf);
    let t = extract_thumbnail(&file, "fake_raw.bin").expect("thumbnail");
    assert!(t.width > 0 && t.height > 0);
    let e = extract_embedded(&file).expect("embedded");
    assert_eq!((e.width, e.height), (8, 8));
}

#[test]
fn non_jpeg_at_exif_offset_is_ignored() {
    let fake_thumb: Vec<u8> = (0..64).map(|i| (i as u8) ^ 0xAA).collect();
    let file = fake_tiff_with_jpeg(&fake_thumb);
    let _ = extract_embedded(&file);
    assert!(extract_embedded(&file).is_err());
}

#[test]
fn pixel_formats_expand_to_rgba() {
    assert_eq!(rgb_to_rgba(&[1, 2, 3, 4, 5, 6]), vec![1, 2, 3, 255, 4, 5, 6, 255]);
    assert_eq!(l_to_rgba(&[7, 9]), vec![7, 7, 7, 255, 9, 9, 9, 255]);
    // Big-endian 16-bit samples keep their low byte.
    assert_eq!(l16_to_rgba(&[0x12, 0x34, 0xAB, 0xCD]), vec![0x34, 0x34, 0x34, 255, 0xCD, 0xCD, 0xCD, 255]);
    // No ink is white, full black ink is black, half cyan dims red.
    assert_eq!(cmyk_to_rgba(&[0, 0, 0, 0, 0, 0, 0, 255]), vec![255, 255, 255, 255, 0, 0, 0, 255]);
    assert_eq!(cmyk_to_rgba(&[128, 0, 0, 0]), vec![127, 255, 255, 255]);
    // A trailing partial pixel is dropped.
    assert_eq!(rgb_to_rgba(&[1, 2, 3, 4]), vec![1, 2, 3, 255]);
}

#[test]
fn jpeg_fallback_decoder_handles_what_the_native_one_rejects() {

    let full = build_jpeg(64, 48);
    let mut found = false;
    for cut in [2usize, 8, 32, 64, 128, 200] {
        if cut >= full.len() {
            continue;
        }
        let part = &full[..full.len() - cut];
        let native = decode_jpeg_native(part);
        let any = decode_jpeg(part);
        if native.is_err() && any.is_ok() {
            // The fallback resizes to fit the thumbnail box, enlarging
            // small images (unlike the native decoder's scaling).
            let t = any.unwrap();
            assert_eq!((t.width, t.height), (256, 192));
            assert_eq!(t.rgba.len(), 256 * 192 * 4);
            found = true;
        }
    }
    assert!(found);
}

fn exif_message(r: Result<realraw::import::thumbnail::Thumbnail, ThumbnailError>) -> String {
    match r {
        Err(ThumbnailError::Exif(m)) => m,
        other => panic!("expected an EXIF error, got {:?}", other.map(|t| (t.width, t.height))),
    }
}

#[test]
fn embedded_errors_name_their_cause() {
    assert_eq!(exif_message(extract_embedded(b"no tiff here at all")), NO_EXIF_BLOCK);
    // A TIFF whose IFD0 holds only ImageWidth: a block naming no preview.
    let mut tiff: Vec<u8> = Vec::new();
    tiff.extend_from_slice(b"II");
    tiff.extend_from_slice(&42u16.to_le_bytes());
    tiff.extend_from_slice(&8u32.to_le_bytes());
    tiff.extend_from_slice(&1u16.to_le_bytes());
    tiff.extend_from_slice(&0x0100u16.to_le_bytes());
    tiff.extend_from_slice(&3u16.to_le_bytes());
    tiff.extend_from_slice(&1u32.to_le_bytes());
    tiff.extend_from_slice(&64u32.to_le_bytes());
    tiff.extend_from_slice(&0u32.to_le_bytes());
    assert_eq!(exif_message(extract_embedded(&tiff)), NO_JIF_TAG);
    let fake_thumb: Vec<u8> = (0..64).map(|i| (i as u8) ^ 0xAA).collect();
    assert_eq!(exif_message(extract_embedded(&fake_tiff_with_jpeg(&fake_thumb))), NO_EMBEDDED_JPEG);
}

#[test]
fn decoded_thumbnails_hold_four_samples_per_pixel() {
    let t = decode_jpeg(&build_jpeg(8, 8)).expect("decodes");
    assert_eq!(t.rgba.len(), 4 * t.width as usize * t.height as usize);
    assert_eq!(t.max_dim, THUMB_MAX_DIM);
    assert!(matches!(scan_for_largest_jpeg(b"nothing here"), Err(ThumbnailError::Exif(_))));
}
