use realraw::catalog::photo::{keyword_names, photo_extension, repeat_placeholders};
use realraw::catalog::preview_cache::{
    cache_dir, cache_key, decode_jpeg_preview, encode_jpeg_preview, nonempty_image, PreviewCodecError,
};

#[test]
fn cache_dir_joins_previews() {
    assert_eq!(cache_dir("/home/u/Catalog"), "/home/u/Catalog/Previews");
    assert_eq!(cache_dir("/home/u/Catalog/"), "/home/u/Catalog/Previews");
    assert_eq!(cache_dir(""), "Previews");
}

#[test]
fn cache_keys_are_per_photo() {
    assert_eq!(cache_key(42), "demosaic/42");
    assert_eq!(cache_key(-3), "demosaic/-3");
    assert_eq!(cache_key(i64::MIN), "demosaic/-9223372036854775808");
}

#[test]
fn placeholders_are_comma_separated() {
    assert_eq!(repeat_placeholders(0), "");
    assert_eq!(repeat_placeholders(1), "?");
    assert_eq!(repeat_placeholders(3), "?,?,?");
    assert_eq!(repeat_placeholders(25).len(), 49);
}

#[test]
fn keyword_names_are_trimmed_and_non_empty() {
    let ks: Vec<String> = vec!["  alpha ".into(), "".into(), "   ".into(), "beta".into(), "alpha".into()];
    assert_eq!(keyword_names(&ks), vec!["alpha".to_string(), "beta".to_string(), "alpha".to_string()]);
    assert!(keyword_names(&[]).is_empty());
}

#[test]
fn photo_extension_and_format_from_path() {
    let (ext, format) = photo_extension("/tmp/dir/foo.CR2");
    assert_eq!(ext.as_deref(), Some(".cr2"));
    assert_eq!(format.as_deref(), Some("CR2"));
    let (ext, format) = photo_extension("/tmp/dir/IMG_1.jpeg");
    assert_eq!(ext.as_deref(), Some(".jpeg"));
    assert_eq!(format.as_deref(), Some("JPEG"));
    assert_eq!(photo_extension("/tmp/dir/README"), (None, None));
}

#[test]
fn preview_round_trips_through_jpeg() {
    let (w, h) = (8u32, 6u32);
    let mut rgba = Vec::new();
    for i in 0..(w * h) {
        rgba.extend_from_slice(&[(i * 5) as u8, 128, 200, 255]);
    }
    let jpeg = encode_jpeg_preview(w, h, &rgba).expect("encodes");
    assert_eq!(&jpeg[..2], &[0xFF, 0xD8]);
    let (dw, dh, px) = decode_jpeg_preview(&jpeg).expect("decodes");
    assert_eq!((dw, dh), (8, 6));
    assert_eq!(px.len(), 8 * 6 * 4);
    assert!(px.chunks(4).all(|p| p[3] == 255));
}

#[test]
fn preview_with_too_few_samples_is_refused() {
    let rgba = vec![0u8; 4 * 3 * 3 - 1];
    assert!(matches!(encode_jpeg_preview(3, 3, &rgba), Err(PreviewCodecError::InvalidDimensions)));
    assert!(matches!(encode_jpeg_preview(u32::MAX, u32::MAX, &rgba), Err(PreviewCodecError::InvalidDimensions)));
}

#[test]
fn empty_preview_fails_in_the_encoder() {
    assert!(matches!(encode_jpeg_preview(0, 0, &[]), Err(PreviewCodecError::Image(_))));
}

#[test]
fn corrupt_preview_entry_is_a_miss() {
    assert!(decode_jpeg_preview(b"not an image at all").is_none());
    assert!(decode_jpeg_preview(&[]).is_none());
}

#[test]
fn empty_decoded_previews_are_dropped() {
    assert_eq!(nonempty_image(None), None);
    assert_eq!(nonempty_image(Some((0, 3, vec![]))), None);
    assert_eq!(nonempty_image(Some((2, 0, vec![]))), None);
    assert_eq!(nonempty_image(Some((1, 1, vec![1, 2, 3, 4]))), Some((1, 1, vec![1, 2, 3, 4])));
}
