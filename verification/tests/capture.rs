use realraw::import::exif::{
    copy_fields, extract_exif_bytes, gps_coordinate, rational_first, ExifContext, ExifEntry, GpsCoordinate,
    Ratio,
};

fn entry(context: ExifContext, tag: u16) -> ExifEntry {
    ExifEntry {
        context,
        tag,
        ifd: 0,
        uint0: None,
        rationals: Vec::new(),
        srational0: None,
        text: String::new(),
    }
}

fn int_entry(context: ExifContext, tag: u16, v: u32) -> ExifEntry {
    ExifEntry { uint0: Some(v), text: v.to_string(), ..entry(context, tag) }
}

fn text_entry(context: ExifContext, tag: u16, t: &str) -> ExifEntry {
    ExifEntry { text: t.to_string(), ..entry(context, tag) }
}

fn ratio_entry(context: ExifContext, tag: u16, rs: &[(u32, u32)]) -> ExifEntry {
    ExifEntry { rationals: rs.to_vec(), ..entry(context, tag) }
}

#[test]
fn rational_first_reads_both_signednesses() {
    let r = ratio_entry(ExifContext::Exif, 0x920a, &[(35, 10), (1, 2)]);
    assert_eq!(rational_first(&r), Some(Ratio { num: 35, denom: 10 }));
    let s = ExifEntry { srational0: Some((-7, -2)), ..entry(ExifContext::Exif, 0x9201) };
    assert_eq!(rational_first(&s), Some(Ratio { num: 7, denom: 2 }));
    let m = ExifEntry { srational0: Some((i32::MIN, 1)), ..entry(ExifContext::Exif, 0x9201) };
    assert_eq!(rational_first(&m), Some(Ratio { num: 2_147_483_648, denom: 1 }));
    assert_eq!(rational_first(&ratio_entry(ExifContext::Exif, 0x920a, &[])), None);
    assert_eq!(rational_first(&int_entry(ExifContext::Exif, 0x920a, 5)), None);
}

#[test]
fn no_fields_give_no_metadata() {
    let m = copy_fields(&[]);
    assert_eq!(m.width, None);
    assert_eq!(m.date_taken, None);
    assert_eq!(m.camera_make, None);
    assert_eq!(m.gps_lat, None);
}

#[test]
fn original_date_wins_over_file_date() {
    let es = vec![
        text_entry(ExifContext::Tiff, 0x132, "2020:01:01 00:00:00"),
        text_entry(ExifContext::Exif, 0x9003, "1970-01-02 00:00:10"),
    ];
    assert_eq!(copy_fields(&es).date_taken, Some(86_410));
    let only_file = vec![text_entry(ExifContext::Tiff, 0x132, "1970:01:01 00:01:00")];
    assert_eq!(copy_fields(&only_file).date_taken, Some(60));
    let bad = vec![text_entry(ExifContext::Exif, 0x9003, "garbage"), text_entry(ExifContext::Tiff, 0x132, "1970:01:01 00:01:00")];
    assert_eq!(copy_fields(&bad).date_taken, None);
}

#[test]
fn lens_model_wins_over_lens_make_and_text_is_trimmed() {
    let es = vec![
        text_entry(ExifContext::Exif, 0xa433, "Canon"),
        text_entry(ExifContext::Exif, 0xa434, "  EF 50mm f/1.8\0\0 "),
        text_entry(ExifContext::Tiff, 0x10f, " Nikon\0"),
        text_entry(ExifContext::Tiff, 0x110, "D750"),
        text_entry(ExifContext::Tiff, 0x8298, "(c) me  "),
    ];
    let m = copy_fields(&es);
    assert_eq!(m.lens.as_deref(), Some("EF 50mm f/1.8"));
    assert_eq!(m.camera_make.as_deref(), Some("Nikon"));
    assert_eq!(m.camera_model.as_deref(), Some("D750"));
    assert_eq!(m.copyright.as_deref(), Some("(c) me"));
    let make_only = vec![text_entry(ExifContext::Exif, 0xa433, "Sigma")];
    assert_eq!(copy_fields(&make_only).lens.as_deref(), Some("Sigma"));
}

#[test]
fn iso_prefers_photographic_sensitivity() {
    let es = vec![int_entry(ExifContext::Exif, 0x8833, 100), int_entry(ExifContext::Exif, 0x8827, 400)];
    assert_eq!(copy_fields(&es).iso, Some(400));
    let es = vec![int_entry(ExifContext::Exif, 0x8833, 100)];
    assert_eq!(copy_fields(&es).iso, Some(100));
}

#[test]
fn dimensions_fall_back_to_rationals() {
    let es = vec![
        int_entry(ExifContext::Tiff, 0x100, 6000),
        ratio_entry(ExifContext::Tiff, 0x101, &[(8001, 2)]),
        int_entry(ExifContext::Tiff, 0x112, 6),
    ];
    let m = copy_fields(&es);
    assert_eq!(m.width, Some(6000));
    assert_eq!(m.height, Some(4000));
    assert_eq!(m.orientation, Some(6));
    let zero = vec![ratio_entry(ExifContext::Tiff, 0x100, &[(5, 0)]), ratio_entry(ExifContext::Tiff, 0x101, &[(0, 0)])];
    let m = copy_fields(&zero);
    assert_eq!(m.width, Some(i64::MAX));
    assert_eq!(m.height, Some(0));
}

#[test]
fn only_primary_fields_count_and_the_last_one_wins() {
    let thumb = ExifEntry { ifd: 1, ..int_entry(ExifContext::Tiff, 0x100, 160) };
    assert_eq!(copy_fields(&[thumb]).width, None);
    let es = vec![int_entry(ExifContext::Tiff, 0x100, 10), int_entry(ExifContext::Tiff, 0x100, 20)];
    assert_eq!(copy_fields(&es).width, Some(20));
    let gps_tag_in_tiff = int_entry(ExifContext::Tiff, 0x112, 3);
    assert_eq!(copy_fields(&[gps_tag_in_tiff]).orientation, Some(3));
    let other = int_entry(ExifContext::Other, 0x112, 3);
    assert_eq!(copy_fields(&[other]).orientation, None);
    let exif_ns = int_entry(ExifContext::Exif, 0x100, 99);
    assert_eq!(copy_fields(&[exif_ns]).width, None);
}

#[test]
fn gps_hemisphere_sets_the_sign() {
    let lat = ratio_entry(ExifContext::Gps, 2, &[(48, 1), (51, 1), (30, 1)]);
    let south = text_entry(ExifContext::Gps, 1, " S");
    let es = vec![lat.clone(), south];
    let c = gps_coordinate(&es, 2, 1, 'S').unwrap();
    assert!(c.negative);
    assert_eq!(c.degrees, Ratio { num: 48, denom: 1 });
    let north = vec![lat.clone(), text_entry(ExifContext::Gps, 1, "N")];
    assert!(!copy_fields(&north).gps_lat.unwrap().negative);
    assert!(!copy_fields(&[lat.clone()]).gps_lat.unwrap().negative);
    let lon = ratio_entry(ExifContext::Gps, 4, &[(2, 1), (17, 1), (40, 1)]);
    let west = vec![lon, text_entry(ExifContext::Gps, 3, "W")];
    let m = copy_fields(&west);
    assert_eq!(
        m.gps_lon,
        Some(GpsCoordinate {
            degrees: Ratio { num: 2, denom: 1 },
            minutes: Ratio { num: 17, denom: 1 },
            seconds: Ratio { num: 40, denom: 1 },
            negative: true,
        })
    );
    let short = vec![ratio_entry(ExifContext::Gps, 2, &[(48, 1), (51, 1)])];
    assert_eq!(copy_fields(&short).gps_lat, None);
}

#[test]
fn rational_fields_are_kept_as_rationals() {
    let es = vec![
        ratio_entry(ExifContext::Exif, 0x920a, &[(50, 1)]),
        ratio_entry(ExifContext::Exif, 0x829d, &[(18, 10)]),
        ratio_entry(ExifContext::Exif, 0x829a, &[(1, 250)]),
        ratio_entry(ExifContext::Gps, 6, &[(1200, 10)]),
    ];
    let m = copy_fields(&es);
    assert_eq!(m.focal_length, Some(Ratio { num: 50, denom: 1 }));
    assert_eq!(m.aperture, Some(Ratio { num: 18, denom: 10 }));
    assert_eq!(m.shutter_speed, Some(Ratio { num: 1, denom: 250 }));
    assert_eq!(m.gps_altitude, Some(Ratio { num: 1200, denom: 10 }));
}

/// A little-endian TIFF whose IFD0 holds ImageWidth 640, ImageLength 480
/// and Orientation 6, all SHORT values.
fn small_tiff() -> Vec<u8> {
    let mut buf: Vec<u8> = Vec::new();
    buf.extend_from_slice(b"II");
    buf.extend_from_slice(&42u16.to_le_bytes());
    buf.extend_from_slice(&8u32.to_le_bytes());
    let entries: [(u16, u16); 3] = [(0x0100, 640), (0x0101, 480), (0x0112, 6)];
    buf.extend_from_slice(&(entries.len() as u16).to_le_bytes());
    for (tag, value) in entries {
        buf.extend_from_slice(&tag.to_le_bytes());
        buf.extend_from_slice(&3u16.to_le_bytes());
        buf.extend_from_slice(&1u32.to_le_bytes());
        buf.extend_from_slice(&(value as u32).to_le_bytes());
    }
    buf.extend_from_slice(&0u32.to_le_bytes());
    buf
}

#[test]
fn capture_metadata_is_read_from_a_tiff() {
    let m = extract_exif_bytes(&small_tiff());
    assert_eq!(m.width, Some(640));
    assert_eq!(m.height, Some(480));
    assert_eq!(m.orientation, Some(6));
    assert_eq!(m.camera_make, None);
}

#[test]
fn files_without_exif_give_no_metadata() {
    let m = extract_exif_bytes(b"plain text, no image here");
    assert_eq!(m.width, None);
    assert_eq!(m.orientation, None);
    assert_eq!(m.date_taken, None);
}
