use realraw::import::discovery::{kept_file_extension, DiscoveredFile, KNOWN_EXTENSIONS};
use realraw::import::exif::{
    civil_from_ymd, days_from_civil, parse_exif_datetime, trim_exif_string,
};
use realraw::import::options::{ImportAction, ImportOptions};
use realraw::import::thumbnail::{is_jpeg, is_known_extension};
use realraw::paths::{display_name_from_path, extension, file_name, to_ascii_uppercase};

#[test]
fn display_name_strips_directories() {
    assert_eq!(display_name_from_path("/photos/a/b/c.jpg"), "c.jpg");
    assert_eq!(display_name_from_path("relative/path/x.cr2"), "x.cr2");
}

#[test]
fn display_name_without_file_name_is_question_mark() {
    assert_eq!(display_name_from_path("/"), "?");
    assert_eq!(display_name_from_path(""), "?");
    assert_eq!(display_name_from_path("/photos/.."), "?");
    assert_eq!(display_name_from_path("/photos/a.jpg/"), "a.jpg");
    assert_eq!(display_name_from_path("/photos/a.jpg/."), "a.jpg");
}

#[test]
fn file_name_and_extension_follow_path_rules() {
    assert_eq!(file_name("/x/foo.tar.gz").as_deref(), Some("foo.tar.gz"));
    assert_eq!(extension("/x/foo.tar.gz").as_deref(), Some("gz"));
    assert_eq!(extension("/x/.hidden"), None);
    assert_eq!(extension("/x/noext"), None);
    assert_eq!(extension("/x/trailing."), Some(String::new()));
    assert_eq!(to_ascii_uppercase("cr2.é"), "CR2.é");
}

#[test]
fn known_extension_recognised() {
    assert!(DiscoveredFile::has_known_extension(".cr2"));
    assert!(DiscoveredFile::has_known_extension(".CR2"));
    assert!(DiscoveredFile::has_known_extension(".dng"));
    assert!(DiscoveredFile::has_known_extension(".jpg"));
    assert!(DiscoveredFile::has_known_extension(".jpeg"));
    assert!(!DiscoveredFile::has_known_extension(".txt"));
    assert!(!DiscoveredFile::has_known_extension(".mp4"));
}

#[test]
fn discovery_keeps_listed_extensions_in_lower_case() {
    let exts: Vec<String> = vec![".jpg".to_string(), ".CR2".to_string()];
    assert_eq!(kept_file_extension("/a/b/IMG_1.JPG", &exts).as_deref(), Some(".jpg"));
    assert_eq!(kept_file_extension("/a/b/IMG_2.cr2", &exts).as_deref(), Some(".cr2"));
    assert_eq!(kept_file_extension("/a/b/notes.txt", &exts), None);
    assert_eq!(kept_file_extension("/a/b/README", &exts), None);
}

#[test]
fn known_extensions_recognised() {
    assert!(is_known_extension("/x/foo.cr2"));
    assert!(is_known_extension("/x/foo.CR2"));
    assert!(is_known_extension("/x/foo.dng"));
    assert!(is_known_extension("/x/foo.jpg"));
    assert!(!is_known_extension("/x/foo.txt"));
}

#[test]
fn jpeg_paths_by_extension() {
    assert!(is_jpeg("/x/a.jpg"));
    assert!(is_jpeg("/x/a.JPEG"));
    assert!(!is_jpeg("/x/a.png"));
    assert!(!is_jpeg("/x/jpg"));
}

#[test]
fn parse_exif_datetime_basic() {
    // 2023-08-15 14:30:00
    let ts = parse_exif_datetime("2023:08:15 14:30:00").unwrap();
    // 2023-08-15 is day 19584 since 1970-01-01.
    // 14*3600 + 30*60 = 52200
    assert_eq!(ts, 19584 * 86_400 + 52_200);
}

#[test]
fn parse_exif_datetime_rejects_bad_input() {
    assert_eq!(parse_exif_datetime("2023:08:15"), None);
    assert_eq!(parse_exif_datetime("2023:13:15 14:30:00"), None);
    assert_eq!(parse_exif_datetime("2023:08:00 14:30:00"), None);
    assert_eq!(parse_exif_datetime("abcd:08:15 14:30:00"), None);
    assert_eq!(parse_exif_datetime("  1970:01:01 00:00:01  "), Some(1));
}

#[test]
fn trim_exif_string_strips_nulls() {
    assert_eq!(trim_exif_string("Canon\0"), "Canon");
    assert_eq!(trim_exif_string("  EOS R5  "), "EOS R5");
}

#[test]
fn trim_exif_string_strips_padding_around_nulls() {
    assert_eq!(trim_exif_string(" Nikon \0\0 "), "Nikon");
    assert_eq!(trim_exif_string("\0"), "");
}

#[test]
fn days_from_civil_epoch() {
    assert_eq!(days_from_civil(1970, 1, 1), 0);
}

#[test]
fn days_from_civil_known_date() {
    // 2000-01-01 is day 10957 since epoch.
    assert_eq!(days_from_civil(2000, 1, 1), 10957);
}

#[test]
fn days_from_civil_steps_by_one_day() {
    assert_eq!(days_from_civil(1969, 12, 31), -1);
    assert_eq!(days_from_civil(2024, 3, 1) - days_from_civil(2024, 2, 29), 1);
    assert_eq!(days_from_civil(2023, 3, 1) - days_from_civil(2023, 2, 28), 1);
    assert_eq!(days_from_civil(2001, 1, 1) - days_from_civil(2000, 1, 1), 366);
}

#[test]
fn civil_from_ymd_checks_ranges() {
    assert_eq!(civil_from_ymd(2020, 1, 31), Some((2020, 1, 31)));
    assert_eq!(civil_from_ymd(2020, 0, 1), None);
    assert_eq!(civil_from_ymd(2020, 12, 32), None);
}

#[test]
fn import_options_default() {
    let o = ImportOptions::default();
    assert!(o.sources.is_empty());
    assert_eq!(o.extensions.len(), KNOWN_EXTENSIONS.len());
    assert_eq!(o.extensions[0], ".cr2");
    assert!(o.extensions.contains(&".webp".to_string()));
    assert!(o.recursive);
    assert!(o.dedup);
    assert_eq!(o.action, ImportAction::Copy);
}

#[test]
fn known_extensions_are_lowercase_with_a_dot() {
    for e in KNOWN_EXTENSIONS {
        assert!(e.starts_with('.'), "{e}");
        assert_eq!(e.to_ascii_lowercase(), e);
        assert!(DiscoveredFile::has_known_extension(&e.to_ascii_uppercase()));
    }
}
