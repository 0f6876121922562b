use std::path::Path;

use realraw::paths::{file_name, parent_path};

const SAMPLES: [&str; 30] = [
    "", "/", "//", "/a", "/a/", "/a/b", "/a/b/", "/a//b", "/a/./b", "/a/b/.", "/a/b/..", "a", "a/",
    "a/b", "a/b//", ".", "./", "./a", "./a/b", "..", "../a", "/..", "/.", ".a", ".a/b", "a/./.",
    "/photos/2024/jan/holiday", "./.", "a/.", "x/y/./",
];

#[test]
fn parent_path_matches_std() {
    for s in SAMPLES {
        let expected = Path::new(s).parent().map(|p| p.to_str().unwrap().to_string());
        assert_eq!(parent_path(s), expected, "parent of {s:?}");
    }
}

#[test]
fn file_name_matches_std() {
    for s in SAMPLES {
        let expected = Path::new(s).file_name().map(|p| p.to_str().unwrap().to_string());
        assert_eq!(file_name(s), expected, "file name of {s:?}");
    }
}
