//! Which files the import pipeline picks up.

use std::path::PathBuf;
use std::time::SystemTime;
use vstd::prelude::*;
use crate::paths::{chars_in_list, extension, extension_of, lower, lower_chars};
use crate::text::{push_char, string_from_chars};

verus! {

#[verifier::external_type_specification]
#[verifier::external_body]
pub struct ExPathBuf(PathBuf);

#[verifier::external_type_specification]
#[verifier::external_body]
pub struct ExSystemTime(SystemTime);

/// Extensions the import pipeline recognises. Lowercase, with leading dot.
pub const KNOWN_EXTENSIONS: [&'static str; 30] = [
    ".cr2", ".cr3", ".dng", ".nef", ".nrw", ".arw", ".srf", ".sr2",
    ".rw2", ".orf", ".raf", ".pef", ".iiq", ".3fr", ".fff", ".x3f",
    ".mrw", ".rwl", ".srw", ".r3d",
    ".jpg", ".jpeg", ".jpe", ".tif", ".tiff", ".png", ".heic", ".heif",
    ".avif", ".webp",
];

/// A candidate file produced by discovery.
#[derive(Debug)]
pub struct DiscoveredFile {
    /// Absolute path.
    pub path: PathBuf,
    /// File size in bytes.
    pub file_size: u64,
    /// Modification time.
    pub mtime: SystemTime,
    /// Extension in lowercase with leading dot (e.g. `.cr2`).
    pub extension: String,
    /// `true` if the path is already in the catalog.
    pub already_in_catalog: bool,
}

/// `e` (compared in ASCII lower case) is one of `list`.
pub open spec fn listed(e: Seq<char>, list: Seq<&str>) -> bool {
    exists|i: int| 0 <= i < list.len() && lower(e) == (#[trigger] list[i])@
}

impl DiscoveredFile {
    /// `true` for file extensions (with leading dot, any ASCII case) that
    /// the import pipeline knows how to read metadata from.
    pub fn has_known_extension(extension: &str) -> (r: bool)
        ensures
            r == listed(extension@, KNOWN_EXTENSIONS@),
    {
        let lower = lower_chars(extension);
        chars_in_list(lower.as_slice(), &KNOWN_EXTENSIONS)
    }
}

/// The extension of a file name as discovery records it: a `.` and the
/// extension, ASCII lower-cased.
pub open spec fn dotted_lower(ext: Seq<char>) -> Seq<char> {
    seq!['.'] + lower(ext)
}

/// The recorded extension of `path` when discovery keeps it: the path has
/// an extension and its dotted lower-case form equals the lower-cased form
/// of one of `exts`.
pub open spec fn kept_extension(path: Seq<char>, exts: Seq<String>) -> Option<Seq<char>> {
    match extension_of(path) {
        Some(e) => if exists|i: int| 0 <= i < exts.len() && lower((#[trigger] exts[i])@) == dotted_lower(e) {
            Some(dotted_lower(e))
        } else {
            None
        },
        None => None,
    }
}

/// Whether discovery keeps the file at `path` when filtering by `exts`
/// (compared case-insensitively); if so, the extension it records.
pub fn kept_file_extension(path: &str, exts: &[String]) -> (r: Option<String>)
    ensures
        r matches Some(s) ==> kept_extension(path@, exts@) == Some(s@),
        r is None ==> kept_extension(path@, exts@) is None,
{
    let ext = match extension(path) {
        Some(e) => e,
        None => { return None; },
    };
    let low = lower_chars(ext.as_str());
    let mut dotted: Vec<char> = Vec::new();
    dotted.push('.');
    let mut k: usize = 0;
    while k < low.len()
        invariant
            k <= low@.len(),
            dotted@ == seq!['.'] + low@.subrange(0, k as int),
        decreases low@.len() - k,
    {
        dotted.push(low[k]);
        assert(low@.subrange(0, k + 1) == low@.subrange(0, k as int).push(low@[k as int]));
        k = k + 1;
    }
    assert(low@.subrange(0, low@.len() as int) == low@);
    let mut i: usize = 0;
    while i < exts.len()
        invariant
            i <= exts@.len(),
            dotted@ == dotted_lower(ext@),
            extension_of(path@) == Some(ext@),
            forall|j: int| 0 <= j < i ==> lower((#[trigger] exts@[j])@) != dotted_lower(ext@),
        decreases exts@.len() - i,
    {
        let e = lower_chars(exts[i].as_str());
        if vec_chars_eq(e.as_slice(), dotted.as_slice()) {
            assert(lower((exts@[i as int])@) == dotted_lower(ext@));
            assert(extension_of(path@) == Some(ext@));
            return Some(string_from_chars(dotted.as_slice()));
        }
        i = i + 1;
    }
    None
}

fn vec_chars_eq(a: &[char], b: &[char]) -> (r: bool)
    ensures
        r == (a@ == b@),
{
    if a.len() != b.len() {
        return false;
    }
    let mut i: usize = 0;
    while i < a.len()
        invariant
            a@.len() == b@.len(),
            i <= a@.len(),
            forall|k: int| 0 <= k < i ==> a@[k] == b@[k],
        decreases a@.len() - i,
    {
        if a[i] != b[i] {
            return false;
        }
        i = i + 1;
    }
    assert(a@ =~= b@);
    true
}

} // verus!
