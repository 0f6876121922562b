//! Shape of the photo upsert statement.

use vstd::prelude::*;
use crate::import::discovery::dotted_lower;
use crate::paths::{extension, extension_of, lower, lower_chars, upper, to_ascii_uppercase};
use crate::text::{push_char, string_from_chars, trim, trimmed};

verus! {

/// `n` SQL placeholders separated by commas: `?,?,...,?`.
pub open spec fn placeholders(n: nat) -> Seq<char>
    decreases n,
{
    if n == 0 {
        Seq::empty()
    } else if n == 1 {
        seq!['?']
    } else {
        placeholders((n - 1) as nat) + seq![',', '?']
    }
}

/// `n` comma-separated `?` placeholders, for a `VALUES (...)` list.
pub fn repeat_placeholders(n: usize) -> (s: String)
    ensures
        s@ == placeholders(n as nat),
{
    let mut s = String::new();
    let mut i: usize = 0;
    while i < n
        invariant
            i <= n,
            s@ == placeholders(i as nat),
        decreases n - i,
    {
        if i > 0 {
            push_char(&mut s, ',');
        }
        push_char(&mut s, '?');
        i = i + 1;
    }
    s
}

/// The keyword names linked to a photo for the first `n` keywords of
/// `ks`: each trimmed, the empty ones skipped, in order.
pub open spec fn keyword_names_upto(ks: Seq<String>, n: nat) -> Seq<Seq<char>>
    decreases n,
{
    if n == 0 {
        Seq::empty()
    } else {
        let r = keyword_names_upto(ks, (n - 1) as nat);
        let t = trim(ks[n - 1]@);
        if t.len() == 0 { r } else { r.push(t) }
    }
}

/// The keyword names to link to a photo: every keyword trimmed, the
/// empty ones skipped.
pub fn keyword_names(keywords: &[String]) -> (r: Vec<String>)
    ensures
        r@.map_values(|s: String| s@) == keyword_names_upto(keywords@, keywords@.len()),
{
    let mut r: Vec<String> = Vec::new();
    let mut i: usize = 0;
    while i < keywords.len()
        invariant
            i <= keywords@.len(),
            r@.map_values(|s: String| s@) == keyword_names_upto(keywords@, i as nat),
        decreases keywords@.len() - i,
    {
        let t = trimmed(keywords[i].as_str());
        if t.unicode_len() > 0 {
            let ghost before = r@;
            r.push(t);
            assert(r@.map_values(|s: String| s@) == before.map_values(|s: String| s@).push(t@));
        }
        i = i + 1;
    }
    r
}

/// The extension a photo row records for the file at `path` (a `.` and
/// the extension in ASCII lower case), and its file format (the
/// extension in ASCII upper case); both absent when the path has no
/// extension.
pub fn photo_extension(path: &str) -> (r: (Option<String>, Option<String>))
    ensures
        match extension_of(path@) {
            Some(e) => {
                &&& r.0 matches Some(x) && x@ == dotted_lower(e)
                &&& r.1 matches Some(f) && f@ == upper(lower(e))
            },
            None => r.0 is None && r.1 is None,
        },
{
    match extension(path) {
        Some(e) => {
            let low = lower_chars(e.as_str());
            let mut dotted = String::new();
            push_char(&mut dotted, '.');
            let low_s = string_from_chars(low.as_slice());
            crate::text::push_str(&mut dotted, low_s.as_str());
            let format = to_ascii_uppercase(low_s.as_str());
            assert(dotted@ == dotted_lower(e@));
            (Some(dotted), Some(format))
        },
        None => (None, None),
    }
}

} // verus!
