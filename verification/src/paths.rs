//! File-name rules of Unix paths given as text: the final component,
//! its extension, and ASCII case folding.

use vstd::prelude::*;
use crate::text::{str_chars, string_from_chars};

verus! {

/// Start of the path component that ends at `i`: just after the last
/// `/` before `i`, or 0.
pub open spec fn comp_start(s: Seq<char>, i: int) -> int
    decreases i,
{
    if i <= 0 {
        0
    } else if s[i - 1] == '/' {
        i
    } else {
        comp_start(s, i - 1)
    }
}

/// The final normal component of the path `s` (`Path::file_name`):
/// trailing `/` and `.` components are skipped; a final `..`, or no
/// component at all, gives `None`.
pub open spec fn file_name_of(s: Seq<char>) -> Option<Seq<char>>
    decreases s.len(),
{
    if s.len() == 0 {
        None
    } else if s.last() == '/' {
        file_name_of(s.drop_last())
    } else {
        proof {
            lemma_comp_start(s, s.len() - 1);
        }
        let k = comp_start(s, s.len() as int);
        let comp = s.subrange(k, s.len() as int);
        if comp == seq!['.'] {
            file_name_of(s.subrange(0, k))
        } else if comp == seq!['.', '.'] {
            None
        } else {
            Some(comp)
        }
    }
}

/// Position of the last `.` in `s` before `i`, if any.
pub open spec fn last_dot(s: Seq<char>, i: int) -> Option<int>
    decreases i,
{
    if i <= 0 {
        None
    } else if s[i - 1] == '.' {
        Some(i - 1)
    } else {
        last_dot(s, i - 1)
    }
}

/// The extension of a file name (`Path::extension`): the text after its
/// last `.`, unless there is no `.` or the only one starts the name.
pub open spec fn extension_of_name(name: Seq<char>) -> Option<Seq<char>> {
    match last_dot(name, name.len() as int) {
        Some(k) => if k == 0 { None } else { Some(name.subrange(k + 1, name.len() as int)) },
        None => None,
    }
}

/// The extension of the path `s`.
pub open spec fn extension_of(s: Seq<char>) -> Option<Seq<char>> {
    match file_name_of(s) {
        Some(name) => extension_of_name(name),
        None => None,
    }
}

pub proof fn lemma_comp_start(s: Seq<char>, i: int)
    requires
        0 <= i <= s.len(),
    ensures
        0 <= comp_start(s, i) <= i,
    decreases i,
{
    if i > 0 && s[i - 1] != '/' {
        lemma_comp_start(s, i - 1);
    }
}

/// Bounds `[a, b)` of the final normal component of `v[..n]`, if any.
fn file_name_bounds(v: &[char], n: usize) -> (r: Option<(usize, usize)>)
    requires
        n <= v@.len(),
    ensures
        r matches Some((a, b)) ==> a <= b <= n && file_name_of(v@.subrange(0, n as int)) == Some(
            v@.subrange(a as int, b as int),
        ),
        r is None ==> file_name_of(v@.subrange(0, n as int)) is None,
    decreases n,
{
    let ghost s = v@.subrange(0, n as int);
    if n == 0 {
        return None;
    }
    if v[n - 1] == '/' {
        assert(s.drop_last() == v@.subrange(0, n - 1));
        return file_name_bounds(v, n - 1);
    }
    let mut k = n;
    while k > 0 && v[k - 1] != '/'
        invariant
            k <= n <= v@.len(),
            s == v@.subrange(0, n as int),
            comp_start(s, k as int) == comp_start(s, n as int),
        decreases k,
    {
        assert(s[k - 1] == v@[k - 1]);
        k = k - 1;
    }
    assert(comp_start(s, k as int) == k) by {
        if k > 0 {
            assert(s[k - 1] == v@[k - 1]);
        }
    }
    let comp_len = n - k;
    assert(s.subrange(k as int, n as int) == v@.subrange(k as int, n as int));
    if comp_len == 1 && v[k] == '.' {
        assert(s.subrange(k as int, n as int) == seq!['.']);
        assert(s.subrange(0, k as int) == v@.subrange(0, k as int));
        return file_name_bounds(v, k);
    }
    if comp_len == 2 && v[k] == '.' && v[k + 1] == '.' {
        assert(s.subrange(k as int, n as int) == seq!['.', '.']);
        return None;
    }
    assert(s.subrange(k as int, n as int) != seq!['.']) by {
        if comp_len == 1 {
            assert(s.subrange(k as int, n as int)[0] == v@[k as int]);
        }
    }
    assert(s.subrange(k as int, n as int) != seq!['.', '.']) by {
        if comp_len == 2 {
            assert(s.subrange(k as int, n as int)[0] == v@[k as int]);
            assert(s.subrange(k as int, n as int)[1] == v@[k + 1]);
        }
    }
    Some((k, n))
}

/// Bounds of the extension within `v[a..b]`, a file name.
fn extension_bounds(v: &[char], a: usize, b: usize) -> (r: Option<(usize, usize)>)
    requires
        a <= b <= v@.len(),
    ensures
        r matches Some((x, y)) ==> a <= x <= y <= b && extension_of_name(v@.subrange(a as int, b as int))
            == Some(v@.subrange(x as int, y as int)),
        r is None ==> extension_of_name(v@.subrange(a as int, b as int)) is None,
{
    let ghost name = v@.subrange(a as int, b as int);
    let mut i = b;
    while i > a && v[i - 1] != '.'
        invariant
            a <= i <= b <= v@.len(),
            name == v@.subrange(a as int, b as int),
            last_dot(name, (i - a) as int) == last_dot(name, name.len() as int),
        decreases i - a,
    {
        assert(name[i - 1 - a] == v@[i - 1]);
        i = i - 1;
    }
    if i == a {
        return None;
    }
    assert(name[i - 1 - a] == v@[i - 1]);
    if i - 1 == a {
        return None;
    }
    assert(name.subrange(i - a, name.len() as int) == v@.subrange(i as int, b as int));
    Some((i, b))
}

/// The final component of `path`, as `Path::file_name` gives it.
pub fn file_name(path: &str) -> (r: Option<String>)
    ensures
        r matches Some(s) ==> file_name_of(path@) == Some(s@),
        r is None ==> file_name_of(path@) is None,
{
    let v = str_chars(path);
    assert(v@.subrange(0, v@.len() as int) == v@);
    match file_name_bounds(v.as_slice(), v.len()) {
        Some((a, b)) => Some(string_from_chars(&v.as_slice()[a..b])),
        None => None,
    }
}

/// The extension of `path`, as `Path::extension` gives it.
pub fn extension(path: &str) -> (r: Option<String>)
    ensures
        r matches Some(s) ==> extension_of(path@) == Some(s@),
        r is None ==> extension_of(path@) is None,
{
    let v = str_chars(path);
    assert(v@.subrange(0, v@.len() as int) == v@);
    match file_name_bounds(v.as_slice(), v.len()) {
        Some((a, b)) => match extension_bounds(v.as_slice(), a, b) {
            Some((x, y)) => Some(string_from_chars(&v.as_slice()[x..y])),
            None => None,
        },
        None => None,
    }
}

/// Derive a display name from an absolute file path: just the file
/// name component, or `?` when there is none.
pub fn display_name_from_path(path: &str) -> (r: String)
    ensures
        r@ == match file_name_of(path@) {
            Some(n) => n,
            None => seq!['?'],
        },
{
    match file_name(path) {
        Some(n) => n,
        None => {
            let mut s = String::new();
            crate::text::push_char(&mut s, '?');
            s
        },
    }
}

/// Length of what precedes the first body component of a Unix path: a
/// root `/`, or a leading `.` component; else 0.
pub open spec fn body_start(s: Seq<char>) -> int {
    if s.len() > 0 && s[0] == '/' {
        1
    } else if s.len() > 0 && s[0] == '.' && (s.len() == 1 || s[1] == '/') {
        1
    } else {
        0
    }
}

/// `s` without trailing separators and `.` components, never cutting
/// into the first `b` characters.
pub open spec fn trim_tail(s: Seq<char>, b: int) -> Seq<char>
    decreases s.len(),
{
    if s.len() == 0 || s.len() <= b {
        s
    } else if s.last() == '/' {
        trim_tail(s.drop_last(), b)
    } else {
        proof {
            lemma_comp_start(s, s.len() as int);
        }
        let k = comp_start(s, s.len() as int);
        if s.subrange(k, s.len() as int) == seq!['.'] {
            proof {
                assert(s.subrange(k, s.len() as int).len() == seq!['.'].len());
            }
            trim_tail(s.subrange(0, if k > b && k > 0 { k - 1 } else { k }), b)
        } else {
            s
        }
    }
}

/// The parent of path `s` whose body starts at `b`: the path without
/// its last component (separators and `.` components skipped), with
/// trailing separators and `.` components trimmed; a root alone has
/// none, a lone `.` has the empty path.
pub open spec fn parent_from(s: Seq<char>, b: int) -> Option<Seq<char>>
    decreases s.len(),
{
    if s.len() == 0 || s.len() <= b {
        if s.len() == 1 && s[0] == '.' {
            Some(Seq::empty())
        } else {
            None
        }
    } else if s.last() == '/' {
        parent_from(s.drop_last(), b)
    } else {
        proof {
            lemma_comp_start(s, s.len() as int);
        }
        let k = comp_start(s, s.len() as int);
        if s.subrange(k, s.len() as int) == seq!['.'] {
            proof {
                assert(s.subrange(k, s.len() as int).len() == seq!['.'].len());
            }
            parent_from(s.subrange(0, k), b)
        } else {
            Some(trim_tail(s.subrange(0, if k > b && k > 0 { k - 1 } else { k }), b))
        }
    }
}

/// The parent of the Unix path `s` (`Path::parent`).
pub open spec fn parent_of(s: Seq<char>) -> Option<Seq<char>> {
    parent_from(s, body_start(s))
}

/// The start of the last component of `v[..n]` (just after its last `/`).
fn last_comp_start(v: &[char], n: usize) -> (k: usize)
    requires
        n <= v@.len(),
    ensures
        k == comp_start(v@.subrange(0, n as int), n as int),
        k <= n,
        v@.subrange(0, n as int).subrange(k as int, n as int) == v@.subrange(k as int, n as int),
        v@.subrange(0, n as int).subrange(0, k as int) == v@.subrange(0, k as int),
{
    let ghost s = v@.subrange(0, n as int);
    let mut k = n;
    while k > 0 && v[k - 1] != '/'
        invariant
            k <= n <= v@.len(),
            s == v@.subrange(0, n as int),
            comp_start(s, k as int) == comp_start(s, n as int),
        decreases k,
    {
        assert(s[k - 1] == v@[k - 1]);
        k = k - 1;
    }
    assert(comp_start(s, k as int) == k) by {
        if k > 0 {
            assert(s[k - 1] == v@[k - 1]);
        }
    }
    k
}

/// Whether `v[k..n]` is the single character `.`.
fn is_dot_comp(v: &[char], k: usize, n: usize) -> (r: bool)
    requires
        k <= n <= v@.len(),
    ensures
        r == (v@.subrange(k as int, n as int) == seq!['.']),
{
    if n - k == 1 && v[k] == '.' {
        assert(v@.subrange(k as int, n as int) == seq!['.']);
        true
    } else {
        assert(seq!['.'].len() == 1 && seq!['.'][0] == '.');
        if n - k == 1 {
            assert(v@.subrange(k as int, n as int)[0] == v@[k as int]);
        }
        false
    }
}

/// The end of `trim_tail(v[..n], b)`.
fn trim_tail_end(v: &[char], n: usize, b: usize) -> (t: usize)
    requires
        n <= v@.len(),
    ensures
        t <= n,
        v@.subrange(0, t as int) == trim_tail(v@.subrange(0, n as int), b as int),
    decreases n,
{
    let ghost s = v@.subrange(0, n as int);
    if n == 0 || n <= b {
        return n;
    }
    if v[n - 1] == '/' {
        assert(s.drop_last() == v@.subrange(0, n - 1));
        return trim_tail_end(v, n - 1, b);
    }
    let k = last_comp_start(v, n);
    if is_dot_comp(v, k, n) {
        assert(v@.subrange(k as int, n as int).len() == 1);
        let e = if k > b { k - 1 } else { k };
        assert(s.subrange(0, e as int) == v@.subrange(0, e as int));
        trim_tail_end(v, e, b)
    } else {
        n
    }
}

/// The end of `parent_from(v[..n], b)`, if there is a parent.
fn parent_end(v: &[char], n: usize, b: usize) -> (r: Option<usize>)
    requires
        n <= v@.len(),
    ensures
        r matches Some(t) ==> t <= n && parent_from(v@.subrange(0, n as int), b as int) == Some(
            v@.subrange(0, t as int),
        ),
        r is None ==> parent_from(v@.subrange(0, n as int), b as int) is None,
    decreases n,
{
    let ghost s = v@.subrange(0, n as int);
    if n == 0 || n <= b {
        if n == 1 && v[0] == '.' {
            assert(v@.subrange(0, 0) == Seq::<char>::empty());
            return Some(0);
        }
        return None;
    }
    if v[n - 1] == '/' {
        assert(s.drop_last() == v@.subrange(0, n - 1));
        return parent_end(v, n - 1, b);
    }
    let k = last_comp_start(v, n);
    if is_dot_comp(v, k, n) {
        assert(v@.subrange(k as int, n as int).len() == 1);
        return parent_end(v, k, b);
    }
    let e = if k > b { k - 1 } else { k };
    assert(s.subrange(0, e as int) == v@.subrange(0, e as int));
    Some(trim_tail_end(v, e, b))
}

/// The parent of the Unix path `path` (`Path::parent`), if it has one.
pub fn parent_path(path: &str) -> (r: Option<String>)
    ensures
        r matches Some(p) ==> parent_of(path@) == Some(p@),
        r is None ==> parent_of(path@) is None,
{
    let v = str_chars(path);
    let n = v.len();
    let b: usize = if n > 0 && v[0] == '/' {
        1
    } else if n > 0 && v[0] == '.' && (n == 1 || v[1] == '/') {
        1
    } else {
        0
    };
    assert(v@.subrange(0, n as int) == v@);
    match parent_end(v.as_slice(), n, b) {
        Some(t) => Some(string_from_chars(&v.as_slice()[0..t])),
        None => None,
    }
}


/// ASCII upper-case letters mapped to lower case; other characters kept.
pub open spec fn ascii_lower(c: char) -> char {
    if 'A' <= c <= 'Z' { ((c as u32) + 32) as char } else { c }
}

/// ASCII upper-case letters mapped to lower case; other characters kept.
pub open spec fn ascii_upper(c: char) -> char {
    if 'a' <= c <= 'z' { ((c as u32) - 32) as char } else { c }
}

/// `s` with ASCII letters lower-cased (`to_ascii_lowercase`).
pub open spec fn lower(s: Seq<char>) -> Seq<char> {
    s.map_values(|c: char| ascii_lower(c))
}

/// `s` with ASCII letters upper-cased (`to_ascii_uppercase`).
pub open spec fn upper(s: Seq<char>) -> Seq<char> {
    s.map_values(|c: char| ascii_upper(c))
}

fn to_ascii_lower_char(c: char) -> (r: char)
    ensures
        r == ascii_lower(c),
{
    if 'A' <= c && c <= 'Z' {
        let b = ((c as u32) + 32) as u8;
        b as char
    } else {
        c
    }
}

fn to_ascii_upper_char(c: char) -> (r: char)
    ensures
        r == ascii_upper(c),
{
    if 'a' <= c && c <= 'z' {
        let b = ((c as u32) - 32) as u8;
        b as char
    } else {
        c
    }
}

/// The characters of `s` with ASCII letters lower-cased.
pub fn lower_chars(s: &str) -> (r: Vec<char>)
    ensures
        r@ == lower(s@),
{
    let v = str_chars(s);
    let mut out: Vec<char> = Vec::new();
    let mut i: usize = 0;
    while i < v.len()
        invariant
            v@ == s@,
            i <= v@.len(),
            out@ == lower(v@.subrange(0, i as int)),
        decreases v@.len() - i,
    {
        out.push(to_ascii_lower_char(v[i]));
        assert(lower(v@.subrange(0, i + 1)) == lower(v@.subrange(0, i as int)).push(ascii_lower(v@[i as int])));
        i = i + 1;
    }
    assert(v@.subrange(0, v@.len() as int) == v@);
    out
}

/// `s` with ASCII letters upper-cased.
pub fn to_ascii_uppercase(s: &str) -> (r: String)
    ensures
        r@ == upper(s@),
{
    let v = str_chars(s);
    let mut out: Vec<char> = Vec::new();
    let mut i: usize = 0;
    while i < v.len()
        invariant
            v@ == s@,
            i <= v@.len(),
            out@ == upper(v@.subrange(0, i as int)),
        decreases v@.len() - i,
    {
        out.push(to_ascii_upper_char(v[i]));
        assert(upper(v@.subrange(0, i + 1)) == upper(v@.subrange(0, i as int)).push(ascii_upper(v@[i as int])));
        i = i + 1;
    }
    assert(v@.subrange(0, v@.len() as int) == v@);
    string_from_chars(out.as_slice())
}

/// `v` holds exactly the characters of `lit`.
pub fn chars_eq_str(v: &[char], lit: &str) -> (r: bool)
    ensures
        r == (v@ == lit@),
{
    let n = lit.unicode_len();
    if v.len() != n {
        return false;
    }
    let mut i: usize = 0;
    while i < n
        invariant
            n == lit@.len(),
            n == v@.len(),
            i <= n,
            forall|k: int| 0 <= k < i ==> v@[k] == lit@[k],
        decreases n - i,
    {
        if v[i] != lit.get_char(i) {
            return false;
        }
        i = i + 1;
    }
    assert(v@ =~= lit@);
    true
}

/// `v` equals one of the entries of `list`.
pub fn chars_in_list(v: &[char], list: &[&str]) -> (r: bool)
    ensures
        r == exists|i: int| 0 <= i < list@.len() && v@ == (#[trigger] list@[i])@,
{
    let mut i: usize = 0;
    while i < list.len()
        invariant
            i <= list@.len(),
            forall|k: int| 0 <= k < i ==> v@ != (#[trigger] list@[k])@,
        decreases list@.len() - i,
    {
        if chars_eq_str(v, list[i]) {
            return true;
        }
        i = i + 1;
    }
    false
}

} // verus!
