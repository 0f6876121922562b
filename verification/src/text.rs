//! Character-level text helpers with their specifications.

use vstd::prelude::*;

verus! {

/// The characters of `s`, in order.
pub fn str_chars(s: &str) -> (v: Vec<char>)
    ensures
        v@ == s@,
{
    let mut v: Vec<char> = Vec::new();
    for c in iter: s.chars()
        invariant
            v@ == iter.seq().take(iter.index() as int),
    {
        v.push(c);
    }
    v
}


/// Calls `String::push`, which appends `c` to the end of `s`.
#[verifier::external_body]
pub(crate) fn push_char(s: &mut String, c: char)
    ensures
        final(s)@ == old(s)@.push(c),
{
    s.push(c);
}

/// A string holding the characters of `v`.
pub fn string_from_chars(v: &[char]) -> (s: String)
    ensures
        s@ == v@,
{
    let mut s = String::new();
    let mut i: usize = 0;
    while i < v.len()
        invariant
            i <= v@.len(),
            s@ == v@.subrange(0, i as int),
        decreases v@.len() - i,
    {
        push_char(&mut s, v[i]);
        assert(v@.subrange(0, i + 1) == v@.subrange(0, i as int).push(v@[i as int]));
        i = i + 1;
    }
    assert(v@.subrange(0, v@.len() as int) == v@);
    s
}

/// Unicode `White_Space`, as `char::is_whitespace` defines it.
pub open spec fn is_ws(c: char) -> bool {
    let u = c as u32;
    ||| 0x09 <= u <= 0x0d
    ||| u == 0x20
    ||| u == 0x85
    ||| u == 0xa0
    ||| u == 0x1680
    ||| 0x2000 <= u <= 0x200a
    ||| u == 0x2028
    ||| u == 0x2029
    ||| u == 0x202f
    ||| u == 0x205f
    ||| u == 0x3000
}

/// `c` is Unicode white space.
pub fn is_whitespace(c: char) -> (r: bool)
    ensures
        r == is_ws(c),
{
    let u = c as u32;
    (0x09 <= u && u <= 0x0d) || u == 0x20 || u == 0x85 || u == 0xa0 || u == 0x1680
        || (0x2000 <= u && u <= 0x200a) || u == 0x2028 || u == 0x2029 || u == 0x202f
        || u == 0x205f || u == 0x3000
}

/// `s` without its leading white space.
pub open spec fn trim_start(s: Seq<char>) -> Seq<char>
    decreases s.len(),
{
    if s.len() > 0 && is_ws(s[0]) {
        trim_start(s.drop_first())
    } else {
        s
    }
}

/// `s` without its trailing white space.
pub open spec fn trim_end(s: Seq<char>) -> Seq<char>
    decreases s.len(),
{
    if s.len() > 0 && is_ws(s.last()) {
        trim_end(s.drop_last())
    } else {
        s
    }
}

/// `s` without leading and trailing white space (`str::trim`).
pub open spec fn trim(s: Seq<char>) -> Seq<char> {
    trim_end(trim_start(s))
}

/// `s` without its trailing NUL characters.
pub open spec fn trim_end_nul(s: Seq<char>) -> Seq<char>
    decreases s.len(),
{
    if s.len() > 0 && s.last() == '\0' {
        trim_end_nul(s.drop_last())
    } else {
        s
    }
}

/// The bounds `[a, b)` within `v[lo..hi]` of that range with leading and
/// trailing white space removed.
pub fn trim_bounds(v: &[char], lo: usize, hi: usize) -> (r: (usize, usize))
    requires
        lo <= hi <= v@.len(),
    ensures
        lo <= r.0 <= r.1 <= hi,
        v@.subrange(r.0 as int, r.1 as int) == trim(v@.subrange(lo as int, hi as int)),
{
    let mut a = lo;
    while a < hi && is_whitespace(v[a])
        invariant
            lo <= a <= hi <= v@.len(),
            trim_start(v@.subrange(lo as int, hi as int)) == trim_start(v@.subrange(a as int, hi as int)),
        decreases hi - a,
    {
        assert(v@.subrange(a as int, hi as int).drop_first() == v@.subrange(a + 1, hi as int));
        a = a + 1;
    }
    assert(trim_start(v@.subrange(a as int, hi as int)) == v@.subrange(a as int, hi as int)) by {
        if a < hi {
            assert(v@.subrange(a as int, hi as int)[0] == v@[a as int]);
        }
    }
    let mut b = hi;
    while b > a && is_whitespace(v[b - 1])
        invariant
            lo <= a <= b <= hi <= v@.len(),
            trim(v@.subrange(lo as int, hi as int)) == trim_end(v@.subrange(a as int, b as int)),
        decreases b - a,
    {
        assert(v@.subrange(a as int, b as int).drop_last() == v@.subrange(a as int, b - 1));
        b = b - 1;
    }
    assert(trim_end(v@.subrange(a as int, b as int)) == v@.subrange(a as int, b as int)) by {
        if a < b {
            assert(v@.subrange(a as int, b as int).last() == v@[b - 1]);
        }
    }
    (a, b)
}

/// The end of `v[lo..hi]` once its trailing NUL characters are removed.
pub fn trim_end_nul_bound(v: &[char], lo: usize, hi: usize) -> (b: usize)
    requires
        lo <= hi <= v@.len(),
    ensures
        lo <= b <= hi,
        v@.subrange(lo as int, b as int) == trim_end_nul(v@.subrange(lo as int, hi as int)),
{
    let mut b = hi;
    while b > lo && v[b - 1] == '\0'
        invariant
            lo <= b <= hi <= v@.len(),
            trim_end_nul(v@.subrange(lo as int, hi as int)) == trim_end_nul(v@.subrange(lo as int, b as int)),
        decreases b - lo,
    {
        assert(v@.subrange(lo as int, b as int).drop_last() == v@.subrange(lo as int, b - 1));
        b = b - 1;
    }
    assert(trim_end_nul(v@.subrange(lo as int, b as int)) == v@.subrange(lo as int, b as int)) by {
        if lo < b {
            assert(v@.subrange(lo as int, b as int).last() == v@[b - 1]);
        }
    }
    b
}

/// `s` without leading and trailing white space (`str::trim`).
pub fn trimmed(s: &str) -> (r: String)
    ensures
        r@ == trim(s@),
{
    let v = str_chars(s);
    let (a, b) = trim_bounds(v.as_slice(), 0, v.len());
    assert(v@.subrange(0, v@.len() as int) == v@);
    string_from_chars(&v.as_slice()[a..b])
}

/// The decimal digit character for `d < 10`.
pub open spec fn digit_char(d: nat) -> char {
    ('0' as u32 + d) as char
}

/// The decimal representation of `n`, without leading zeros.
pub open spec fn dec(n: nat) -> Seq<char>
    decreases n,
{
    if n < 10 {
        seq![digit_char(n)]
    } else {
        dec(n / 10).push(digit_char(n % 10))
    }
}

/// `n` in decimal, at least `w` characters wide, padded with zeros on
/// the left.
pub open spec fn dec_padded(n: nat, w: nat) -> Seq<char> {
    let d = dec(n);
    if d.len() >= w {
        d
    } else {
        Seq::new((w - d.len()) as nat, |i: int| '0') + d
    }
}

fn digit(d: u64) -> (c: char)
    requires
        d < 10,
    ensures
        c == digit_char(d as nat),
{
    let u: u32 = ('0' as u32) + (d as u32);
    assert(0x30 <= u < 0x3a);
    char_from_ascii(u)
}

/// The character with ASCII code `u`.
fn char_from_ascii(u: u32) -> (c: char)
    requires
        u < 128,
    ensures
        c == u as char,
{
    let b = u as u8;
    b as char
}

/// Append `n` in decimal to `s`.
pub fn push_dec(s: &mut String, n: u64)
    ensures
        final(s)@ == old(s)@ + dec(n as nat),
    decreases n,
{
    if n < 10 {
        push_char(s, digit(n));
    } else {
        push_dec(s, n / 10);
        push_char(s, digit(n % 10));
    }
}

/// The decimal representation of the signed integer `n`.
pub open spec fn signed_dec(n: int) -> Seq<char> {
    if n < 0 {
        seq!['-'] + dec((-n) as nat)
    } else {
        dec(n as nat)
    }
}

/// Append the signed integer `n` in decimal to `s`.
pub fn push_signed_dec(s: &mut String, n: i64)
    ensures
        final(s)@ == old(s)@ + signed_dec(n as int),
{
    if n < 0 {
        push_char(s, '-');
        let ghost mid = s@;
        let mag: u64 = ((-(n + 1)) as u64) + 1;
        push_dec(s, mag);
        assert(s@ == old(s)@ + signed_dec(n as int));
    } else {
        push_dec(s, n as u64);
    }
}

/// Append the text of `t` to `s`.
pub fn push_str(s: &mut String, t: &str)
    ensures
        final(s)@ == old(s)@ + t@,
{
    let v = str_chars(t);
    let ghost start = s@;
    let mut i: usize = 0;
    while i < v.len()
        invariant
            i <= v@.len(),
            v@ == t@,
            s@ == start + v@.subrange(0, i as int),
        decreases v@.len() - i,
    {
        push_char(s, v[i]);
        assert(v@.subrange(0, i + 1) == v@.subrange(0, i as int).push(v@[i as int]));
        i = i + 1;
    }
    assert(v@.subrange(0, v@.len() as int) == v@);
}

/// Append `n` in decimal to `s`, zero-padded to at least `w` characters.
pub fn push_dec_padded(s: &mut String, n: u64, w: usize)
    ensures
        final(s)@ == old(s)@ + dec_padded(n as nat, w as nat),
{
    let len = dec_len(n);
    let ghost start = s@;
    if len < w {
        let mut k: usize = 0;
        while k < w - len
            invariant
                len < w,
                k <= w - len,
                s@ == start + Seq::new(k as nat, |i: int| '0'),
            decreases w - len - k,
        {
            push_char(s, '0');
            assert(Seq::new((k + 1) as nat, |i: int| '0') == Seq::new(k as nat, |i: int| '0').push('0'));
            k = k + 1;
        }
    } else {
        assert(s@ == start);
    }
    let ghost mid = s@;
    push_dec(s, n);
    assert(s@ == start + dec_padded(n as nat, w as nat));
}

/// The number of decimal digits of `n`.
fn dec_len(n: u64) -> (r: usize)
    ensures
        r == dec(n as nat).len(),
    decreases n,
{
    if n < 10 {
        1
    } else {
        let r = dec_len(n / 10);
        proof {
            assert(pow10(19) == 10000000000000000000nat) by {
                reveal_with_fuel(pow10, 20);
            }
            lemma_dec_len_bound(n as nat / 10, 19);
        }
        r + 1
    }
}

pub open spec fn pow10(k: nat) -> nat
    decreases k,
{
    if k == 0 { 1 } else { 10 * pow10((k - 1) as nat) }
}

proof fn lemma_dec_len_bound(n: nat, k: nat)
    requires
        k >= 1,
        n < pow10(k),
    ensures
        dec(n).len() <= k,
    decreases k,
{
    if n >= 10 {
        if k == 1 {
            assert(pow10(1) == 10 * pow10(0));
        } else {
            assert(pow10(k) == 10 * pow10((k - 1) as nat));
            lemma_dec_len_bound(n / 10, (k - 1) as nat);
        }
    }
}

pub proof fn lemma_pow10_mono(a: nat, b: nat)
    requires
        a <= b,
    ensures
        pow10(a) <= pow10(b),
    decreases b,
{
    if a < b {
        lemma_pow10_mono(a, (b - 1) as nat);
        assert(pow10(b) == 10 * pow10((b - 1) as nat));
    }
}

/// An ASCII decimal digit.
pub open spec fn is_digit(c: char) -> bool {
    '0' <= c <= '9'
}

/// Every character of `s` is a decimal digit.
pub open spec fn all_digits(s: Seq<char>) -> bool {
    forall|i: int| 0 <= i < s.len() ==> is_digit(#[trigger] s[i])
}

/// The value of the decimal digits `s`.
pub open spec fn digits_value(s: Seq<char>) -> int
    decreases s.len(),
{
    if s.len() == 0 {
        0
    } else {
        digits_value(s.drop_last()) * 10 + (s.last() as int - '0' as int)
    }
}

/// Rust's `FromStr` for integers on a string short enough not to
/// overflow: an optional `+` (or, when `signed`, `-`) followed by at
/// least one decimal digit and nothing else.
pub open spec fn parse_int(s: Seq<char>, signed: bool) -> Option<int> {
    if s.len() > 0 && (s[0] == '+' || (signed && s[0] == '-')) {
        let r = s.drop_first();
        if r.len() > 0 && all_digits(r) {
            Some(if s[0] == '-' { -digits_value(r) } else { digits_value(r) })
        } else {
            None
        }
    } else if s.len() > 0 && all_digits(s) {
        Some(digits_value(s))
    } else {
        None
    }
}

pub proof fn lemma_digits_value_bound(s: Seq<char>)
    requires
        all_digits(s),
    ensures
        0 <= digits_value(s) < pow10(s.len()),
    decreases s.len(),
{
    if s.len() > 0 {
        assert(all_digits(s.drop_last())) by {
            assert forall|i: int| 0 <= i < s.drop_last().len() implies is_digit(#[trigger] s.drop_last()[i]) by {
                assert(s.drop_last()[i] == s[i]);
            }
        }
        lemma_digits_value_bound(s.drop_last());
        assert(is_digit(s[s.len() - 1]));
    }
}

/// Parse `v[lo..hi]` (at most 4 characters) as Rust's integer `FromStr`
/// does (`signed`: whether a leading `-` is allowed).
pub fn parse_small_int(v: &[char], lo: usize, hi: usize, signed: bool) -> (r: Option<i64>)
    requires
        lo <= hi <= v@.len(),
        hi - lo <= 4,
    ensures
        r matches Some(x) ==> parse_int(v@.subrange(lo as int, hi as int), signed) == Some(x as int),
        r is None ==> parse_int(v@.subrange(lo as int, hi as int), signed) is None,
{
    let ghost s = v@.subrange(lo as int, hi as int);
    if lo == hi {
        return None;
    }
    let c0 = v[lo];
    let has_sign = c0 == '+' || (signed && c0 == '-');
    let start = if has_sign { lo + 1 } else { lo };
    if start == hi {
        return None;
    }
    let ghost body = v@.subrange(start as int, hi as int);
    assert(has_sign ==> body == s.drop_first());
    assert(!has_sign ==> body == s);
    let mut val: i64 = 0;
    let mut i = start;
    while i < hi
        invariant
            lo <= start <= i <= hi <= v@.len(),
            hi - lo <= 4,
            all_digits(v@.subrange(start as int, i as int)),
            val == digits_value(v@.subrange(start as int, i as int)),
            0 <= val < pow10((i - start) as nat),
            (i - start) <= 4,
            body == v@.subrange(start as int, hi as int),
            s == v@.subrange(lo as int, hi as int),
            has_sign ==> body == s.drop_first(),
            !has_sign ==> body == s,
            start < hi,
            lo < hi,
            c0 == v@[lo as int],
            has_sign == (c0 == '+' || (signed && c0 == '-')),
        decreases hi - i,
    {
        let c = v[i];
        if !('0' <= c && c <= '9') {
            assert(body[i - start] == c);
            assert(!is_digit(body[i - start]));
            if !has_sign {
                assert(s[0] == c0);
            }
            return None;
        }
        let d = (c as u32 - '0' as u32) as i64;
        assert(v@.subrange(start as int, i + 1).drop_last() == v@.subrange(start as int, i as int));
        assert(pow10((i + 1 - start) as nat) == 10 * pow10((i - start) as nat));
        assert(pow10(4) == 10000) by {
            reveal_with_fuel(pow10, 5);
        }
        assert(pow10((i - start) as nat) <= 1000) by {
            reveal_with_fuel(pow10, 5);
        }
        val = val * 10 + d;
        assert(all_digits(v@.subrange(start as int, i + 1))) by {
            assert forall|k: int| 0 <= k < i + 1 - start implies is_digit(#[trigger] v@.subrange(start as int, i + 1)[k]) by {
                if k < i - start {
                    assert(v@.subrange(start as int, i + 1)[k] == v@.subrange(start as int, i as int)[k]);
                }
            }
        }
        i = i + 1;
    }
    if has_sign && c0 == '-' {
        Some(-val)
    } else {
        Some(val)
    }
}

} // verus!
