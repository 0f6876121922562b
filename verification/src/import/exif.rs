//! EXIF: capture timestamps, text fields, rationals, and the capture
//! metadata read from the fields of a file's EXIF block.

use std::io::Cursor;
use vstd::prelude::*;
use crate::text::{
    parse_int, parse_small_int, str_chars, string_from_chars, trim, trim_bounds, trim_end_nul,
    trim_end_nul_bound,
};
use exif::Context::{Exif as InExif, Gps as InGps, Tiff as InTiff};
use exif::Reader;
use exif::Value::{Rational, SRational};
use self::ExifContext::{Exif, Gps, Other, Tiff};

verus! {

// ---------------------------------------------------------------------
// Calendar arithmetic
// ---------------------------------------------------------------------

/// The year counted from March: January and February belong to the
/// previous year, so that the leap day ends the counted year.
pub open spec fn march_year(y: int, m: int) -> int {
    if m <= 2 { y - 1 } else { y }
}

/// The month counted from March (March = 0, February = 11).
pub open spec fn march_month(m: int) -> int {
    if m > 2 { m - 3 } else { m + 9 }
}

/// Days from 1970-01-01 to year `y`, month `m`, day `d` of the
/// proleptic Gregorian calendar (negative before the epoch). Divisions
/// are floor divisions.
pub open spec fn civil_days(y: int, m: int, d: int) -> int {
    let yy = march_year(y, m);
    365 * yy + yy / 4 - yy / 100 + yy / 400 + (153 * march_month(m) + 2) / 5 + d - 1 - 719468
}

/// Gregorian leap year.
pub open spec fn is_leap(y: int) -> bool {
    (y % 4 == 0 && y % 100 != 0) || y % 400 == 0
}

/// Number of days in month `m` of year `y`.
pub open spec fn days_in_month(y: int, m: int) -> int {
    if m == 2 {
        if is_leap(y) { 29 } else { 28 }
    } else if m == 4 || m == 6 || m == 9 || m == 11 {
        30
    } else {
        31
    }
}

/// Howard Hinnant's `days_from_civil`: days from the Unix epoch
/// (1970-01-01) to the given date.
pub fn days_from_civil(y: i32, m: u32, d: u32) -> (r: i64)
    requires
        1 <= m <= 12,
        y >= i32::MIN + 400,
        d <= 0x7fff_0000,
    ensures
        r == civil_days(y as int, m as int, d as int),
{
    let yy: i64 = if m <= 2 { (y as i64) - 1 } else { y as i64 };
    // Floor division by 400, as `(yy - 399) / 400` truncates for negative yy.
    let era: i64 = if yy >= 0 { yy / 400 } else { -((-yy + 399) / 400) };
    proof {
        lemma_floor_div_400(yy as int, era as int);
    }
    let yoe: i64 = yy - era * 400;
    let mm: i64 = m as i64;
    let mp: i64 = if mm > 2 { mm - 3 } else { mm + 9 };
    let doy: i64 = (153 * mp + 2) / 5 + (d as i64) - 1;
    let doe: i64 = yoe * 365 + yoe / 4 - yoe / 100 + doy;
    proof {
        lemma_era_split(yy as int, era as int, yoe as int);
    }
    era * 146097 + doe - 719468
}

proof fn lemma_floor_div_400(yy: int, era: int)
    requires
        yy >= 0 ==> era == yy / 400,
        yy < 0 ==> era == -((-yy + 399) / 400),
    ensures
        era == yy / 400,
        0 <= yy - era * 400 < 400,
{
    if yy < 0 {
        let q = (-yy + 399) / 400;
        let r = (-yy + 399) % 400;
        assert(-yy + 399 == 400 * q + r && 0 <= r < 400);
        assert(yy == 400 * (-q) + (399 - r));
        assert(0 <= 399 - r < 400);
        vstd::arithmetic::div_mod::lemma_fundamental_div_mod_converse(yy, 400, -q, 399 - r);
    }
}

proof fn lemma_era_split(yy: int, era: int, yoe: int)
    requires
        era == yy / 400,
        yoe == yy - era * 400,
        0 <= yoe < 400,
    ensures
        yy / 4 == era * 100 + yoe / 4,
        yy / 100 == era * 4 + yoe / 100,
        yy / 400 == era,
{
    vstd::arithmetic::div_mod::lemma_fundamental_div_mod_converse(yy, 4, era * 100 + yoe / 4, yoe % 4);
    vstd::arithmetic::div_mod::lemma_fundamental_div_mod_converse(yy, 100, era * 4 + yoe / 100, yoe % 100);
}

/// Validate a month (1..=12) and day (1..=31); the year passes through.
pub fn civil_from_ymd(y: i32, m: u32, d: u32) -> (r: Option<(i32, u32, u32)>)
    ensures
        r == if 1 <= m <= 12 && 1 <= d <= 31 { Some((y, m, d)) } else { None::<(i32, u32, u32)> },
{
    if !(1 <= m && m <= 12) || !(1 <= d && d <= 31) {
        return None;
    }
    Some((y, m, d))
}


/// The epoch is day 0.
pub proof fn law_epoch_is_day_zero()
    ensures
        civil_days(1970, 1, 1) == 0,
{
}

/// Within a month, consecutive dates are consecutive days.
pub proof fn law_next_day(y: int, m: int, d: int)
    requires
        1 <= m <= 12,
    ensures
        civil_days(y, m, d + 1) == civil_days(y, m, d) + 1,
{
}

proof fn lemma_floor_step(y: int, k: int)
    requires
        k > 0,
    ensures
        y / k - (y - 1) / k == if y % k == 0 { 1int } else { 0int },
{
    let q = y / k;
    let r = y % k;
    vstd::arithmetic::div_mod::lemma_fundamental_div_mod(y, k);
    if r == 0 {
        assert((q - 1) * k == q * k - k) by (nonlinear_arith);
        vstd::arithmetic::div_mod::lemma_fundamental_div_mod_converse(y - 1, k, q - 1, k - 1);
    } else {
        vstd::arithmetic::div_mod::lemma_fundamental_div_mod_converse(y - 1, k, q, r - 1);
    }
}

proof fn lemma_leap_count(y: int)
    ensures
        (if y % 4 == 0 { 1int } else { 0int }) - (if y % 100 == 0 { 1int } else { 0int })
            + (if y % 400 == 0 { 1int } else { 0int }) == if is_leap(y) { 1int } else { 0int },
{
    if y % 100 == 0 {
        vstd::arithmetic::div_mod::lemma_fundamental_div_mod(y, 100);
        assert(((y / 100) * 25) * 4 == 100 * (y / 100)) by (nonlinear_arith);
        vstd::arithmetic::div_mod::lemma_fundamental_div_mod_converse(y, 4, (y / 100) * 25, 0);
    }
    if y % 400 == 0 {
        vstd::arithmetic::div_mod::lemma_fundamental_div_mod(y, 400);
        assert(((y / 400) * 4) * 100 == 400 * (y / 400)) by (nonlinear_arith);
        vstd::arithmetic::div_mod::lemma_fundamental_div_mod_converse(y, 100, (y / 400) * 4, 0);
    }
}

/// The day after the last day of a month (other than December) is the
/// first day of the next month.
pub proof fn law_next_month(y: int, m: int)
    requires
        1 <= m <= 11,
    ensures
        civil_days(y, m + 1, 1) == civil_days(y, m, days_in_month(y, m)) + 1,
{
    if m == 2 {
        lemma_floor_step(y, 4);
        lemma_floor_step(y, 100);
        lemma_floor_step(y, 400);
        lemma_leap_count(y);
    }
}

/// The day after December 31 is January 1 of the next year.
pub proof fn law_next_year(y: int)
    ensures
        civil_days(y + 1, 1, 1) == civil_days(y, 12, 31) + 1,
{
}


// ---------------------------------------------------------------------
// Text fields and timestamps
// ---------------------------------------------------------------------

/// An EXIF text field without surrounding white space and trailing NULs:
/// trimmed, stripped of trailing NULs, trimmed again.
pub open spec fn exif_text(s: Seq<char>) -> Seq<char> {
    trim(trim_end_nul(trim(s)))
}

/// Trim trailing null bytes and surrounding whitespace that EXIF strings
/// carry around.
pub fn trim_exif_string(s: &str) -> (r: String)
    ensures
        r@ == exif_text(s@),
{
    let v = str_chars(s);
    let (a, b) = trim_bounds(v.as_slice(), 0, v.len());
    assert(v@.subrange(0, v@.len() as int) == v@);
    let c = trim_end_nul_bound(v.as_slice(), a, b);
    let (x, y) = trim_bounds(v.as_slice(), a, c);
    string_from_chars(&v.as_slice()[x..y])
}

/// The characters at positions 4, 7, 10, 13 and 16 (between the fields
/// of `YYYY:MM:DD HH:MM:SS`) are ASCII.
pub open spec fn separators_ascii(t: Seq<char>) -> bool {
    &&& (t[4] as u32) < 128
    &&& (t[7] as u32) < 128
    &&& (t[10] as u32) < 128
    &&& (t[13] as u32) < 128
    &&& (t[16] as u32) < 128
}

/// The Unix timestamp of an EXIF `YYYY:MM:DD HH:MM:SS` string, read as
/// UTC: after trimming, at least 19 characters whose separators are
/// ASCII; a signed year, unsigned month, day, hour, minute and second
/// in their fixed columns; month 1..=12 and day 1..=31.
pub open spec fn exif_timestamp(s: Seq<char>) -> Option<int> {
    let t = trim(s);
    if t.len() < 19 || !separators_ascii(t) {
        None
    } else {
        match (
            parse_int(t.subrange(0, 4), true),
            parse_int(t.subrange(5, 7), false),
            parse_int(t.subrange(8, 10), false),
            parse_int(t.subrange(11, 13), false),
            parse_int(t.subrange(14, 16), false),
            parse_int(t.subrange(17, 19), false),
        ) {
            (Some(y), Some(m), Some(d), Some(h), Some(mi), Some(sec)) => {
                if 1 <= m <= 12 && 1 <= d <= 31 {
                    Some(civil_days(y, m, d) * 86400 + h * 3600 + mi * 60 + sec)
                } else {
                    None
                }
            },
            _ => None,
        }
    }
}

fn is_ascii_char(c: char) -> (r: bool)
    ensures
        r == ((c as u32) < 128),
{
    (c as u32) < 128
}

/// Parse an EXIF `YYYY:MM:DD HH:MM:SS` string into a Unix timestamp.
/// EXIF timestamps are stored in local time without a timezone; they are
/// treated as UTC for sorting purposes.
pub fn parse_exif_datetime(s: &str) -> (r: Option<i64>)
    ensures
        r matches Some(x) ==> exif_timestamp(s@) == Some(x as int),
        r is None ==> exif_timestamp(s@) is None,
{
    let v = str_chars(s);
    let (a, b) = trim_bounds(v.as_slice(), 0, v.len());
    assert(v@.subrange(0, v@.len() as int) == v@);
    let ghost t = trim(s@);
    if b - a < 19 {
        return None;
    }
    let w = &v.as_slice()[a..b];
    assert(w@ == t);
    if !(is_ascii_char(w[4]) && is_ascii_char(w[7]) && is_ascii_char(w[10]) && is_ascii_char(w[13])
        && is_ascii_char(w[16])) {
        return None;
    }
    let year = match parse_small_int(w, 0, 4, true) { Some(x) => x, None => { return None; } };
    let month = match parse_small_int(w, 5, 7, false) { Some(x) => x, None => { return None; } };
    let day = match parse_small_int(w, 8, 10, false) { Some(x) => x, None => { return None; } };
    let hour = match parse_small_int(w, 11, 13, false) { Some(x) => x, None => { return None; } };
    let minute = match parse_small_int(w, 14, 16, false) { Some(x) => x, None => { return None; } };
    let second = match parse_small_int(w, 17, 19, false) { Some(x) => x, None => { return None; } };
    proof {
        lemma_parse_int_range(t.subrange(0, 4), true);
        lemma_parse_int_range(t.subrange(5, 7), false);
        lemma_parse_int_range(t.subrange(8, 10), false);
        lemma_parse_int_range(t.subrange(11, 13), false);
        lemma_parse_int_range(t.subrange(14, 16), false);
        lemma_parse_int_range(t.subrange(17, 19), false);
    }
    let (y, m, d) = match civil_from_ymd(year as i32, month as u32, day as u32) {
        Some(t) => t,
        None => { return None; },
    };
    let days = days_from_civil(y, m, d);
    Some(days * 86_400 + hour * 3_600 + minute * 60 + second)
}

/// A parsed field of at most 4 characters lies in `-999..=9999`, and an
/// unsigned one is not negative.
proof fn lemma_parse_int_range(s: Seq<char>, signed: bool)
    requires
        s.len() <= 4,
    ensures
        parse_int(s, signed) matches Some(x) ==> -999 <= x <= 9999 && (!signed ==> x >= 0),
{
    if parse_int(s, signed) is Some {
        if s.len() > 0 && (s[0] == '+' || (signed && s[0] == '-')) {
            crate::text::lemma_digits_value_bound(s.drop_first());
            assert(crate::text::pow10(3) == 1000) by {
                reveal_with_fuel(crate::text::pow10, 4);
            }
            crate::text::lemma_pow10_mono((s.len() - 1) as nat, 3);
        } else {
            crate::text::lemma_digits_value_bound(s);
            assert(crate::text::pow10(4) == 10000) by {
                reveal_with_fuel(crate::text::pow10, 5);
            }
            crate::text::lemma_pow10_mono(s.len(), 4);
        }
    }
}

/// An unsigned EXIF rational (`num / denom`).
#[derive(Debug, Clone, Copy, PartialEq, Eq, Structural)]
pub struct Ratio {
    pub num: u32,
    pub denom: u32,
}

/// `|n|` as an unsigned number.
pub open spec fn abs_u32(n: i32) -> u32 {
    if n < 0 { (-(n as int)) as u32 } else { n as u32 }
}

/// `i32::unsigned_abs`.
fn unsigned_abs(n: i32) -> (r: u32)
    ensures
        r == abs_u32(n),
{
    if n < 0 {
        ((-(n + 1)) as u32) + 1
    } else {
        n as u32
    }
}

/// Errors from EXIF extraction. Most failures collapse into "no EXIF"
/// so that partial success is the norm; only reading the file fails.
#[derive(Debug)]
pub enum ExifError {
    /// The file could not be opened or read.
    Io(std::io::Error),
}

// ---------------------------------------------------------------------
// EXIF fields and the capture metadata read from them
// ---------------------------------------------------------------------

/// The namespace of an EXIF tag number: the TIFF, Exif or GPS
/// attributes; any other (the interoperability attributes) is `Other`.
#[derive(Debug, Clone, Copy, PartialEq, Eq, Structural)]
pub enum ExifContext {
    Tiff,
    Exif,
    Gps,
    Other,
}

/// One EXIF field as the reader yields it: the tag's namespace and
/// number, the IFD it sits in (0 for the primary image), its first
/// unsigned integer (BYTE, SHORT or LONG), its numerator and denominator
/// pairs when it is a `RATIONAL` field (empty otherwise), the first pair
/// when it is an `SRATIONAL` field, and its value as the crate displays
/// it.
#[derive(Debug, Clone)]
pub struct ExifEntry {
    pub context: ExifContext,
    pub tag: u16,
    pub ifd: u16,
    pub uint0: Option<u32>,
    pub rationals: Vec<(u32, u32)>,
    pub srational0: Option<(i32, i32)>,
    pub text: String,
}

/// The fields, in order, that `kamadak-exif` reads from the EXIF block of
/// the container `bytes` (the chain `Reader::read_from_container`, then
/// `fields()` with each field's tag, IFD, `get_uint(0)`, rational
/// components and `display_value()`); `None` when it finds none or fails.
pub uninterp spec fn exif_entries_of(bytes: Seq<u8>) -> Option<Seq<ExifEntry>>;

/// Calls `exif::Reader::read_from_container` on `bytes` and records, for
/// each of its `fields()`, the tag's context and number, `ifd_num`,
/// `value.get_uint(0)`, the components of a `Rational` value, the first
/// component of an `SRational` value, and `display_value().to_string()`. The list is the one the
/// crate yields for these bytes (named by `exif_entries_of`); an error
/// gives `None`.
#[verifier::external_body]
pub(crate) fn read_exif_entries(bytes: &[u8]) -> (r: Option<Vec<ExifEntry>>)
    ensures
        r is Some <==> exif_entries_of(bytes@) is Some,
        r matches Some(v) ==> exif_entries_of(bytes@) == Some(v@),
{
    Some(Reader::new().read_from_container(&mut Cursor::new(bytes)).ok()?.fields().map(|f| ExifEntry {
        context: match f.tag.0 { InTiff => Tiff, InExif => Exif, InGps => Gps, _ => Other },
        tag: f.tag.1,
        ifd: f.ifd_num.0,
        uint0: f.value.get_uint(0),
        rationals: match &f.value { Rational(v) => v.iter().map(|r| (r.num, r.denom)).collect(), _ => vec![] },
        srational0: match &f.value { SRational(v) => v.first().map(|r| (r.num, r.denom)), _ => None },
        text: f.display_value().to_string(),
    }).collect())
}

/// A GPS latitude or longitude as degrees, minutes and seconds, with the
/// hemisphere's sign.
#[derive(Debug, Clone, Copy, PartialEq, Eq, Structural)]
pub struct GpsCoordinate {
    pub degrees: Ratio,
    pub minutes: Ratio,
    pub seconds: Ratio,
    /// South of the equator or west of Greenwich.
    pub negative: bool,
}

/// Capture metadata read from a file's EXIF block; every field is
/// optional. Fractional values are kept as the rationals the file holds.
#[derive(Debug, Clone)]
pub struct CaptureFields {
    pub width: Option<i64>,
    pub height: Option<i64>,
    pub orientation: Option<i64>,
    pub date_taken: Option<i64>,
    pub camera_make: Option<String>,
    pub camera_model: Option<String>,
    pub lens: Option<String>,
    pub focal_length: Option<Ratio>,
    pub aperture: Option<Ratio>,
    pub shutter_speed: Option<Ratio>,
    pub iso: Option<i64>,
    pub gps_lat: Option<GpsCoordinate>,
    pub gps_lon: Option<GpsCoordinate>,
    pub gps_altitude: Option<Ratio>,
    pub copyright: Option<String>,
}

/// [`CaptureFields`] with its text as character sequences.
pub struct CaptureView {
    pub width: Option<i64>,
    pub height: Option<i64>,
    pub orientation: Option<i64>,
    pub date_taken: Option<int>,
    pub camera_make: Option<Seq<char>>,
    pub camera_model: Option<Seq<char>>,
    pub lens: Option<Seq<char>>,
    pub focal_length: Option<Ratio>,
    pub aperture: Option<Ratio>,
    pub shutter_speed: Option<Ratio>,
    pub iso: Option<i64>,
    pub gps_lat: Option<GpsCoordinate>,
    pub gps_lon: Option<GpsCoordinate>,
    pub gps_altitude: Option<Ratio>,
    pub copyright: Option<Seq<char>>,
}

/// The characters of an optional string.
pub open spec fn opt_text(s: Option<String>) -> Option<Seq<char>> {
    match s {
        Some(t) => Some(t@),
        None => None,
    }
}

impl View for CaptureFields {
    type V = CaptureView;

    open spec fn view(&self) -> CaptureView {
        CaptureView {
            width: self.width,
            height: self.height,
            orientation: self.orientation,
            date_taken: match self.date_taken {
                Some(x) => Some(x as int),
                None => None,
            },
            camera_make: opt_text(self.camera_make),
            camera_model: opt_text(self.camera_model),
            lens: opt_text(self.lens),
            focal_length: self.focal_length,
            aperture: self.aperture,
            shutter_speed: self.shutter_speed,
            iso: self.iso,
            gps_lat: self.gps_lat,
            gps_lon: self.gps_lon,
            gps_altitude: self.gps_altitude,
            copyright: opt_text(self.copyright),
        }
    }
}

/// No capture metadata at all.
pub open spec fn no_capture() -> CaptureView {
    CaptureView {
        width: None,
        height: None,
        orientation: None,
        date_taken: None,
        camera_make: None,
        camera_model: None,
        lens: None,
        focal_length: None,
        aperture: None,
        shutter_speed: None,
        iso: None,
        gps_lat: None,
        gps_lon: None,
        gps_altitude: None,
        copyright: None,
    }
}

impl CaptureFields {
    /// Every field unknown.
    pub fn empty() -> (m: Self)
        ensures
            m@ == no_capture(),
    {
        CaptureFields {
            width: None,
            height: None,
            orientation: None,
            date_taken: None,
            camera_make: None,
            camera_model: None,
            lens: None,
            focal_length: None,
            aperture: None,
            shutter_speed: None,
            iso: None,
            gps_lat: None,
            gps_lon: None,
            gps_altitude: None,
            copyright: None,
        }
    }
}

/// A field of the primary image with the given namespace and number.
pub open spec fn primary_tag(e: ExifEntry, ctx: ExifContext, tag: u16) -> bool {
    e.ifd == 0 && e.context == ctx && e.tag == tag
}

/// The field the reader's lookup by tag and primary IFD finds: the last
/// one in field order (its index keeps the last field of each key).
pub open spec fn primary_field(es: Seq<ExifEntry>, ctx: ExifContext, tag: u16) -> Option<ExifEntry>
    decreases es.len(),
{
    if es.len() == 0 {
        None
    } else if primary_tag(es.last(), ctx, tag) {
        Some(es.last())
    } else {
        primary_field(es.drop_last(), ctx, tag)
    }
}

/// The primary field `(ctx, tag)`, or else the primary field `(ctx2, tag2)`.
pub open spec fn field_or(es: Seq<ExifEntry>, ctx: ExifContext, tag: u16, ctx2: ExifContext, tag2: u16) -> Option<ExifEntry> {
    match primary_field(es, ctx, tag) {
        Some(e) => Some(e),
        None => primary_field(es, ctx2, tag2),
    }
}

/// `num / denom` rounded toward zero, as the float quotient converted to
/// an integer: `i64::MAX` for `n / 0` with `n > 0`, and 0 for `0 / 0`.
pub open spec fn ratio_floor(r: Ratio) -> i64 {
    if r.denom == 0 {
        if r.num == 0 { 0 } else { i64::MAX }
    } else {
        (r.num / r.denom) as i64
    }
}

/// The rational of a numerator and denominator pair.
pub open spec fn ratio_of(p: (u32, u32)) -> Ratio {
    Ratio { num: p.0, denom: p.1 }
}

/// A pixel dimension: the field's integer, or the integer part of its
/// first rational.
pub open spec fn entry_dimension(e: ExifEntry) -> Option<i64> {
    match e.uint0 {
        Some(v) => Some(v as i64),
        None => if e.rationals@.len() > 0 { Some(ratio_floor(ratio_of(e.rationals@[0]))) } else { None },
    }
}

/// The first rational of a field; a signed one is read as the rational
/// of the absolute values of its parts.
pub open spec fn entry_rational(e: ExifEntry) -> Option<Ratio> {
    if e.rationals@.len() > 0 {
        Some(ratio_of(e.rationals@[0]))
    } else {
        match e.srational0 {
            Some((n, d)) => Some(Ratio { num: abs_u32(n), denom: abs_u32(d) }),
            None => None,
        }
    }
}

/// The field's first unsigned integer, widened.
pub open spec fn entry_int(e: ExifEntry) -> Option<i64> {
    match e.uint0 {
        Some(v) => Some(v as i64),
        None => None,
    }
}

/// A GPS coordinate from its field (three rationals: degrees, minutes,
/// seconds) and its hemisphere field: negative when the hemisphere text,
/// trimmed, starts with `neg`.
pub open spec fn gps_of(coord: Option<ExifEntry>, hemi: Option<ExifEntry>, neg: char) -> Option<GpsCoordinate> {
    match coord {
        Some(c) => if c.rationals@.len() >= 3 {
            Some(GpsCoordinate {
                degrees: ratio_of(c.rationals@[0]),
                minutes: ratio_of(c.rationals@[1]),
                seconds: ratio_of(c.rationals@[2]),
                negative: match hemi {
                    Some(h) => trim(h.text@).len() > 0 && trim(h.text@)[0] == neg,
                    None => false,
                },
            })
        } else {
            None
        },
        None => None,
    }
}

/// Map an optional field through `f`.
pub open spec fn via<T>(e: Option<ExifEntry>, f: spec_fn(ExifEntry) -> Option<T>) -> Option<T> {
    match e {
        Some(x) => f(x),
        None => None,
    }
}

/// The trimmed text of an optional field.
pub open spec fn text_of(e: Option<ExifEntry>) -> Option<Seq<char>> {
    match e {
        Some(x) => Some(exif_text(x.text@)),
        None => None,
    }
}

/// The capture metadata of a file's EXIF fields. Width and height come
/// from `ImageWidth` and `ImageLength`; the date from `DateTimeOriginal`,
/// else `DateTime`; the lens from `LensModel`, else `LensMake`; the ISO
/// from `PhotographicSensitivity`, else `ISOSpeed`; GPS latitude and
/// longitude are negative in the `S` and `W` hemispheres. Only fields of
/// the primary image count.
pub open spec fn capture_fields(es: Seq<ExifEntry>) -> CaptureView {
    CaptureView {
        width: via(primary_field(es, ExifContext::Tiff, 0x100), |e: ExifEntry| entry_dimension(e)),
        height: via(primary_field(es, ExifContext::Tiff, 0x101), |e: ExifEntry| entry_dimension(e)),
        orientation: via(primary_field(es, ExifContext::Tiff, 0x112), |e: ExifEntry| entry_int(e)),
        date_taken: via(field_or(es, ExifContext::Exif, 0x9003, ExifContext::Tiff, 0x132),
            |e: ExifEntry| exif_timestamp(e.text@)),
        camera_make: text_of(primary_field(es, ExifContext::Tiff, 0x10f)),
        camera_model: text_of(primary_field(es, ExifContext::Tiff, 0x110)),
        lens: text_of(field_or(es, ExifContext::Exif, 0xa434, ExifContext::Exif, 0xa433)),
        focal_length: via(primary_field(es, ExifContext::Exif, 0x920a), |e: ExifEntry| entry_rational(e)),
        aperture: via(primary_field(es, ExifContext::Exif, 0x829d), |e: ExifEntry| entry_rational(e)),
        shutter_speed: via(primary_field(es, ExifContext::Exif, 0x829a), |e: ExifEntry| entry_rational(e)),
        iso: via(field_or(es, ExifContext::Exif, 0x8827, ExifContext::Exif, 0x8833), |e: ExifEntry| entry_int(e)),
        gps_lat: gps_of(primary_field(es, ExifContext::Gps, 2), primary_field(es, ExifContext::Gps, 1), 'S'),
        gps_lon: gps_of(primary_field(es, ExifContext::Gps, 4), primary_field(es, ExifContext::Gps, 3), 'W'),
        gps_altitude: via(primary_field(es, ExifContext::Gps, 6), |e: ExifEntry| entry_rational(e)),
        copyright: text_of(primary_field(es, ExifContext::Tiff, 0x8298)),
    }
}

/// The position of the field that [`primary_field`] names.
fn find_primary(es: &[ExifEntry], ctx: ExifContext, tag: u16) -> (r: Option<usize>)
    ensures
        match primary_field(es@, ctx, tag) {
            Some(e) => r matches Some(i) && i < es@.len() && es@[i as int] == e,
            None => r is None,
        },
{
    let mut i: usize = es.len();
    assert(es@.subrange(0, es@.len() as int) == es@);
    while i > 0
        invariant
            i <= es@.len(),
            primary_field(es@, ctx, tag) == primary_field(es@.subrange(0, i as int), ctx, tag),
        decreases i,
    {
        let e = &es[i - 1];
        let ghost pre = es@.subrange(0, i as int);
        assert(pre.last() == es@[i - 1]);
        assert(pre.drop_last() == es@.subrange(0, i - 1));
        if e.ifd == 0 && e.context == ctx && e.tag == tag {
            return Some(i - 1);
        }
        i = i - 1;
    }
    assert(es@.subrange(0, 0) == Seq::<ExifEntry>::empty());
    None
}

/// The position of the field that [`field_or`] names.
fn find_either(es: &[ExifEntry], ctx: ExifContext, tag: u16, ctx2: ExifContext, tag2: u16) -> (r: Option<usize>)
    ensures
        match field_or(es@, ctx, tag, ctx2, tag2) {
            Some(e) => r matches Some(i) && i < es@.len() && es@[i as int] == e,
            None => r is None,
        },
{
    match find_primary(es, ctx, tag) {
        Some(i) => Some(i),
        None => find_primary(es, ctx2, tag2),
    }
}

/// `num / denom` as [`ratio_floor`] states it.
fn ratio_to_int(r: Ratio) -> (n: i64)
    ensures
        n == ratio_floor(r),
{
    if r.denom == 0 {
        if r.num == 0 { 0 } else { i64::MAX }
    } else {
        (r.num / r.denom) as i64
    }
}

/// A pixel dimension read from a field (see [`entry_dimension`]).
fn dimension_of(e: &ExifEntry) -> (r: Option<i64>)
    ensures
        r == entry_dimension(*e),
{
    match e.uint0 {
        Some(v) => Some(v as i64),
        None => {
            if e.rationals.len() > 0 {
                let (num, denom) = e.rationals[0];
                Some(ratio_to_int(Ratio { num, denom }))
            } else {
                None
            }
        },
    }
}

/// The first rational of a field (see [`entry_rational`]).
pub fn rational_first(e: &ExifEntry) -> (r: Option<Ratio>)
    ensures
        r == entry_rational(*e),
{
    if e.rationals.len() > 0 {
        let (num, denom) = e.rationals[0];
        Some(Ratio { num, denom })
    } else {
        match e.srational0 {
            Some((n, d)) => Some(Ratio { num: unsigned_abs(n), denom: unsigned_abs(d) }),
            None => None,
        }
    }
}

fn int_of(e: &ExifEntry) -> (r: Option<i64>)
    ensures
        r == entry_int(*e),
{
    match e.uint0 {
        Some(v) => Some(v as i64),
        None => None,
    }
}

/// The GPS coordinate stored under `coord_tag`, signed by the hemisphere
/// stored under `ref_tag` (see [`gps_of`]).
pub fn gps_coordinate(es: &[ExifEntry], coord_tag: u16, ref_tag: u16, neg: char) -> (r: Option<GpsCoordinate>)
    ensures
        r == gps_of(primary_field(es@, ExifContext::Gps, coord_tag), primary_field(es@, ExifContext::Gps, ref_tag), neg),
{
    let c = match find_primary(es, ExifContext::Gps, coord_tag) {
        Some(i) => &es[i],
        None => { return None; },
    };
    if c.rationals.len() < 3 {
        return None;
    }
    let negative = match find_primary(es, ExifContext::Gps, ref_tag) {
        Some(j) => {
            let v = str_chars(es[j].text.as_str());
            let (a, b) = trim_bounds(v.as_slice(), 0, v.len());
            assert(v@.subrange(0, v@.len() as int) == v@);
            a < b && v[a] == neg
        },
        None => false,
    };
    let (d0, d1) = c.rationals[0];
    let (m0, m1) = c.rationals[1];
    let (s0, s1) = c.rationals[2];
    Some(GpsCoordinate {
        degrees: Ratio { num: d0, denom: d1 },
        minutes: Ratio { num: m0, denom: m1 },
        seconds: Ratio { num: s0, denom: s1 },
        negative,
    })
}

/// The trimmed text of the field at `i`, if any.
fn text_at(es: &[ExifEntry], i: Option<usize>) -> (r: Option<String>)
    requires
        i matches Some(k) ==> k < es@.len(),
    ensures
        opt_text(r) == match i {
            Some(k) => Some(exif_text(es@[k as int].text@)),
            None => None,
        },
{
    match i {
        Some(k) => Some(trim_exif_string(es[k].text.as_str())),
        None => None,
    }
}

/// Read the capture metadata out of EXIF fields (see [`capture_fields`]).
pub fn copy_fields(es: &[ExifEntry]) -> (m: CaptureFields)
    ensures
        m@ == capture_fields(es@),
{
    let width = match find_primary(es, ExifContext::Tiff, 0x100) { Some(i) => dimension_of(&es[i]), None => None };
    let height = match find_primary(es, ExifContext::Tiff, 0x101) { Some(i) => dimension_of(&es[i]), None => None };
    let orientation = match find_primary(es, ExifContext::Tiff, 0x112) { Some(i) => int_of(&es[i]), None => None };
    let date_taken = match find_either(es, ExifContext::Exif, 0x9003, ExifContext::Tiff, 0x132) {
        Some(i) => parse_exif_datetime(es[i].text.as_str()),
        None => None,
    };
    let camera_make = text_at(es, find_primary(es, ExifContext::Tiff, 0x10f));
    let camera_model = text_at(es, find_primary(es, ExifContext::Tiff, 0x110));
    let lens = text_at(es, find_either(es, ExifContext::Exif, 0xa434, ExifContext::Exif, 0xa433));
    let focal_length = match find_primary(es, ExifContext::Exif, 0x920a) { Some(i) => rational_first(&es[i]), None => None };
    let aperture = match find_primary(es, ExifContext::Exif, 0x829d) { Some(i) => rational_first(&es[i]), None => None };
    let shutter_speed = match find_primary(es, ExifContext::Exif, 0x829a) { Some(i) => rational_first(&es[i]), None => None };
    let iso = match find_either(es, ExifContext::Exif, 0x8827, ExifContext::Exif, 0x8833) { Some(i) => int_of(&es[i]), None => None };
    let copyright = text_at(es, find_primary(es, ExifContext::Tiff, 0x8298));
    let gps_lat = gps_coordinate(es, 2, 1, 'S');
    let gps_lon = gps_coordinate(es, 4, 3, 'W');
    let gps_altitude = match find_primary(es, ExifContext::Gps, 6) { Some(i) => rational_first(&es[i]), None => None };
    let m = CaptureFields {
        width,
        height,
        orientation,
        date_taken,
        camera_make,
        camera_model,
        lens,
        focal_length,
        aperture,
        shutter_speed,
        iso,
        gps_lat,
        gps_lon,
        gps_altitude,
        copyright,
    };
    assert(m@.date_taken == capture_fields(es@).date_taken);
    m
}

/// The capture metadata of a file's bytes: read from its EXIF block, or
/// nothing when the file has none (or the reader fails on it).
pub fn extract_exif_bytes(file: &[u8]) -> (m: CaptureFields)
    ensures
        m@ == match exif_entries_of(file@) {
            Some(es) => capture_fields(es),
            None => no_capture(),
        },
{
    match read_exif_entries(file) {
        Some(es) => copy_fields(es.as_slice()),
        None => CaptureFields::empty(),
    }
}

} // verus!
