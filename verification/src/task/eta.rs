//! Human-readable durations for progress displays.

use vstd::prelude::*;
use crate::text::{dec, dec_padded, push_char, push_dec, push_dec_padded};

verus! {

/// The text for a duration of `ms` milliseconds: `"950ms"` below a
/// second, `"12.3s"` below a minute (tenths, rounded down), `"2m 05s"` below an
/// hour, `"1h 02m 05s"` beyond.
pub open spec fn eta_text(ms: nat) -> Seq<char> {
    if ms < 1000 {
        dec(ms) + seq!['m', 's']
    } else {
        let secs = ms / 1000;
        if secs < 60 {
            dec(secs) + seq!['.'] + dec((ms % 1000) / 100) + seq!['s']
        } else {
            let mins = secs / 60;
            if mins < 60 {
                dec(mins) + seq!['m', ' '] + dec_padded(secs % 60, 2) + seq!['s']
            } else {
                dec(mins / 60) + seq!['h', ' '] + dec_padded(mins % 60, 2) + seq!['m', ' ']
                    + dec_padded(secs % 60, 2) + seq!['s']
            }
        }
    }
}

/// Format a duration given in whole milliseconds as `"1h 23m 04s"`,
/// `"2m 34s"`, `"12.3s"`, or `"0ms"`.
pub fn format_eta(total_ms: u128) -> (r: String)
    requires
        total_ms / 1000 <= u64::MAX,
    ensures
        r@ == eta_text(total_ms as nat),
{
    let mut s = String::new();
    if total_ms < 1000 {
        push_dec(&mut s, total_ms as u64);
        push_char(&mut s, 'm');
        push_char(&mut s, 's');
        return s;
    }
    let total_secs = (total_ms / 1000) as u64;
    let ms = (total_ms % 1000) as u64;
    if total_secs < 60 {
        push_dec(&mut s, total_secs);
        push_char(&mut s, '.');
        push_dec(&mut s, ms / 100);
        push_char(&mut s, 's');
        return s;
    }
    let mins = total_secs / 60;
    let secs = total_secs % 60;
    if mins < 60 {
        push_dec(&mut s, mins);
        push_char(&mut s, 'm');
        push_char(&mut s, ' ');
        push_dec_padded(&mut s, secs, 2);
        push_char(&mut s, 's');
        return s;
    }
    let hours = mins / 60;
    let mins = mins % 60;
    push_dec(&mut s, hours);
    push_char(&mut s, 'h');
    push_char(&mut s, ' ');
    push_dec_padded(&mut s, mins, 2);
    push_char(&mut s, 'm');
    push_char(&mut s, ' ');
    push_dec_padded(&mut s, secs, 2);
    push_char(&mut s, 's');
    s
}

/// An hour or more reads `H h MM m SS s`: whole hours, then the minutes
/// and seconds left over, each below 60, which together give back the
/// whole seconds of the duration.
pub proof fn law_eta_hours_split_the_seconds(ms: nat)
    requires
        ms >= 3_600_000,
    ensures
        ({
            let secs = ms / 1000;
            let (h, m, s) = (secs / 3600, (secs % 3600) / 60, secs % 60);
            &&& m < 60
            &&& s < 60
            &&& h * 3600 + m * 60 + s == secs
            &&& eta_text(ms) == dec(h) + seq!['h', ' '] + dec_padded(m, 2) + seq!['m', ' '] + dec_padded(s, 2)
                + seq!['s']
        }),
{
    let secs = ms / 1000;
    let mins = secs / 60;
    assert(secs >= 3600);
    assert(mins / 60 == secs / 3600 && mins % 60 == (secs % 3600) / 60) by {
        vstd::arithmetic::div_mod::lemma_div_denominator(secs as int, 60, 60);
        vstd::arithmetic::div_mod::lemma_breakdown(secs as int, 60, 60);
    }
}

/// A minute up to an hour reads `M m SS s`: whole minutes and the seconds
/// left over, below 60, which together give back the whole seconds.
pub proof fn law_eta_minutes_split_the_seconds(ms: nat)
    requires
        60_000 <= ms < 3_600_000,
    ensures
        ({
            let secs = ms / 1000;
            let (m, s) = (secs / 60, secs % 60);
            &&& m < 60
            &&& s < 60
            &&& m * 60 + s == secs
            &&& eta_text(ms) == dec(m) + seq!['m', ' '] + dec_padded(s, 2) + seq!['s']
        }),
{
}

} // verus!
