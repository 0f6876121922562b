//! The progress samples kept per running task for rate estimates.
//!
//! Times are milliseconds on a monotonic clock that the host reads; the
//! sample values are carried, never inspected.

use vstd::prelude::*;
use crate::shell::elapsed;

verus! {

/// Hard cap on remembered progress samples per task.
pub const PROGRESS_HISTORY_CAP: usize = 32;

/// A new sample is kept only when more than this many milliseconds
/// passed since the last kept one.
pub const SAMPLE_SPACING_MS: u64 = 50;

/// The history after offering a sample taken at `at`: kept when the
/// history is empty or the last sample is more than `SAMPLE_SPACING_MS`
/// older; when keeping it makes the history longer than the cap, the
/// oldest sample goes.
pub open spec fn with_sample<T>(history: Seq<(u64, T)>, at: u64, value: T) -> Seq<(u64, T)> {
    if history.len() == 0 || elapsed(history.last().0, at) > SAMPLE_SPACING_MS {
        let h = history.push((at, value));
        if h.len() > PROGRESS_HISTORY_CAP { h.drop_first() } else { h }
    } else {
        history
    }
}

/// Offer a progress sample taken at `at_ms` to `history` (oldest first);
/// see [`with_sample`].
pub fn record_sample<T: Copy>(history: &mut Vec<(u64, T)>, at_ms: u64, value: T)
    ensures
        final(history)@ == with_sample(old(history)@, at_ms, value),
        old(history)@.len() <= PROGRESS_HISTORY_CAP ==> final(history)@.len() <= PROGRESS_HISTORY_CAP,
{
    let n = history.len();
    let keep = if n == 0 {
        true
    } else {
        let last = history[n - 1].0;
        let e = if at_ms >= last { at_ms - last } else { 0 };
        e > SAMPLE_SPACING_MS
    };
    if keep {
        history.push((at_ms, value));
        if history.len() > PROGRESS_HISTORY_CAP {
            history.remove(0);
        }
    }
}

} // verus!
