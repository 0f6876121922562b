//! Per-frame decisions of the application shell: when the task badge
//! shows and when the library reloads.
//!
//! Times are milliseconds on a monotonic clock that the host reads.

use vstd::prelude::*;

verus! {

/// How long the badge stays visible after the last task finished.
pub const BADGE_GRACE_MS: u64 = 1000;

/// Repaint interval while tasks run.
pub const RUNNING_REPAINT_MS: u64 = 50;

/// What the badge does this frame.
#[derive(Debug, Clone, Copy, PartialEq, Eq, Structural)]
pub struct BadgeFrame {
    /// When every task was last seen finished, carried to the next frame.
    pub all_done_at: Option<u64>,
    /// Whether the "Tasks" badge is drawn.
    pub show_badge: bool,
    /// Ask for a repaint after this many milliseconds.
    pub repaint_after_ms: Option<u64>,
}

/// Time from `since` to `now`, zero when `since` is later.
pub open spec fn elapsed(since: u64, now: u64) -> int {
    if now >= since { now - since } else { 0 }
}

/// The badge decision: the moment all tasks are done is recorded once
/// (and forgotten while tasks run or when there are none); the badge
/// shows when there are tasks and some run, the grace period since all
/// finished is running, or the panel is open. While tasks run the frame
/// repaints every `RUNNING_REPAINT_MS`; during the grace period it
/// repaints when the period ends.
pub open spec fn badge(all_done_at: Option<u64>, total: nat, running: nat, tasks_open: bool, now: u64) -> BadgeFrame {
    let has_running = running > 0;
    let done_at = if total == 0 || has_running {
        None
    } else if all_done_at is None {
        Some(now)
    } else {
        all_done_at
    };
    let in_grace = match done_at {
        Some(t) => elapsed(t, now) < BADGE_GRACE_MS,
        None => false,
    };
    BadgeFrame {
        all_done_at: done_at,
        show_badge: total > 0 && (has_running || in_grace || tasks_open),
        repaint_after_ms: if has_running {
            Some(RUNNING_REPAINT_MS)
        } else if in_grace {
            Some((BADGE_GRACE_MS - elapsed(done_at.unwrap(), now)) as u64)
        } else {
            None
        },
    }
}

/// One frame of the badge (see [`badge`]): `total` tasks, `running` of
/// them running, at `now_ms`.
pub fn badge_frame(all_done_at: Option<u64>, total: usize, running: usize, tasks_open: bool, now_ms: u64) -> (f:
    BadgeFrame)
    ensures
        f == badge(all_done_at, total as nat, running as nat, tasks_open, now_ms),
{
    let has_running = running > 0;
    let done_at = if total == 0 || has_running {
        None
    } else if all_done_at.is_none() {
        Some(now_ms)
    } else {
        all_done_at
    };
    let (in_grace, left) = match done_at {
        Some(t) => {
            let e = if now_ms >= t { now_ms - t } else { 0 };
            if e < BADGE_GRACE_MS {
                (true, BADGE_GRACE_MS - e)
            } else {
                (false, 0)
            }
        },
        None => (false, 0),
    };
    BadgeFrame {
        all_done_at: done_at,
        show_badge: total > 0 && (has_running || in_grace || tasks_open),
        repaint_after_ms: if has_running {
            Some(RUNNING_REPAINT_MS)
        } else if in_grace {
            Some(left)
        } else {
            None
        },
    }
}

/// Whether the library reloads this frame, and the catalog file time to
/// remember: a pending request reloads at once; otherwise, with a
/// catalog open, a change of the catalog file's modification time does.
pub fn library_refresh_due(requested: bool, has_catalog: bool, last_mtime: Option<i64>, mtime: Option<i64>) -> (r: (
    bool,
    Option<i64>,
))
    ensures
        requested ==> r == (true, last_mtime),
        !requested && has_catalog ==> r == (mtime != last_mtime, mtime),
        !requested && !has_catalog ==> r == (false, last_mtime),
{
    if requested {
        (true, last_mtime)
    } else if has_catalog {
        if mtime != last_mtime {
            (true, mtime)
        } else {
            (false, last_mtime)
        }
    } else {
        (false, last_mtime)
    }
}

/// The library reloads when the import dialog enters its Done phase: on
/// the frame it gets there, not on every frame it stays there. Phases are
/// given as "done or not", `None` when no dialog is open: `last` is what
/// was remembered from the previous frame, `now` is this frame's. Returns
/// whether to reload and what to remember for the next frame.
pub fn import_done_refresh(last: Option<bool>, now: Option<bool>) -> (r: (bool, Option<bool>))
    ensures
        r.0 == (now == Some(true) && last != Some(true)),
        r.1 == now,
{
    let entered = match (last, now) {
        (Some(true), _) => false,
        (_, Some(true)) => true,
        _ => false,
    };
    (entered, now)
}

} // verus!
