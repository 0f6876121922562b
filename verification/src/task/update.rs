//! Applying a worker's report to the board and to the task's progress
//! record.
//!
//! The progress value itself is carried, never inspected: it is whatever
//! the host measures progress in.

use vstd::prelude::*;
use crate::task::manager::{TaskManager, finish, has_id, task_at};
use crate::task::progress::{PROGRESS_HISTORY_CAP, record_sample, with_sample};
use crate::task::status::{TaskStatus, terminal};
use crate::task::task::{Task, TaskId};

verus! {

broadcast use {
    Task::lemma_with_status, Task::lemma_with_message,
};

/// What a running task reports back.
#[derive(Debug, Clone)]
pub enum ProgressUpdate<T> {
    /// New progress value.
    Progress(TaskId, T),
    /// New status message.
    Message(TaskId, String),
    /// The work finished successfully.
    Done(TaskId),
    /// The work failed with this message.
    Failed(TaskId, String),
}

/// The task a report is about.
pub open spec fn update_task<T>(u: ProgressUpdate<T>) -> TaskId {
    match u {
        ProgressUpdate::Progress(id, _) => id,
        ProgressUpdate::Message(id, _) => id,
        ProgressUpdate::Done(id) => id,
        ProgressUpdate::Failed(id, _) => id,
    }
}

/// The progress of one task: its latest value and the samples kept for
/// rate estimates, as `(milliseconds, value)`, oldest first. The history
/// never holds more than `PROGRESS_HISTORY_CAP` samples.
#[derive(Debug)]
pub struct TaskProgress<T> {
    value: T,
    history: Vec<(u64, T)>,
}

impl<T> TaskProgress<T> {
    #[verifier::type_invariant]
    spec fn within_cap(self) -> bool {
        self.history@.len() <= PROGRESS_HISTORY_CAP
    }

    /// The latest value.
    pub closed spec fn spec_value(self) -> T {
        self.value
    }

    /// The kept samples, oldest first.
    pub closed spec fn spec_history(self) -> Seq<(u64, T)> {
        self.history@
    }
}

impl<T: Copy> TaskProgress<T> {
    /// A record at `value` with no samples.
    pub fn new(value: T) -> (p: Self)
        ensures
            p.spec_value() == value,
            p.spec_history() == Seq::<(u64, T)>::empty(),
    {
        TaskProgress { value, history: Vec::new() }
    }

    /// The latest value.
    pub fn value(&self) -> (r: T)
        ensures
            r == self.spec_value(),
    {
        self.value
    }

    /// The kept samples, oldest first.
    pub fn history(&self) -> (r: &[(u64, T)])
        ensures
            r@ == self.spec_history(),
            r@.len() <= PROGRESS_HISTORY_CAP,
    {
        proof {
            use_type_invariant(self);
        }
        self.history.as_slice()
    }
}

/// Task `id` exists and has not terminated.
pub open spec fn live(ts: Seq<Task>, id: TaskId) -> bool {
    has_id(ts, id) && !terminal(task_at(ts, id).spec_status())
}

/// The tasks after report `u`: a message is kept on any known task, a
/// success or failure ends a live task, progress leaves the tasks alone.
pub open spec fn tasks_after<T>(ts: Seq<Task>, u: ProgressUpdate<T>) -> Seq<Task> {
    match u {
        ProgressUpdate::Progress(_, _) => ts,
        ProgressUpdate::Message(id, m) => if has_id(ts, id) {
            ts.update(id - 1, task_at(ts, id).with_message(m))
        } else {
            ts
        },
        ProgressUpdate::Done(id) => finish(ts, id, TaskStatus::Completed),
        ProgressUpdate::Failed(id, e) => finish(ts, id, TaskStatus::Failed(e)),
    }
}

/// The progress record `(value, history)` after report `u` arrives at
/// `at`: progress on a live task becomes the value and is offered to the
/// history; success on a live task sets the value to `full`; anything
/// else leaves the record as it was.
pub open spec fn progress_after<T>(
    ts: Seq<Task>,
    value: T,
    history: Seq<(u64, T)>,
    u: ProgressUpdate<T>,
    at: u64,
    full: T,
) -> (T, Seq<(u64, T)>) {
    match u {
        ProgressUpdate::Progress(id, v) => if live(ts, id) { (v, with_sample(history, at, v)) } else { (value, history) },
        ProgressUpdate::Done(id) => if live(ts, id) { (full, history) } else { (value, history) },
        _ => (value, history),
    }
}

/// Report `u` ends its task: it is a success or a failure of a live task.
pub open spec fn ends_task<T>(ts: Seq<Task>, u: ProgressUpdate<T>) -> bool {
    match u {
        ProgressUpdate::Done(id) => live(ts, id),
        ProgressUpdate::Failed(id, _) => live(ts, id),
        _ => false,
    }
}

/// Apply report `update`, which arrived at `at_ms`, to the board and to
/// `progress`, the record of the task it names; `full` is the progress
/// value of a finished task. Returns whether the task ended.
pub fn apply_update<T: Copy>(
    mgr: &mut TaskManager,
    update: ProgressUpdate<T>,
    progress: &mut TaskProgress<T>,
    at_ms: u64,
    full: T,
) -> (ended: bool)
    requires
        old(mgr).wf(),
    ensures
        final(mgr).wf(),
        final(mgr).tasks() == tasks_after(old(mgr).tasks(), update),
        (final(progress).spec_value(), final(progress).spec_history()) == progress_after(
            old(mgr).tasks(), old(progress).spec_value(), old(progress).spec_history(), update, at_ms, full),
        final(progress).spec_history().len() <= PROGRESS_HISTORY_CAP,
        ended == ends_task(old(mgr).tasks(), update),
        final(mgr).group_tree() == old(mgr).group_tree(),
        final(mgr).next_group() == old(mgr).next_group(),
        final(mgr).max_conc() == old(mgr).max_conc(),
        final(mgr).is_started() == old(mgr).is_started(),
{
    proof {
        use_type_invariant(&*progress);
    }
    match update {
        ProgressUpdate::Progress(id, v) => {
            let is_live = match mgr.get_task(id) {
                Some(t) => !t.status().is_terminal(),
                None => false,
            };
            if is_live {
                let mut cur = TaskProgress { value: v, history: Vec::new() };
                std::mem::swap(progress, &mut cur);
                proof {
                    use_type_invariant(&cur);
                }
                let mut h = cur.history;
                record_sample(&mut h, at_ms, v);
                *progress = TaskProgress { value: v, history: h };
            }
            false
        },
        ProgressUpdate::Message(id, msg) => {
            mgr.set_message(id, msg);
            false
        },
        ProgressUpdate::Done(id) => {
            let ended = mgr.complete(id);
            if ended {
                progress.value = full;
            }
            ended
        },
        ProgressUpdate::Failed(id, err) => mgr.fail(id, err),
    }
}

/// A late report changes nothing of a finished task but its message: the
/// status and the progress record stay; on a live task, success makes it
/// Completed with progress `full`, failure makes it `Failed` with the
/// error, and progress sets the value. A history within its cap stays
/// within it; every `TaskProgress` keeps its history within the cap (its
/// type invariant), so for records this holds in every case, as
/// `apply_update` states.
pub proof fn law_update_respects_finished_tasks<T>(
    ts: Seq<Task>,
    value: T,
    history: Seq<(u64, T)>,
    u: ProgressUpdate<T>,
    at: u64,
    full: T,
)
    requires
        has_id(ts, update_task(u)),
    ensures
        ({
            let id = update_task(u);
            let after = tasks_after(ts, u);
            let (v, h) = progress_after(ts, value, history, u, at, full);
            &&& after.len() == ts.len()
            &&& terminal(task_at(ts, id).spec_status()) ==> {
                &&& task_at(after, id).spec_status() == task_at(ts, id).spec_status()
                &&& v == value
                &&& h == history
            }
            &&& !terminal(task_at(ts, id).spec_status()) ==> match u {
                ProgressUpdate::Progress(_, x) => v == x && h == with_sample(history, at, x),
                ProgressUpdate::Done(_) => task_at(after, id).spec_status() is Completed && v == full,
                ProgressUpdate::Failed(_, e) => task_at(after, id).spec_status() == TaskStatus::Failed(e),
                ProgressUpdate::Message(_, m) => task_at(after, id).spec_message() == m@,
            }
            &&& history.len() <= PROGRESS_HISTORY_CAP ==> h.len() <= PROGRESS_HISTORY_CAP
        }),
{
}

} // verus!
