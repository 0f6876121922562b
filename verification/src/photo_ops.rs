//! The "Remove photo?" confirmation flow.
//!
//! The dialog asks for confirmation, hands the deletion to the task
//! manager as a background task, and reports when that task is over.
//! Drawing the modal and deleting the database row are the host's part:
//! each frame it asks [`RemoveDialog::poll`] what to do, draws the modal
//! when told to, and reports what the user did through
//! [`RemoveDialog::resolve`].

use vstd::prelude::*;
use crate::paths::{file_name, file_name_of};
use crate::task::manager::{TaskManager, active_count, free_slots, has_id, mark_running, picked, task_at};
use crate::task::status::terminal;
use crate::task::task::{Task, TaskId};
use crate::text::{push_signed_dec, push_str, signed_dec};

verus! {

broadcast use Task::lemma_with_id;

/// The file name shown for a photo: the last component of its path, or
/// `#<id>` when the path has none.
pub open spec fn photo_label(photo_id: i64, path: Seq<char>) -> Seq<char> {
    match file_name_of(path) {
        Some(n) => n,
        None => seq!['#'] + signed_dec(photo_id as int),
    }
}

/// Name of the background task that removes a photo.
pub open spec fn delete_task_name(photo_id: i64, path: Seq<char>) -> Seq<char> {
    seq!['R', 'e', 'm', 'o', 'v', 'e', ' '] + photo_label(photo_id, path)
}

/// Description of the background task that removes a photo.
pub open spec fn delete_task_description(photo_id: i64) -> Seq<char> {
    "Delete photo #"@ + signed_dec(photo_id as int) + " from catalog"@
}

/// `t` is the pending, ungrouped removal task for photo `photo_id`,
/// numbered `id`.
pub open spec fn is_delete_task(t: Task, id: TaskId, photo_id: i64, path: Seq<char>) -> bool {
    &&& t.spec_id() == id
    &&& t.spec_name() == delete_task_name(photo_id, path)
    &&& t.spec_description() == delete_task_description(photo_id)
    &&& t.spec_group() is None
    &&& t.spec_deps() == Seq::<TaskId>::empty()
    &&& t.spec_status() is Pending
    &&& t.spec_message() == Seq::<char>::empty()
}

/// The task that removes photo `photo_id` (found at `path`) from the
/// catalog: `"Remove <file name>"`, `"Delete photo #<id> from catalog"`.
pub fn delete_task(photo_id: i64, path: &str) -> (t: Task)
    ensures
        is_delete_task(t, 0, photo_id, path@),
{
    let mut name = String::new();
    push_str(&mut name, "Remove ");
    match file_name(path) {
        Some(n) => push_str(&mut name, n.as_str()),
        None => {
            push_str(&mut name, "#");
            push_signed_dec(&mut name, photo_id);
        },
    }
    let mut description = String::new();
    push_str(&mut description, "Delete photo #");
    push_signed_dec(&mut description, photo_id);
    push_str(&mut description, " from catalog");
    proof {
        reveal_strlit("Remove ");
        reveal_strlit("#");
    }
    assert(name@ == delete_task_name(photo_id, path@));
    Task::new(name.as_str(), description.as_str())
}

/// The board after the removal task `t` is added and the manager
/// started with `workers` running: `spawn` are the tasks it picks.
pub open spec fn added_and_started(old_ts: Seq<Task>, t: Task, workers: Seq<TaskId>, max_conc: usize, spawn: Seq<TaskId>, new_ts: Seq<Task>) -> bool {
    let added = old_ts.push(t);
    &&& spawn == picked(added, workers, free_slots(max_conc as nat, active_count(added, workers)), 0)
    &&& new_ts == mark_running(added, spawn)
}

/// Add the removal task for photo `photo_id` to `mgr` and start the
/// manager, with `workers` the tasks of the live workers; returns the new
/// task's id and the tasks to start now. Running the deletion itself is
/// the caller's part.
pub fn spawn_delete_task(mgr: &mut TaskManager, photo_id: i64, path: &str, workers: &[TaskId]) -> (r: (TaskId, Vec<TaskId>))
    requires
        old(mgr).wf(),
        old(mgr).tasks().len() < u64::MAX - 1,
    ensures
        final(mgr).wf(),
        r.0 == old(mgr).tasks().len() + 1,
        final(mgr).is_started(),
        exists|t: Task| #[trigger] is_delete_task(t, r.0, photo_id, path@)
            && added_and_started(old(mgr).tasks(), t, workers@, old(mgr).max_conc(), r.1@, final(mgr).tasks()),
        final(mgr).group_tree() == old(mgr).group_tree(),
        final(mgr).next_group() == old(mgr).next_group(),
        final(mgr).max_conc() == old(mgr).max_conc(),
{
    let t = delete_task(photo_id, path);
    let tid = mgr.add_task(t);
    let ghost added = mgr.tasks();
    let ghost nt = added.last();
    let spawn = mgr.start(workers);
    proof {
        assert(is_delete_task(nt, tid, photo_id, path@));
        assert(added == old(mgr).tasks().push(nt));
        assert(added_and_started(old(mgr).tasks(), nt, workers@, old(mgr).max_conc(), spawn@, mgr.tasks()));
    }
    (tid, spawn)
}

/// State for the "Remove photo?" confirmation dialog.
pub struct RemoveDialog {
    /// `Some((photo_id, path))` while the confirmation dialog is visible.
    pub pending: Option<(i64, String)>,
    /// Error message to display inside the dialog, if the last
    /// operation failed.
    error: Option<String>,
    /// Task id of the in-flight deletion, if any.
    task_id: Option<TaskId>,
}

/// What the host does this frame.
#[derive(Debug, Clone, Copy, PartialEq, Eq, Structural)]
pub enum DialogFrame {
    /// The deletion task just ended: refresh the photo list.
    TaskFinished,
    /// The deletion task is still running: nothing to draw.
    TaskRunning,
    /// No removal requested: nothing to draw.
    Idle,
    /// Draw the confirmation modal for the pending photo.
    Confirm,
}

/// What the user did with the confirmation modal this frame.
#[derive(Debug, Clone, Copy, PartialEq, Eq, Structural)]
pub enum DialogEvent {
    /// No button was pressed and the modal stays open.
    Nothing,
    /// The "Cancel" button.
    Cancelled,
    /// The modal was dismissed (Escape, click outside).
    Closed,
    /// The "Remove" button.
    Confirmed,
}

impl RemoveDialog {
    /// The photo id of the pending removal.
    pub closed spec fn pending_id(&self) -> Option<i64> {
        match self.pending {
            Some((id, _)) => Some(id),
            None => None,
        }
    }

    /// The path of the pending removal.
    pub closed spec fn pending_path(&self) -> Option<Seq<char>> {
        match self.pending {
            Some((_, p)) => Some(p@),
            None => None,
        }
    }

    /// The message shown in the dialog, if any.
    pub closed spec fn spec_error(&self) -> Option<Seq<char>> {
        match self.error {
            Some(e) => Some(e@),
            None => None,
        }
    }

    /// The deletion task in flight, if any.
    pub closed spec fn spec_task(&self) -> Option<TaskId> {
        self.task_id
    }

    /// Request removal of the given photo: the confirmation opens on the
    /// next frame. Only one removal can be in flight at a time: while a
    /// confirmation is pending or a deletion runs, a request is ignored.
    pub fn request(&mut self, photo_id: i64, path: &str)
        ensures
            old(self).pending_id() is Some || old(self).spec_task() is Some ==> *final(self) == *old(self),
            old(self).pending_id() is None && old(self).spec_task() is None ==> {
                &&& final(self).pending_id() == Some(photo_id)
                &&& final(self).pending_path() == Some(path@)
                &&& final(self).spec_error() is None
                &&& final(self).spec_task() is None
            },
    {
        if self.pending.is_some() || self.task_id.is_some() {
            return;
        }
        self.pending = Some((photo_id, path.to_owned()));
        self.error = None;
    }

    /// Whether a removal is pending confirmation or running.
    pub fn active(&self) -> (r: bool)
        ensures
            r == (self.pending_id() is Some || self.spec_task() is Some),
    {
        self.pending.is_some() || self.task_id.is_some()
    }

    /// Start of a frame. While a deletion task is in flight, it is over
    /// once the manager no longer knows it or it reached a final state;
    /// then the dialog forgets it and reports `TaskFinished`, else
    /// `TaskRunning`. With no task in flight the host draws the modal
    /// (`Confirm`) if a removal is pending, else nothing (`Idle`).
    pub fn poll(&mut self, mgr: &TaskManager) -> (r: DialogFrame)
        requires
            mgr.wf(),
        ensures
            match old(self).spec_task() {
                Some(tid) => {
                    let over = !has_id(mgr.tasks(), tid) || terminal(task_at(mgr.tasks(), tid).spec_status());
                    &&& over ==> r == DialogFrame::TaskFinished && final(self).spec_task() is None
                    &&& !over ==> r == DialogFrame::TaskRunning && final(self).spec_task() == Some(tid)
                },
                None => {
                    &&& old(self).pending_id() is Some ==> r == DialogFrame::Confirm
                    &&& old(self).pending_id() is None ==> r == DialogFrame::Idle
                    &&& final(self).spec_task() is None
                },
            },
            final(self).pending_id() == old(self).pending_id(),
            final(self).pending_path() == old(self).pending_path(),
            final(self).spec_error() == old(self).spec_error(),
    {
        match self.task_id {
            Some(tid) => {
                let over = match mgr.get_task(tid) {
                    Some(t) => t.status().is_terminal(),
                    None => true,
                };
                if over {
                    self.task_id = None;
                    DialogFrame::TaskFinished
                } else {
                    DialogFrame::TaskRunning
                }
            },
            None => {
                if self.pending.is_some() {
                    DialogFrame::Confirm
                } else {
                    DialogFrame::Idle
                }
            },
        }
    }

    /// Apply what the user did with the modal. Cancelling or dismissing
    /// closes it. Confirming closes it, adds the removal task for the
    /// pending photo to `mgr` and starts the manager (see
    /// [`spawn_delete_task`]); the task's id and the tasks to start now
    /// are returned for the host to run, and the dialog then tracks that
    /// task.
    pub fn resolve(&mut self, mgr: &mut TaskManager, event: DialogEvent, workers: &[TaskId]) -> (r: Option<(TaskId, Vec<TaskId>)>)
        requires
            old(mgr).wf(),
            old(mgr).tasks().len() < u64::MAX - 1,
        ensures
            final(mgr).wf(),
            event == DialogEvent::Nothing ==> r is None && *final(self) == *old(self)
                && *final(mgr) == *old(mgr),
            event == DialogEvent::Cancelled || event == DialogEvent::Closed ==> {
                &&& r is None
                &&& final(self).pending_id() is None
                &&& final(self).spec_error() is None
                &&& final(self).spec_task() == old(self).spec_task()
                &&& *final(mgr) == *old(mgr)
            },
            event == DialogEvent::Confirmed && old(self).pending_id() is None ==> r is None
                && *final(self) == *old(self) && *final(mgr) == *old(mgr),
            event == DialogEvent::Confirmed && old(self).pending_id() is Some ==> {
                &&& r is Some
                &&& r.unwrap().0 == old(mgr).tasks().len() + 1
                &&& final(self).spec_task() == Some(r.unwrap().0)
                &&& final(self).pending_id() is None
                &&& final(self).spec_error() is None
                &&& final(mgr).is_started()
                &&& exists|t: Task| #[trigger] is_delete_task(
                    t,
                    r.unwrap().0,
                    old(self).pending_id().unwrap(),
                    old(self).pending_path().unwrap(),
                ) && added_and_started(old(mgr).tasks(), t, workers@, old(mgr).max_conc(), r.unwrap().1@, final(mgr).tasks())
                &&& final(mgr).group_tree() == old(mgr).group_tree()
                &&& final(mgr).next_group() == old(mgr).next_group()
                &&& final(mgr).max_conc() == old(mgr).max_conc()
            },
    {
        match event {
            DialogEvent::Nothing => None,
            DialogEvent::Cancelled | DialogEvent::Closed => {
                self.pending = None;
                self.error = None;
                None
            },
            DialogEvent::Confirmed => {
                match self.pending.take() {
                    Some((photo_id, path)) => {
                        let (tid, spawn) = spawn_delete_task(mgr, photo_id, path.as_str(), workers);
                        self.task_id = Some(tid);
                        self.error = None;
                        let res = Some((tid, spawn));
                        proof {
                            let t = choose|t: Task| #[trigger] is_delete_task(t, tid, photo_id, path@)
                                && added_and_started(old(mgr).tasks(), t, workers@, old(mgr).max_conc(), spawn@, mgr.tasks());
                            assert(is_delete_task(t, res.unwrap().0, old(self).pending_id().unwrap(), old(self).pending_path().unwrap()));
                            assert(added_and_started(old(mgr).tasks(), t, workers@, old(mgr).max_conc(), res.unwrap().1@, mgr.tasks()));
                        }
                        res
                    },
                    None => None,
                }
            },
        }
    }
}

impl Default for RemoveDialog {
    fn default() -> (d: Self)
        ensures
            d.pending_id() is None,
            d.spec_error() is None,
            d.spec_task() is None,
    {
        RemoveDialog { pending: None, error: None, task_id: None }
    }
}

} // verus!
