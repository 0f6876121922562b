//! The lifecycle of a task.

use vstd::prelude::*;

verus! {

/// The status of a task in its lifecycle.
#[derive(Debug, Clone, PartialEq, Eq)]
pub enum TaskStatus {
    /// Waiting for one or more dependencies to complete.
    Pending,
    /// Dependencies met, queued for execution.
    Ready,
    /// Currently executing on a worker thread.
    Running,
    /// Finished successfully.
    Completed,
    /// Finished with an error.
    Failed(String),
    /// Cancelled by the user or the manager.
    Cancelled,
}

/// Completed, failed and cancelled tasks never change state again.
pub open spec fn terminal(s: TaskStatus) -> bool {
    s is Completed || s is Failed || s is Cancelled
}

/// The display label of a status.
pub open spec fn status_label(s: TaskStatus) -> Seq<char> {
    match s {
        TaskStatus::Pending => "Pending"@,
        TaskStatus::Ready => "Ready"@,
        TaskStatus::Running => "Running"@,
        TaskStatus::Completed => "Completed"@,
        TaskStatus::Failed(_) => "Failed"@,
        TaskStatus::Cancelled => "Cancelled"@,
    }
}

impl TaskStatus {
    /// `true` for Completed, Failed and Cancelled.
    pub fn is_terminal(&self) -> (r: bool)
        ensures
            r == terminal(*self),
    {
        match self {
            TaskStatus::Completed => true,
            TaskStatus::Failed(_) => true,
            TaskStatus::Cancelled => true,
            _ => false,
        }
    }

    /// The status name without its payload.
    pub fn label(&self) -> (r: &'static str)
        ensures
            r@ == status_label(*self),
    {
        match self {
            TaskStatus::Pending => "Pending",
            TaskStatus::Ready => "Ready",
            TaskStatus::Running => "Running",
            TaskStatus::Completed => "Completed",
            TaskStatus::Failed(_) => "Failed",
            TaskStatus::Cancelled => "Cancelled",
        }
    }
}

} // verus!
