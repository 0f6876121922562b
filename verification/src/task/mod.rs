//! Task system: task states, groups, the scheduling board, ETA text.

pub mod autogroup;
pub mod eta;
pub mod group;
pub mod laws;
pub mod manager;
pub mod progress;
pub mod status;
pub mod task;
pub mod update;
pub mod view;

pub use eta::format_eta;
pub use group::{GroupId, TaskGroup};
pub use manager::TaskManager;
pub use status::TaskStatus;
pub use task::{Task, TaskId};
pub use view::{TaskCommand, TaskViewOptions};
