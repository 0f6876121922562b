//! realraw: the verified core of a photo library manager.
//!
//! * [`catalog`] -- folder rows created ancestors first, keyword and
//!   extension rules of photo rows, preview cache naming.
//! * [`demos`] -- a demonstration import batch for the task system.
//! * [`develop`] -- orientation and resampling of RGB buffers, and the
//!   decisions of the progressive develop preview.
//! * [`import`] -- file-name rules, EXIF fields and the capture metadata
//!   read from them, embedded-JPEG discovery and pixel-format conversion
//!   for thumbnails.
//! * [`library`] -- per-photo thumbnail bookkeeping of the library grid.
//! * [`paths`] and [`text`] -- Unix path components, string trimming and
//!   decimal formatting.
//! * [`photo_ops`] -- the "Remove photo?" confirmation flow.
//! * [`shell`] -- per-frame decisions of the application window.
//! * [`task`] -- the background task system: task states, group trees,
//!   the scheduling board, worker reports, prefix groups and ETA
//!   formatting.

pub mod catalog;
pub mod demos;
pub mod develop;
pub mod import;
pub mod library;
pub mod paths;
pub mod photo_ops;
pub mod shell;
pub mod text;

pub mod task;
