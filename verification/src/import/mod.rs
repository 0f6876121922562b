//! Import pipeline: extension rules, EXIF values and thumbnails.

pub mod discovery;
pub mod exif;
pub mod options;
pub mod pixels;
pub mod thumbnail;

pub use discovery::{DiscoveredFile, KNOWN_EXTENSIONS};
pub use exif::ExifError;
pub use options::{ImportAction, ImportOptions};
pub use thumbnail::{extract_thumbnail, Thumbnail};
