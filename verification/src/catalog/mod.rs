//! Catalog rules: folder rows created ancestors first, the keyword and
//! extension fields of photo rows, and where cached previews live.

pub mod folder;
pub mod photo;
pub mod preview_cache;
