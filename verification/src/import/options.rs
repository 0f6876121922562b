//! What the user picked in the import dialog.

use std::path::PathBuf;
use vstd::prelude::*;
use crate::import::discovery::KNOWN_EXTENSIONS;

verus! {

/// Whether imported files should be copied or moved into the collection.
#[derive(Debug, Clone, Copy, PartialEq, Eq, Structural)]
pub enum ImportAction {
    Copy,
    Move,
}

/// What the user picked in the import dialog. Held by the dialog and the
/// app shell; the worker reads it when the user presses "Import".
#[derive(Debug)]
pub struct ImportOptions {
    /// Files / folders the user chose in the file dialog.
    pub sources: Vec<PathBuf>,
    /// Restrict to these extensions (lowercase, with leading dot). Defaults
    /// to [`KNOWN_EXTENSIONS`].
    pub extensions: Vec<String>,
    /// Recurse into directories. Default: true.
    pub recursive: bool,
    /// Skip files that are already in the catalog (by path or by SHA1).
    /// Default: true.
    pub dedup: bool,
    /// Copy or move files into the collection directory.
    pub action: ImportAction,
}

impl Default for ImportOptions {
    /// No sources, every known extension, recursive, deduplicating, copy.
    fn default() -> (o: Self)
        ensures
            o.sources@.len() == 0,
            o.extensions@.len() == KNOWN_EXTENSIONS@.len(),
            forall|i: int| 0 <= i < o.extensions@.len() ==> (#[trigger] o.extensions@[i])@ == KNOWN_EXTENSIONS@[i]@,
            o.recursive,
            o.dedup,
            o.action == ImportAction::Copy,
    {
        let mut extensions: Vec<String> = Vec::new();
        let mut i: usize = 0;
        while i < KNOWN_EXTENSIONS.len()
            invariant
                i <= KNOWN_EXTENSIONS@.len(),
                extensions@.len() == i,
                forall|j: int| 0 <= j < i ==> (#[trigger] extensions@[j])@ == KNOWN_EXTENSIONS@[j]@,
            decreases KNOWN_EXTENSIONS@.len() - i,
        {
            extensions.push(KNOWN_EXTENSIONS[i].to_owned());
            i = i + 1;
        }
        ImportOptions {
            sources: Vec::new(),
            extensions,
            recursive: true,
            dedup: true,
            action: ImportAction::Copy,
        }
    }
}

} // verus!
