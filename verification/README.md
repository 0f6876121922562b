# realraw

The verified core of a photo library manager. `src/` is a Verus library:
every function there carries a contract that Verus proves. `app/` is the
ordinary Rust around it: worker threads, file reads, floating-point
progress and capture values, the preview cache store and a command-line
entry point.

Layout of `src/`:

- `task/` -- tasks, groups, the scheduling board, worker reports, prefix
  grouping and ETA text, with the properties that span operations in `task/laws.rs`.
- `import/` -- extension rules, EXIF fields and the capture metadata read
  from them, embedded JPEG discovery and pixel conversion for thumbnails,
  import options.
- `catalog/` -- folder rows created ancestors first, keyword and extension
  fields of photo rows, preview cache names.
- `develop/` -- EXIF orientation and resampling of RGB buffers, and the
  progressive preview's decisions.
- `library.rs`, `photo_ops.rs`, `shell.rs`, `demos.rs` -- the thumbnail
  grid's bookkeeping, the remove-photo flow, per-frame window decisions and
  a demonstration task graph.
- `paths.rs`, `text.rs` -- Unix path components, trimming, decimal text.

Not part of this crate: the photo catalog's database storage (the rows
themselves live in an SQLite file handled outside the library; the library
holds the catalog's decisions — folder rows created ancestors first,
keyword lists, statement placeholders, preview cache names), raw-file
decoding and the floating-point develop pipeline, and the window drawing.
