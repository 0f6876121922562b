use std::collections::HashMap;

use realraw::catalog::folder::{EnsureFolder, Folder, FolderStep};

/// An in-memory folders table: path -> (id, parent id).
#[derive(Default)]
struct Table {
    rows: HashMap<String, (i64, Option<i64>)>,
    next_id: i64,
    drop_writes: bool,
    log: Vec<String>,
}

impl Table {
    fn find_folder_by_path(&self, path: &str) -> Option<Folder> {
        self.rows.get(path).map(|(id, parent)| Folder { id: *id, path: path.to_string(), parent_id: *parent })
    }

    /// Drive an ensure run to its end against this table.
    fn ensure_folder(&mut self, path: &str) -> Result<i64, String> {
        let (mut run, mut step) = EnsureFolder::new(path);
        loop {
            step = match step {
                FolderStep::Lookup(p) => {
                    self.log.push(format!("lookup {p}"));
                    let id = self.rows.get(&p).map(|r| r.0);
                    run.found(id)
                }
                FolderStep::Insert(p, parent) => {
                    self.log.push(format!("insert {p}"));
                    if !self.drop_writes {
                        self.next_id += 1;
                        let id = self.next_id;
                        let entry = self.rows.entry(p).or_insert((id, parent));
                        entry.1 = parent;
                    }
                    run.inserted()
                }
                FolderStep::Done(id) => {
                    assert!(run.is_finished());
                    return Ok(id);
                }
                FolderStep::Missing(p) => return Err(p),
            }
        }
    }
}

#[test]
fn ensure_folder_creates_ancestors() {
    let mut cat = Table::default();
    let id = cat.ensure_folder("/photos/2024/jan/holiday").unwrap();

    // Ancestors must exist too.
    for ancestor in ["/photos", "/photos/2024", "/photos/2024/jan"] {
        let f = cat.find_folder_by_path(ancestor);
        assert!(f.is_some(), "ancestor {ancestor} missing");
    }

    // The leaf id must match the row we just inserted.
    let leaf = cat.find_folder_by_path("/photos/2024/jan/holiday");
    assert_eq!(leaf.unwrap().id, id);
}

#[test]
fn ensure_folder_is_idempotent() {
    let mut cat = Table::default();
    let id1 = cat.ensure_folder("/dup/path").unwrap();
    let id2 = cat.ensure_folder("/dup/path").unwrap();
    assert_eq!(id1, id2);
}

#[test]
fn ancestors_are_written_first_and_linked() {
    let mut cat = Table::default();
    cat.ensure_folder("/a").unwrap();
    cat.log.clear();
    let id = cat.ensure_folder("/a/b/c").unwrap();
    assert_eq!(
        cat.log,
        vec!["lookup /a/b/c", "lookup /a/b", "lookup /a", "insert /a/b", "lookup /a/b", "insert /a/b/c", "lookup /a/b/c"]
    );
    let a = cat.find_folder_by_path("/a").unwrap();
    let b = cat.find_folder_by_path("/a/b").unwrap();
    let c = cat.find_folder_by_path("/a/b/c").unwrap();
    assert_eq!(b.parent_id, Some(a.id));
    assert_eq!(c.parent_id, Some(b.id));
    assert_eq!(c.id, id);
    // The root directory has a row of its own, without a parent.
    assert_eq!(cat.find_folder_by_path("/").unwrap().parent_id, None);
    assert_eq!(a.parent_id, Some(cat.find_folder_by_path("/").unwrap().id));
}

#[test]
fn relative_paths_stop_at_the_first_component() {
    let mut cat = Table::default();
    cat.ensure_folder("photos/2024").unwrap();
    assert_eq!(cat.find_folder_by_path("photos").unwrap().parent_id, None);
    assert!(cat.find_folder_by_path("").is_none());
}

#[test]
fn lost_writes_are_reported() {
    let mut cat = Table { drop_writes: true, ..Default::default() };
    assert_eq!(cat.ensure_folder("/x"), Err("/".to_string()));
}
