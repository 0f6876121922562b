use realraw::demos::build_import_batch;
use realraw::task::manager::TaskManager;
use realraw::task::status::TaskStatus;

#[test]
fn import_batch_builds_the_demo_graph() {
    let mut mgr = TaskManager::new();
    let b = build_import_batch(&mut mgr, 7);
    assert_eq!(b.root, 1);
    assert_eq!(mgr.get_group(b.root).unwrap().name(), "Import batch #7");
    assert_eq!(mgr.groups().children_of(b.root), &[2, 3, 4, 5]);
    assert_eq!(mgr.get_group(2).unwrap().name(), "Decode RAW");
    assert_eq!(mgr.get_group(5).unwrap().name(), "Preview");
    assert_eq!(b.decode, vec![1, 2, 3, 4, 5]);
    assert_eq!(b.thumbs, vec![6, 7, 8, 9, 10]);
    assert_eq!(b.meta, 11);
    assert_eq!(b.previews, vec![12, 13, 14, 15, 16]);
    assert_eq!(b.sidecars, vec![17, 18, 19]);
    assert_eq!(b.proxies, vec![20, 21]);
    assert_eq!(mgr.tasks_in_order().len(), 21);
    let t = mgr.get_task(8).unwrap();
    assert_eq!(t.name(), "Thumbnail 2");
    assert_eq!(t.dependencies(), &[3]);
    assert_eq!(mgr.get_task(11).unwrap().dependencies(), &[1, 2, 3, 4, 5]);
    assert_eq!(mgr.get_task(12).unwrap().dependencies(), &[6, 11]);
    assert_eq!(mgr.get_task(12).unwrap().name(), "Preview 0");
    assert_eq!(mgr.get_task(17).unwrap().name(), "Sidecar::verify 0");
    assert_eq!(mgr.get_task(21).unwrap().name(), "Build proxy::video 1");
    assert_eq!(mgr.get_task(21).unwrap().group_id(), None);
    assert_eq!(mgr.get_task(1).unwrap().name(), "Decode file 0.cr2");
    // Starting runs the independent tasks first, four at a time.
    let spawn = mgr.start(&[]);
    assert_eq!(spawn, vec![1, 2, 3, 4]);
    assert!(matches!(mgr.get_task(6).unwrap().status(), TaskStatus::Pending));
}
