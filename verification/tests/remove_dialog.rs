use realraw::photo_ops::{delete_task, spawn_delete_task, DialogEvent, DialogFrame, RemoveDialog};
use realraw::task::manager::TaskManager;
use realraw::task::status::TaskStatus;

#[test]
fn delete_task_names_the_file() {
    let t = delete_task(7, "/photos/2024/a.cr2");
    assert_eq!(t.name(), "Remove a.cr2");
    assert_eq!(t.description(), "Delete photo #7 from catalog");
    let t = delete_task(-2, "/");
    assert_eq!(t.name(), "Remove #-2");
}

#[test]
fn confirm_flow_runs_one_task() {
    let mut mgr = TaskManager::new();
    let mut d = RemoveDialog::default();
    assert!(!d.active());
    assert_eq!(d.poll(&mgr), DialogFrame::Idle);
    d.request(3, "/p/x.jpg");
    assert!(d.active());
    assert_eq!(d.pending, Some((3, "/p/x.jpg".to_string())));
    // A second request while one is pending is ignored.
    d.request(4, "/p/y.jpg");
    assert_eq!(d.pending, Some((3, "/p/x.jpg".to_string())));
    assert_eq!(d.poll(&mgr), DialogFrame::Confirm);
    assert_eq!(d.resolve(&mut mgr, DialogEvent::Nothing, &[]), None);
    let (tid, spawn) = d.resolve(&mut mgr, DialogEvent::Confirmed, &[]).expect("task");
    assert_eq!(spawn, vec![tid]);
    assert!(matches!(mgr.get_task(tid).unwrap().status(), TaskStatus::Running));
    assert_eq!(mgr.get_task(tid).unwrap().name(), "Remove x.jpg");
    assert!(d.pending.is_none());
    assert!(d.active());
    // Requests are ignored while the deletion runs.
    d.request(5, "/p/z.jpg");
    assert!(d.pending.is_none());
    assert_eq!(d.poll(&mgr), DialogFrame::TaskRunning);
    assert_eq!(mgr.start(&[tid]), Vec::<u64>::new());
    assert_eq!(d.poll(&mgr), DialogFrame::TaskRunning);
    assert!(mgr.complete(tid));
    assert_eq!(d.poll(&mgr), DialogFrame::TaskFinished);
    assert!(!d.active());
    assert_eq!(d.poll(&mgr), DialogFrame::Idle);
    assert!(matches!(mgr.get_task(tid).unwrap().status(), TaskStatus::Completed));
}

#[test]
fn cancel_and_close_dismiss_the_dialog() {
    let mut mgr = TaskManager::new();
    let mut d = RemoveDialog::default();
    d.request(1, "/a.jpg");
    assert_eq!(d.resolve(&mut mgr, DialogEvent::Cancelled, &[]), None);
    assert!(!d.active());
    d.request(1, "/a.jpg");
    assert_eq!(d.resolve(&mut mgr, DialogEvent::Closed, &[]), None);
    assert!(!d.active());
    assert_eq!(d.resolve(&mut mgr, DialogEvent::Confirmed, &[]), None);
    assert!(mgr.tasks_in_order().is_empty());
}

#[test]
fn spawned_delete_task_gets_next_id() {
    let mut mgr = TaskManager::new();
    let (a, sa) = spawn_delete_task(&mut mgr, 1, "/a.jpg", &[]);
    let (b, sb) = spawn_delete_task(&mut mgr, 2, "/b.jpg", &[a]);
    assert_eq!((a, b), (1, 2));
    assert_eq!(sa, vec![a]);
    assert_eq!(sb, vec![b]);
    assert_eq!(mgr.get_task(b).unwrap().description(), "Delete photo #2 from catalog");
}
