use realraw::task::eta::format_eta;
use realraw::task::group::{GroupTree, TaskGroup};
use realraw::task::manager::TaskManager;
use realraw::task::progress::{record_sample, PROGRESS_HISTORY_CAP};
use realraw::task::status::TaskStatus;
use realraw::task::task::Task;
use realraw::task::update::{apply_update, ProgressUpdate, TaskProgress};
use realraw::task::view::{extract_prefix, TaskCommand, TaskViewOptions};

#[test]
fn status_labels_and_terminality() {
    assert_eq!(TaskStatus::Pending.label(), "Pending");
    assert_eq!(TaskStatus::Ready.label(), "Ready");
    assert_eq!(TaskStatus::Running.label(), "Running");
    assert_eq!(TaskStatus::Completed.label(), "Completed");
    assert_eq!(TaskStatus::Failed("x".to_string()).label(), "Failed");
    assert_eq!(TaskStatus::Cancelled.label(), "Cancelled");
    assert!(!TaskStatus::Pending.is_terminal());
    assert!(!TaskStatus::Ready.is_terminal());
    assert!(!TaskStatus::Running.is_terminal());
    assert!(TaskStatus::Completed.is_terminal());
    assert!(TaskStatus::Failed(String::new()).is_terminal());
    assert!(TaskStatus::Cancelled.is_terminal());
}

#[test]
fn format_eta_ranges() {
    assert_eq!(format_eta(0), "0ms");
    assert_eq!(format_eta(950), "950ms");
    assert_eq!(format_eta(12_345), "12.3s");
    assert_eq!(format_eta(12_300), "12.3s");
    assert_eq!(format_eta(12_099), "12.0s");
    assert_eq!(format_eta(59_999), "59.9s");
    assert_eq!(format_eta(1_000), "1.0s");
    assert_eq!(format_eta(154_000), "2m 34s");
    assert_eq!(format_eta(125_999), "2m 05s");
    assert_eq!(format_eta(5_024_000), "1h 23m 44s");
    assert_eq!(format_eta(3_600_000), "1h 00m 00s");
}

#[test]
fn extract_prefix_prefers_double_colon_then_slash_then_colon() {
    assert_eq!(extract_prefix("Sidecar::verify 0").as_deref(), Some("Sidecar"));
    assert_eq!(extract_prefix("a/b::c").as_deref(), Some("a/b"));
    assert_eq!(extract_prefix("dir/file:1").as_deref(), Some("dir"));
    assert_eq!(extract_prefix("key:value").as_deref(), Some("key"));
    assert_eq!(extract_prefix("::lead").as_deref(), Some(""));
    assert_eq!(extract_prefix("plain name"), None);
}

#[test]
fn view_options_default() {
    let o = TaskViewOptions::default();
    assert!(o.show_cancel && o.show_elapsed && o.show_eta);
    assert!(!o.show_description);
    assert!(o.auto_group_by_separator);
    assert!(!o.compact && !o.flat && !o.only_running);
    let c = TaskCommand::ToggleGroup(3, true);
    assert!(matches!(c, TaskCommand::ToggleGroup(3, true)));
}

#[test]
fn group_builder_and_accessors() {
    let g = TaskGroup::new("Import").parent(7).collapsed(true);
    assert_eq!(g.name(), "Import");
    assert_eq!(g.parent_id(), Some(7));
    assert!(g.is_collapsed());
    assert_eq!(g.id(), 0);
    let mut g = g;
    g.set_collapsed(false);
    assert!(!g.is_collapsed());
}

#[test]
fn group_tree_walks_depth_first() {
    let mut mgr = TaskManager::new();
    let a = mgr.add_group("a", None);
    let b = mgr.add_group("b", Some(a));
    let c = mgr.add_group("c", Some(b));
    let d = mgr.add_group("d", Some(a));
    let e = mgr.add_group("e", None);
    let tree: &GroupTree = mgr.groups();
    assert_eq!(tree.children_of(a), &[b, d]);
    assert_eq!(tree.children_of(e), &[] as &[u64]);
    assert_eq!(tree.walk(a), vec![a, b, c, d]);
    assert_eq!(tree.walk(b), vec![b, c]);
    assert_eq!(tree.walk(e), vec![e]);
    assert_eq!(mgr.get_group(c).unwrap().parent_id(), Some(b));
    assert!(mgr.get_group(99).is_none());
}

#[test]
fn scheduling_respects_dependencies_and_concurrency() {
    let mut mgr = TaskManager::new().set_max_concurrency(2);
    let a = mgr.add_task(Task::new("a", ""));
    let b = mgr.add_task(Task::new("b", ""));
    let c = mgr.add_task(Task::new("c", "").depends_on(a));
    let d = mgr.add_task(Task::new("d", ""));
    let spawn = mgr.start(&[]);
    assert_eq!(spawn, vec![a, b]);
    assert!(matches!(mgr.get_task(a).unwrap().status(), TaskStatus::Running));
    assert!(matches!(mgr.get_task(c).unwrap().status(), TaskStatus::Pending));
    // Both slots are taken by live workers.
    assert!(mgr.schedule_ready(&[a, b]).is_empty());
    // `a` finishes: its slot frees up, and `c` may now run (before `d`).
    assert!(mgr.complete(a));
    assert!(mgr.deps_satisfied(c));
    let spawn = mgr.schedule_ready(&[a, b]);
    assert_eq!(spawn, vec![c]);
    assert!(mgr.complete(b));
    assert_eq!(mgr.schedule_ready(&[a, b, c]), vec![d]);
    assert!(!mgr.all_done());
    assert!(mgr.complete(c));
    assert!(mgr.complete(d));
    assert!(mgr.all_done());
}

#[test]
fn failed_dependency_blocks_dependents() {
    let mut mgr = TaskManager::new();
    let a = mgr.add_task(Task::new("a", ""));
    let b = mgr.add_task(Task::new("b", "").depends_on(a));
    assert_eq!(mgr.start(&[]), vec![a]);
    assert!(mgr.fail(a, "boom".to_string()));
    assert!(!mgr.deps_satisfied(b));
    assert!(mgr.schedule_ready(&[a]).is_empty());
    assert!(matches!(mgr.get_task(a).unwrap().status(), TaskStatus::Failed(e) if e == "boom"));
}

#[test]
fn terminal_tasks_stay_terminal() {
    let mut mgr = TaskManager::new();
    let a = mgr.add_task(Task::new("a", ""));
    assert!(mgr.cancel(a));
    assert!(!mgr.complete(a));
    assert!(!mgr.fail(a, "late".to_string()));
    assert!(!mgr.cancel(a));
    assert!(matches!(mgr.get_task(a).unwrap().status(), TaskStatus::Cancelled));
    assert!(!mgr.cancel(42));
    mgr.set_message(a, "still here".to_string());
    assert_eq!(mgr.get_task(a).unwrap().message(), "still here");
}

#[test]
fn cancel_group_reaches_sub_groups() {
    let mut mgr = TaskManager::new();
    let outer = mgr.add_group("outer", None);
    let inner = mgr.add_group("inner", Some(outer));
    let other = mgr.add_group("other", None);
    let t1 = mgr.add_task(Task::new("t1", "").group(outer));
    let t2 = mgr.add_task(Task::new("t2", "").group(inner));
    let t3 = mgr.add_task(Task::new("t3", "").group(other));
    let t4 = mgr.add_task(Task::new("t4", ""));
    assert!(mgr.complete(t1));
    let ids = mgr.cancel_group(outer);
    assert_eq!(ids, vec![t1, t2]);
    assert!(matches!(mgr.get_task(t1).unwrap().status(), TaskStatus::Completed));
    assert!(matches!(mgr.get_task(t2).unwrap().status(), TaskStatus::Cancelled));
    assert!(matches!(mgr.get_task(t3).unwrap().status(), TaskStatus::Pending));
    assert!(matches!(mgr.get_task(t4).unwrap().status(), TaskStatus::Pending));
}

#[test]
fn group_counts_fold_up_the_whole_subtree() {
    let mut mgr = TaskManager::new();
    let outer = mgr.add_group("outer", None);
    let inner = mgr.add_group("inner", Some(outer));
    let deep = mgr.add_group("deep", Some(inner));
    let a = mgr.add_task(Task::new("a", "").group(outer));
    let b = mgr.add_task(Task::new("b", "").group(inner));
    let _c = mgr.add_task(Task::new("c", "").group(inner));
    let _d = mgr.add_task(Task::new("d", "").group(deep));
    assert!(mgr.complete(a));
    assert!(mgr.complete(b));
    assert_eq!(mgr.group_counts(outer), (2, 4));
    assert_eq!(mgr.group_counts(inner), (1, 3));
    assert_eq!(mgr.group_counts(deep), (0, 1));
    let lone = mgr.add_group("lone", None);
    assert_eq!(mgr.group_counts(lone), (0, 0));
}

#[test]
fn collapsing_a_group() {
    let mut mgr = TaskManager::new();
    let g = mgr.add_group("g", None);
    assert!(!mgr.get_group(g).unwrap().is_collapsed());
    mgr.set_group_collapsed(g, true);
    assert!(mgr.get_group(g).unwrap().is_collapsed());
    mgr.set_group_collapsed(77, true);
    assert_eq!(mgr.next_group_id(), g + 1);
}

#[test]
fn task_builder_records_fields() {
    let t = Task::new("name", "desc").group(4).depends_on(1).depends_on_all(&[2, 3]);
    assert_eq!(t.name(), "name");
    assert_eq!(t.description(), "desc");
    assert_eq!(t.group_id(), Some(4));
    assert_eq!(t.dependencies(), &[1, 2, 3]);
    assert!(matches!(t.status(), TaskStatus::Pending));
    assert_eq!(t.message(), "");
    assert_eq!(t.id(), 0);
    let mut mgr = TaskManager::new();
    let id = mgr.add_task(t);
    assert_eq!(id, 1);
    assert_eq!(mgr.get_task(id).unwrap().id(), 1);
    assert_eq!(mgr.tasks_in_order().len(), 1);
}

#[test]
fn progress_history_is_spaced_and_capped() {
    let mut h: Vec<(u64, u32)> = Vec::new();
    record_sample(&mut h, 100, 1);
    record_sample(&mut h, 150, 2); // only 50 ms later: dropped
    record_sample(&mut h, 151, 3);
    assert_eq!(h, vec![(100, 1), (151, 3)]);
    record_sample(&mut h, 10, 4); // clock went back: dropped
    assert_eq!(h.len(), 2);
    for i in 0..100u64 {
        record_sample(&mut h, 1_000 + i * 60, i as u32);
    }
    assert_eq!(h.len(), PROGRESS_HISTORY_CAP);
    assert_eq!(h.last(), Some(&(1_000 + 99 * 60, 99)));
    assert_eq!(h[0], (1_000 + 68 * 60, 68));
}

#[test]
fn format_eta_under_a_minute_shows_tenths() {
    assert_eq!(format_eta(12_300), "12.3s");
}

#[test]
fn group_may_name_a_parent_not_added_yet() {
    let mut mgr = TaskManager::new();
    let early = mgr.add_group("early", Some(3));
    assert_eq!(early, 1);
    let g = mgr.get_group(early).unwrap();
    assert_eq!(g.id(), 1);
    assert_eq!(g.name(), "early");
    assert_eq!(g.parent_id(), Some(3));
    assert!(!g.is_collapsed());
    assert_eq!(mgr.groups().children_of(3), &[early]);
    let second = mgr.add_group("second", None);
    let third = mgr.add_group("third", None);
    assert_eq!((second, third), (2, 3));
    assert_eq!(mgr.groups().walk(third), vec![third, early]);
    assert_eq!(mgr.get_group(second).unwrap().parent_id(), None);
}

#[test]
fn late_reports_leave_finished_tasks_alone() {
    let mut mgr = TaskManager::new();
    let a = mgr.add_task(Task::new("a", ""));
    let mut p = TaskProgress::new(0u32);
    assert!(!apply_update(&mut mgr, ProgressUpdate::Progress(a, 40), &mut p, 100, 1000));
    assert_eq!(p.value(), 40);
    assert_eq!(p.history(), &[(100, 40)]);
    assert!(apply_update(&mut mgr, ProgressUpdate::Done(a), &mut p, 200, 1000));
    assert_eq!(p.value(), 1000);
    assert!(matches!(mgr.get_task(a).unwrap().status(), TaskStatus::Completed));
    assert!(!apply_update(&mut mgr, ProgressUpdate::Progress(a, 50), &mut p, 300, 1000));
    assert!(!apply_update(&mut mgr, ProgressUpdate::Failed(a, "late".to_string()), &mut p, 400, 1000));
    assert_eq!(p.value(), 1000);
    assert_eq!(p.history(), &[(100, 40)]);
    assert!(matches!(mgr.get_task(a).unwrap().status(), TaskStatus::Completed));
    assert!(!apply_update(&mut mgr, ProgressUpdate::Message(a, "done".to_string()), &mut p, 500, 1000));
    assert_eq!(mgr.get_task(a).unwrap().message(), "done");
}

#[test]
fn cycles_in_the_group_tree_are_detected() {
    let mut mgr = TaskManager::new();
    let a = mgr.add_group("a", None);
    let _b = mgr.add_group("b", Some(a));
    assert!(!mgr.has_cycle());
    let mut fwd = TaskManager::new();
    fwd.add_group("early", Some(3));
    fwd.add_group("mid", None);
    fwd.add_group("late", None);
    assert!(!fwd.has_cycle());
    let mut cyc = TaskManager::new();
    cyc.add_group("x", Some(2));
    cyc.add_group("y", Some(1));
    assert!(cyc.has_cycle());
    let mut own = TaskManager::new();
    own.add_group("self", Some(1));
    assert!(own.has_cycle());
}
