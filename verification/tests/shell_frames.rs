use realraw::shell::{badge_frame, import_done_refresh, library_refresh_due, BadgeFrame, BADGE_GRACE_MS};
use realraw::task::manager::TaskManager;
use realraw::task::status::TaskStatus;
use realraw::task::task::Task;

#[test]
fn badge_stays_for_the_grace_period() {
    // Tasks running: badge shown, frequent repaints, no done time.
    let f = badge_frame(None, 3, 1, false, 10_000);
    assert_eq!(f, BadgeFrame { all_done_at: None, show_badge: true, repaint_after_ms: Some(50) });
    // Everything finished at t = 10 000: recorded once.
    let f = badge_frame(f.all_done_at, 3, 0, false, 10_000);
    assert_eq!(f.all_done_at, Some(10_000));
    assert!(f.show_badge);
    assert_eq!(f.repaint_after_ms, Some(BADGE_GRACE_MS));
    let f = badge_frame(f.all_done_at, 3, 0, false, 10_400);
    assert_eq!(f.all_done_at, Some(10_000));
    assert!(f.show_badge);
    assert_eq!(f.repaint_after_ms, Some(600));
    // After the grace period the badge hides, unless the panel is open.
    let g = badge_frame(f.all_done_at, 3, 0, false, 11_000);
    assert!(!g.show_badge);
    assert_eq!(g.repaint_after_ms, None);
    assert!(badge_frame(f.all_done_at, 3, 0, true, 11_000).show_badge);
    // No tasks at all: nothing to show even with the panel open.
    assert_eq!(badge_frame(Some(5), 0, 0, true, 6), BadgeFrame { all_done_at: None, show_badge: false, repaint_after_ms: None });
}

#[test]
fn library_reloads_on_request_or_catalog_change() {
    assert_eq!(library_refresh_due(true, true, Some(1), Some(2)), (true, Some(1)));
    assert_eq!(library_refresh_due(false, true, Some(1), Some(2)), (true, Some(2)));
    assert_eq!(library_refresh_due(false, true, Some(2), Some(2)), (false, Some(2)));
    assert_eq!(library_refresh_due(false, true, None, None), (false, None));
    assert_eq!(library_refresh_due(false, false, Some(1), Some(2)), (false, Some(1)));
}

#[test]
fn cancel_all_finishes_every_task() {
    let mut mgr = TaskManager::new();
    let a = mgr.add_task(Task::new("a", ""));
    let b = mgr.add_task(Task::new("b", ""));
    let c = mgr.add_task(Task::new("c", ""));
    assert!(mgr.complete(b));
    assert_eq!(mgr.cancel_all(), vec![a, c]);
    assert!(mgr.all_done());
    assert!(matches!(mgr.get_task(b).unwrap().status(), TaskStatus::Completed));
    assert!(matches!(mgr.get_task(c).unwrap().status(), TaskStatus::Cancelled));
    assert!(mgr.cancel_all().is_empty());
}

#[test]
fn import_done_reloads_the_library_once() {
    assert_eq!(import_done_refresh(None, Some(false)), (false, Some(false)));
    assert_eq!(import_done_refresh(Some(false), Some(true)), (true, Some(true)));
    assert_eq!(import_done_refresh(Some(true), Some(true)), (false, Some(true)));
    assert_eq!(import_done_refresh(None, Some(true)), (true, Some(true)));
    assert_eq!(import_done_refresh(Some(true), None), (false, None));
}
