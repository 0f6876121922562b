use realraw::import::thumbnail::Thumbnail;
use realraw::library::{ThumbBoard, MAX_INFLIGHT_THUMBS};

fn thumb() -> Thumbnail {
    Thumbnail { width: 1, height: 1, rgba: vec![1, 2, 3, 255], max_dim: 256 }
}

#[test]
fn empty_library_renders_no_photos() {
    let page = ThumbBoard::default();
    assert!(page.photo_ids().is_empty());
    assert_eq!(page.len(), 0);
}

#[test]
fn refresh_preserves_per_photo_state() {
    let mut page = ThumbBoard::new();
    page.refresh(&[1, 2]);
    assert_eq!(page.request_thumbs(), vec![1, 2]);
    // A refresh that adds a new photo (id 3) at the top, keeping the
    // existing two.
    page.refresh(&[3, 1, 2]);
    assert_eq!(page.len(), 3);
    assert!(page.state(1).unwrap().requested);
    assert!(page.state(2).unwrap().requested);
    assert!(!page.state(3).unwrap().requested);
}

#[test]
fn refresh_drops_removed_photos() {
    let mut page = ThumbBoard::new();
    page.refresh(&[1, 2]);
    page.request_thumbs();
    // Drop photo id 1.
    page.refresh(&[2]);
    assert_eq!(page.len(), 1);
    assert!(page.state(2).is_some());
    assert!(page.state(1).is_none());
}

#[test]
fn requests_are_capped_and_not_repeated() {
    let mut page = ThumbBoard::new();
    let ids: Vec<i64> = (1..=20).collect();
    page.refresh(&ids);
    let first = page.request_thumbs();
    assert_eq!(first.len(), MAX_INFLIGHT_THUMBS);
    assert_eq!(first, (1..=16).collect::<Vec<i64>>());
    assert!(page.request_thumbs().is_empty());
    assert!(page.deliver(1, Ok(thumb())));
    assert!(!page.deliver(2, Err("broken".to_string())));
    assert_eq!(page.inflight_count(), 14);
    assert_eq!(page.request_thumbs(), vec![17, 18]);
    assert_eq!(page.state(1).unwrap().bytes.as_ref().unwrap().rgba, vec![1, 2, 3, 255]);
    assert_eq!(page.state(2).unwrap().error.as_deref(), Some("broken"));
}

#[test]
fn late_results_for_removed_photos_are_dropped() {
    let mut page = ThumbBoard::new();
    page.refresh(&[5]);
    assert_eq!(page.request_thumbs(), vec![5]);
    page.refresh(&[6]);
    assert!(!page.deliver(5, Ok(thumb())));
    assert_eq!(page.inflight_count(), 0);
    assert!(page.state(5).is_none());
    assert_eq!(page.request_thumbs(), vec![6]);
}
