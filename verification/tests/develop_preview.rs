use realraw::develop::preview::{cached_placeholder, Delivery, ImageKind, PreviewAction, PreviewSession};
use realraw::import::thumbnail::Thumbnail;

const THUMB: ImageKind = ImageKind { is_final: false, is_placeholder: true };
const FINAL: ImageKind = ImageKind { is_final: true, is_placeholder: false };

#[test]
fn open_raw_starts_a_job_once() {
    let mut s = PreviewSession::default();
    assert!(!s.is_active_for(1));
    let job = s.open(1, true).expect("job");
    assert_eq!(job, 1);
    assert!(s.is_loading());
    assert_eq!(s.status(), Some("Loading…"));
    assert!(s.is_active_for(1));
    // Opening the same photo again does nothing.
    assert_eq!(s.open(1, true), None);
    assert_eq!(s.generation(), 1);
}

#[test]
fn non_raw_files_settle_with_a_message() {
    let mut s = PreviewSession::new();
    assert_eq!(s.open(2, false), None);
    assert!(!s.is_loading());
    assert_eq!(s.status(), Some("Develop preview supports RAW files only"));
    assert!(s.is_active_for(2));
}

#[test]
fn placeholder_then_final_crossfades() {
    let mut s = PreviewSession::new();
    let g = s.open(3, true).unwrap();
    assert_eq!(s.deliver(3, g, Delivery::Placeholder(THUMB)), PreviewAction::Show { crossfade: false });
    assert_eq!(s.status(), Some("Loading…"));
    assert_eq!(s.deliver(3, g, Delivery::Ready(FINAL)), PreviewAction::Show { crossfade: true });
    assert!(s.is_fading());
    assert!(!s.is_loading());
    assert_eq!(s.status(), None);
    // A late placeholder does not replace the final image.
    assert_eq!(s.deliver(3, g, Delivery::Placeholder(THUMB)), PreviewAction::Ignore);
    assert_eq!(s.image(), Some(FINAL));
    s.finish_fade();
    assert!(!s.is_fading());
}

#[test]
fn stale_deliveries_are_dropped() {
    let mut s = PreviewSession::new();
    let old = s.open(4, true).unwrap();
    s.clear();
    let new = s.open(5, true).unwrap();
    assert_ne!(old, new);
    assert_eq!(s.deliver(4, old, Delivery::Ready(FINAL)), PreviewAction::Ignore);
    assert_eq!(s.deliver(4, new, Delivery::Ready(FINAL)), PreviewAction::Ignore);
    assert_eq!(s.image(), None);
    assert!(s.is_loading());
}

#[test]
fn failures_keep_a_shown_placeholder() {
    let mut s = PreviewSession::new();
    let g = s.open(6, true).unwrap();
    assert_eq!(s.deliver(6, g, Delivery::Failed("decode failed".to_string())), PreviewAction::Ignore);
    assert_eq!(s.status(), Some("decode failed"));
    s.clear();
    let g = s.open(6, true).unwrap();
    s.deliver(6, g, Delivery::Placeholder(THUMB));
    s.deliver(6, g, Delivery::Failed("decode failed".to_string()));
    assert_eq!(s.status(), None);
    assert_eq!(s.image(), Some(THUMB));
    assert!(s.is_active_for(6));
    s.fail(7, "no file".to_string());
    assert_eq!(s.status(), Some("no file"));
    assert!(s.is_active_for(7));
}

#[test]
fn cached_thumbs_need_pixels_to_be_placeholders() {
    let good = Thumbnail { width: 2, height: 1, rgba: vec![0; 8], max_dim: 256 };
    assert!(cached_placeholder(Some(good.clone())).is_some());
    assert!(cached_placeholder(Some(Thumbnail { rgba: Vec::new(), ..good.clone() })).is_none());
    assert!(cached_placeholder(Some(Thumbnail { width: 0, ..good.clone() })).is_none());
    assert!(cached_placeholder(Some(Thumbnail { height: 0, ..good })).is_none());
    assert!(cached_placeholder(None).is_none());
}
