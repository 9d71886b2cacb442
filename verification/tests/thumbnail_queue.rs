use everything_next::thumbnail_queue::ThumbnailQueue;
use everything_next::thumbnails::ThumbnailKey;

fn key(path: &str) -> ThumbnailKey {
    ThumbnailKey { path: path.into(), pixel_size: 64, file_size: Some(10), modified_unix: Some(1) }
}

#[test]
fn queue_preserves_fifo_order_for_live_requests() {
    let mut pipeline = ThumbnailQueue::new();
    let (_, first_starts) = pipeline.enqueue(key("first.mp3"));
    let (_, second_starts) = pipeline.enqueue(key("second.mp3"));
    assert!(first_starts);
    assert!(!second_starts);
    assert_eq!(pipeline.next_request().map(|request| request.key.path), Some("first.mp3".into()));
    assert_eq!(pipeline.next_request().map(|request| request.key.path), Some("second.mp3".into()));
}

#[test]
fn enqueue_eagerly_discards_cancelled_requests() {
    let mut pipeline = ThumbnailQueue::new();
    let (obsolete, starts) = pipeline.enqueue(key("obsolete.mp3"));
    assert!(starts);
    pipeline.cancel(obsolete);

    let (_, starts_again) = pipeline.enqueue(key("current.mp3"));
    assert!(!starts_again);

    assert_eq!(pipeline.pending_len(), 1);
    assert_eq!(pipeline.next_request().map(|request| request.key.path), Some("current.mp3".into()));
}

#[test]
fn the_worker_stops_when_only_cancelled_requests_are_left() {
    let mut pipeline = ThumbnailQueue::new();
    let (a, _) = pipeline.enqueue(key("a.png"));
    let (b, _) = pipeline.enqueue(key("b.png"));
    pipeline.cancel(b);
    pipeline.cancel(a);
    assert!(pipeline.next_request().is_none());
    let (_, restarts) = pipeline.enqueue(key("c.png"));
    assert!(restarts);
}
