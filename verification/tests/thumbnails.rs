use everything_next::thumbnails::{
    same_key, Subscription, ThumbnailCache, ThumbnailKey, ThumbnailPipeline, VisualState,
    MAX_CONCURRENT_THUMBNAIL_LOADS, THUMBNAIL_CACHE_MAX_BYTES,
};

fn key(path: &str, pixel_size: u32, modified_unix: i64) -> ThumbnailKey {
    ThumbnailKey {
        path: path.into(),
        pixel_size,
        file_size: Some(10),
        modified_unix: Some(modified_unix),
    }
}

#[test]
fn cache_key_changes_with_size_and_file_version() {
    assert!(!same_key(&key("track.mp3", 64, 1), &key("track.mp3", 128, 1)));
    assert!(!same_key(&key("track.mp3", 64, 1), &key("track.mp3", 64, 2)));
    assert!(same_key(&key("track.mp3", 64, 1), &key("track.mp3", 64, 1)));
}

#[test]
fn cache_key_changes_with_the_file_version() {
    assert!(!same_key(&key("track.mp3", 96, 1), &key("track.mp3", 96, 2)));
}

#[test]
fn cache_hit_promotes_the_entry_before_eviction() {
    let mut cache = ThumbnailCache::with_limits(1_000, 2);
    let first = key("first.mp3", 96, 1);
    let second = key("second.mp3", 96, 1);
    let third = key("third.mp3", 96, 1);
    cache.insert(first.clone(), Some("one".into()));
    cache.insert(second.clone(), Some("two".into()));

    assert_eq!(cache.get(&first), Some(VisualState::Ready("one".into())));
    cache.insert(third.clone(), Some("three".into()));

    assert!(cache.get(&second).is_none());
    assert!(cache.get(&first).is_some());
    assert!(cache.get(&third).is_some());
}

#[test]
fn cache_evicts_until_its_byte_limit_is_respected() {
    let mut cache = ThumbnailCache::with_limits(5, 10);
    let first = key("first.mp3", 96, 1);
    let second = key("second.mp3", 96, 1);
    cache.insert(first.clone(), Some("123".into()));
    cache.insert(second.clone(), Some("456".into()));

    assert!(cache.get(&first).is_none());
    assert_eq!(cache.get(&second), Some(VisualState::Ready("456".into())));
    assert_eq!(cache.bytes(), 3);
}

#[test]
fn confirmed_missing_thumbnails_are_bounded_by_entry_count() {
    let mut cache = ThumbnailCache::with_limits(1_000, 1);
    let first = key("first.unknown", 96, 1);
    let second = key("second.unknown", 96, 1);
    cache.insert(first.clone(), None);
    cache.insert(second.clone(), None);

    assert!(cache.get(&first).is_none());
    assert_eq!(cache.get(&second), Some(VisualState::Missing));
    assert_eq!(cache.len(), 1);
}

#[test]
fn a_preview_larger_than_the_cache_is_not_kept() {
    let mut cache = ThumbnailCache::with_limits(4, 10);
    cache.insert(key("big.png", 96, 1), Some("12345".into()));
    assert_eq!(cache.len(), 0);
    assert_eq!(cache.bytes(), 0);
    let mut cache = ThumbnailCache::new();
    cache.insert(key("été.png", 96, 1), Some("é".into()));
    assert_eq!(cache.bytes(), 2);
    cache.insert(key("été.png", 96, 1), Some("other".into()));
    assert_eq!(cache.bytes(), 2);
    assert_eq!(cache.get(&key("été.png", 96, 1)), Some(VisualState::Ready("é".into())));
    assert_eq!(THUMBNAIL_CACHE_MAX_BYTES, 24 * 1024 * 1024);
}

#[test]
fn subscriptions_share_one_pending_request() {
    let mut pipeline = ThumbnailPipeline::new();
    let item = key("track.mp3", 96, 1);
    let first = pipeline.subscribe(item.clone());
    let second = pipeline.subscribe(item);

    assert_eq!(first, Subscription::Started { resource_id: 1, workers: 1 });
    assert_eq!(second, Subscription::Joined { resource_id: 1 });
    assert_eq!(pipeline.pending_len(), 1);
    assert_eq!(pipeline.resources_len(), 1);
}

#[test]
fn cancelled_pending_requests_are_skipped() {
    let mut pipeline = ThumbnailPipeline::new();
    let item = key("obsolete.mp3", 96, 1);
    let subscription = pipeline.subscribe(item.clone());
    let resource_id = match subscription {
        Subscription::Started { resource_id, .. } => resource_id,
        other => panic!("a new load is started, not {other:?}"),
    };
    pipeline.unsubscribe(&item, resource_id);

    assert!(pipeline.next_request().is_none());
    assert_eq!(pipeline.resources_len(), 0);
}

#[test]
fn worker_count_is_bounded() {
    let mut pipeline = ThumbnailPipeline::new();
    let mut started = 0;
    for index in 0..10 {
        let workers = match pipeline.subscribe(key(&format!("{index}.png"), 96, 1)) {
            Subscription::Started { workers, .. } => workers,
            other => panic!("a new load is started, not {other:?}"),
        };
        if index < MAX_CONCURRENT_THUMBNAIL_LOADS {
            assert_eq!(workers, 1);
        } else {
            assert_eq!(workers, 0);
        }
        started += workers;
    }
    assert_eq!(started, MAX_CONCURRENT_THUMBNAIL_LOADS);
    assert_eq!(pipeline.running_workers(), MAX_CONCURRENT_THUMBNAIL_LOADS);
}

#[test]
fn a_finished_load_is_cached_and_served_to_later_rows() {
    let mut pipeline = ThumbnailPipeline::new();
    let item = key("song.flac", 96, 7);
    pipeline.subscribe(item.clone());
    pipeline.subscribe(item.clone());
    let request = pipeline.next_request().expect("the load is live");
    assert_eq!(request.resource_id, 1);
    assert!(pipeline.next_request().is_none());
    assert!(pipeline.complete(&request, Some("data:image/png;base64,AAAA".into())));
    assert_eq!(pipeline.resources_len(), 0);
    assert_eq!(
        pipeline.subscribe(item),
        Subscription::Cached(VisualState::Ready("data:image/png;base64,AAAA".into()))
    );
    pipeline.worker_finished();
    assert_eq!(pipeline.running_workers(), 0);
    pipeline.worker_finished();
    assert_eq!(pipeline.running_workers(), 0);
}

#[test]
fn a_running_load_keeps_its_place_when_its_rows_go_away() {
    let mut pipeline = ThumbnailPipeline::new();
    let item = key("movie.mkv", 96, 1);
    pipeline.subscribe(item.clone());
    let request = pipeline.next_request().expect("the load is live");
    pipeline.unsubscribe(&item, request.resource_id);
    assert_eq!(pipeline.resources_len(), 1);
    assert!(!pipeline.fail(&request));
    assert_eq!(pipeline.resources_len(), 0);
    let again = pipeline.subscribe(item);
    assert_eq!(again, Subscription::Started { resource_id: 2, workers: 1 });
    assert_eq!(pipeline.running_workers(), 2);
}
