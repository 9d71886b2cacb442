use std::collections::BTreeMap;

use everything_next::model::SearchResult;
use everything_next::requests::{
    begin_generation, check_selection_request, check_selection_result, check_visual_request,
    request_is_stale, MAX_SELECTION_RANGES,
};
use everything_next::result_pages::{
    kept_pages, page_offset, page_position, pages_to_request, PAGE_CACHE_LIMIT, PAGE_SIZE,
};

fn evict_distant_pages(cache: &mut BTreeMap<u32, Vec<SearchResult>>, current_page: u32) {
    let pages: Vec<u32> = cache.keys().copied().collect();
    let kept = kept_pages(&pages, current_page);
    cache.retain(|page, _| kept.contains(page));
}

#[test]
fn page_cache_keeps_the_pages_nearest_to_the_latest_request() {
    let page_cache_limit =
        u32::try_from(PAGE_CACHE_LIMIT).expect("the page cache limit fits in u32");
    let mut cache = (0..=page_cache_limit)
        .map(|page| (page, Vec::<SearchResult>::new()))
        .collect::<BTreeMap<_, _>>();

    evict_distant_pages(&mut cache, 4);

    assert_eq!(cache.len(), PAGE_CACHE_LIMIT);
    assert!(cache.contains_key(&4));
    assert!(
        cache.contains_key(&0) ^ cache.contains_key(&page_cache_limit),
        "one of the two equally distant edge pages should be evicted"
    );
}

#[test]
fn the_last_of_the_farthest_pages_goes_first() {
    assert_eq!(kept_pages(&[0, 1, 2, 3, 4, 5, 6, 7, 8], 4), vec![0, 1, 2, 3, 4, 5, 6, 7]);
    assert_eq!(
        kept_pages(&[0, 10, 20, 30, 40, 50, 60, 70, 80, 90], 90),
        vec![20, 30, 40, 50, 60, 70, 80, 90]
    );
    assert_eq!(kept_pages(&[3, 9], 0), vec![3, 9]);
    assert!(kept_pages(&[], 7).is_empty());
}

#[test]
fn pages_around_the_visible_rows_are_requested() {
    assert_eq!(pages_to_request(0, 0, 1000), None);
    assert_eq!(pages_to_request(0, 40, 1000), Some((0, 1)));
    assert_eq!(pages_to_request(600, 700, 1000), Some((1, 3)));
    assert_eq!(pages_to_request(700, 1000, 1000), Some((1, 3)));
    assert_eq!(pages_to_request(0, 40, 0), Some((0, 0)));
    assert_eq!(page_position(600), (2, 88));
    assert_eq!(page_offset(3), 3 * PAGE_SIZE);
    assert_eq!(page_offset(u32::MAX), u32::MAX);
}

#[test]
fn requests_of_older_searches_are_refused() {
    assert!(request_is_stale(3, 4));
    assert!(!request_is_stale(4, 4));
    assert!(!request_is_stale(5, 4));
    assert_eq!(begin_generation(4, 2), 4);
    assert_eq!(begin_generation(4, 9), 9);
    assert_eq!(check_selection_request(0, 1, 1), Err("No items selected"));
    assert_eq!(
        check_selection_request(MAX_SELECTION_RANGES + 1, 1, 1),
        Err("Invalid selection: too many disjoint ranges")
    );
    assert_eq!(
        check_selection_request(2, 1, 2),
        Err("The search changed since the selection was made. Try again.")
    );
    assert_eq!(
        check_selection_request(2, 3, 2),
        Err("The search changed since the selection was made. Try again.")
    );
    assert_eq!(check_selection_request(MAX_SELECTION_RANGES, 2, 2), Ok(()));
    assert_eq!(
        check_selection_result(1, 2),
        Err("The search changed while preparing the operation.")
    );
    assert_eq!(check_selection_result(2, 2), Ok(()));
    assert_eq!(
        check_visual_request(16, true),
        Err("File preview size must be between 32 and 256 pixels")
    );
    assert_eq!(check_visual_request(16, false), Ok(()));
    assert_eq!(check_visual_request(256, true), Ok(()));
}
