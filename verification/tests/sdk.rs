use everything_next::model::{SortColumn, SortDirection};
use everything_next::sdk::{
    search_page,
    is_supported_version,
    check_call, check_result_string, check_viewport, result_buffer_len, status_message,
    version_text, viewport_count, display_instance_name, filetime_to_unix, map_sort, next_selection_offset, plan_selection,
    result_full_path, search_result, selection_page_limit, stable_id, to_wide, EngineError,
    PROPERTY_ID_EXTENSION, PROPERTY_ID_NAME,
};
use everything_next::model::SelectionRange;

#[test]
fn maps_default_sort() {
    assert_eq!(
        map_sort(SortColumn::Name, SortDirection::Ascending),
        (PROPERTY_ID_NAME, 1)
    );
}

#[test]
fn maps_extension_sort() {
    assert_eq!(
        map_sort(SortColumn::Extension, SortDirection::Ascending),
        (PROPERTY_ID_EXTENSION, 1)
    );
}

#[test]
fn converts_windows_epoch() {
    assert_eq!(filetime_to_unix(116_444_736_000_000_000), Some(0));
}

#[test]
fn stable_ids_are_deterministic() {
    assert_eq!(stable_id(r"C:\test.txt"), stable_id(r"C:\test.txt"));
    assert_ne!(stable_id(r"C:\a.txt"), stable_id(r"C:\b.txt"));
}

#[test]
fn descending_sorts_and_dates_before_1970() {
    assert_eq!(map_sort(SortColumn::Modified, SortDirection::Descending), (5, 0));
    assert_eq!(map_sort(SortColumn::Size, SortDirection::Ascending), (2, 1));
    assert_eq!(filetime_to_unix(116_444_735_999_999_999), None);
    assert_eq!(filetime_to_unix(116_444_736_010_000_000), Some(1));
}

#[test]
fn result_paths_join_folder_and_name() {
    assert_eq!(result_full_path(r"C:\Docs", "a.txt"), r"C:\Docs\a.txt");
    assert_eq!(result_full_path(r"C:\", "a.txt"), r"C:\a.txt");
    assert_eq!(result_full_path("C:/x/", "a.txt"), "C:/x/a.txt");
    assert_eq!(result_full_path("", "a.txt"), "a.txt");
    let item = search_result("a.txt".into(), r"C:\Docs".into(), false, u64::MAX, 116_444_736_000_000_000);
    assert_eq!(item.full_path, r"C:\Docs\a.txt");
    assert_eq!(item.id, stable_id(r"C:\Docs\a.txt"));
    assert_eq!(item.size, None);
    assert_eq!(item.modified_unix, Some(0));
    let folder = search_result("x".into(), "".into(), true, 12, u64::MAX);
    assert_eq!(folder.size, None);
    assert_eq!(folder.modified_unix, None);
    assert_eq!(search_result("f".into(), "D:".into(), false, 12, 0).size, Some(12));
}

#[test]
fn wide_strings_are_zero_terminated_utf16() {
    assert_eq!(to_wide("A"), vec![65, 0]);
    assert_eq!(to_wide("é😀"), vec![0xe9, 0xd83d, 0xde00, 0]);
    assert_eq!(display_instance_name(""), "l’instance principale");
    assert_eq!(display_instance_name("Dev"), "l’instance « Dev »");
}

#[test]
fn selection_planning_limits_and_pages() {
    let planned = plan_selection(vec![SelectionRange::new(9, 5), SelectionRange::new(1, 4)], 9)
        .expect("nine items fit");
    assert_eq!(planned, vec![SelectionRange::new(1, 9)]);
    assert_eq!(
        plan_selection(vec![SelectionRange::new(0, 9)], 9),
        Err(EngineError::InvalidSelection(
            "This operation is limited to 9 items at a time".into()
        ))
    );
    assert_eq!(selection_page_limit(10, 10), 1);
    assert_eq!(selection_page_limit(5000, 0), 1024);
    assert_eq!(next_selection_offset(5000, 0, 1024, 1024), Some(1024));
    assert_eq!(next_selection_offset(5000, 0, 1024, 10), None);
    assert_eq!(next_selection_offset(5, 0, 6, 6), None);
    assert_eq!(next_selection_offset(5, 0, 6, 0), None);
}

#[test]
fn status_lines_name_the_version_and_the_instance() {
    let version = version_text(1, 5, 0, 1418);
    assert_eq!(version, "1.5.0.1418");
    assert_eq!(
        status_message(true, &version, ""),
        format!("Everything 1.5.0.1418 is connected to {} via SDK3.", display_instance_name(""))
    );
    assert_eq!(
        status_message(false, &version, "Dev"),
        format!(
            "SDK3 is connected to {}, but the Everything 1.5 database is unavailable.",
            display_instance_name("Dev")
        )
    );
}

#[test]
fn sdk_calls_report_the_last_error() {
    assert_eq!(check_call("Everything3_Search", 1, 7), Ok(()));
    assert_eq!(
        check_call("Everything3_Search", 0, 7),
        Err(EngineError::SdkCall { operation: "Everything3_Search", code: 7 })
    );
    assert_eq!(check_viewport("Everything3_SetSearchViewportCount", 256, 256, 0), Ok(()));
    assert_eq!(
        check_viewport("Everything3_SetSearchViewportCount", 256, 100, 3),
        Err(EngineError::SdkCall { operation: "Everything3_SetSearchViewportCount", code: 3 })
    );
    assert_eq!(viewport_count(0), 1);
    assert_eq!(viewport_count(300), 300);
    assert_eq!(viewport_count(10_000), 4096);
    assert_eq!(result_buffer_len(0), 1);
    assert_eq!(result_buffer_len(usize::MAX), usize::MAX);
    assert_eq!(check_result_string("Everything3_GetResultNameW", 4, 5, 0), Ok(4));
    assert_eq!(
        check_result_string("Everything3_GetResultNameW", 5, 5, 0),
        Err(EngineError::SdkCall { operation: "Everything3_GetResultNameW", code: 0 })
    );
    assert_eq!(
        check_result_string("Everything3_GetResultNameW", 1, 5, 9),
        Err(EngineError::SdkCall { operation: "Everything3_GetResultNameW", code: 9 })
    );
}

#[test]
fn only_everything_one_point_five_and_later_is_supported() {
    assert!(is_supported_version(1, 5));
    assert!(is_supported_version(1, 6));
    assert!(!is_supported_version(1, 4));
    assert!(!is_supported_version(2, 0));
}

#[test]
fn a_page_carries_its_request_and_caps_its_total() {
    let page = search_page(7, 512, 12, Vec::new());
    assert_eq!((page.request_id, page.offset, page.total), (7, 512, 12));
    assert!(page.items.is_empty());
    assert_eq!(search_page(1, 0, usize::MAX, Vec::new()).total, u32::MAX);
}

#[test]
fn stable_ids_are_fnv1a_in_sixteen_hex_digits() {
    assert_eq!(stable_id(""), "cbf29ce484222325");
    assert_eq!(stable_id("a"), "af63dc4c8601ec8c");
    assert_eq!(stable_id(r"C:\a.txt").len(), 16);
}
