use everything_next::formatting::{engine_status_label, format_result_count};
use everything_next::formatting::{file_size, file_type, icon_metadata, item_title, result_count};
use everything_next::model::SearchResult;
use everything_next::view_mode::ViewMode;

#[test]
fn formats_file_sizes_without_changing_existing_units() {
    assert_eq!(file_size(None, false), "—");
    assert_eq!(file_size(Some(512), false), "512 o");
    assert_eq!(file_size(Some(1536), false), "1.5 Ko");
    assert_eq!(file_size(Some(1536), true), "");
}

#[test]
fn groups_result_counts_by_thousands() {
    assert_eq!(result_count(0), "0 results");
    assert_eq!(result_count(12_480), "12 480 results");
}

#[test]
fn uses_singular_for_one_result() {
    assert_eq!(result_count(1), "1 result");
}

#[test]
fn large_counts_get_every_group() {
    assert_eq!(result_count(999), "999 results");
    assert_eq!(result_count(1_000), "1 000 results");
    assert_eq!(result_count(4_294_967_295), "4 294 967 295 results");
}

#[test]
fn sizes_pick_the_largest_unit_below_1024() {
    assert_eq!(file_size(Some(0), false), "0 o");
    assert_eq!(file_size(Some(1023), false), "1023 o");
    assert_eq!(file_size(Some(1024), false), "1.0 Ko");
    assert_eq!(file_size(Some(1024 * 1024), false), "1.0 Mo");
    assert_eq!(file_size(Some(3 * 1024 * 1024 * 1024), false), "3.0 Go");
    assert_eq!(file_size(Some(5 * 1024u64.pow(4)), false), "5.0 To");
    assert_eq!(file_size(Some(2048 * 1024u64.pow(4)), false), "2048.0 To");
    assert_eq!(file_size(None, true), "");
}

/// The size text agrees with the float formatting it describes.
fn float_reference(bytes: u64) -> String {
    const UNITS: [&str; 5] = ["o", "Ko", "Mo", "Go", "To"];
    let mut value = bytes as f64;
    let mut unit = 0;
    while value >= 1024.0 && unit < UNITS.len() - 1 {
        value /= 1024.0;
        unit += 1;
    }
    if unit == 0 {
        format!("{} {}", bytes, UNITS[unit])
    } else {
        format!("{value:.1} {}", UNITS[unit])
    }
}

#[test]
fn sizes_round_like_float_formatting() {
    let samples: [u64; 16] = [
        1536,
        1075,
        1126,
        1177,
        1280,
        1331,
        10_239,
        1_048_575,
        1_572_864,
        123_456_789,
        987_654_321_012,
        u64::MAX,
        u64::MAX - 1024,
        (1u64 << 53) + 1,
        (1u64 << 60) + 12345,
        1024u64.pow(4) - 1,
    ];
    for bytes in samples {
        assert_eq!(file_size(Some(bytes), false), float_reference(bytes), "{bytes}");
    }
    let mut bytes: u64 = 1000;
    while bytes < 300_000 {
        assert_eq!(file_size(Some(bytes), false), float_reference(bytes), "{bytes}");
        bytes += 7;
    }
}

#[test]
fn types_are_the_upper_case_extension() {
    assert_eq!(file_type("report.final.pdf", false), "PDF");
    assert_eq!(file_type("photo.jpeg", true), "Folder");
    assert_eq!(file_type("README", false), "File");
    assert_eq!(file_type(".gitignore", false), "File");
    assert_eq!(file_type("archive.", false), "File");
    assert_eq!(file_type("straße.ß", false), "SS");
}

#[test]
fn titles_and_icon_lines_join_their_parts() {
    let mut item = SearchResult {
        id: "1".into(),
        name: "notes.txt".into(),
        parent_path: r"C:\Docs".into(),
        full_path: r"C:\Docs\notes.txt".into(),
        size: Some(1536),
        modified_unix: None,
        is_dir: false,
    };
    assert_eq!(item_title(&item, " — "), r"notes.txt — C:\Docs");
    assert_eq!(icon_metadata(&item, ViewMode::Small, "01/02/2024 10:00"), r"C:\Docs");
    assert_eq!(
        icon_metadata(&item, ViewMode::Large, "01/02/2024 10:00"),
        "1.5 Ko · 01/02/2024 10:00"
    );
    item.is_dir = true;
    assert_eq!(icon_metadata(&item, ViewMode::Medium, "—"), "—");
    item.parent_path = String::new();
    assert_eq!(item_title(&item, " — "), "notes.txt");
}

#[test]
fn results_are_counted_in_french() {
    assert_eq!(format_result_count(0), "0 résultat(s)");
    assert_eq!(format_result_count(1_234_567), "1 234 567 résultat(s)");
}

#[test]
fn the_engine_label_follows_the_indexing_state() {
    assert_eq!(engine_status_label(false, true, 1, 2), "Index unavailable");
    assert_eq!(engine_status_label(true, false, 0, 2), "Indexing first drive…");
    assert_eq!(engine_status_label(true, true, 1, 3), "1/3 drives ready · Indexing…");
}
