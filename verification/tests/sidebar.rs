use everything_next::sidebar::{
    apply_sidebar_query, sidebar_filters, sidebar_query_is_active, split_words,
};

fn filter_query(label: &str) -> &'static str {
    sidebar_filters()
        .iter()
        .find(|filter| filter.label == label)
        .expect("the tested sidebar filter exists")
        .query
}

#[test]
fn sidebar_filter_preserves_the_search_query() {
    let audio_query = filter_query("Audio");
    let folders_query = filter_query("Folders");
    assert_eq!(
        apply_sidebar_query("annual report", audio_query),
        format!("annual report {audio_query}")
    );
    assert_eq!(
        apply_sidebar_query("annual report", folders_query),
        format!("annual report {folders_query}")
    );
}

#[test]
fn changing_sidebar_filter_keeps_only_the_new_filter() {
    let audio_query = filter_query("Audio");
    let images_query = filter_query("Images");
    assert_eq!(
        apply_sidebar_query(&format!("annual report {images_query}"), audio_query),
        format!("annual report {audio_query}")
    );
}

#[test]
fn all_files_removes_the_sidebar_filter_but_keeps_the_search_query() {
    let audio_query = filter_query("Audio");
    assert_eq!(
        apply_sidebar_query(&format!("annual report {audio_query}"), "*"),
        "annual report"
    );
}

#[test]
fn active_sidebar_item_is_detected_alongside_a_search_query() {
    let audio_query = filter_query("Audio");
    let images_query = filter_query("Images");
    let query = format!("annual report {audio_query}");

    assert!(sidebar_query_is_active(&query, audio_query));
    assert!(!sidebar_query_is_active(&query, images_query));
    assert!(!sidebar_query_is_active(&query, "*"));
    assert!(sidebar_query_is_active("annual report", "*"));
}

#[test]
fn the_sidebar_lists_seven_entries_in_order() {
    let labels: Vec<&str> = sidebar_filters().iter().map(|filter| filter.label).collect();
    assert_eq!(
        labels,
        ["All files", "Folders", "Documents", "Images", "Videos", "Audio", "Archives"]
    );
    assert_eq!(sidebar_filters()[1].section_label, Some("Types"));
    assert_eq!(filter_query("Archives"), "ext:zip;7z;rar;tar;gz");
}

#[test]
fn words_are_split_on_any_white_space() {
    let text: Vec<char> = "  a\tbb \u{3000} ccc\n".chars().collect();
    let words: Vec<String> = split_words(&text).into_iter().map(|w| w.into_iter().collect()).collect();
    assert_eq!(words, vec!["a", "bb", "ccc"]);
    assert!(split_words(&[' ', '\n']).is_empty());
}

#[test]
fn choosing_an_entry_on_an_empty_query_gives_its_term_alone() {
    assert_eq!(apply_sidebar_query("   ", "folder:"), "folder:");
    assert_eq!(apply_sidebar_query("", "*"), "*");
    assert_eq!(apply_sidebar_query("folder:", "*"), "*");
    assert_eq!(apply_sidebar_query("  a   b  folder: ", "*"), "a b");
    assert!(sidebar_query_is_active("*", "*"));
    assert!(sidebar_query_is_active("folder: x *", "folder:"));
    assert!(!sidebar_query_is_active("folder: x *", "*"));
}

#[test]
fn a_chosen_entry_is_active_and_other_words_stay() {
    let current = "report  ext:zip;7z;rar;tar;gz 2024";
    for entry in sidebar_filters() {
        let chosen = apply_sidebar_query(current, entry.query);
        assert!(sidebar_query_is_active(&chosen, entry.query));
        let kept: Vec<String> = chosen
            .split_whitespace()
            .filter(|w| !sidebar_filters().iter().any(|f| f.query == *w))
            .map(|w| w.to_string())
            .collect();
        assert_eq!(kept, vec!["report".to_string(), "2024".to_string()]);
    }
}
