use everything_next::launch::{
    is_autostart_arg, search_query_from_args, string_args_include_autostart, LaunchState,
};

fn owned(arguments: &[&str]) -> Vec<String> {
    arguments.iter().map(|argument| argument.to_string()).collect()
}

#[test]
fn detects_only_the_exact_autostart_argument() {
    assert!(is_autostart_arg("--autostart"));
    assert!(!is_autostart_arg("--autostart=true"));
    assert!(!is_autostart_arg("autostart"));
}

#[test]
fn parses_the_everything_search_argument() {
    let arguments = owned(&["EverythingNext.exe", "-s", "ext:pdf annual report"]);

    assert_eq!(
        search_query_from_args(&arguments),
        Some("ext:pdf annual report".to_string())
    );
}

#[test]
fn search_argument_matching_is_case_insensitive() {
    let arguments = owned(&["EverythingNext.exe", "-S", "invoice"]);

    assert_eq!(search_query_from_args(&arguments), Some("invoice".to_string()));
}

#[test]
fn ignores_a_search_argument_without_a_query() {
    let arguments = owned(&["EverythingNext.exe", "-s"]);

    assert_eq!(search_query_from_args(&arguments), None);
}

#[test]
fn only_the_first_search_marker_counts() {
    assert_eq!(
        search_query_from_args(&owned(&["app", "-s", "-s", "x"])),
        Some("-s".to_string())
    );
    assert_eq!(search_query_from_args(&owned(&["app", "--s", "x"])), None);
    assert_eq!(search_query_from_args(&[]), None);
}

#[test]
fn autostart_is_found_among_the_arguments() {
    assert!(string_args_include_autostart(&owned(&["app", "--autostart"])));
    assert!(!string_args_include_autostart(&owned(&["app", "--AUTOSTART"])));
    assert!(!string_args_include_autostart(&[]));
}

#[test]
fn a_pending_query_is_handed_out_once() {
    let mut state = LaunchState::new(Some("first".to_string()));
    state.set_search_query("second".to_string());
    assert_eq!(state.take_search_query(), Some("second".to_string()));
    assert_eq!(state.take_search_query(), None);
}
