use everything_next::exclusions::{
    compose_query, contains_case_insensitive, folders_from_stored, is_absolute_windows_path,
    is_unc_path, stored_folders, stored_folders_value, validated_path, ExcludedFoldersState,
};

#[test]
fn accepts_absolute_drive_and_unc_paths() {
    assert!(is_absolute_windows_path(r"C:\Users\Ada"));
    assert!(is_absolute_windows_path("D:/Projects"));
    assert!(is_absolute_windows_path(r"\\server\share"));
    assert!(is_absolute_windows_path("//server/share/folder"));
}

#[test]
fn rejects_relative_or_incomplete_paths() {
    assert!(!is_absolute_windows_path(r"Users\Ada"));
    assert!(!is_absolute_windows_path(r"C:Users\Ada"));
    assert!(!is_absolute_windows_path(r"\Users\Ada"));
    assert!(!is_absolute_windows_path(r"\\server"));
    assert!(!is_absolute_windows_path(r"\\server\"));
}

#[test]
fn trims_valid_paths_and_rejects_invalid_characters() {
    assert_eq!(
        validated_path(r"  C:\Users\Ada  "),
        Ok(r"C:\Users\Ada".into())
    );
    assert_eq!(
        validated_path(r#""D:/Build Output/""#),
        Ok(r"D:\Build Output".into())
    );
    assert_eq!(
        validated_path(r#"C:\Users\"Ada"#),
        Err("The folder path contains invalid characters.")
    );
}

#[test]
fn detects_duplicates_without_considering_case() {
    let folders = vec![r"C:\Users\Ada".to_string()];

    assert!(contains_case_insensitive(&folders, r"c:\users\ADA"));
    assert!(!contains_case_insensitive(&folders, r"C:\Users\Grace"));
}

#[test]
fn composes_search_and_folder_exclusions() {
    let folders = vec![r"C:\Windows".to_string(), r"D:\Build Output".to_string()];

    assert_eq!(
        compose_query("report ext:pdf", &folders),
        r#"report ext:pdf !<whole:path:"C:\Windows"|ancestor:"C:\Windows"> !<whole:path:"D:\Build Output"|ancestor:"D:\Build Output">"#
    );
}

#[test]
fn composes_exclusions_without_a_raw_query() {
    let folders = vec![r"\\server\share".to_string()];

    assert_eq!(
        compose_query("   ", &folders),
        r#"!<whole:path:"\\server\share"|ancestor:"\\server\share">"#
    );
    assert_eq!(compose_query(" name ", &[]), "name");
}

#[test]
fn empty_and_relative_paths_get_their_own_message() {
    assert_eq!(validated_path("   "), Err("Enter a folder path."));
    assert_eq!(validated_path("\"\""), Err("Enter a folder path."));
    assert_eq!(
        validated_path(r"Users\Ada"),
        Err("Enter an absolute Windows or UNC folder path.")
    );
    assert_eq!(
        validated_path("C:\\a\u{7}b"),
        Err("The folder path contains invalid characters.")
    );
}

#[test]
fn trailing_backslashes_go_but_a_drive_root_keeps_its_own() {
    assert_eq!(validated_path(r"C:\\\"), Ok(r"C:\".into()));
    assert_eq!(validated_path(r"C:\Data\\"), Ok(r"C:\Data".into()));
    assert_eq!(validated_path("//server/share/"), Ok(r"\\server\share".into()));
    assert_eq!(validated_path(r"C:\Été\"), Ok(r"C:\Été".into()));
}

#[test]
fn unc_paths_need_a_server_and_a_share() {
    assert!(is_unc_path(r"\\server\share"));
    assert!(is_unc_path(r"\\server/share\x"));
    assert!(!is_unc_path(r"\\\share"));
    assert!(!is_unc_path(r"\\server\\share"));
    assert!(!is_unc_path(r"\/server\share"));
}

#[test]
fn the_excluded_list_refuses_duplicates_and_removes_ignoring_case() {
    let mut state = ExcludedFoldersState { folders: Vec::new() };
    assert_eq!(state.add(r" C:/Temp/ "), Ok(()));
    assert_eq!(state.add(r"c:\temp"), Err("This folder is already excluded."));
    assert_eq!(state.add("temp"), Err("Enter an absolute Windows or UNC folder path."));
    assert_eq!(state.add(r"\\nas\media"), Ok(()));
    assert_eq!(state.folders, vec![r"C:\Temp".to_string(), r"\\nas\media".to_string()]);
    state.remove(r"c:\TEMP");
    assert_eq!(state.folders, vec![r"\\nas\media".to_string()]);
    state.remove(r"D:\nothing");
    assert_eq!(state.folders, vec![r"\\nas\media".to_string()]);
}

#[test]
fn stored_folders_are_checked_again_and_kept_once() {
    let stored = vec![
        r"C:\Temp".to_string(),
        "relative".to_string(),
        r"c:\temp\".to_string(),
        r"D:/Data".to_string(),
    ];
    assert_eq!(
        folders_from_stored(&stored),
        vec![r"C:\Temp".to_string(), r"D:\Data".to_string()]
    );
    assert_eq!(
        stored_folders(r#"["C:\\Temp","relative","D:/Data"]"#),
        vec![r"C:\Temp".to_string(), r"D:\Data".to_string()]
    );
    assert!(stored_folders("not json").is_empty());
    assert!(stored_folders(r#"[1, 2]"#).is_empty());
}

#[test]
fn folders_round_trip_through_their_stored_text() {
    let folders = vec![r"C:\Temp".to_string(), r#"\\nas\share"#.to_string()];
    let value = stored_folders_value(&folders).expect("a list of strings always serializes");
    assert_eq!(value, r#"["C:\\Temp","\\\\nas\\share"]"#);
    assert_eq!(stored_folders(&value), folders);
}

#[test]
fn stored_text_escapes_quotes_and_control_characters() {
    let folders = vec!["a\"b".to_string(), "\u{1}\t\u{8}\u{c}\r\n\u{1f}".to_string(), "é\u{7f}".to_string()];
    assert_eq!(
        stored_folders_value(&folders),
        Some(r#"["a\"b","\u0001\t\b\f\r\n\u001f","é"#.to_string() + "\u{7f}\"]")
    );
    assert_eq!(stored_folders_value(&[]), Some("[]".to_string()));
}
