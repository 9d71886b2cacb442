use everything_next::shell::{
    check_existing_path, explorer_legacy_select_raw_argument, icon_cache_key, icon_cache_key_for,
    normalized_operation_paths, order_operation_paths, shell_compatible_path, visual_cache_key,
    ShellError, TrashAttempt, TrashReport,
};
use everything_next::shell::{
    check_copy_paths, check_new_name, no_temporary_name, rename_rollback_message, rename_step,
    temporary_sibling_name, RenameStep,
};

#[test]
fn explorer_select_argument_quotes_only_the_path() {
    assert_eq!(
        explorer_legacy_select_raw_argument(r"C:\Users\Jean Dupont\rapport, été.pdf"),
        r#"/select,"C:\Users\Jean Dupont\rapport, été.pdf""#
    );
}

#[test]
fn file_operations_are_deduplicated_and_deepest_first() {
    let paths = normalized_operation_paths(&[
        r"C:\Root".to_string(),
        r"C:\Root\Child\file.txt".to_string(),
        r"C:\Root\Child".to_string(),
        r"C:\Root\Child\file.txt".to_string(),
    ]);
    assert_eq!(paths.len(), 3);
    assert!(paths[0].ends_with("file.txt"));
    assert!(paths[2].ends_with("Root"));
}

#[test]
fn icon_cache_keys_are_path_specific() {
    let first = icon_cache_key(r"C:\Apps\first.lnk", false);
    let second = icon_cache_key(r"C:\Apps\second.lnk", false);
    assert_ne!(first, second);
    assert_eq!(
        icon_cache_key("C:/Apps/tool.exe", false),
        icon_cache_key(r"C:\Apps\tool.exe", false)
    );
    assert_eq!(
        icon_cache_key(r"C:\Documents\one.txt", false),
        icon_cache_key(r"D:\Other\two.txt", false)
    );
}

#[test]
fn shell_paths_use_standard_windows_syntax() {
    assert_eq!(
        shell_compatible_path(r"\\?\C:\Pictures\first.png"),
        r"C:\Pictures\first.png"
    );
    assert_eq!(
        shell_compatible_path(r"\\?\UNC\server\share\first.png"),
        r"\\server\share\first.png"
    );
    assert_eq!(
        shell_compatible_path("C:/Pictures/first.png"),
        r"C:\Pictures\first.png"
    );
}

#[test]
fn visual_cache_keys_include_path_and_size() {
    assert_ne!(
        visual_cache_key(r"C:\Pictures\first.png", 64, 0, 0),
        visual_cache_key(r"C:\Pictures\second.png", 64, 0, 0)
    );
    assert_ne!(
        visual_cache_key(r"C:\Pictures\first.png", 64, 0, 0),
        visual_cache_key(r"C:\Pictures\first.png", 96, 0, 0)
    );
    assert_eq!(
        visual_cache_key("C:/Pictures/first.png", 64, 0, 0),
        visual_cache_key(r"C:\Pictures\first.png", 64, 0, 0)
    );
}

#[test]
fn visual_cache_keys_spell_out_every_part() {
    assert_eq!(
        visual_cache_key("C:/Photos/Été.PNG", 96, 2048, 1_700_000_000_123_456_789),
        "c:\\photos\\été.png\u{1f}96\u{1f}2048\u{1f}1700000000123456789"
    );
}

#[test]
fn icon_keys_share_ordinary_extensions_and_keep_folders_apart() {
    assert_eq!(icon_cache_key_for(r"C:\A\notes.TXT", "TXT", false), "extension:txt");
    assert_eq!(icon_cache_key_for(r"C:\A\Notes.LNK", "LNK", false), r"path:c:\a\notes.lnk");
    assert_eq!(icon_cache_key_for("C:/A/Folder.d", "d", true), r"path:c:\a\folder.d");
    assert_eq!(icon_cache_key_for(r"C:\A\x.appref-ms", "appref-ms", false), r"path:c:\a\x.appref-ms");
    assert_eq!(icon_cache_key_for(r"C:\A\README", "", false), "extension:");
}

#[test]
fn operation_order_uses_depth_then_length_then_bytes() {
    let paths = [
        "b".to_string(),
        "aa".to_string(),
        "a".to_string(),
        "A".to_string(),
        "zz".to_string(),
        "AA".to_string(),
    ];
    let ordered = order_operation_paths(&paths, &[1, 1, 1, 1, 2, 1]);
    assert_eq!(ordered, vec!["zz", "AA", "A", "b"]);
    let ordered = order_operation_paths(&paths, &[1, 1, 1, 1, 1, 1]);
    assert_eq!(ordered, vec!["AA", "zz", "A", "b"]);
}

#[test]
fn only_neighbouring_case_variants_are_dropped() {
    let paths = ["C:\\A".to_string(), "C:\\B".to_string(), "C:\\a".to_string()];
    let ordered = order_operation_paths(&paths, &[2, 2, 2]);
    assert_eq!(ordered, vec!["C:\\A", "C:\\B", "C:\\a"]);
    let paths = ["C:\\x".to_string(), "C:\\X".to_string(), "c:\\X".to_string()];
    let ordered = order_operation_paths(&paths, &[2, 2, 2]);
    assert_eq!(ordered, vec!["C:\\X"]);
    assert!(order_operation_paths(&[], &[]).is_empty());
}

#[test]
fn blank_and_missing_paths_are_refused() {
    assert_eq!(
        check_existing_path("  ", true),
        Err(ShellError::InvalidPath("  ".to_string()))
    );
    assert_eq!(
        check_existing_path(r"C:\gone.txt", false),
        Err(ShellError::MissingPath(r"C:\gone.txt".to_string()))
    );
    assert_eq!(check_existing_path(r"C:\here.txt", true), Ok(()));
}

#[test]
fn shell_errors_read_as_sentences() {
    assert_eq!(
        ShellError::MissingPath("x".into()).message(),
        "The file or folder no longer exists: x"
    );
    assert_eq!(ShellError::InvalidPath("y".into()).message(), "Invalid path: y");
    assert_eq!(
        ShellError::InvalidName("z".into()).message(),
        "Invalid Windows file name: z"
    );
    assert_eq!(
        ShellError::AlreadyExists("w".into()).message(),
        "An item with this name already exists: w"
    );
    assert_eq!(ShellError::Io("v".into()).message(), "System operation failed: v");
    assert_eq!(
        ShellError::Clipboard("u".into()).message(),
        "Unable to write to the clipboard: u"
    );
    assert_eq!(
        ShellError::Visual("t".into()).message(),
        "Unable to create the file preview: t"
    );
}

#[test]
fn trash_report_lists_deletions_and_failures() {
    let mut report = TrashReport::new();
    report.record(r"C:\a.txt", TrashAttempt::Deleted);
    report.record(
        r"C:\b.txt",
        TrashAttempt::Unavailable(ShellError::MissingPath(r"C:\b.txt".into())),
    );
    report.record(r"C:\c.txt", TrashAttempt::Refused("access denied".into()));
    assert_eq!(report.deleted, 1);
    assert_eq!(report.deleted_paths, vec![r"C:\a.txt".to_string()]);
    assert_eq!(
        report.failures,
        vec![
            r"The file or folder no longer exists: C:\b.txt".to_string(),
            r"C:\c.txt : access denied".to_string(),
        ]
    );
}

#[test]
fn renames_are_planned_from_what_the_disk_says() {
    assert_eq!(rename_step(true, true, true), RenameStep::Unchanged);
    assert_eq!(rename_step(false, true, false), RenameStep::Refuse);
    assert_eq!(rename_step(false, true, true), RenameStep::CaseOnly);
    assert_eq!(rename_step(false, false, false), RenameStep::Move);
    assert_eq!(check_new_name("after.txt"), Ok(()));
    assert_eq!(check_new_name("CON"), Err(ShellError::InvalidName("CON".to_string())));
    assert_eq!(temporary_sibling_name(4242, 7), ".everything-next-rename-4242-7.tmp");
    assert_eq!(
        no_temporary_name(),
        ShellError::AlreadyExists("Unable to reserve a temporary name for renaming".to_string())
    );
    assert_eq!(
        rename_rollback_message("denied", "t.tmp", "a.txt", "busy"),
        "rename failed: denied; rollback from 't.tmp' to 'a.txt' also failed: busy"
    );
}

#[test]
fn clipboard_paths_must_be_absolute() {
    assert_eq!(
        check_copy_paths(&[], &[]),
        Err(ShellError::Clipboard("No files were selected".to_string()))
    );
    let paths = [r"C:\a".to_string(), "b".to_string(), " ".to_string()];
    assert_eq!(
        check_copy_paths(&paths, &[true, false, false]),
        Err(ShellError::InvalidPath("b".to_string()))
    );
    assert_eq!(
        check_copy_paths(&paths[..1], &[true]),
        Ok(())
    );
    assert_eq!(
        check_copy_paths(&[" ".to_string()], &[true]),
        Err(ShellError::InvalidPath(" ".to_string()))
    );
}

#[test]
fn portable_children_come_before_their_parents() {
    let paths = normalized_operation_paths(&[
        "/root".to_string(),
        "/root/./child/f".to_string(),
        "/root/child".to_string(),
        "/root/child/f".to_string(),
        "./x/..".to_string(),
    ]);
    assert_eq!(
        paths,
        vec![
            "/root/./child/f".to_string(),
            "/root/child/f".to_string(),
            "/root/child".to_string(),
            "./x/..".to_string(),
            "/root".to_string(),
        ]
    );
}
