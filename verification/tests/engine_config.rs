use everything_next::engine_config::{
    config_update, engine_arguments, instance_storage_key, ipc_pipe_name, merge_config, service_pipe_name,
    stable_hash, valid_instance_name, volume_instance_name, IndexedVolume, VolumeFileSystem,
};

fn ntfs_volume() -> IndexedVolume {
    IndexedVolume {
        root: "C:".to_string(),
        file_system: VolumeFileSystem::Ntfs,
    }
}

#[test]
fn merges_owned_settings_without_discarding_existing_configuration() {
    let existing = "[Everything]\r\ncustom_setting=keep\r\nshow_tray_icon=1\r\n\r\n[Other]\r\nvalue=keep\r\n";
    let merged = merge_config(
        existing,
        r"\\.\PIPE\Everything Service (Test)",
        &ntfs_volume(),
    );

    assert!(merged.contains("custom_setting=keep\r\n"));
    assert!(merged.contains("show_tray_icon=0\r\n"));
    assert!(merged.contains("[Other]\r\nvalue=keep\r\n"));
    assert_eq!(merged.matches("show_tray_icon=").count(), 1);
}

#[test]
fn adds_the_everything_section_when_missing() {
    let merged = merge_config("[Other]\nvalue=keep\n", "test-pipe", &ntfs_volume());

    assert!(merged.contains("[Other]\nvalue=keep\n\n[Everything]\n"));
    assert!(merged.contains("service_pipe_name=test-pipe\n"));
}

#[test]
fn recognizes_a_utf8_bom_without_duplicating_the_section() {
    let merged = merge_config(
        "\u{feff}[Everything]\nshow_tray_icon=1\n",
        "test-pipe",
        &ntfs_volume(),
    );

    assert_eq!(merged.matches("[Everything]").count(), 1);
    assert!(merged.contains("show_tray_icon=0\n"));
}

#[test]
fn isolates_each_engine_to_its_selected_volume() {
    let existing = "\
[Everything]
alpha_instance=1
auto_include_fixed_volumes=0
auto_include_fixed_refs_volumes=0
auto_include_fixed_fat_volumes=0
";
    let merged = merge_config(existing, "test-pipe", &ntfs_volume());

    assert!(merged.contains("alpha_instance=0\n"));
    assert!(merged.contains("auto_include_fixed_volumes=0\n"));
    assert!(merged.contains("auto_include_fixed_refs_volumes=0\n"));
    assert!(merged.contains("auto_include_fixed_fat_volumes=0\n"));
    assert!(merged.contains("ntfs_volume_paths=C:\n"));
    assert!(merged.contains("ntfs_volume_includes=1\n"));
    assert!(merged.contains("refs_volume_paths=\n"));
    assert!(merged.contains("fat_volume_paths=\n"));
    assert_eq!(merged.matches("alpha_instance=").count(), 1);
    assert_eq!(merged.matches("auto_include_fixed_volumes=").count(), 1);
    assert_eq!(
        merged.matches("auto_include_fixed_refs_volumes=").count(),
        1
    );
    assert_eq!(merged.matches("auto_include_fixed_fat_volumes=").count(), 1);
}

#[test]
fn overridden_instances_have_distinct_storage_keys() {
    assert_ne!(
        instance_storage_key("EverythingNextDev"),
        instance_storage_key("EverythingNextTest")
    );
}

#[test]
fn instance_names_are_safe_for_process_arguments_and_storage() {
    assert!(valid_instance_name("EverythingNext.Dev-1"));
    assert!(!valid_instance_name(""));
    assert!(!valid_instance_name("bad instance"));
    assert!(!valid_instance_name("bad\" -quit"));
}

#[test]
fn volume_instances_share_the_service_but_have_distinct_ipc_names() {
    assert_eq!(
        volume_instance_name("EverythingNext", "C:"),
        "EverythingNext-C"
    );
    assert_eq!(
        volume_instance_name("EverythingNext", "D:"),
        "EverythingNext-D"
    );
    assert_ne!(
        ipc_pipe_name(&volume_instance_name("EverythingNext", "C:")),
        ipc_pipe_name(&volume_instance_name("EverythingNext", "D:"))
    );
}

#[test]
fn default_instance_uses_the_standard_ipc_pipe_and_private_service_pipe() {
    assert_eq!(ipc_pipe_name(""), r"\\.\PIPE\Everything IPC");
    assert_eq!(
        service_pipe_name(""),
        r"\\.\PIPE\Everything Service (EverythingNext)"
    );
}

#[test]
fn default_runtime_command_omits_the_instance_argument() {
    let arguments = engine_arguments("", "Everything.ini", "Everything.db");

    assert!(!arguments.iter().any(|argument| argument == "-instance"));
    assert!(arguments
        .iter()
        .any(|argument| argument == "-first-instance"));
}

#[test]
fn runtime_command_does_not_reapply_the_service_pipe_setting() {
    let arguments = engine_arguments("EverythingNext", "Everything.ini", "Everything.db");

    assert!(!arguments
        .iter()
        .any(|argument| argument == "-service-pipe-name"));
    assert!(arguments
        .windows(2)
        .any(|pair| pair == ["-instance", "EverythingNext"]));
}

#[test]
fn fnv1a_matches_the_reference_values() {
    assert_eq!(stable_hash(""), 0xcbf2_9ce4_8422_2325);
    assert_eq!(stable_hash("a"), 0xaf63_dc4c_8601_ec8c);
    assert_eq!(
        instance_storage_key(""),
        "instance-cbf29ce484222325"
    );
}

#[test]
fn long_service_names_are_shortened_with_the_volume_hash() {
    let service = "S".repeat(70);
    let name = volume_instance_name(&service, "C:\\");
    assert_eq!(name.len(), 47 + 17);
    assert!(name.starts_with(&"S".repeat(47)));
    assert_eq!(&name[47..], format!("-{:016x}", stable_hash("C:\\")));
    assert_eq!(volume_instance_name("Dev", "d:\\"), "Dev-D");
}

#[test]
fn merging_keeps_the_first_owned_value_and_drops_repetitions() {
    let merged = merge_config(
        "[everything]\nShow_Tray_Icon = 1\nshow_tray_icon=1\nother=1\n[Next]\nshow_tray_icon=1",
        "p",
        &IndexedVolume {
            root: "E:".to_string(),
            file_system: VolumeFileSystem::Fat,
        },
    );
    assert!(merged.starts_with("[everything]\nshow_tray_icon=0\nother=1\nrun_as_admin=0\n"));
    assert!(merged.contains("fat_volume_paths=E:\nfat_volume_includes=1\n[Next]\nshow_tray_icon=1\n"));
    assert_eq!(merged.matches("show_tray_icon=0").count(), 1);
    assert_eq!(merge_config("", "p", &ntfs_volume()).lines().next(), Some("[Everything]"));
}

#[test]
fn an_up_to_date_configuration_is_not_rewritten() {
    let pipe = r"\\.\PIPE\Everything Service (Test)";
    let merged = merge_config("", pipe, &ntfs_volume());
    assert_eq!(config_update(&merged, pipe, &ntfs_volume()), None);
    assert_eq!(config_update("", pipe, &ntfs_volume()), Some(merged));
}

#[test]
fn a_lone_bracket_line_is_kept_as_it_is() {
    let merged = merge_config("[\n[Everything]\nx=1\n", "pipe", &ntfs_volume());
    assert!(merged.starts_with("[\n[Everything]\nx=1\nrun_as_admin=0\n"));
}

#[test]
fn a_merged_configuration_merges_to_itself() {
    let volume = IndexedVolume { root: "D:".to_string(), file_system: VolumeFileSystem::Refs };
    for existing in [
        "",
        "[Other]\nvalue=keep\n",
        "\u{feff}[Everything]\r\nshow_tray_icon=1\r\nSHOW_TRAY_ICON = 1\r\ncustom=1\r\n[Other]\r\nx=y",
        "[Everything]\nalpha_instance=1\n[Everything]\nbeta_updates=1\n",
    ] {
        let once = merge_config(existing, "pipe", &volume);
        let twice = merge_config(&once, "pipe", &volume);
        assert_eq!(twice, once);
        assert_eq!(config_update(&once, "pipe", &volume), None);
    }
}
