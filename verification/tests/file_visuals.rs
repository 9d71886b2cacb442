use everything_next::file_visuals::{IconSourceCache, ICON_CACHE_MAX_ENTRIES};
use everything_next::file_visuals::icon_cache_key;

#[test]
fn shared_file_types_reuse_one_icon_source() {
    assert_eq!(
        icon_cache_key(r"C:\Music\first.mp3", false),
        icon_cache_key(r"D:\Other\second.MP3", false)
    );
}

#[test]
fn unique_icons_and_folders_remain_path_specific() {
    assert_ne!(
        icon_cache_key(r"C:\Apps\first.exe", false),
        icon_cache_key(r"C:\Apps\second.exe", false)
    );
    assert_ne!(
        icon_cache_key(r"C:\First.folder", true),
        icon_cache_key(r"C:\Second.folder", true)
    );
}

#[test]
fn icon_keys_spell_out_path_or_extension() {
    assert_eq!(icon_cache_key("C:/Music/Song.MP3", false), "extension:mp3");
    assert_eq!(icon_cache_key(r"C:\Apps\Tool.EXE", false), r"path:c:\apps\tool.exe");
    assert_eq!(icon_cache_key(r"C:\Cursors\arrow.cur", false), r"path:c:\cursors\arrow.cur");
    assert_eq!(icon_cache_key(r"C:\Data\README", false), r"path:c:\data\readme");
    assert_eq!(icon_cache_key(r"C:\Data\trailing.", false), r"path:c:\data\trailing.");
    assert_eq!(icon_cache_key(r"C:\v1.2\notes", false), r"path:c:\v1.2\notes");
    assert_eq!(icon_cache_key(r"C:\Data\.gitignore", false), "extension:gitignore");
    assert_eq!(icon_cache_key(r"C:\Photos.2024", true), r"path:c:\photos.2024");
}

#[test]
fn an_icon_is_loaded_once_and_a_missing_one_again_after_its_retry_time() {
    let mut cache = IconSourceCache::new();
    let (source, load, generation, created) = cache.get_or_insert("extension:pdf".to_string(), 0);
    assert_eq!((source, load, generation, created), (None, true, 1, 1));
    let (_, load_again, _, _) = cache.get_or_insert("extension:pdf".to_string(), 0);
    assert!(!load_again);

    cache.set_source("extension:pdf", created, None);
    cache.finish("extension:pdf", generation, Some(1_000));
    assert_eq!(cache.source("extension:pdf"), Some(Some(None)));
    let (_, too_early, _, _) = cache.get_or_insert("extension:pdf".to_string(), 999);
    assert!(!too_early);
    let (source, retry, retry_generation, same_entry) = cache.get_or_insert("extension:pdf".to_string(), 1_000);
    assert!(retry);
    assert_eq!(source, None);
    assert_eq!(same_entry, created);
    assert_eq!(retry_generation, 4);

    cache.finish("extension:pdf", generation, None);
    cache.set_source("extension:pdf", created, Some("data:image/png;base64,AA".to_string()));
    cache.finish("extension:pdf", retry_generation, None);
    let (source, load, _, _) = cache.get_or_insert("extension:pdf".to_string(), 5_000);
    assert_eq!(source, Some(Some("data:image/png;base64,AA".to_string())));
    assert!(!load);
}

#[test]
fn the_icon_cache_drops_its_least_recently_used_entries() {
    let mut cache = IconSourceCache::new();
    for index in 0..ICON_CACHE_MAX_ENTRIES {
        cache.get_or_insert(format!("path:{index}"), 0);
    }
    cache.get_or_insert("path:0".to_string(), 0);
    cache.get_or_insert("path:new".to_string(), 0);
    assert!(cache.source("path:0").is_some());
    assert!(cache.source("path:1").is_none());
    assert!(cache.source("path:new").is_some());
}
