use everything_next::model::{SearchPage, SearchResult, SelectionRange};
use everything_next::sdk::EngineError;
use everything_next::trash_state::{plan_trash_selection, TrashState, MAX_TRASH_ITEMS};

fn item(path: &str) -> SearchResult {
    let name = path.rsplit('\\').next().unwrap_or(path).to_string();
    SearchResult {
        id: path.to_string(),
        name,
        parent_path: String::new(),
        full_path: path.to_string(),
        size: Some(1),
        modified_unix: None,
        is_dir: false,
    }
}

#[test]
fn filters_persisted_deletions_but_allows_recreated_paths() {
    let missing_path = r"C:\Temp\Missing.txt".to_string();
    let recreated_path = r"C:\Temp\Recreated.txt".to_string();
    let mut state = TrashState::from_stored_paths(&format!(
        "{}\n{}\n",
        missing_path.to_lowercase(),
        recreated_path.to_lowercase()
    ));
    let mut page = SearchPage {
        request_id: 1,
        offset: 0,
        total: 2,
        items: vec![item(&missing_path), item(&recreated_path)],
    };

    let matches = state.deleted_matches(&page);
    assert_eq!(matches, vec![true, true]);
    let exists = vec![false, true];
    let revived = state.filter_deleted(&mut page, &exists);

    assert!(revived);
    assert_eq!(page.total, 1);
    assert_eq!(page.items.len(), 1);
    assert_eq!(page.items[0].full_path, recreated_path);
    let persisted = state.deleted_paths_text();
    assert!(persisted.contains(&missing_path.to_lowercase()));
    assert!(!persisted.contains(&recreated_path.to_lowercase()));
}

#[test]
fn a_confirmation_runs_once() {
    let mut state = TrashState::new();
    let first = state.store(vec![r"C:\a".to_string(), r"C:\b".to_string()]);
    let second = state.store(vec![r"C:\c".to_string()]);
    assert_eq!(first.snapshot_id, 1);
    assert_eq!(first.count, 2);
    assert_eq!(second.snapshot_id, 2);

    assert_eq!(
        state.take_for_execution(1),
        Ok(vec![r"C:\a".to_string(), r"C:\b".to_string()])
    );
    assert_eq!(
        state.take_for_execution(1),
        Err("This deletion is already in progress".to_string())
    );
    state.finish_execution(1);
    assert_eq!(
        state.take_for_execution(1),
        Err("This confirmation has expired or was already used".to_string())
    );

    state.cancel(2);
    assert_eq!(
        state.take_for_execution(2),
        Err("This confirmation has expired or was already used".to_string())
    );
    assert_eq!(
        state.take_for_execution(2),
        Err("This confirmation has expired or was already used".to_string())
    );
}

#[test]
fn deleted_paths_are_stored_sorted_and_once() {
    let mut state = TrashState::from_stored_paths("\n\nC:\\B\r\nc:\\a\n");
    state.remember_deleted(&[r"C:\A".to_string(), r"D:\Z".to_string(), r"c:\b".to_string()]);
    assert_eq!(state.deleted_paths_text(), "c:\\a\nc:\\b\nd:\\z");
    assert!(state.remembers(r"D:\z"));
    assert!(!state.remembers(r"D:\y"));
}

#[test]
fn nothing_is_hidden_without_remembered_deletions() {
    let mut state = TrashState::new();
    let mut page = SearchPage {
        request_id: 3,
        offset: 256,
        total: 1000,
        items: vec![item(r"C:\x"), item(r"C:\y")],
    };
    assert_eq!(state.deleted_matches(&page), vec![false, false]);
    assert!(!state.filter_deleted(&mut page, &[false, false]));
    assert_eq!(page.total, 1000);
    assert_eq!(page.items.len(), 2);
    assert_eq!(page.offset, 256);
}

#[test]
fn a_path_listed_twice_is_checked_once() {
    let mut state = TrashState::from_stored_paths(r"c:\twice");
    let mut page = SearchPage {
        request_id: 1,
        offset: 0,
        total: 0,
        items: vec![item(r"C:\Twice"), item(r"C:\TWICE"), item(r"C:\other")],
    };
    let revived = state.filter_deleted(&mut page, &[true, false, false]);
    assert!(revived);
    assert_eq!(page.items.len(), 3);
    assert_eq!(page.total, 0);
    assert_eq!(state.deleted_paths_text(), "");
    assert_eq!(MAX_TRASH_ITEMS, 10_000);
}

#[test]
fn remembered_deletions_survive_a_restart() {
    let mut state = TrashState::new();
    state.remember_deleted(&["C:\\Docs\\Report.PDF".to_string(), "D:\\été\\x.txt".to_string()]);
    let stored = state.deleted_paths_text();
    let restarted = TrashState::from_stored_paths(&stored);
    assert!(restarted.remembers("c:\\docs\\report.pdf"));
    assert!(restarted.remembers("d:\\été\\x.txt"));
    assert_eq!(restarted.deleted_paths_text(), stored);
}

#[test]
fn a_deletion_holds_at_most_ten_thousand_items() {
    let planned = plan_trash_selection(vec![SelectionRange::new(5_000, 9_999), SelectionRange::new(0, 5_000)])
        .expect("ten thousand items fit");
    assert_eq!(planned, vec![SelectionRange::new(0, 9_999)]);
    assert_eq!(
        plan_trash_selection(vec![SelectionRange::new(0, 9_999), SelectionRange::new(10_000, 10_000)]),
        Err(EngineError::InvalidSelection("This operation is limited to 10000 items at a time".into()))
    );
}

#[test]
fn a_freshly_stored_confirmation_is_taken_once_then_expires() {
    let mut state = TrashState::new();
    let first = state.store(vec![r"C:\Temp\a.txt".to_string()]);
    let second = state.store(vec![r"C:\Temp\b.txt".to_string(), r"C:\Temp\c.txt".to_string()]);
    assert_ne!(first.snapshot_id, second.snapshot_id);
    assert_eq!(second.count, 2);
    assert_eq!(state.take_for_execution(second.snapshot_id), Ok(vec![r"C:\Temp\b.txt".to_string(), r"C:\Temp\c.txt".to_string()]));
    assert_eq!(state.take_for_execution(second.snapshot_id), Err("This deletion is already in progress".to_string()));
    state.finish_execution(second.snapshot_id);
    assert_eq!(
        state.take_for_execution(second.snapshot_id),
        Err("This confirmation has expired or was already used".to_string())
    );
    state.cancel(first.snapshot_id);
    assert_eq!(
        state.take_for_execution(first.snapshot_id),
        Err("This confirmation has expired or was already used".to_string())
    );
}
