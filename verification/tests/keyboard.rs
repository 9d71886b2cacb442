use everything_next::keyboard::{
    initial_page_limit, initial_page_step, initial_search_ranges, initial_search_start,
    is_plain_letter_key, keyboard_decision, letters_match, name_starts_with, InitialSearchStep,
    KeyCommand, KeyContext, KeyModifiers,
};
use everything_next::model::SearchResult;
use everything_next::result_selection::{FocusMove, SelectionModifiers};
use everything_next::view_mode::{navigation_delta, row_count, view_mode_from_stored, ViewMode};

const NONE: KeyModifiers = KeyModifiers { ctrl: false, shift: false, alt: false, meta: false };
const CTRL: KeyModifiers = KeyModifiers { ctrl: true, shift: false, alt: false, meta: false };
const SHIFT: KeyModifiers = KeyModifiers { ctrl: false, shift: true, alt: false, meta: false };

fn context() -> KeyContext {
    KeyContext {
        settings_open: false,
        target_interactive: false,
        mode: ViewMode::Medium,
        columns: 4,
        page_step: 12,
        total: 100,
        single_selection: true,
        menu_open: false,
    }
}

#[test]
fn initial_matching_ignores_case() {
    assert!(letters_match('F', 'f'));
    assert!(!letters_match('F', 'g'));
}

#[test]
fn name_initial_matching_ignores_case() {
    let item = SearchResult {
        id: "1".into(),
        name: "File.txt".into(),
        parent_path: String::new(),
        full_path: "File.txt".into(),
        size: None,
        modified_unix: None,
        is_dir: false,
    };

    assert!(name_starts_with(&item, 'f'));
    assert!(!name_starts_with(&item, 'x'));
}

#[test]
fn letters_start_a_search_and_other_keys_forget_them() {
    let decision = keyboard_decision("é", NONE, context());
    assert_eq!(decision.command, KeyCommand::NavigateByInitial('é'));
    assert!(decision.prevent_default);
    assert!(!decision.forget_initial);
    assert!(!is_plain_letter_key("a", CTRL));
    assert!(!is_plain_letter_key("1", NONE));
    assert!(!is_plain_letter_key("ab", NONE));
    let decision = keyboard_decision("Delete", NONE, context());
    assert_eq!(decision.command, KeyCommand::BeginTrash);
    assert!(decision.forget_initial);
}

#[test]
fn keys_move_the_focus_by_rows_pages_and_ends() {
    let shift_moves = SelectionModifiers { extend: true, preserve: false };
    let plain_moves = SelectionModifiers { extend: false, preserve: false };
    assert_eq!(
        keyboard_decision("ArrowDown", SHIFT, context()).command,
        KeyCommand::MoveFocus(FocusMove::Relative(4), shift_moves)
    );
    assert_eq!(
        keyboard_decision("ArrowLeft", NONE, context()).command,
        KeyCommand::MoveFocus(FocusMove::Relative(-1), plain_moves)
    );
    assert_eq!(
        keyboard_decision("PageUp", NONE, context()).command,
        KeyCommand::MoveFocus(FocusMove::Relative(-12), plain_moves)
    );
    assert_eq!(
        keyboard_decision("End", NONE, context()).command,
        KeyCommand::MoveFocus(FocusMove::Absolute(99), plain_moves)
    );
    let mut details = context();
    details.mode = ViewMode::Details;
    details.total = 0;
    assert_eq!(keyboard_decision("ArrowRight", NONE, details).command, KeyCommand::Nothing);
    assert_eq!(
        keyboard_decision("End", NONE, details).command,
        KeyCommand::MoveFocus(FocusMove::Absolute(0), plain_moves)
    );
}

#[test]
fn escape_closes_settings_then_the_menu_then_the_selection() {
    let mut settings = context();
    settings.settings_open = true;
    assert_eq!(keyboard_decision("Escape", NONE, settings).command, KeyCommand::CloseSettings);
    let mut menu = context();
    menu.menu_open = true;
    let decision = keyboard_decision("Escape", NONE, menu);
    assert_eq!(decision.command, KeyCommand::CloseMenu);
    assert!(!decision.prevent_default);
    assert_eq!(keyboard_decision("Escape", NONE, context()).command, KeyCommand::ClearSelection);
}

#[test]
fn shortcuts_and_controls() {
    assert_eq!(keyboard_decision("L", CTRL, context()).command, KeyCommand::FocusSearch);
    assert_eq!(keyboard_decision("a", CTRL, context()).command, KeyCommand::SelectAll);
    assert_eq!(keyboard_decision(" ", CTRL, context()).command, KeyCommand::ToggleFocused);
    assert_eq!(keyboard_decision(" ", NONE, context()).command, KeyCommand::Nothing);
    assert_eq!(keyboard_decision("F10", SHIFT, context()).command, KeyCommand::OpenContextMenu);
    assert_eq!(keyboard_decision("F10", NONE, context()).command, KeyCommand::Nothing);
    assert_eq!(keyboard_decision("F2", NONE, context()).command, KeyCommand::BeginRename);
    assert_eq!(keyboard_decision("Enter", NONE, context()).command, KeyCommand::OpenFocused);
    let mut many = context();
    many.single_selection = false;
    let decision = keyboard_decision("Enter", NONE, many);
    assert_eq!(decision.command, KeyCommand::Nothing);
    assert!(decision.prevent_default);
    let mut typing = context();
    typing.target_interactive = true;
    let decision = keyboard_decision("a", NONE, typing);
    assert_eq!(decision.command, KeyCommand::Nothing);
    assert!(!decision.prevent_default);
    assert_eq!(keyboard_decision("l", CTRL, typing).command, KeyCommand::FocusSearch);
}

#[test]
fn repeated_letters_search_after_the_focused_row() {
    assert_eq!(initial_search_start(Some('f'), 'F', Some(7)), 8);
    assert_eq!(initial_search_start(Some('f'), 'g', Some(7)), 0);
    assert_eq!(initial_search_start(None, 'g', Some(7)), 0);
    assert_eq!(initial_search_start(Some('f'), 'f', None), 0);
    assert_eq!(initial_search_start(Some('f'), 'f', Some(u32::MAX)), u32::MAX);
    assert_eq!(initial_search_ranges(40, 30), Some(((30, 30), (0, 30))));
    assert_eq!(initial_search_ranges(5, 30), Some(((5, 30), (0, 5))));
    assert_eq!(initial_search_ranges(5, 0), None);
    assert_eq!(initial_page_limit(0, 1000, 256), Some(256));
    assert_eq!(initial_page_limit(900, 1000, 256), Some(100));
    assert_eq!(initial_page_limit(1000, 1000, 256), None);
    assert_eq!(initial_page_step(256, Some(3), 256), InitialSearchStep::Found(259));
    assert_eq!(initial_page_step(256, None, 256), InitialSearchStep::Continue(512));
    assert_eq!(initial_page_step(256, None, 0), InitialSearchStep::GiveUp);
    assert_eq!(initial_page_step(u32::MAX, Some(1), 2), InitialSearchStep::GiveUp);
    assert_eq!(initial_page_step(u32::MAX - 1, None, 5), InitialSearchStep::Continue(u32::MAX));
}

#[test]
fn view_modes_are_stored_by_name() {
    for mode in ViewMode::all() {
        assert_eq!(view_mode_from_stored(Some(mode.key())), mode);
    }
    assert_eq!(view_mode_from_stored(Some("huge")), ViewMode::Details);
    assert_eq!(view_mode_from_stored(None), ViewMode::Details);
    assert_eq!(ViewMode::Large.visual_size(), Some(96));
    assert_eq!(ViewMode::Small.label(), "Small icons");
    assert!(!ViewMode::Details.is_grid());
    assert_eq!(ViewMode::Medium.max_columns(), 10);
}

#[test]
fn arrows_and_rows_follow_the_columns() {
    assert_eq!(navigation_delta(ViewMode::Large, 3, "ArrowUp"), Some(-3));
    assert_eq!(navigation_delta(ViewMode::Large, 0, "ArrowDown"), Some(1));
    assert_eq!(navigation_delta(ViewMode::Details, 1, "ArrowLeft"), None);
    assert_eq!(navigation_delta(ViewMode::Small, 2, "Tab"), None);
    assert_eq!(row_count(10, 4), 3);
    assert_eq!(row_count(12, 4), 3);
    assert_eq!(row_count(0, 4), 0);
    assert_eq!(row_count(u32::MAX, 0), u32::MAX);
    assert_eq!(row_count(u32::MAX, 2), u32::MAX / 2 + 1);
}
