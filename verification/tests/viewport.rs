use everything_next::view_mode::{
    menu_key, MenuKeyAction,
    view_mode_from_stored, visible_end, visible_start, ViewMode, VIRTUALIZATION_OVERSCAN,
};

#[test]
fn the_drawn_window_includes_overscan_rows() {
    assert_eq!(visible_start(0, 1), 0);
    assert_eq!(visible_start(5, 1), 0);
    assert_eq!(visible_start(20, 1), 12);
    assert_eq!(visible_start(20, 4), 48);
    assert_eq!(visible_end(12, 10, 1, 10_000), 12 + 10 + 2 * VIRTUALIZATION_OVERSCAN);
    assert_eq!(visible_end(48, 3, 4, 10_000), 48 + (3 + 16) * 4);
}

#[test]
fn the_drawn_window_stays_within_the_results() {
    assert_eq!(visible_end(0, 30, 1, 12), 12);
    assert_eq!(visible_end(u32::MAX - 3, 10, 1, u32::MAX), u32::MAX);
    assert_eq!(visible_start(u32::MAX, u32::MAX), u32::MAX);
}

#[test]
fn a_stored_layout_is_read_back() {
    for mode in ViewMode::all() {
        assert_eq!(view_mode_from_stored(Some(mode.key())), mode);
    }
    assert_eq!(view_mode_from_stored(Some("huge")), ViewMode::Details);
    assert_eq!(view_mode_from_stored(None), ViewMode::Details);
}

#[test]
fn the_layout_menu_wraps_around_with_the_arrows() {
    assert_eq!(menu_key("ArrowDown", 0), MenuKeyAction::Focus(1));
    assert_eq!(menu_key("ArrowDown", 3), MenuKeyAction::Focus(0));
    assert_eq!(menu_key("ArrowUp", 0), MenuKeyAction::Focus(3));
    assert_eq!(menu_key("ArrowUp", 2), MenuKeyAction::Focus(1));
    assert_eq!(menu_key("Home", 2), MenuKeyAction::Focus(0));
    assert_eq!(menu_key("End", 0), MenuKeyAction::Focus(3));
    assert_eq!(menu_key("Escape", 1), MenuKeyAction::Close { refocus_trigger: true });
    assert_eq!(menu_key("Tab", 1), MenuKeyAction::Close { refocus_trigger: false });
    assert_eq!(menu_key("a", 1), MenuKeyAction::Ignore);
}
