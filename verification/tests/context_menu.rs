use everything_next::context_menu::{clamp_to_viewport, MENU_HEIGHT, MENU_WIDTH, VIEWPORT_MARGIN};

#[test]
fn the_menu_opens_at_the_pointer_when_it_fits() {
    assert_eq!(clamp_to_viewport(100, 200, 1280, 720), (100, 200));
}

#[test]
fn the_menu_is_moved_inside_the_window() {
    assert_eq!(clamp_to_viewport(1270, 700, 1280, 720), (1280 - MENU_WIDTH, 720 - MENU_HEIGHT));
    assert_eq!(clamp_to_viewport(-40, 2, 1280, 720), (VIEWPORT_MARGIN, VIEWPORT_MARGIN));
}

#[test]
fn a_small_window_keeps_the_menu_at_the_margin() {
    assert_eq!(clamp_to_viewport(50, 50, 200, 100), (VIEWPORT_MARGIN, VIEWPORT_MARGIN));
}
