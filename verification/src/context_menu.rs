//! Where the context menu of the results opens: at the pointer or the
//! focused result, moved inside the window.

use vstd::prelude::*;

verus! {

/// The width of the menu, in pixels.
pub const MENU_WIDTH: i32 = 272;

/// The height of the menu, in pixels.
pub const MENU_HEIGHT: i32 = 324;

/// The least distance between the menu and the window's edges.
pub const VIEWPORT_MARGIN: i32 = 8;

/// The window size assumed when the window cannot be measured.
pub const FALLBACK_WIDTH: i32 = 1280;

pub const FALLBACK_HEIGHT: i32 = 720;

/// A coordinate kept between the margin and the last place where the menu
/// still fits (the margin, when the window is too small for the menu).
pub open spec fn clamped(v: int, window: int, menu: int) -> int {
    let high = if window - menu > VIEWPORT_MARGIN { window - menu } else { VIEWPORT_MARGIN as int };
    if v < VIEWPORT_MARGIN {
        VIEWPORT_MARGIN as int
    } else if v > high {
        high
    } else {
        v
    }
}

/// The top-left corner of the menu for a wished position, inside a window
/// of the given size.
pub fn clamp_to_viewport(x: i32, y: i32, width: i32, height: i32) -> (p: (i32, i32))
    requires
        width >= i32::MIN + MENU_WIDTH,
        height >= i32::MIN + MENU_HEIGHT,
    ensures
        p.0 == clamped(x as int, width as int, MENU_WIDTH as int),
        p.1 == clamped(y as int, height as int, MENU_HEIGHT as int),
        VIEWPORT_MARGIN <= p.0 && VIEWPORT_MARGIN <= p.1,
        width - MENU_WIDTH >= VIEWPORT_MARGIN ==> p.0 + MENU_WIDTH <= width,
        height - MENU_HEIGHT >= VIEWPORT_MARGIN ==> p.1 + MENU_HEIGHT <= height,
{
    let high_x = if width - MENU_WIDTH > VIEWPORT_MARGIN { width - MENU_WIDTH } else { VIEWPORT_MARGIN };
    let high_y = if height - MENU_HEIGHT > VIEWPORT_MARGIN { height - MENU_HEIGHT } else { VIEWPORT_MARGIN };
    let px = if x < VIEWPORT_MARGIN {
        VIEWPORT_MARGIN
    } else if x > high_x {
        high_x
    } else {
        x
    };
    let py = if y < VIEWPORT_MARGIN {
        VIEWPORT_MARGIN
    } else if y > high_y {
        high_y
    } else {
        y
    };
    (px, py)
}

/// A menu that fits where it was asked for stays there: a coordinate
/// between the margin of 8 pixels and the last place where the menu (272
/// by 324 pixels) still fits is kept, and any other is moved to the nearer
/// of the two.
pub proof fn law_menus_stay_where_they_fit(v: int, window: int)
    ensures
        8 <= v <= window - 272 ==> clamped(v, window, 272) == v,
        8 <= v <= window - 324 ==> clamped(v, window, 324) == v,
        v < 8 ==> clamped(v, window, 272) == 8,
        window - 272 >= 8 && v > window - 272 ==> clamped(v, window, 272) == window - 272,
        MENU_WIDTH == 272 && MENU_HEIGHT == 324 && VIEWPORT_MARGIN == 8,
{
}

} // verus!
