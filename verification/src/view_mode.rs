//! The layouts of the result list: details rows, or a grid of small,
//! medium or large icons, and the keys that move through each.

use vstd::prelude::*;
use crate::text::{chars_eq, chars_of};

verus! {

broadcast use vstd::string::group_string_axioms;

/// A layout of the result list.
#[derive(Clone, Copy, Debug, PartialEq, Eq, Structural)]
pub enum ViewMode {
    Details,
    Small,
    Medium,
    Large,
}

impl ViewMode {
    /// The layouts, in the order of the menu.
    pub fn all() -> (modes: [ViewMode; 4])
        ensures
            modes@ == seq![ViewMode::Details, ViewMode::Small, ViewMode::Medium, ViewMode::Large],
    {
        [ViewMode::Details, ViewMode::Small, ViewMode::Medium, ViewMode::Large]
    }

    /// The name under which the layout is stored.
    pub fn key(self) -> (k: &'static str)
        ensures
            k@ == view_mode_key(self),
    {
        match self {
            ViewMode::Details => "details",
            ViewMode::Small => "small",
            ViewMode::Medium => "medium",
            ViewMode::Large => "large",
        }
    }

    /// The name shown in the menu.
    pub fn label(self) -> (l: &'static str)
        ensures
            l@ == (match self {
                ViewMode::Details => "Details"@,
                ViewMode::Small => "Small icons"@,
                ViewMode::Medium => "Medium icons"@,
                ViewMode::Large => "Large icons"@,
            }),
    {
        match self {
            ViewMode::Details => "Details",
            ViewMode::Small => "Small icons",
            ViewMode::Medium => "Medium icons",
            ViewMode::Large => "Large icons",
        }
    }

    /// The size of the previews of the layout, if it shows previews.
    pub fn visual_size(self) -> (s: Option<u32>)
        ensures
            s == (match self {
                ViewMode::Details | ViewMode::Small => None,
                ViewMode::Medium => Some(64u32),
                ViewMode::Large => Some(96u32),
            }),
    {
        match self {
            ViewMode::Details | ViewMode::Small => None,
            ViewMode::Medium => Some(64),
            ViewMode::Large => Some(96),
        }
    }

    /// Whether the layout is a grid.
    pub fn is_grid(self) -> (g: bool)
        ensures
            g == !(self is Details),
    {
        !matches!(self, ViewMode::Details)
    }

    /// The most columns the layout shows.
    pub fn max_columns(self) -> (c: u32)
        ensures
            c == (match self {
                ViewMode::Details => 1u32,
                ViewMode::Small => 2u32,
                ViewMode::Medium => 10u32,
                ViewMode::Large => 8u32,
            }),
    {
        match self {
            ViewMode::Details => 1,
            ViewMode::Small => 2,
            ViewMode::Medium => 10,
            ViewMode::Large => 8,
        }
    }
}

/// The stored name of a layout.
pub open spec fn view_mode_key(mode: ViewMode) -> Seq<char> {
    match mode {
        ViewMode::Details => "details"@,
        ViewMode::Small => "small"@,
        ViewMode::Medium => "medium"@,
        ViewMode::Large => "large"@,
    }
}

/// The layout a stored name stands for; details for nothing stored or an
/// unknown name (`details` itself included).
pub open spec fn stored_view_mode(stored: Option<Seq<char>>) -> ViewMode {
    match stored {
        Some(s) => if s == "small"@ {
            ViewMode::Small
        } else if s == "medium"@ {
            ViewMode::Medium
        } else if s == "large"@ {
            ViewMode::Large
        } else {
            ViewMode::Details
        },
        None => ViewMode::Details,
    }
}

/// A stored layout is read back as the same layout.
pub proof fn law_view_mode_round_trip(mode: ViewMode)
    ensures
        stored_view_mode(Some(view_mode_key(mode))) == mode,
{
    reveal_strlit("details");
    reveal_strlit("small");
    reveal_strlit("medium");
    reveal_strlit("large");
    let k = view_mode_key(mode);
    if mode != ViewMode::Small {
        assert(k != "small"@) by {
            assert(k.len() != 5 || k[0] != 's');
        }
    }
    if mode != ViewMode::Medium {
        assert(k != "medium"@) by {
            assert(k.len() != 6 || k[0] != 'm');
        }
    }
    if mode != ViewMode::Large {
        assert(k != "large"@) by {
            assert(k.len() != 5 || k[0] != 'l');
        }
    }
}

/// The layout read back from its stored name.
pub fn view_mode_from_stored(stored: Option<&str>) -> (mode: ViewMode)
    ensures
        mode == stored_view_mode(
            match stored {
                Some(s) => Some(s@),
                None => None,
            },
        ),
{
    match stored {
        None => ViewMode::Details,
        Some(s) => {
            let c = chars_of(s);
            if chars_eq(&c, &chars_of("small")) {
                ViewMode::Small
            } else if chars_eq(&c, &chars_of("medium")) {
                ViewMode::Medium
            } else if chars_eq(&c, &chars_of("large")) {
                ViewMode::Large
            } else {
                ViewMode::Details
            }
        },
    }
}

/// How far an arrow key moves the focus: a row of the grid (`columns`
/// items, at least one) up or down, and one item left or right in a grid;
/// other keys do not move it.
pub open spec fn arrow_delta(mode: ViewMode, columns: u32, key: Seq<char>) -> Option<i32> {
    let c: i32 = if columns == 0 {
        1
    } else {
        columns as i32
    };
    if key == "ArrowDown"@ {
        Some(c)
    } else if key == "ArrowUp"@ {
        Some((-c) as i32)
    } else if key == "ArrowRight"@ && !(mode is Details) {
        Some(1i32)
    } else if key == "ArrowLeft"@ && !(mode is Details) {
        Some(-1i32)
    } else {
        None
    }
}

/// The move of an arrow key in a layout with `columns` columns.
pub fn navigation_delta(mode: ViewMode, columns: u32, key: &str) -> (d: Option<i32>)
    requires
        columns <= i32::MAX,
    ensures
        d == arrow_delta(mode, columns, key@),
{
    let c: i32 = if columns == 0 {
        1
    } else {
        columns as i32
    };
    let k = chars_of(key);
    if chars_eq(&k, &chars_of("ArrowDown")) {
        Some(c)
    } else if chars_eq(&k, &chars_of("ArrowUp")) {
        Some(-c)
    } else if chars_eq(&k, &chars_of("ArrowRight")) && mode.is_grid() {
        Some(1)
    } else if chars_eq(&k, &chars_of("ArrowLeft")) && mode.is_grid() {
        Some(-1)
    } else {
        None
    }
}

/// The number of rows that `total` items fill in `columns` columns (at
/// least one column).
pub fn row_count(total: u32, columns: u32) -> (rows: u32)
    ensures
        ({
            let c: int = if columns == 0 {
                1
            } else {
                columns as int
            };
            &&& rows * c >= total
            &&& (rows - 1) * c < total || rows == 0
        }),
{
    let c = if columns == 0 {
        1
    } else {
        columns
    };
    proof {
        assert(total % c != 0 ==> total / c < u32::MAX) by (nonlinear_arith)
            requires
                c > 0,
        ;
    }
    let rows = total / c + if total % c == 0 {
        0
    } else {
        1
    };
    proof {
        let q = total / c;
        let r = total % c;
        assert(total == q * c + r) by (nonlinear_arith)
            requires
                c > 0,
                q == total / c,
                r == total % c,
        ;
        assert(rows * c >= total && ((rows - 1) * c < total || rows == 0)) by (nonlinear_arith)
            requires
                total == q * c + r,
                0 <= r < c,
                rows == q + (if r == 0 {
                    0int
                } else {
                    1int
                }),
                c > 0,
        ;
    }
    rows
}

/// The rows drawn beyond each edge of the visible part of the list.
pub const VIRTUALIZATION_OVERSCAN: u32 = 8;

/// `a * b`, or the largest `u32` when that is larger.
pub open spec fn saturated_product(a: u32, b: u32) -> int {
    if a * b > u32::MAX {
        u32::MAX as int
    } else {
        a * b
    }
}

fn saturating_product(a: u32, b: u32) -> (p: u32)
    ensures
        p == saturated_product(a, b),
{
    proof {
        assert(0 <= (a as int) * (b as int) <= 0xffff_ffff * 0xffff_ffff) by (nonlinear_arith)
            requires
                0 <= a <= 0xffff_ffff,
                0 <= b <= 0xffff_ffff,
        ;
    }
    let wide = (a as u64) * (b as u64);
    if wide > u32::MAX as u64 {
        u32::MAX
    } else {
        wide as u32
    }
}

/// The first item drawn, given the first visible row: the overscan rows
/// above it are drawn too.
pub fn visible_start(first_row: u32, columns: u32) -> (start: u32)
    ensures
        start == saturated_product(
            (if first_row > VIRTUALIZATION_OVERSCAN { first_row - VIRTUALIZATION_OVERSCAN } else { 0 }) as u32,
            columns,
        ),
{
    let row = if first_row > VIRTUALIZATION_OVERSCAN {
        first_row - VIRTUALIZATION_OVERSCAN
    } else {
        0
    };
    saturating_product(row, columns)
}

/// The end (exclusive) of the items drawn from `start`, for the number of
/// visible rows: the overscan rows on both sides, never beyond the results.
pub fn visible_end(start: u32, visible_rows: u32, columns: u32, total: u32) -> (end: u32)
    ensures
        ({
            let rows = if visible_rows as int + 2 * VIRTUALIZATION_OVERSCAN > u32::MAX {
                u32::MAX as int
            } else {
                visible_rows + 2 * VIRTUALIZATION_OVERSCAN
            };
            let count = saturated_product(rows as u32, columns);
            let reach = if start + count > u32::MAX { u32::MAX as int } else { start + count };
            end == (if reach < total { reach } else { total as int })
        }),
        end <= total,
{
    let rows = if visible_rows > u32::MAX - 2 * VIRTUALIZATION_OVERSCAN {
        u32::MAX
    } else {
        visible_rows + 2 * VIRTUALIZATION_OVERSCAN
    };
    let count = saturating_product(rows, columns);
    let reach = if start > u32::MAX - count {
        u32::MAX
    } else {
        start + count
    };
    if reach < total {
        reach
    } else {
        total
    }
}

/// What a key does in the open menu of layouts.
#[derive(Debug, Clone, Copy, PartialEq, Eq, Structural)]
pub enum MenuKeyAction {
    /// Focus the option at this position.
    Focus(usize),
    /// Close the menu, giving the focus back to its button or not.
    Close { refocus_trigger: bool },
    /// The key does nothing in the menu.
    Ignore,
}

/// The effect of a key on the menu of layouts while the option at
/// `current` has the focus: the arrows move to the next or previous option,
/// wrapping around; Home and End go to the first and last; Escape closes
/// the menu and focuses its button; Tab closes it.
pub open spec fn menu_key_action(key: Seq<char>, current: int) -> MenuKeyAction {
    if key == "ArrowDown"@ {
        MenuKeyAction::Focus(((current + 1) % 4) as usize)
    } else if key == "ArrowUp"@ {
        MenuKeyAction::Focus(((current + 3) % 4) as usize)
    } else if key == "Home"@ {
        MenuKeyAction::Focus(0)
    } else if key == "End"@ {
        MenuKeyAction::Focus(3)
    } else if key == "Escape"@ {
        MenuKeyAction::Close { refocus_trigger: true }
    } else if key == "Tab"@ {
        MenuKeyAction::Close { refocus_trigger: false }
    } else {
        MenuKeyAction::Ignore
    }
}

/// What a key does in the menu of layouts.
pub fn menu_key(key: &str, current: usize) -> (a: MenuKeyAction)
    requires
        key@ == "ArrowDown"@ ==> current < usize::MAX,
        key@ == "ArrowUp"@ ==> current <= usize::MAX - 3,
    ensures
        a == menu_key_action(key@, current as int),
{
    let k = chars_of(key);
    let count: usize = 4;
    let last = count - 1;
    if chars_eq(&k, &chars_of("ArrowDown")) {
        MenuKeyAction::Focus((current + 1) % count)
    } else if chars_eq(&k, &chars_of("ArrowUp")) {
        MenuKeyAction::Focus((current + last) % count)
    } else if chars_eq(&k, &chars_of("Home")) {
        MenuKeyAction::Focus(0)
    } else if chars_eq(&k, &chars_of("End")) {
        MenuKeyAction::Focus(last)
    } else if chars_eq(&k, &chars_of("Escape")) {
        MenuKeyAction::Close { refocus_trigger: true }
    } else if chars_eq(&k, &chars_of("Tab")) {
        MenuKeyAction::Close { refocus_trigger: false }
    } else {
        MenuKeyAction::Ignore
    }
}

/// The layouts are stored under the names `details`, `small`, `medium`
/// and `large`, each read back as its layout; nothing stored, or any other
/// name, reads as details.
pub proof fn law_layouts_are_stored_by_name(other: Seq<char>)
    ensures
        view_mode_key(ViewMode::Details) == seq!['d', 'e', 't', 'a', 'i', 'l', 's'],
        view_mode_key(ViewMode::Small) == seq!['s', 'm', 'a', 'l', 'l'],
        view_mode_key(ViewMode::Medium) == seq!['m', 'e', 'd', 'i', 'u', 'm'],
        view_mode_key(ViewMode::Large) == seq!['l', 'a', 'r', 'g', 'e'],
        stored_view_mode(Some(seq!['s', 'm', 'a', 'l', 'l'])) == ViewMode::Small,
        stored_view_mode(Some(seq!['m', 'e', 'd', 'i', 'u', 'm'])) == ViewMode::Medium,
        stored_view_mode(Some(seq!['l', 'a', 'r', 'g', 'e'])) == ViewMode::Large,
        stored_view_mode(None) == ViewMode::Details,
        other != seq!['s', 'm', 'a', 'l', 'l'] && other != seq!['m', 'e', 'd', 'i', 'u', 'm'] && other != seq![
            'l',
            'a',
            'r',
            'g',
            'e',
        ] ==> stored_view_mode(Some(other)) == ViewMode::Details,
{
    reveal_strlit("details");
    reveal_strlit("small");
    reveal_strlit("medium");
    reveal_strlit("large");
    assert("details"@ =~= seq!['d', 'e', 't', 'a', 'i', 'l', 's']);
    assert("small"@ =~= seq!['s', 'm', 'a', 'l', 'l']);
    assert("medium"@ =~= seq!['m', 'e', 'd', 'i', 'u', 'm']);
    assert("large"@ =~= seq!['l', 'a', 'r', 'g', 'e']);
    assert(seq!['m', 'e', 'd', 'i', 'u', 'm'] != seq!['s', 'm', 'a', 'l', 'l']);
    assert(seq!['l', 'a', 'r', 'g', 'e'][0] != seq!['s', 'm', 'a', 'l', 'l'][0]);
    assert(seq!['l', 'a', 'r', 'g', 'e'] != seq!['m', 'e', 'd', 'i', 'u', 'm']);
}

/// The menu of layouts cycles through its four options: the down arrow
/// goes to the next one and from the last back to the first, the up arrow
/// undoes it, Home and End go to the first and the last; Escape closes the
/// menu and gives the focus back to its button, Tab closes it without.
pub proof fn law_layout_menu_cycles(current: int)
    requires
        0 <= current < 4,
    ensures
        menu_key_action("ArrowDown"@, current) == MenuKeyAction::Focus((if current == 3 { 0 } else { current + 1 }) as usize),
        menu_key_action("ArrowUp"@, current) == MenuKeyAction::Focus((if current == 0 { 3 } else { current - 1 }) as usize),
        ({
            let next = if current == 3 { 0 } else { current + 1 };
            menu_key_action("ArrowUp"@, next) == MenuKeyAction::Focus(current as usize)
        }),
        menu_key_action("Home"@, current) == MenuKeyAction::Focus(0),
        menu_key_action("End"@, current) == MenuKeyAction::Focus(3),
        menu_key_action("Escape"@, current) == (MenuKeyAction::Close { refocus_trigger: true }),
        menu_key_action("Tab"@, current) == (MenuKeyAction::Close { refocus_trigger: false }),
{
    reveal_strlit("ArrowDown");
    reveal_strlit("ArrowUp");
    reveal_strlit("Home");
    reveal_strlit("End");
    reveal_strlit("Escape");
    reveal_strlit("Tab");
    assert("End"@[0] != "Tab"@[0]);
    assert("ArrowUp"@.len() == 7 && "ArrowDown"@.len() == 9);
    assert("ArrowUp"@ != "ArrowDown"@);
    assert("Escape"@.len() == 6 && "Home"@.len() == 4 && "End"@.len() == 3 && "Tab"@.len() == 3);
    assert("Escape"@ != "ArrowDown"@ && "Escape"@ != "ArrowUp"@ && "Escape"@ != "Home"@ && "Escape"@ != "End"@);
    assert("Tab"@ != "ArrowDown"@ && "Tab"@ != "ArrowUp"@ && "Tab"@ != "Home"@ && "Tab"@ != "Escape"@);
    assert((current + 3) % 4 == (if current == 0 { 3 } else { current - 1 }));
    assert((current + 1) % 4 == (if current == 3 { 0 } else { current + 1 }));
    let next = if current == 3 { 0 } else { current + 1 };
    assert((next + 3) % 4 == current);
}

/// Eight rows are drawn beyond each edge of the visible part of the list.
pub proof fn law_overscan_rows()
    ensures
        VIRTUALIZATION_OVERSCAN == 8,
{
}

} // verus!
