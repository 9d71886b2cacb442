//! What a key press does in the result list, and the search for the next
//! item whose name starts with a typed letter.

use vstd::prelude::*;
use crate::model::SearchResult;
use crate::result_selection::{FocusMove, SelectionModifiers};
use crate::text::{chars_eq, chars_eq_ignore_case, chars_of, eq_ignore_case, lower_seq};
use crate::view_mode::{arrow_delta, navigation_delta, ViewMode};

verus! {

broadcast use vstd::string::group_string_axioms;

/// What `char::to_lowercase` makes of a character (one or more characters).
pub uninterp spec fn char_lowercase(c: char) -> Seq<char>;

/// `char::to_lowercase`, collected.
#[verifier::external_body]
fn lowercase_of(c: char) -> (r: Vec<char>)
    ensures
        r@ == char_lowercase(c),
{
    c.to_lowercase().collect()
}

/// Whether `char::is_alphabetic` holds of a character (the Unicode
/// `Alphabetic` property).
pub uninterp spec fn alphabetic(c: char) -> bool;

/// `char::is_alphabetic`.
#[verifier::external_body]
fn is_alphabetic(c: char) -> (r: bool)
    ensures
        r == alphabetic(c),
{
    c.is_alphabetic()
}

/// Two letters that are the same once in lower case.
pub open spec fn same_letter(a: char, b: char) -> bool {
    char_lowercase(a) == char_lowercase(b)
}

/// Whether two letters are the same, whatever their case.
pub fn letters_match(left: char, right: char) -> (r: bool)
    ensures
        r == same_letter(left, right),
{
    chars_eq(&lowercase_of(left), &lowercase_of(right))
}

/// Whether the name of a result starts with a letter, whatever its case.
pub fn name_starts_with(item: &SearchResult, initial: char) -> (r: bool)
    ensures
        r == (item.name@.len() > 0 && same_letter(item.name@[0], initial)),
{
    let chars = chars_of(item.name.as_str());
    if chars.len() == 0 {
        return false;
    }
    letters_match(chars[0], initial)
}

/// The modifier keys held during a key press.
#[derive(Debug, Clone, Copy, PartialEq, Eq, Structural)]
pub struct KeyModifiers {
    pub ctrl: bool,
    pub shift: bool,
    pub alt: bool,
    pub meta: bool,
}

/// A key that types a letter: one alphabetic character, without Ctrl, Alt
/// or Meta.
pub open spec fn plain_letter(key: Seq<char>, modifiers: KeyModifiers) -> bool {
    !modifiers.ctrl && !modifiers.alt && !modifiers.meta && key.len() == 1 && alphabetic(key[0])
}

/// Whether a key press types a letter.
pub fn is_plain_letter_key(key: &str, modifiers: KeyModifiers) -> (r: bool)
    ensures
        r == plain_letter(key@, modifiers),
{
    if modifiers.ctrl || modifiers.alt || modifiers.meta {
        return false;
    }
    let chars = chars_of(key);
    chars.len() == 1 && is_alphabetic(chars[0])
}

/// What a key press asks of the result list.
#[derive(Debug, Clone, Copy, PartialEq, Eq)]
pub enum KeyCommand {
    CloseSettings,
    FocusSearch,
    NavigateByInitial(char),
    SelectAll,
    MoveFocus(FocusMove, SelectionModifiers),
    ToggleFocused,
    OpenFocused,
    BeginTrash,
    BeginRename,
    OpenContextMenu,
    CloseMenu,
    ClearSelection,
    Nothing,
}

/// What the list knows when a key is pressed.
#[derive(Debug, Clone, Copy)]
pub struct KeyContext {
    pub settings_open: bool,
    pub target_interactive: bool,
    pub mode: ViewMode,
    pub columns: u32,
    pub page_step: i32,
    pub total: u32,
    pub single_selection: bool,
    pub menu_open: bool,
}

/// The answer to a key press: the command, whether the browser's own
/// handling is prevented, and whether the typed letters are forgotten.
#[derive(Debug, Clone, Copy, PartialEq, Eq)]
pub struct KeyDecision {
    pub command: KeyCommand,
    pub prevent_default: bool,
    pub forget_initial: bool,
}

/// The command of a key that is neither a shortcut handled first nor a
/// letter: Ctrl+A selects everything, the arrows, page keys, Home and End
/// move the focus (Shift extends, Ctrl keeps the selection), Ctrl+Space
/// toggles the focused row, Enter opens the focused item when it is the
/// only one selected, Delete and F2 start a deletion or a rename, the
/// context-menu key and Shift+F10 open the menu, Escape closes the menu or
/// clears the selection.
pub open spec fn list_key_command(key: Seq<char>, m: KeyModifiers, ctx: KeyContext) -> (KeyCommand, bool) {
    let moves = SelectionModifiers { extend: m.shift, preserve: m.ctrl };
    if m.ctrl && eq_ignore_case(key, "a"@) {
        (KeyCommand::SelectAll, true)
    } else if arrow_delta(ctx.mode, ctx.columns, key) is Some {
        (KeyCommand::MoveFocus(FocusMove::Relative(arrow_delta(ctx.mode, ctx.columns, key)->0), moves), true)
    } else if key == "PageDown"@ {
        (KeyCommand::MoveFocus(FocusMove::Relative(ctx.page_step), moves), true)
    } else if key == "PageUp"@ {
        (KeyCommand::MoveFocus(FocusMove::Relative((-ctx.page_step) as i32), moves), true)
    } else if key == "Home"@ {
        (KeyCommand::MoveFocus(FocusMove::Absolute(0), moves), true)
    } else if key == "End"@ {
        (
            KeyCommand::MoveFocus(
                FocusMove::Absolute(if ctx.total == 0 {
                    0u32
                } else {
                    (ctx.total - 1) as u32
                }),
                moves,
            ),
            true,
        )
    } else if key == " "@ && m.ctrl {
        (KeyCommand::ToggleFocused, true)
    } else if key == "Enter"@ {
        (if ctx.single_selection {
            KeyCommand::OpenFocused
        } else {
            KeyCommand::Nothing
        }, true)
    } else if key == "Delete"@ {
        (KeyCommand::BeginTrash, true)
    } else if key == "F2"@ {
        (KeyCommand::BeginRename, true)
    } else if key == "ContextMenu"@ || (key == "F10"@ && m.shift) {
        (KeyCommand::OpenContextMenu, true)
    } else if key == "Escape"@ {
        (if ctx.menu_open {
            KeyCommand::CloseMenu
        } else {
            KeyCommand::ClearSelection
        }, false)
    } else {
        (KeyCommand::Nothing, false)
    }
}

/// The answer to a key press: Escape closes an open settings dialog first,
/// Ctrl+L goes to the search field, keys typed into a control are left to
/// it, a letter looks for the next name that starts with it, and every
/// other key forgets the typed letters and follows `list_key_command`.
pub open spec fn key_decision(key: Seq<char>, m: KeyModifiers, ctx: KeyContext) -> KeyDecision {
    if key == "Escape"@ && ctx.settings_open {
        KeyDecision { command: KeyCommand::CloseSettings, prevent_default: true, forget_initial: false }
    } else if m.ctrl && eq_ignore_case(key, "l"@) {
        KeyDecision { command: KeyCommand::FocusSearch, prevent_default: true, forget_initial: false }
    } else if ctx.target_interactive {
        KeyDecision { command: KeyCommand::Nothing, prevent_default: false, forget_initial: false }
    } else if plain_letter(key, m) {
        KeyDecision {
            command: KeyCommand::NavigateByInitial(key[0]),
            prevent_default: true,
            forget_initial: false,
        }
    } else {
        let (command, prevent_default) = list_key_command(key, m, ctx);
        KeyDecision { command, prevent_default, forget_initial: true }
    }
}

fn is_key(k: &[char], name: &str) -> (r: bool)
    ensures
        r == (k@ == name@),
{
    chars_eq(k, &chars_of(name))
}

fn list_command(k: &[char], m: KeyModifiers, ctx: KeyContext) -> (r: (KeyCommand, bool))
    requires
        ctx.columns <= i32::MAX,
        ctx.page_step > i32::MIN,
    ensures
        r == list_key_command(k@, m, ctx),
{
    let moves = SelectionModifiers { extend: m.shift, preserve: m.ctrl };
    if m.ctrl && chars_eq_ignore_case(k, &chars_of("a")) {
        return (KeyCommand::SelectAll, true);
    }
    let key = crate::text::string_of(k);
    if let Some(delta) = navigation_delta(ctx.mode, ctx.columns, key.as_str()) {
        return (KeyCommand::MoveFocus(FocusMove::Relative(delta), moves), true);
    }
    if is_key(k, "PageDown") {
        (KeyCommand::MoveFocus(FocusMove::Relative(ctx.page_step), moves), true)
    } else if is_key(k, "PageUp") {
        (KeyCommand::MoveFocus(FocusMove::Relative(-ctx.page_step), moves), true)
    } else if is_key(k, "Home") {
        (KeyCommand::MoveFocus(FocusMove::Absolute(0), moves), true)
    } else if is_key(k, "End") {
        let last = if ctx.total == 0 {
            0
        } else {
            ctx.total - 1
        };
        (KeyCommand::MoveFocus(FocusMove::Absolute(last), moves), true)
    } else if is_key(k, " ") && m.ctrl {
        (KeyCommand::ToggleFocused, true)
    } else if is_key(k, "Enter") {
        (if ctx.single_selection {
            KeyCommand::OpenFocused
        } else {
            KeyCommand::Nothing
        }, true)
    } else if is_key(k, "Delete") {
        (KeyCommand::BeginTrash, true)
    } else if is_key(k, "F2") {
        (KeyCommand::BeginRename, true)
    } else if is_key(k, "ContextMenu") || (is_key(k, "F10") && m.shift) {
        (KeyCommand::OpenContextMenu, true)
    } else if is_key(k, "Escape") {
        (if ctx.menu_open {
            KeyCommand::CloseMenu
        } else {
            KeyCommand::ClearSelection
        }, false)
    } else {
        (KeyCommand::Nothing, false)
    }
}

/// The answer to a key press in the result list.
pub fn keyboard_decision(key: &str, modifiers: KeyModifiers, context: KeyContext) -> (d: KeyDecision)
    requires
        context.columns <= i32::MAX,
        context.page_step > i32::MIN,
    ensures
        d == key_decision(key@, modifiers, context),
{
    let k = chars_of(key);
    if is_key(&k, "Escape") && context.settings_open {
        return KeyDecision {
            command: KeyCommand::CloseSettings,
            prevent_default: true,
            forget_initial: false,
        };
    }
    if modifiers.ctrl && chars_eq_ignore_case(&k, &chars_of("l")) {
        return KeyDecision {
            command: KeyCommand::FocusSearch,
            prevent_default: true,
            forget_initial: false,
        };
    }
    if context.target_interactive {
        return KeyDecision { command: KeyCommand::Nothing, prevent_default: false, forget_initial: false };
    }
    if is_plain_letter_key(key, modifiers) {
        return KeyDecision {
            command: KeyCommand::NavigateByInitial(k[0]),
            prevent_default: true,
            forget_initial: false,
        };
    }
    let (command, prevent_default) = list_command(&k, modifiers, context);
    KeyDecision { command, prevent_default, forget_initial: true }
}

/// Where the search for a typed letter starts: after the focused row when
/// the same letter was typed last, else at the top.
pub open spec fn initial_start(last: Option<char>, initial: char, focused: Option<u32>) -> u32 {
    match last {
        Some(previous) => if same_letter(previous, initial) {
            match focused {
                Some(index) => if index == u32::MAX {
                    u32::MAX
                } else {
                    (index + 1) as u32
                },
                None => 0,
            }
        } else {
            0
        },
        None => 0,
    }
}

/// Where the search for a typed letter starts.
pub fn initial_search_start(last: Option<char>, initial: char, focused: Option<u32>) -> (start: u32)
    ensures
        start == initial_start(last, initial, focused),
{
    let repeated = match last {
        Some(previous) => letters_match(previous, initial),
        None => false,
    };
    if !repeated {
        return 0;
    }
    match focused {
        Some(index) => index.saturating_add(1),
        None => 0,
    }
}

/// The two stretches searched for a typed letter, in order: from the start
/// (kept in the list) to the end, then from the top to the start. Nothing
/// is searched in an empty list.
pub fn initial_search_ranges(start: u32, total: u32) -> (r: Option<((u32, u32), (u32, u32))>)
    ensures
        total == 0 ==> r is None,
        total > 0 ==> ({
            let s = if start < total {
                start
            } else {
                total
            };
            r == Some(((s, total), (0u32, s)))
        }),
{
    if total == 0 {
        return None;
    }
    let s = if start < total {
        start
    } else {
        total
    };
    Some(((s, total), (0, s)))
}

/// The number of results a search for a typed letter asks for at `offset`
/// in a stretch that ends at `end`: a page at most, nothing past the end.
pub fn initial_page_limit(offset: u32, end: u32, page_size: u32) -> (limit: Option<u32>)
    ensures
        offset >= end ==> limit is None,
        offset < end ==> limit == Some(
            if page_size < end - offset {
                page_size
            } else {
                (end - offset) as u32
            },
        ),
{
    if offset >= end {
        return None;
    }
    let rest = end - offset;
    Some(if page_size < rest {
        page_size
    } else {
        rest
    })
}

/// The next step of a search for a typed letter after a page came back.
#[derive(Debug, Clone, Copy, PartialEq, Eq, Structural)]
pub enum InitialSearchStep {
    /// The item at this index starts with the letter.
    Found(u32),
    /// Go on from this offset.
    Continue(u32),
    /// Stop searching this stretch.
    GiveUp,
}

/// The next step after a page of `received` results at `offset`, given the
/// position of the first one that starts with the letter: found at
/// `offset + position` (given up if that does not fit), or go on after the
/// page (given up after an empty page).
pub fn initial_page_step(offset: u32, position: Option<usize>, received: usize) -> (step: InitialSearchStep)
    ensures
        position matches Some(p) ==> (if offset + p <= u32::MAX {
            step == InitialSearchStep::Found((offset + p) as u32)
        } else {
            step == InitialSearchStep::GiveUp
        }),
        position is None && (received == 0 || received > u32::MAX) ==> step == InitialSearchStep::GiveUp,
        position is None && 0 < received <= u32::MAX ==> step == InitialSearchStep::Continue(
            if offset + received > u32::MAX {
                u32::MAX
            } else {
                (offset + received) as u32
            },
        ),
{
    match position {
        Some(p) => {
            if p > u32::MAX as usize || offset as u64 + p as u64 > u32::MAX as u64 {
                InitialSearchStep::GiveUp
            } else {
                InitialSearchStep::Found(offset + p as u32)
            }
        },
        None => {
            if received == 0 || received > u32::MAX as usize {
                InitialSearchStep::GiveUp
            } else {
                InitialSearchStep::Continue(offset.saturating_add(received as u32))
            }
        },
    }
}

/// The page keys move the focus by a page in the result list: PageDown by
/// `page_step` rows forward and PageUp by as many back, the one the
/// opposite of the other (Shift extends the selection, Ctrl keeps it); both
/// are handled by the list, and forget the typed letters.
pub proof fn law_page_keys_move_by_a_page(m: KeyModifiers, ctx: KeyContext)
    requires
        !ctx.target_interactive,
        ctx.page_step > i32::MIN,
    ensures
        ({
            let moves = SelectionModifiers { extend: m.shift, preserve: m.ctrl };
            let down = key_decision("PageDown"@, m, ctx);
            let up = key_decision("PageUp"@, m, ctx);
            &&& down.command == KeyCommand::MoveFocus(FocusMove::Relative(ctx.page_step), moves)
            &&& up.command == KeyCommand::MoveFocus(FocusMove::Relative((0 - ctx.page_step) as i32), moves)
            &&& down.prevent_default && up.prevent_default
            &&& down.forget_initial && up.forget_initial
        }),
{
    reveal_strlit("PageDown");
    reveal_strlit("PageUp");
    reveal_strlit("Escape");
    reveal_strlit("l");
    reveal_strlit("a");
    reveal_strlit("ArrowDown");
    reveal_strlit("ArrowUp");
    reveal_strlit("ArrowRight");
    reveal_strlit("ArrowLeft");
    let down = "PageDown"@;
    let up = "PageUp"@;
    assert(down.len() == 8 && up.len() == 6);
    assert(lower_seq(down).len() == 8 && lower_seq(up).len() == 6);
    assert(lower_seq("l"@).len() == 1 && lower_seq("a"@).len() == 1);
    assert(!eq_ignore_case(down, "l"@) && !eq_ignore_case(up, "l"@));
    assert(!eq_ignore_case(down, "a"@) && !eq_ignore_case(up, "a"@));
    assert(up != "Escape"@ && up[0] != "Escape"@[0]);
    assert(arrow_delta(ctx.mode, ctx.columns, down) is None);
    assert(arrow_delta(ctx.mode, ctx.columns, up) is None);
}

/// What the list keys do when the list has the focus: Home and End move
/// the focus to the first and last row, Delete starts a deletion, F2 a
/// rename, Enter opens the focused item when it is the only one selected,
/// Ctrl+Space toggles the focused row, Ctrl+A selects everything, the
/// context-menu key and Shift+F10 open the menu, and Escape closes the
/// menu or, with no menu, clears the selection (leaving the key to the
/// browser too). Moves extend the selection with Shift and keep it with
/// Ctrl.
pub proof fn law_list_keys(m: KeyModifiers, ctx: KeyContext)
    requires
        !ctx.target_interactive,
    ensures
        ({
            let moves = SelectionModifiers { extend: m.shift, preserve: m.ctrl };
            let last: u32 = if ctx.total == 0 { 0 } else { (ctx.total - 1) as u32 };
            &&& key_decision("Home"@, m, ctx) == KeyDecision {
                command: KeyCommand::MoveFocus(FocusMove::Absolute(0), moves),
                prevent_default: true,
                forget_initial: true,
            }
            &&& key_decision("End"@, m, ctx) == KeyDecision {
                command: KeyCommand::MoveFocus(FocusMove::Absolute(last), moves),
                prevent_default: true,
                forget_initial: true,
            }
            &&& key_decision("Delete"@, m, ctx).command == KeyCommand::BeginTrash
            &&& key_decision("F2"@, m, ctx).command == KeyCommand::BeginRename
            &&& key_decision("Enter"@, m, ctx).command == (if ctx.single_selection {
                KeyCommand::OpenFocused
            } else {
                KeyCommand::Nothing
            })
            &&& key_decision("ContextMenu"@, m, ctx).command == KeyCommand::OpenContextMenu
            &&& m.shift ==> key_decision("F10"@, m, ctx).command == KeyCommand::OpenContextMenu
            &&& m.ctrl ==> key_decision(" "@, m, ctx).command == KeyCommand::ToggleFocused
            &&& m.ctrl ==> key_decision("a"@, m, ctx).command == KeyCommand::SelectAll
            &&& m.ctrl ==> key_decision("A"@, m, ctx).command == KeyCommand::SelectAll
            &&& !ctx.settings_open ==> key_decision("Escape"@, m, ctx) == KeyDecision {
                command: if ctx.menu_open {
                    KeyCommand::CloseMenu
                } else {
                    KeyCommand::ClearSelection
                },
                prevent_default: false,
                forget_initial: true,
            }
        }),
{
    reveal_strlit("PageDown");
    reveal_strlit("PageUp");
    reveal_strlit("Escape");
    reveal_strlit("l");
    reveal_strlit("a");
    reveal_strlit("ArrowDown");
    reveal_strlit("ArrowUp");
    reveal_strlit("ArrowRight");
    reveal_strlit("ArrowLeft");
    reveal_strlit("Home");
    reveal_strlit("End");
    reveal_strlit(" ");
    reveal_strlit("Enter");
    reveal_strlit("Delete");
    reveal_strlit("F2");
    reveal_strlit("ContextMenu");
    reveal_strlit("F10");
    reveal_strlit("A");
    assert(lower_seq("l"@) =~= seq!['l']);
    assert(lower_seq("a"@) =~= seq!['a']);
    assert(lower_seq("A"@) =~= seq!['a']);
    assert("End"@[0] != "F10"@[0]);
    assert("Delete"@[0] != "Escape"@[0] && "Delete"@[0] != "PageUp"@[0]);
    assert("Escape"@[0] != "PageUp"@[0]);
    assert(" "@[0] != 'a' && " "@[0] != 'l');
    assert(lower_seq("Home"@).len() == 4 && lower_seq("End"@).len() == 3 && lower_seq("Delete"@).len() == 6);
    assert(lower_seq("F2"@).len() == 2 && lower_seq("Enter"@).len() == 5 && lower_seq("ContextMenu"@).len() == 11);
    assert(lower_seq("F10"@).len() == 3 && lower_seq(" "@).len() == 1 && lower_seq("Escape"@).len() == 6);
    assert(lower_seq(" "@) =~= seq![' ']);
    assert(lower_seq(" "@)[0] != lower_seq("l"@)[0] && lower_seq(" "@)[0] != lower_seq("a"@)[0]);
    assert(!eq_ignore_case(" "@, "l"@) && !eq_ignore_case(" "@, "a"@));
    assert(lower_seq("a"@)[0] != lower_seq("l"@)[0] && lower_seq("A"@)[0] != lower_seq("l"@)[0]);
    assert(!eq_ignore_case("a"@, "l"@) && !eq_ignore_case("A"@, "l"@));
    assert(eq_ignore_case("a"@, "a"@) && eq_ignore_case("A"@, "a"@));
    assert(!plain_letter("a"@, m) || !m.ctrl);
    assert(!plain_letter("A"@, m) || !m.ctrl);
}

/// The arrows move the focus through the list: down and up by a row of
/// the layout (its number of columns, at least one), and in a grid right
/// and left by one item; in the details layout right and left do nothing.
pub proof fn law_arrow_keys_move_by_rows_and_items(m: KeyModifiers, ctx: KeyContext)
    requires
        !ctx.target_interactive,
        ctx.columns <= i32::MAX,
    ensures
        ({
            let moves = SelectionModifiers { extend: m.shift, preserve: m.ctrl };
            let row: int = if ctx.columns == 0 { 1 } else { ctx.columns as int };
            &&& key_decision("ArrowDown"@, m, ctx).command == KeyCommand::MoveFocus(
                FocusMove::Relative(row as i32),
                moves,
            )
            &&& key_decision("ArrowUp"@, m, ctx).command == KeyCommand::MoveFocus(
                FocusMove::Relative((0 - row) as i32),
                moves,
            )
            &&& !(ctx.mode is Details) ==> key_decision("ArrowRight"@, m, ctx).command == KeyCommand::MoveFocus(
                FocusMove::Relative(1),
                moves,
            )
            &&& !(ctx.mode is Details) ==> key_decision("ArrowLeft"@, m, ctx).command == KeyCommand::MoveFocus(
                FocusMove::Relative(-1i32),
                moves,
            )
            &&& ctx.mode is Details ==> key_decision("ArrowRight"@, m, ctx).command == KeyCommand::Nothing
            &&& ctx.mode is Details ==> key_decision("ArrowLeft"@, m, ctx).command == KeyCommand::Nothing
        }),
{
    reveal_strlit("Escape");
    reveal_strlit("l");
    reveal_strlit("a");
    reveal_strlit("ArrowDown");
    reveal_strlit("ArrowUp");
    reveal_strlit("ArrowRight");
    reveal_strlit("ArrowLeft");
    reveal_strlit("L");
    reveal_strlit("PageDown");
    reveal_strlit("PageUp");
    reveal_strlit("Home");
    reveal_strlit("End");
    reveal_strlit(" ");
    reveal_strlit("Enter");
    reveal_strlit("Delete");
    reveal_strlit("F2");
    reveal_strlit("ContextMenu");
    reveal_strlit("F10");
    assert(lower_seq("ArrowDown"@).len() == 9 && lower_seq("ArrowUp"@).len() == 7);
    assert(lower_seq("ArrowRight"@).len() == 10 && lower_seq("ArrowLeft"@).len() == 9);
    assert(lower_seq("l"@).len() == 1 && lower_seq("a"@).len() == 1);
    assert("ArrowDown"@[5] != "ArrowLeft"@[5]);
}

/// Some keys come before the list: Escape closes an open settings dialog,
/// Ctrl+L (either case) goes to the search field, keys typed into a control
/// are left to it, and a letter typed without Ctrl, Alt or Meta looks for
/// the next name that starts with it; none of these forgets the typed
/// letters.
pub proof fn law_shortcuts_come_before_the_list(m: KeyModifiers, ctx: KeyContext, key: Seq<char>)
    ensures
        ctx.settings_open ==> (key_decision("Escape"@, m, ctx) == KeyDecision {
            command: KeyCommand::CloseSettings,
            prevent_default: true,
            forget_initial: false,
        }),
        m.ctrl ==> (key_decision("l"@, m, ctx) == KeyDecision {
            command: KeyCommand::FocusSearch,
            prevent_default: true,
            forget_initial: false,
        }),
        m.ctrl ==> (key_decision("L"@, m, ctx) == KeyDecision {
            command: KeyCommand::FocusSearch,
            prevent_default: true,
            forget_initial: false,
        }),
        ctx.target_interactive && !(key == "Escape"@ && ctx.settings_open) && !(m.ctrl && eq_ignore_case(
            key,
            "l"@,
        )) ==> (key_decision(key, m, ctx) == KeyDecision {
            command: KeyCommand::Nothing,
            prevent_default: false,
            forget_initial: false,
        }),
        !ctx.target_interactive && !m.ctrl && !m.alt && !m.meta && key.len() == 1 && alphabetic(key[0]) && !(
        key == "Escape"@ && ctx.settings_open) ==> (key_decision(key, m, ctx) == KeyDecision {
            command: KeyCommand::NavigateByInitial(key[0]),
            prevent_default: true,
            forget_initial: false,
        }),
{
    reveal_strlit("Escape");
    reveal_strlit("l");
    reveal_strlit("L");
    assert(lower_seq("Escape"@).len() == 6 && lower_seq("l"@).len() == 1);
    assert(lower_seq("L"@).len() == 1);
    assert("l"@ != "Escape"@ && "L"@ != "Escape"@);
    assert(eq_ignore_case("l"@, "l"@));
    assert(lower_seq("L"@) =~= seq!['l']);
    assert(lower_seq("l"@) =~= seq!['l']);
    assert(eq_ignore_case("L"@, "l"@));
}

/// Typing a letter looks from the top of the list, and typing the same
/// letter again (in either case) looks on from the row after the focused
/// one, so repeated presses step through the names that start with it.
pub proof fn law_repeated_letters_step_through_names(previous: Option<char>, initial: char, focused: Option<u32>, p: char, f: u32)
    ensures
        previous is None ==> initial_start(previous, initial, focused) == 0,
        !same_letter(p, initial) ==> initial_start(Some(p), initial, focused) == 0,
        focused is None ==> initial_start(previous, initial, focused) == 0,
        same_letter(p, initial) && f < u32::MAX ==> initial_start(Some(p), initial, Some(f)) == f + 1,
        same_letter(initial, initial),
{
}

} // verus!
