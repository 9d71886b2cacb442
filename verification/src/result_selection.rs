//! The selection of the result list as the keyboard and the mouse drive
//! it: which rows are selected, which row has the focus, and the anchor
//! that Shift extends from.

use vstd::prelude::*;
use vstd::set_lib::set_int_range;
use crate::model::{ordered_range, toggled, IndexSelection};

verus! {

/// How the focus moves: by a number of rows, or to a row.
#[derive(Debug, Clone, Copy, PartialEq, Eq)]
pub enum FocusMove {
    Relative(i32),
    Absolute(u32),
}

/// The modifier keys of a selection gesture: Shift extends from the
/// anchor, Ctrl keeps what is already selected.
#[derive(Debug, Clone, Copy, PartialEq, Eq)]
pub struct SelectionModifiers {
    pub extend: bool,
    pub preserve: bool,
}

/// The selected rows, the focused row and the anchor.
#[derive(Debug)]
pub struct ResultSelection {
    pub indices: IndexSelection,
    pub focused_index: Option<u32>,
    pub anchor: Option<u32>,
}

/// The row the focus moves to, in a list of `total` rows (`total > 0`):
/// a row is taken as is but kept in the list; a move by `delta` rows
/// starts from the focused row and stops at either end; without a
/// focused row, a move up goes to the last row and any other to the first.
pub open spec fn focus_target(movement: FocusMove, focused: Option<u32>, total: u32) -> u32 {
    match movement {
        FocusMove::Absolute(index) => if index < total - 1 {
            index
        } else {
            (total - 1) as u32
        },
        FocusMove::Relative(delta) => match focused {
            Some(current) => {
                let moved = current + delta;
                if moved < 0 {
                    0
                } else if moved > total - 1 {
                    (total - 1) as u32
                } else {
                    moved as u32
                }
            },
            None => if delta < 0 {
                (total - 1) as u32
            } else {
                0
            },
        },
    }
}

/// What a gesture on row `index` makes of the selection: with Shift, the
/// rows from the anchor (or the row itself when there is none) are
/// selected, added to the selection with Ctrl; with Ctrl alone the row is
/// toggled; otherwise the row alone is selected.
pub open spec fn gesture_selection(
    selected: Set<int>,
    anchor: Option<u32>,
    index: u32,
    modifiers: SelectionModifiers,
) -> Set<int> {
    let from = match anchor {
        Some(a) => a,
        None => index,
    };
    if modifiers.extend {
        if modifiers.preserve {
            selected.union(ordered_range(from, index))
        } else {
            ordered_range(from, index)
        }
    } else if modifiers.preserve {
        toggled(selected, index as int)
    } else {
        set_int_range(index as int, index + 1)
    }
}

impl ResultSelection {
    /// Nothing selected, no focus, no anchor.
    pub fn new() -> (s: ResultSelection)
        ensures
            s.indices@ == Set::<int>::empty(),
            s.focused_index is None,
            s.anchor is None,
    {
        ResultSelection { indices: IndexSelection::default(), focused_index: None, anchor: None }
    }

    /// Forgets the selection, the focus and the anchor.
    pub fn clear(&mut self)
        ensures
            final(self).indices@ == Set::<int>::empty(),
            final(self).focused_index is None,
            final(self).anchor is None,
    {
        self.indices.clear();
        self.focused_index = None;
        self.anchor = None;
    }

    /// Forgets the selection and the anchor, keeping the focus.
    pub fn clear_indices(&mut self)
        ensures
            final(self).indices@ == Set::<int>::empty(),
            final(self).focused_index == old(self).focused_index,
            final(self).anchor is None,
    {
        self.indices.clear();
        self.anchor = None;
    }

    /// Selects every row; the first row takes the focus and the anchor if
    /// no row had the focus.
    pub fn select_all(&mut self, total: u32)
        ensures
            final(self).indices@ == set_int_range(0, total as int),
            total > 0 && old(self).focused_index is None ==> final(self).focused_index == Some(0u32)
                && final(self).anchor == Some(0u32),
            !(total > 0 && old(self).focused_index is None) ==> final(self).focused_index == old(
                self,
            ).focused_index && final(self).anchor == old(self).anchor,
    {
        self.indices.select_all(total);
        if total > 0 && self.focused_index.is_none() {
            self.focused_index = Some(0);
            self.anchor = Some(0);
        }
    }

    /// Toggles the focused row, which becomes the anchor.
    pub fn toggle_focused(&mut self)
        ensures
            old(self).focused_index matches Some(i) ==> final(self).indices@ == toggled(
                old(self).indices@,
                i as int,
            ) && final(self).anchor == Some(i),
            old(self).focused_index is None ==> final(self).indices@ == old(self).indices@
                && final(self).anchor == old(self).anchor,
            final(self).focused_index == old(self).focused_index,
    {
        if let Some(index) = self.focused_index {
            self.indices.toggle(index);
            self.anchor = Some(index);
        }
    }

    /// A click on a row: the row takes the focus and the selection follows
    /// `gesture_selection`; the row becomes the anchor unless Shift is held.
    pub fn select_row(&mut self, index: u32, modifiers: SelectionModifiers)
        ensures
            final(self).focused_index == Some(index),
            final(self).indices@ == gesture_selection(
                old(self).indices@,
                old(self).anchor,
                index,
                modifiers,
            ),
            modifiers.extend ==> final(self).anchor == old(self).anchor,
            !modifiers.extend ==> final(self).anchor == Some(index),
    {
        self.focused_index = Some(index);
        if modifiers.extend {
            let anchor = match self.anchor {
                Some(a) => a,
                None => index,
            };
            if modifiers.preserve {
                self.indices.add_range(anchor, index);
            } else {
                self.indices.select_range(anchor, index);
            }
        } else if modifiers.preserve {
            self.indices.toggle(index);
            self.anchor = Some(index);
        } else {
            self.indices.select_only(index);
            self.anchor = Some(index);
        }
    }

    /// A keyboard move of the focus in a list of `total` rows: nothing
    /// happens in an empty list; otherwise the focus goes to
    /// `focus_target`, with Shift the selection follows as for a click,
    /// with Ctrl alone only the focus moves, and with neither the row
    /// alone is selected and becomes the anchor. Returns the focused row.
    pub fn focus(&mut self, movement: FocusMove, modifiers: SelectionModifiers, total: u32) -> (r:
        Option<u32>)
        ensures
            total == 0 ==> r is None && final(self).indices@ == old(self).indices@
                && final(self).focused_index == old(self).focused_index && final(self).anchor == old(
                self,
            ).anchor,
            total > 0 ==> ({
                let next = focus_target(movement, old(self).focused_index, total);
                &&& r == Some(next)
                &&& final(self).focused_index == Some(next)
                &&& modifiers.extend ==> final(self).indices@ == gesture_selection(
                    old(self).indices@,
                    old(self).anchor,
                    next,
                    modifiers,
                ) && final(self).anchor == old(self).anchor
                &&& !modifiers.extend && modifiers.preserve ==> final(self).indices@ == old(
                    self,
                ).indices@ && final(self).anchor == old(self).anchor
                &&& !modifiers.extend && !modifiers.preserve ==> final(self).indices@ == set_int_range(
                    next as int,
                    next + 1,
                ) && final(self).anchor == Some(next)
            }),
    {
        if total == 0 {
            return None;
        }
        let next: u32 = match movement {
            FocusMove::Absolute(index) => if index < total - 1 {
                index
            } else {
                total - 1
            },
            FocusMove::Relative(delta) => match self.focused_index {
                Some(current) => {
                    let moved: i64 = current as i64 + delta as i64;
                    if moved < 0 {
                        0
                    } else if moved > total as i64 - 1 {
                        total - 1
                    } else {
                        moved as u32
                    }
                },
                None => if delta < 0 {
                    total - 1
                } else {
                    0
                },
            },
        };
        self.focused_index = Some(next);
        if modifiers.extend {
            let anchor = match self.anchor {
                Some(a) => a,
                None => next,
            };
            if modifiers.preserve {
                self.indices.add_range(anchor, next);
            } else {
                self.indices.select_range(anchor, next);
            }
        } else if !modifiers.preserve {
            self.anchor = Some(next);
            self.indices.select_only(next);
        }
        Some(next)
    }

    /// A right click on a row: the row alone is selected unless it already
    /// is, and it takes the focus and the anchor.
    pub fn select_context_item(&mut self, index: u32)
        ensures
            old(self).indices@.contains(index as int) ==> final(self).indices@ == old(self).indices@,
            !old(self).indices@.contains(index as int) ==> final(self).indices@ == set_int_range(
                index as int,
                index + 1,
            ),
            final(self).focused_index == Some(index),
            final(self).anchor == Some(index),
    {
        if !self.indices.contains(index) {
            self.indices.select_only(index);
        }
        self.focused_index = Some(index);
        self.anchor = Some(index);
    }
}

/// The focus always lands on a row of the list; a move by `delta` rows
/// from the focused row lands exactly `delta` rows away when that row
/// exists, and otherwise on the nearest end; a move to a row goes there
/// when it exists, and otherwise to the last row; so a move down and back
/// up, within the list, returns to the row it started from.
pub proof fn law_focus_moves_within_the_list(movement: FocusMove, focused: Option<u32>, total: u32, current: u32, delta: i32)
    requires
        total > 0,
    ensures
        focus_target(movement, focused, total) < total,
        0 <= current + delta < total ==> focus_target(FocusMove::Relative(delta), Some(current), total) == current + delta,
        current + delta < 0 ==> focus_target(FocusMove::Relative(delta), Some(current), total) == 0,
        current + delta >= total ==> focus_target(FocusMove::Relative(delta), Some(current), total) == total - 1,
        current < total ==> focus_target(FocusMove::Absolute(current), focused, total) == current,
        current >= total ==> focus_target(FocusMove::Absolute(current), focused, total) == total - 1,
        current < total && 0 <= current + delta < total && delta > i32::MIN ==> focus_target(
            FocusMove::Relative((0 - delta) as i32),
            Some(focus_target(FocusMove::Relative(delta), Some(current), total)),
            total,
        ) == current,
{
}

/// A click selects its row alone; Ctrl+click flips that row and keeps the
/// rest; Shift+click selects exactly the rows from the anchor to it (the
/// row alone without an anchor), and Ctrl+Shift+click adds them to the
/// selection.
pub proof fn law_gestures_select_rows(selected: Set<int>, anchor: Option<u32>, index: u32, i: int)
    ensures
        gesture_selection(selected, anchor, index, SelectionModifiers { extend: false, preserve: false }).contains(i) == (i
            == index),
        gesture_selection(selected, anchor, index, SelectionModifiers { extend: false, preserve: true }).contains(i) == (if i
            == index {
            !selected.contains(i)
        } else {
            selected.contains(i)
        }),
        ({
            let from: int = match anchor {
                Some(a) => a as int,
                None => index as int,
            };
            let between = (from <= i <= index) || (index <= i <= from);
            &&& gesture_selection(selected, anchor, index, SelectionModifiers { extend: true, preserve: false }).contains(i)
                == between
            &&& gesture_selection(selected, anchor, index, SelectionModifiers { extend: true, preserve: true }).contains(i)
                == (between || selected.contains(i))
        }),
{
}

} // verus!
