use everything_next::result_selection::{FocusMove, ResultSelection, SelectionModifiers};

const PLAIN: SelectionModifiers = SelectionModifiers { extend: false, preserve: false };
const SHIFT: SelectionModifiers = SelectionModifiers { extend: true, preserve: false };
const CTRL: SelectionModifiers = SelectionModifiers { extend: false, preserve: true };
const CTRL_SHIFT: SelectionModifiers = SelectionModifiers { extend: true, preserve: true };

fn selected(selection: &ResultSelection, total: u32) -> Vec<u32> {
    (0..total).filter(|index| selection.indices.contains(*index)).collect()
}

#[test]
fn clicks_select_toggle_and_extend() {
    let mut selection = ResultSelection::new();
    selection.select_row(3, PLAIN);
    assert_eq!(selected(&selection, 10), vec![3]);
    assert_eq!(selection.anchor, Some(3));

    selection.select_row(6, SHIFT);
    assert_eq!(selected(&selection, 10), vec![3, 4, 5, 6]);
    assert_eq!(selection.anchor, Some(3));
    assert_eq!(selection.focused_index, Some(6));

    selection.select_row(8, CTRL);
    assert_eq!(selected(&selection, 10), vec![3, 4, 5, 6, 8]);
    assert_eq!(selection.anchor, Some(8));

    selection.select_row(9, CTRL_SHIFT);
    assert_eq!(selected(&selection, 10), vec![3, 4, 5, 6, 8, 9]);

    selection.select_row(1, SHIFT);
    assert_eq!(selected(&selection, 10), vec![1, 2, 3, 4, 5, 6, 7, 8]);
}

#[test]
fn keyboard_moves_stop_at_the_ends() {
    let mut selection = ResultSelection::new();
    assert_eq!(selection.focus(FocusMove::Relative(1), PLAIN, 0), None);
    assert_eq!(selection.focus(FocusMove::Relative(-1), PLAIN, 5), Some(4));
    assert_eq!(selection.focus(FocusMove::Relative(3), PLAIN, 5), Some(4));
    assert_eq!(selection.focus(FocusMove::Relative(-10), PLAIN, 5), Some(0));
    assert_eq!(selection.focus(FocusMove::Absolute(99), PLAIN, 5), Some(4));
    assert_eq!(selected(&selection, 5), vec![4]);
    assert_eq!(selection.focus(FocusMove::Relative(-2), SHIFT, 5), Some(2));
    assert_eq!(selected(&selection, 5), vec![2, 3, 4]);
    assert_eq!(selection.focus(FocusMove::Relative(-1), CTRL, 5), Some(1));
    assert_eq!(selected(&selection, 5), vec![2, 3, 4]);
    assert_eq!(selection.anchor, Some(4));
    let mut fresh = ResultSelection::new();
    assert_eq!(fresh.focus(FocusMove::Relative(2), PLAIN, 5), Some(0));
    assert_eq!(fresh.focus(FocusMove::Relative(i32::MAX), PLAIN, 5), Some(4));
    assert_eq!(fresh.focus(FocusMove::Relative(i32::MIN), PLAIN, u32::MAX), Some(0));
}

#[test]
fn select_all_focuses_the_first_row_only_when_nothing_has_the_focus() {
    let mut selection = ResultSelection::new();
    selection.select_all(0);
    assert_eq!(selection.focused_index, None);
    selection.select_all(4);
    assert_eq!(selection.indices.count(), 4);
    assert_eq!(selection.focused_index, Some(0));
    selection.select_row(2, CTRL);
    selection.select_all(4);
    assert_eq!(selection.focused_index, Some(2));
    assert_eq!(selection.anchor, Some(2));
}

#[test]
fn context_clicks_keep_a_selection_that_holds_the_row() {
    let mut selection = ResultSelection::new();
    selection.select_row(2, PLAIN);
    selection.select_row(5, SHIFT);
    selection.select_context_item(3);
    assert_eq!(selected(&selection, 8), vec![2, 3, 4, 5]);
    assert_eq!(selection.anchor, Some(3));
    selection.select_context_item(7);
    assert_eq!(selected(&selection, 8), vec![7]);
    selection.toggle_focused();
    assert!(selected(&selection, 8).is_empty());
    selection.clear_indices();
    assert_eq!(selection.focused_index, Some(7));
    selection.clear();
    assert_eq!(selection.focused_index, None);
    assert_eq!(selection.anchor, None);
}
