use std::collections::BTreeSet;

use everything_next::model::{
    normalize_selection_ranges, IndexSelection, SelectionRange, SortDirection, SortSpec,
};

#[test]
fn merges_adjacent_ranges() {
    let mut selection = IndexSelection::default();
    selection.add_range(4, 8);
    selection.add_range(9, 12);
    selection.add_range(1, 3);
    assert_eq!(selection.count(), 12);
    assert_eq!(selection.ranges().len(), 1);
}

#[test]
fn toggling_splits_a_range() {
    let mut selection = IndexSelection::default();
    selection.select_range(2, 6);
    selection.toggle(4);
    assert!(selection.contains(2));
    assert!(!selection.contains(4));
    assert!(selection.contains(6));
    assert_eq!(selection.count(), 4);
    assert_eq!(selection.ranges().len(), 2);
}

#[test]
fn mixed_range_operations_match_an_explicit_set() {
    let mut selection = IndexSelection::default();
    let mut expected = BTreeSet::new();
    for (start, end) in [(20, 25), (2, 7), (8, 12), (40, 35)] {
        selection.add_range(start, end);
        for index in start.min(end)..=start.max(end) {
            expected.insert(index);
        }
    }
    for index in [2, 5, 11, 18, 37, 50] {
        selection.toggle(index);
        if !expected.remove(&index) {
            expected.insert(index);
        }
    }

    assert_eq!(
        selection.count(),
        u64::try_from(expected.len()).expect("test set length fits into u64")
    );
    for index in 0..=55 {
        assert_eq!(
            selection.contains(index),
            expected.contains(&index),
            "{index}"
        );
    }
}

#[test]
fn select_all_is_constant_memory() {
    let mut selection = IndexSelection::default();
    selection.select_all(500_000);
    assert_eq!(selection.count(), 500_000);
    assert_eq!(selection.ranges().len(), 1);
}

#[test]
fn sort_direction_toggles() {
    assert_eq!(SortDirection::Ascending.toggle(), SortDirection::Descending);
    assert_eq!(SortDirection::Descending.toggle(), SortDirection::Ascending);
}

#[test]
fn default_sort_is_name_ascending() {
    let sort = SortSpec::default();
    assert_eq!(sort.direction, SortDirection::Ascending);
}

#[test]
fn selection_ranges_are_normalized() {
    let range = SelectionRange::new(12, 4);
    assert_eq!(range.start, 4);
    assert_eq!(range.end, 12);
    assert_eq!(range.len(), 9);
}

#[test]
fn normalizes_overlapping_selection_ranges() {
    let ranges = normalize_selection_ranges(vec![
        SelectionRange::new(20, 25),
        SelectionRange::new(4, 8),
        SelectionRange::new(9, 12),
        SelectionRange::new(24, 30),
    ]);
    assert_eq!(
        ranges,
        vec![SelectionRange::new(4, 12), SelectionRange::new(20, 30)]
    );
}

#[test]
fn toggling_twice_restores_the_selection() {
    let mut selection = IndexSelection::default();
    selection.add_range(3, 9);
    selection.add_range(20, 22);
    let before = selection.ranges();
    for index in [0, 3, 6, 9, 15, 21, 22, u32::MAX] {
        selection.toggle(index);
        selection.toggle(index);
        assert_eq!(selection.ranges(), before, "{index}");
    }
}

#[test]
fn add_ranges_accepts_reversed_and_overlapping_ranges() {
    let mut selection = IndexSelection::default();
    selection.select_only(50);
    selection.add_ranges(vec![
        SelectionRange { start: 12, end: 4 },
        SelectionRange { start: 10, end: 20 },
        SelectionRange { start: 49, end: 49 },
    ]);
    assert_eq!(
        selection.ranges(),
        vec![SelectionRange::new(4, 20), SelectionRange::new(49, 50)]
    );
    assert_eq!(selection.count(), 19);
    assert_eq!(selection.first(), Some(4));
}

#[test]
fn selections_at_the_top_of_the_index_range() {
    let mut selection = IndexSelection::default();
    selection.add_range(u32::MAX, u32::MAX - 2);
    assert_eq!(selection.count(), 3);
    selection.toggle(u32::MAX);
    assert!(!selection.contains(u32::MAX));
    assert!(selection.contains(u32::MAX - 1));
    selection.clear();
    assert!(selection.is_empty());
    assert_eq!(selection.first(), None);
    selection.select_all(0);
    assert!(selection.is_empty());
}

#[test]
fn toggling_an_index_twice_gives_back_the_ranges() {
    let mut selection = IndexSelection::default();
    selection.select_range(3, 9);
    let before = selection.ranges();
    for index in [0, 3, 6, 9, 12] {
        selection.toggle(index);
        selection.toggle(index);
        assert_eq!(selection.ranges(), before);
    }
}

#[test]
fn the_same_indices_have_the_same_ranges() {
    let mut a = IndexSelection::default();
    a.add_range(1, 4);
    a.add_range(5, 9);
    let mut b = IndexSelection::default();
    b.select_range(9, 1);
    assert_eq!(a.ranges(), b.ranges());
    assert_eq!(normalize_selection_ranges(a.ranges()), a.ranges());
}

#[test]
fn adding_ranges_at_once_or_one_by_one_gives_the_same_selection() {
    let mut at_once = IndexSelection::default();
    at_once.add_ranges(vec![SelectionRange::new(9, 5), SelectionRange::new(1, 3), SelectionRange::new(20, 20)]);
    let mut one_by_one = IndexSelection::default();
    one_by_one.add_range(9, 5);
    one_by_one.add_range(1, 3);
    one_by_one.add_range(20, 20);
    assert_eq!(at_once.ranges(), one_by_one.ranges());
    assert_eq!(at_once.ranges(), vec![SelectionRange::new(1, 3), SelectionRange::new(5, 9), SelectionRange::new(20, 20)]);
    let before = at_once.ranges();
    at_once.add_ranges(Vec::new());
    assert_eq!(at_once.ranges(), before);
}
