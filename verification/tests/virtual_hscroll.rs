use std::collections::HashSet;

use scrolled_quran::widgets::virtual_hscroll::{
    clamp_to_valid, opt_iter_difference, LayoutExtent, VirtualHScroll, VirtualScrollAction,
};

#[test]
#[allow(clippy::reversed_empty_ranges)]
fn opt_iter_difference_equiv() {
    let ranges = [5..10, 7..15, -10..7, 20..10, 12..17];
    for old_range in &ranges {
        for new_range in &ranges {
            let (a, b) = opt_iter_difference(old_range, new_range);
            let opt_result = a.chain(b).collect::<HashSet<_>>();
            let mut naive_result = HashSet::new();
            for idx in old_range.clone() {
                if !new_range.contains(&idx) {
                    naive_result.insert(idx);
                }
            }
            assert_eq!(
                opt_result, naive_result,
                "The optimised version of differences should be equivalent to the trivially \
                correct method, but wasn't for {old_range:?} and {new_range:?}"
            );
        }
    }
}

#[test]
#[allow(clippy::reversed_empty_ranges)]
fn difference_parts_are_exact_ranges() {
    assert_eq!(opt_iter_difference(&(0..10), &(3..5)), (0..3, 5..10));
    assert_eq!(opt_iter_difference(&(0..10), &(20..30)), (0..10, 30..10));
    assert_eq!(opt_iter_difference(&(5..10), &(0..7)), (5..0, 7..10));
}

#[test]
fn new_list_has_nothing_active() {
    let v = VirtualHScroll::<u32>::new(4);
    assert_eq!(v.valid_range(), i64::MIN..i64::MAX);
    assert_eq!(v.active_range(), 4..4);
    assert_eq!(v.anchor_index(), 4);
    assert!(v.left_to_right());
    assert!(v.action_handled());
    assert_eq!(v.missed_actions_count(), 0);
    assert!(!v.warned_not_dense());
}

#[test]
fn valid_range_and_direction() {
    let v = VirtualHScroll::<u32>::new(0).with_valid_range(3..20);
    assert_eq!(v.valid_range(), 3..20);
    let v = v.with_valid_range(10..10);
    assert_eq!(v.valid_range(), 10..10);
    let mut v = v.with_direction(false);
    assert!(!v.left_to_right());
    v.set_valid_range(-8..-4);
    assert_eq!(v.valid_range(), -8..-4);
    v.set_valid_range(0..0);
    assert_eq!(v.valid_range(), 0..0);
    v.set_direction(true);
    assert!(v.left_to_right());
    v.overwrite_anchor(77);
    assert_eq!(v.anchor_index(), 77);
}

#[test]
fn clamping_to_the_valid_range() {
    assert_eq!(clamp_to_valid(&(-5..50), &(0..10)), 0..10);
    assert_eq!(clamp_to_valid(&(3..7), &(0..10)), 3..7);
    assert_eq!(clamp_to_valid(&(12..15), &(0..10)), 9..10);
    assert_eq!(clamp_to_valid(&(-9..-3), &(0..10)), 0..0);
    assert_eq!(clamp_to_valid(&(-9..-3), &(4..4)), 4..4);
}

#[test]
fn requests_and_their_handling() {
    let mut v = VirtualHScroll::<u32>::new(0).with_valid_range(0..100);
    let action = v.request_range(&(-5..8)).expect("a new range");
    assert_eq!(action.old_active, 0..0);
    assert_eq!(action.target, 0..8);
    assert!(!v.action_handled());
    // No second request before the first is handled.
    assert!(v.request_range(&(1..9)).is_none());
    assert!(v.will_handle_action(&action));
    assert!(v.action_handled());
    assert_eq!(v.active_range(), 0..8);
    // Nothing to ask where the active range would not change.
    assert!(v.request_range(&(0..8)).is_none());
    assert!(v.action_handled());
    // An action meant for another state is reported.
    let stray = VirtualScrollAction { old_active: 50..60, target: 2..4 };
    assert!(!v.will_handle_action(&stray));
    assert_eq!(v.active_range(), 2..4);
}

#[test]
fn missed_requests_are_counted_and_resent() {
    let mut v = VirtualHScroll::<u32>::new(0);
    let report = v.note_paint();
    assert!(!report.first_miss && !report.resent);
    assert_eq!(v.missed_actions_count(), 0);
    let action = v.request_range(&(0..5)).unwrap();
    let report = v.note_paint();
    assert!(report.first_miss && !report.resent);
    for _ in 0..10 {
        let report = v.note_paint();
        assert!(!report.first_miss && !report.resent);
    }
    assert_eq!(v.missed_actions_count(), 11);
    let report = v.note_paint();
    assert!(report.resent);
    assert!(v.action_handled());
    assert_eq!(v.missed_actions_count(), 12);
    v.will_handle_action(&action);
    assert_eq!(v.missed_actions_count(), 1);
}

#[test]
fn settling_keeps_the_anchor_valid() {
    let mut v = VirtualHScroll::<u32>::new(50).with_valid_range(0..10);
    assert_eq!(v.settle_anchor(), (true, false));
    assert_eq!(v.anchor_index(), 9);
    assert!(v.anchor_at_valid_end());
    assert!(!v.anchor_at_valid_start());
    v.overwrite_anchor(-3);
    assert_eq!(v.settle_anchor(), (false, true));
    assert_eq!(v.anchor_index(), 0);
    assert!(v.anchor_at_valid_start());
    v.overwrite_anchor(4);
    assert_eq!(v.settle_anchor(), (false, false));
    assert_eq!(v.anchor_index(), 4);
    // An empty valid range: the anchor goes to its start.
    let mut e = VirtualHScroll::<u32>::new(8).with_valid_range(5..5);
    assert_eq!(e.settle_anchor(), (true, true));
    assert_eq!(e.anchor_index(), 5);
}

#[test]
fn candidate_ranges() {
    let mut v = VirtualHScroll::<u32>::new(10);
    let action = v.request_range(&(8..14)).unwrap();
    v.will_handle_action(&action);
    let m = LayoutExtent {
        item_crossing_start: None,
        first_item: Some(8),
        items_needed_before: 3,
        reaches_end: false,
        item_crossing_end: 13,
        last_item: Some(13),
        items_needed_after: 2,
        items_in_margin_before: 4,
        items_in_margin_after: 6,
    };
    assert_eq!(v.candidate_range(&m), 5..16);
    let m2 = LayoutExtent { item_crossing_start: Some(9), reaches_end: true, ..m };
    assert_eq!(v.candidate_range(&m2), 9..14);
    // After a jump, the anchor is not active: the margins around it.
    v.overwrite_anchor(100);
    assert_eq!(v.candidate_range(&m), 96..106);
}

#[test]
fn visible_range_updates_and_density() {
    let mut v = VirtualHScroll::<u32>::new(3);
    // Nothing visible: the empty range at the start of the active range.
    assert_eq!(v.visible_range_update(None, None), None);
    // One visible item: a range that holds it.
    assert_eq!(v.visible_range_update(Some(3), Some(3)), Some(3..4));
    // The same range again is not reported twice.
    assert_eq!(v.visible_range_update(Some(3), Some(3)), None);
    assert_eq!(v.visible_range_update(Some(3), Some(6)), Some(3..7));
    assert_eq!(v.visible_range_update(Some(3), Some(6)), None);
    assert_eq!(v.visible_range_update(None, None), Some(3..3));
    assert!(v.note_density(false));
    assert!(!v.note_density(false));
    assert!(!v.note_density(true));
    assert!(v.note_density(false));
}
#[test]
fn loaded_children() {
    let mut v = VirtualHScroll::<&str>::new(0);
    assert_eq!(v.len(), 0);
    let action = v.request_range(&(3..5)).unwrap();
    assert!(v.will_handle_action(&action));
    assert!(!v.add_child(4, "four"));
    assert!(!v.add_child(3, "three"));
    assert!(v.add_child(3, "THREE"));
    assert_eq!(v.len(), 2);
    assert_eq!(v.children_ids(), vec![3, 4]);
    assert_eq!(v.child(3), Some(&"THREE"));
    assert_eq!(v.child(5), None);
    *v.child_mut(4) = "FOUR";
    assert_eq!(v.child(4), Some(&"FOUR"));
    // The driver moves the active range to 4..6.
    let action = v.request_range(&(4..6)).unwrap();
    assert_eq!(action.old_active, 3..5);
    assert!(v.will_handle_action(&action));
    assert_eq!(v.remove_child(3), Some("THREE"));
    assert_eq!(v.remove_child(3), None);
    assert!(!v.add_child(5, "five"));
    assert_eq!(v.len(), 2);
    assert_eq!(v.children_ids(), vec![4, 5]);
    assert_eq!(v.items().len(), 2);
    assert_eq!(v.items().get(&5), Some(&"five"));
}

#[test]
fn a_driver_keeps_the_active_children_loaded() {
    let mut v = VirtualHScroll::<String>::new(0).with_valid_range(0..100);
    let made = |i: i64| format!("item {i}");
    let action = v.request_range(&(0..5)).unwrap();
    let (in_sync, removed) = v.handle_action(&action, made);
    assert!(in_sync);
    assert!(removed.is_empty());
    assert_eq!(v.children_ids(), vec![0, 1, 2, 3, 4]);
    assert_eq!(v.len(), 5);
    assert_eq!(v.child(3), Some(&"item 3".to_string()));
    *v.child_mut(3) = "kept".to_string();

    let action = v.request_range(&(3..8)).unwrap();
    let (in_sync, mut removed) = v.handle_action(&action, made);
    assert!(in_sync);
    removed.sort();
    assert_eq!(
        removed,
        vec![(0, "item 0".to_string()), (1, "item 1".to_string()), (2, "item 2".to_string())]
    );
    assert_eq!(v.children_ids(), vec![3, 4, 5, 6, 7]);
    assert_eq!(v.len(), 5);
    // A child that stays active is not made again.
    assert_eq!(v.child(3), Some(&"kept".to_string()));
    assert_eq!(v.active_range(), 3..8);
    assert!(v.action_handled());

    // An action made for another state is still carried out, and reported.
    let stray = VirtualScrollAction { old_active: 20..22, target: 6..7 };
    let (in_sync, removed) = v.handle_action(&stray, made);
    assert!(!in_sync);
    assert!(removed.is_empty());
    assert_eq!(v.active_range(), 6..7);
}
