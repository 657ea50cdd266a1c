use vstd::prelude::*;

use core::ops::Range;
use std::collections::HashMap;
use vstd::std_specs::iter::IteratorSpec;

verus! {

broadcast use vstd::std_specs::hash::group_hash_axioms;

// --- MARK: ID RANGES

/// `id` lies in the half-open range `r`.
pub open spec fn in_range(r: Range<i64>, id: int) -> bool {
    r.start <= id < r.end
}

/// `id` lies in the half-open range of bounds `b`.
pub open spec fn in_bounds(b: (i64, i64), id: int) -> bool {
    b.0 <= id < b.1
}

/// `a` and `b` hold the same bounds.
pub open spec fn same_range(a: Range<i64>, b: Range<i64>) -> bool {
    a.start == b.start && a.end == b.end
}

fn range_eq(a: &Range<i64>, b: &Range<i64>) -> (r: bool)
    ensures
        r == same_range(*a, *b),
{
    a.start == b.start && a.end == b.end
}

fn copy_range(a: &Range<i64>) -> (r: Range<i64>)
    ensures
        same_range(r, *a),
{
    a.start..a.end
}

/// The range `target`, limited to the ids of `valid`: `valid` itself where
/// it is empty, else `target` with its start clamped to the last valid id and
/// its end clamped to the end of `valid`.
pub open spec fn clamped(target: Range<i64>, valid: Range<i64>) -> (i64, i64) {
    if !(valid.start < valid.end) {
        (valid.start, valid.end)
    } else {
        (
            if target.start < valid.start {
                valid.start
            } else if target.start > valid.end - 1 {
                (valid.end - 1) as i64
            } else {
                target.start
            },
            if target.end < valid.start {
                valid.start
            } else if target.end > valid.end {
                valid.end
            } else {
                target.end
            },
        )
    }
}

/// Limits `target` to the ids of `valid` (see [`clamped`]).
pub fn clamp_to_valid(target: &Range<i64>, valid: &Range<i64>) -> (r: Range<i64>)
    ensures
        (r.start, r.end) == clamped(*target, *valid),
        valid.start >= valid.end ==> same_range(r, *valid),
        valid.start < valid.end ==> {
            &&& r.start == clamp_int(target.start as int, valid.start as int, valid.end - 1)
            &&& r.end == clamp_int(target.end as int, valid.start as int, valid.end as int)
        },
{
    proof {
        lemma_clamped_bounds_each_alone(*target, *valid);
    }
    if !(valid.start < valid.end) {
        copy_range(valid)
    } else {
        let last = valid.end - 1;
        let start = if target.start < valid.start {
            valid.start
        } else if target.start > last {
            last
        } else {
            target.start
        };
        let end = if target.end < valid.start {
            valid.start
        } else if target.end > valid.end {
            valid.end
        } else {
            target.end
        };
        start..end
    }
}

/// `x` brought into `[lo, hi]`: `lo` below it, `hi` above it, else `x`.
pub open spec fn clamp_int(x: int, lo: int, hi: int) -> int {
    if x < lo {
        lo
    } else if x > hi {
        hi
    } else {
        x
    }
}

/// Clamping a target to a non-empty valid range clamps each bound on its
/// own: the start into the valid ids, the end into the valid range, each
/// whatever the other bound of the target is. A start that is a valid id and
/// an end within the valid range are kept as they are.
pub proof fn lemma_clamped_bounds_each_alone(target: Range<i64>, valid: Range<i64>)
    ensures
        valid.start < valid.end ==> {
            let (s, e) = clamped(target, valid);
            &&& s == clamp_int(target.start as int, valid.start as int, valid.end - 1)
            &&& e == clamp_int(target.end as int, valid.start as int, valid.end as int)
            &&& valid.start <= target.start < valid.end ==> s == target.start
            &&& valid.start <= target.end <= valid.end ==> e == target.end
        },
        valid.start >= valid.end ==> clamped(target, valid) == (valid.start, valid.end),
{
}

/// The start of a clamped range depends on the start of the target only,
/// and its end on the end of the target only.
pub proof fn lemma_clamped_bounds_are_independent(a: Range<i64>, b: Range<i64>, valid: Range<i64>)
    ensures
        a.start == b.start ==> clamped(a, valid).0 == clamped(b, valid).0,
        a.end == b.end ==> clamped(a, valid).1 == clamped(b, valid).1,
{
}

/// A range clamped to a valid range requests no id outside it; where the
/// valid range is not empty, its start is a valid id and its end lies within
/// the valid range.
pub proof fn lemma_clamped_is_valid(target: Range<i64>, valid: Range<i64>)
    ensures
        ({
            let (s, e) = clamped(target, valid);
            &&& forall|id: int| #[trigger] in_bounds((s, e), id) ==> in_range(valid, id)
            &&& valid.start < valid.end ==> {
                &&& valid.start <= s < valid.end
                &&& valid.start <= e <= valid.end
            }
        }),
{
}

/// The ids of `old_range` that are not in `new_range`, as two ranges: those
/// before the start of `new_range`, and those from its end on.
pub open spec fn difference_parts(old_range: Range<i64>, new_range: Range<i64>) -> (
    (i64, i64),
    (i64, i64),
) {
    (
        (
            old_range.start,
            if new_range.start < old_range.end {
                new_range.start
            } else {
                old_range.end
            },
        ),
        (
            if new_range.end > old_range.start {
                new_range.end
            } else {
                old_range.start
            },
            old_range.end,
        ),
    )
}

/// The ids of `old_range` that are not in `new_range`, as two ranges, in
/// place of going through `old_range` and testing each id.
pub fn opt_iter_difference(old_range: &Range<i64>, new_range: &Range<i64>) -> (r: (
    Range<i64>,
    Range<i64>,
))
    ensures
        ((r.0.start, r.0.end), (r.1.start, r.1.end)) == difference_parts(*old_range, *new_range),
{
    let first_end = if new_range.start < old_range.end {
        new_range.start
    } else {
        old_range.end
    };
    let second_start = if new_range.end > old_range.start {
        new_range.end
    } else {
        old_range.start
    };
    (old_range.start..first_end, second_start..old_range.end)
}

/// The two ranges of [`opt_iter_difference`] hold exactly the ids of
/// `old_range` that are not in `new_range`, whatever the two ranges (empty or
/// reversed ones included); where `new_range` does not end before it starts,
/// no id is in both.
pub proof fn lemma_difference_parts_exact(old_range: Range<i64>, new_range: Range<i64>)
    ensures
        ({
            let (first, second) = difference_parts(old_range, new_range);
            &&& forall|id: int|
                (#[trigger] in_bounds(first, id) || #[trigger] in_bounds(second, id)) <==> (
                in_range(old_range, id) && !in_range(new_range, id))
            &&& new_range.start <= new_range.end ==> forall|id: int|
                !(#[trigger] in_bounds(first, id) && #[trigger] in_bounds(second, id))
        }),
{
}

// --- MARK: STATE

/// Asks the driver to change which children are loaded: from `old_active`
/// to `target`.
#[derive(Debug)]
pub struct VirtualScrollAction {
    pub old_active: Range<i64>,
    pub target: Range<i64>,
}

/// What the horizontal virtual scroll reports to its driver.
#[derive(Debug)]
pub enum VirtualHScrollAction {
    ActiveRange(VirtualScrollAction),
    VisibleRange(Range<i64>),
}

/// The abstract state of a [`VirtualHScroll`].
pub struct ScrollState<W> {
    pub valid_range: Range<i64>,
    pub active_range: Range<i64>,
    pub action_handled: bool,
    pub visible_range: Range<i64>,
    pub anchor_index: i64,
    pub left_to_right: bool,
    pub warned_not_dense: bool,
    pub missed_actions_count: u32,
    pub items: Map<i64, W>,
}

/// The id-level state of a horizontal virtual scrolling list: which ids may
/// be loaded (`valid_range`), which are asked to be loaded (`active_range`),
/// which are on screen (`visible_range`), and the item the scroll position is
/// measured from (`anchor_index`).
///
/// The children (of type `W`) are kept by their ids; their positions in
/// logical pixels are kept by the widget that owns this state.
pub struct VirtualHScroll<W> {
    valid_range: Range<i64>,
    active_range: Range<i64>,
    action_handled: bool,
    visible_range: Range<i64>,
    anchor_index: i64,
    left_to_right: bool,
    warned_not_dense: bool,
    missed_actions_count: u32,
    items: HashMap<i64, W>,
}

impl<W> View for VirtualHScroll<W> {
    type V = ScrollState<W>;

    closed spec fn view(&self) -> ScrollState<W> {
        ScrollState {
            valid_range: self.valid_range,
            active_range: self.active_range,
            action_handled: self.action_handled,
            visible_range: self.visible_range,
            anchor_index: self.anchor_index,
            left_to_right: self.left_to_right,
            warned_not_dense: self.warned_not_dense,
            missed_actions_count: self.missed_actions_count,
            items: self.items@,
        }
    }
}

/// The state after the driver announced that it handles `action`: the
/// request counts as handled, the active range is its target, and a count of
/// missed requests falls back to 1.
pub open spec fn handled_state<W>(s: ScrollState<W>, action: VirtualScrollAction) -> ScrollState<W> {
    ScrollState {
        action_handled: true,
        missed_actions_count: if s.missed_actions_count > 0 {
            1
        } else {
            0
        },
        active_range: action.target,
        ..s
    }
}

/// Handling an action makes its target the active range and marks the
/// request handled; a count of missed requests drops to one where there were
/// misses and stays at zero where there were none; nothing else changes.
pub proof fn lemma_handled_state_meaning<W>(s: ScrollState<W>, action: VirtualScrollAction)
    ensures
        handled_state(s, action).active_range == action.target,
        handled_state(s, action).action_handled,
        handled_state(s, action).missed_actions_count <= 1,
        handled_state(s, action).missed_actions_count == 0 <==> s.missed_actions_count == 0,
        handled_state(s, action).items == s.items,
        handled_state(s, action).anchor_index == s.anchor_index,
        handled_state(s, action).valid_range == s.valid_range,
        handled_state(s, action).visible_range == s.visible_range,
        handled_state(s, action).left_to_right == s.left_to_right,
        handled_state(s, action).warned_not_dense == s.warned_not_dense,
{
}

/// The anchor after the scroll position has been resolved: moved to the
/// last valid id where it reached the end of the valid range, then to its
/// start where it lies before it. The flags tell whether the first and the
/// second of these held.
pub open spec fn settled_anchor(anchor: i64, valid: Range<i64>) -> (i64, bool, bool) {
    let at_end = anchor >= valid.end - 1;
    let a1: int = if at_end {
        valid.end - 1
    } else {
        anchor as int
    };
    if a1 < valid.start {
        (valid.start, at_end, true)
    } else {
        (a1 as i64, at_end, false)
    }
}

/// What a paint pass found about the last request to the driver.
pub struct PaintReport {
    /// The request was not handled before a paint, for the first time.
    pub first_miss: bool,
    /// The request has been missed too many times; it is sent again.
    pub resent: bool,
}

/// What a layout pass measured, in ids and in numbers of items (the
/// widget rounds its distances in logical pixels up to whole items of the
/// mean width).
#[derive(Clone, Copy, Debug)]
pub struct LayoutExtent {
    /// The last active item that starts a page and a half or more before
    /// the view, if any.
    pub item_crossing_start: Option<i64>,
    /// The first loaded active item, if any.
    pub first_item: Option<i64>,
    /// Items still needed before the loaded ones to fill the margin before
    /// the view.
    pub items_needed_before: i64,
    /// Whether the loaded items reach the margin after the view.
    pub reaches_end: bool,
    /// The last active item that starts within the margin after the view.
    pub item_crossing_end: i64,
    /// The last loaded active item, if any.
    pub last_item: Option<i64>,
    /// Items still needed after the loaded ones to fill the margin after the
    /// view.
    pub items_needed_after: i64,
    /// Items of mean width in the margin before the view.
    pub items_in_margin_before: i64,
    /// Items of mean width in the view and the margin after it.
    pub items_in_margin_after: i64,
}

/// The ids a layout asks to have loaded, before they are limited to the
/// valid ones: where the anchor is active, the loaded items extended by the
/// items still needed on each side; else (after a jump) the items around the
/// anchor that fill the view and its margins.
pub open spec fn candidate_bounds<W>(s: ScrollState<W>, m: LayoutExtent) -> (int, int) {
    if in_range(s.active_range, s.anchor_index as int) {
        (
            match m.item_crossing_start {
                Some(c) => c as int,
                None => (match m.first_item {
                    Some(f) => f,
                    None => s.anchor_index,
                }) - m.items_needed_before,
            },
            if m.reaches_end {
                m.item_crossing_end + 1
            } else {
                (match m.last_item {
                    Some(l) => l,
                    None => s.anchor_index,
                }) + m.items_needed_after + 1
            },
        )
    } else {
        (
            s.anchor_index - m.items_in_margin_before,
            s.anchor_index + m.items_in_margin_after,
        )
    }
}

/// The arithmetic of [`candidate_bounds`] stays within `i64`, step by step.
pub open spec fn candidate_fits<W>(s: ScrollState<W>, m: LayoutExtent) -> bool {
    let (start, end) = candidate_bounds(s, m);
    let last: int = match m.last_item {
        Some(l) => l as int,
        None => s.anchor_index as int,
    };
    &&& i64::MIN <= start <= i64::MAX
    &&& i64::MIN <= end <= i64::MAX
    &&& (in_range(s.active_range, s.anchor_index as int) && !m.reaches_end) ==> i64::MIN <= last
        + m.items_needed_after <= i64::MAX
}

/// Where the anchor is active, the candidate range starts at the item that
/// crosses the margin before the view, or else the items still needed before
/// the first loaded item (the anchor where none is loaded); it ends just
/// after the item that crosses the margin after the view where the loaded
/// items reach it, or else just after the items still needed after the last
/// loaded item (or the anchor). After a jump it spans the margins around the
/// anchor.
pub proof fn lemma_candidate_bounds_sides<W>(s: ScrollState<W>, m: LayoutExtent)
    ensures
        in_range(s.active_range, s.anchor_index as int) ==> {
            &&& m.item_crossing_start matches Some(c) ==> candidate_bounds(s, m).0 == c
            &&& m.item_crossing_start is None ==> candidate_bounds(s, m).0 == (match m.first_item {
                Some(f) => f,
                None => s.anchor_index,
            }) - m.items_needed_before
            &&& m.reaches_end ==> candidate_bounds(s, m).1 == m.item_crossing_end + 1
            &&& !m.reaches_end ==> candidate_bounds(s, m).1 == (match m.last_item {
                Some(l) => l,
                None => s.anchor_index,
            }) + m.items_needed_after + 1
        },
        !in_range(s.active_range, s.anchor_index as int) ==> candidate_bounds(s, m) == (
            s.anchor_index - m.items_in_margin_before,
            s.anchor_index + m.items_in_margin_after,
        ),
{
}

/// The two ends of the candidate range are decided apart: its start does
/// not depend on what was measured after the view, nor its end on what was
/// measured before it; after a jump, only the margins count.
pub proof fn lemma_candidate_sides_are_independent<W>(
    s: ScrollState<W>,
    m1: LayoutExtent,
    m2: LayoutExtent,
)
    ensures
        in_range(s.active_range, s.anchor_index as int) && m1.item_crossing_start
            == m2.item_crossing_start && m1.first_item == m2.first_item && m1.items_needed_before
            == m2.items_needed_before ==> candidate_bounds(s, m1).0 == candidate_bounds(s, m2).0,
        in_range(s.active_range, s.anchor_index as int) && m1.reaches_end == m2.reaches_end
            && m1.item_crossing_end == m2.item_crossing_end && m1.last_item == m2.last_item
            && m1.items_needed_after == m2.items_needed_after ==> candidate_bounds(s, m1).1
            == candidate_bounds(s, m2).1,
        !in_range(s.active_range, s.anchor_index as int) && m1.items_in_margin_before
            == m2.items_in_margin_before && m1.items_in_margin_after == m2.items_in_margin_after
            ==> candidate_bounds(s, m1) == candidate_bounds(s, m2),
{
}

/// What the candidate range of a layout covers.
///
/// Where the anchor is active: with no item crossing the margin before the
/// view, the range starts at or before the first loaded item (the anchor
/// where none is loaded), given a non-negative number of items needed before
/// it; where the loaded items do not reach the margin after the view, it ends
/// after the last loaded item (or the anchor), given a non-negative number of
/// items needed after it; where they do, it ends after the item crossing that
/// margin. After a jump (the anchor not active), the range holds the anchor,
/// given a non-negative margin before it and a margin of at least one item
/// from it on.
pub proof fn lemma_candidate_covers<W>(s: ScrollState<W>, m: LayoutExtent)
    ensures
        in_range(s.active_range, s.anchor_index as int) && m.item_crossing_start is None
            && m.items_needed_before >= 0 ==> candidate_bounds(s, m).0 <= (match m.first_item {
            Some(f) => f,
            None => s.anchor_index,
        }),
        in_range(s.active_range, s.anchor_index as int) && !m.reaches_end && m.items_needed_after
            >= 0 ==> candidate_bounds(s, m).1 > (match m.last_item {
            Some(l) => l,
            None => s.anchor_index,
        }),
        in_range(s.active_range, s.anchor_index as int) && m.reaches_end ==> candidate_bounds(
            s,
            m,
        ).1 == m.item_crossing_end + 1,
        !in_range(s.active_range, s.anchor_index as int) && m.items_in_margin_before >= 0
            && m.items_in_margin_after >= 1 ==> candidate_bounds(s, m).0 <= s.anchor_index
            < candidate_bounds(s, m).1,
{
}

/// The visible range recorded from the first and the last items found on
/// screen: half-open, ending just after the last; the empty range at
/// `active_start` where none is found.
pub open spec fn visible_bounds(active_start: i64, first: Option<i64>, last: Option<i64>) -> (
    int,
    int,
) {
    let s = match first {
        Some(f) => f as int,
        None => active_start as int,
    };
    (s, match last {
        Some(l) => l + 1,
        None => s,
    })
}

/// The visible range starts at the first item found on screen (at the
/// start of the active range where none is) and ends just after the last
/// item found (empty where none is).
pub proof fn lemma_visible_bounds_meaning(active_start: i64, first: Option<i64>, last: Option<i64>)
    ensures
        first matches Some(f) ==> visible_bounds(active_start, first, last).0 == f,
        first is None ==> visible_bounds(active_start, first, last).0 == active_start,
        last is None ==> visible_bounds(active_start, first, last).1 == visible_bounds(
            active_start,
            first,
            last,
        ).0,
        last matches Some(l) ==> visible_bounds(active_start, first, last).1 == l + 1,
{
}

/// A visible range is reported once: after an update has recorded the range
/// of some first and last visible items, an update with the same items
/// computes that very range again, so (by the contract of
/// `visible_range_update`) it reports nothing.
pub proof fn lemma_visible_range_reported_once<W>(
    before: ScrollState<W>,
    after: ScrollState<W>,
    first: Option<i64>,
    last: Option<i64>,
)
    requires
        after == (ScrollState { visible_range: after.visible_range, ..before }),
        (after.visible_range.start as int, after.visible_range.end as int) == visible_bounds(
            before.active_range.start,
            first,
            last,
        ),
    ensures
        visible_bounds(after.active_range.start, first, last) == (
            after.visible_range.start as int,
            after.visible_range.end as int,
        ),
{
}

impl<W> VirtualHScroll<W> {
    /// A new list whose item `initial_anchor` starts at the start of the
    /// view, with all ids but `i64::MAX` valid and nothing loaded yet.
    pub fn new(initial_anchor: i64) -> (r: Self)
        ensures
            r@.valid_range.start == i64::MIN,
            r@.valid_range.end == i64::MAX,
            same_range(r@.active_range, initial_anchor..initial_anchor),
            same_range(r@.visible_range, initial_anchor..initial_anchor),
            r@.action_handled,
            r@.missed_actions_count == 0,
            r@.anchor_index == initial_anchor,
            r@.left_to_right,
            !r@.warned_not_dense,
            r@.items == Map::<i64, W>::empty(),
    {
        VirtualHScroll {
            valid_range: i64::MIN..i64::MAX,
            active_range: initial_anchor..initial_anchor,
            visible_range: initial_anchor..initial_anchor,
            action_handled: true,
            missed_actions_count: 0,
            anchor_index: initial_anchor,
            left_to_right: true,
            warned_not_dense: false,
            items: HashMap::new(),
        }
    }

    /// Sets the range of valid ids; it must not end before it starts (an
    /// empty range is accepted).
    pub fn with_valid_range(self, valid_range: Range<i64>) -> (r: Self)
        requires
            valid_range.start <= valid_range.end,
        ensures
            r@ == (ScrollState { valid_range, ..self@ }),
    {
        let mut this = self;
        this.valid_range = valid_range;
        this
    }

    /// Sets the direction in which the children are laid out.
    pub fn with_direction(self, left_to_right: bool) -> (r: Self)
        ensures
            r@ == (ScrollState { left_to_right, ..self@ }),
    {
        let mut this = self;
        this.left_to_right = left_to_right;
        this
    }

    /// Sets the range of valid ids; it must not end before it starts (an
    /// empty range is accepted).
    pub fn set_valid_range(&mut self, range: Range<i64>)
        requires
            range.start <= range.end,
        ensures
            final(self)@ == (ScrollState { valid_range: range, ..old(self)@ }),
    {
        self.valid_range = range;
    }

    /// Sets the direction in which the children are laid out.
    pub fn set_direction(&mut self, left_to_right: bool)
        ensures
            final(self)@ == (ScrollState { left_to_right, ..old(self)@ }),
    {
        self.left_to_right = left_to_right;
    }

    /// Makes item `idx` the anchor (the widget puts it at the start of the
    /// view).
    pub fn overwrite_anchor(&mut self, idx: i64)
        ensures
            final(self)@ == (ScrollState { anchor_index: idx, ..old(self)@ }),
    {
        self.anchor_index = idx;
    }

    /// The driver is about to handle `action`: the active range becomes its
    /// target. Returns whether `action` was made for the current active range
    /// (a driver that sends an action to the wrong list gets `false`).
    pub fn will_handle_action(&mut self, action: &VirtualScrollAction) -> (in_sync: bool)
        ensures
            in_sync == same_range(old(self)@.active_range, action.old_active),
            final(self)@ == handled_state(old(self)@, *action),
    {
        let in_sync = range_eq(&self.active_range, &action.old_active);
        self.action_handled = true;
        if self.missed_actions_count > 0 {
            self.missed_actions_count = 1;
        }
        self.active_range = copy_range(&action.target);
        proof {
            assert(self.active_range == action.target);
        }
        in_sync
    }

    /// The anchor is the last valid item: scrolling forward is capped.
    pub fn anchor_at_valid_end(&self) -> (r: bool)
        ensures
            r == (self@.anchor_index + 1 == self@.valid_range.end),
    {
        self.valid_range.end != i64::MIN && self.anchor_index == self.valid_range.end - 1
    }

    /// The anchor is the first valid item: scrolling back is capped.
    pub fn anchor_at_valid_start(&self) -> (r: bool)
        ensures
            r == (self@.anchor_index == self@.valid_range.start),
    {
        self.anchor_index == self.valid_range.start
    }

    /// Keeps the anchor within the valid range once the scroll position has
    /// been resolved (see [`settled_anchor`]). Returns whether the anchor
    /// reached the end of the valid range (the scroll position is then
    /// capped at the end) and whether it was moved forward to its start (the
    /// scroll position is then reset).
    pub fn settle_anchor(&mut self) -> (r: (bool, bool))
        requires
            old(self)@.valid_range.end > i64::MIN,
        ensures
            (final(self)@.anchor_index, r.0, r.1) == settled_anchor(
                old(self)@.anchor_index,
                old(self)@.valid_range,
            ),
            final(self)@ == (ScrollState { anchor_index: final(self)@.anchor_index, ..old(self)@ }),
            r.0 <==> old(self)@.anchor_index + 1 >= old(self)@.valid_range.end,
            old(self)@.valid_range.start < old(self)@.valid_range.end ==> {
                &&& r.0 ==> final(self)@.anchor_index == old(self)@.valid_range.end - 1
                &&& r.1 <==> old(self)@.anchor_index < old(self)@.valid_range.start
                &&& r.1 ==> final(self)@.anchor_index == old(self)@.valid_range.start
                &&& !r.0 && !r.1 ==> final(self)@.anchor_index == old(self)@.anchor_index
            },
    {
        proof {
            lemma_settled_anchor_meaning(self.anchor_index, self.valid_range);
        }
        let last = self.valid_range.end - 1;
        let at_valid_end = self.anchor_index >= last;
        if at_valid_end {
            self.anchor_index = last;
        }
        let mut reset = false;
        if self.anchor_index < self.valid_range.start {
            self.anchor_index = self.valid_range.start;
            reset = true;
        }
        (at_valid_end, reset)
    }

    /// The ids a layout asks to have loaded (see [`candidate_bounds`]).
    pub fn candidate_range(&self, m: &LayoutExtent) -> (r: Range<i64>)
        requires
            candidate_fits(self@, *m),
        ensures
            (r.start as int, r.end as int) == candidate_bounds(self@, *m),
            in_range(self@.active_range, self@.anchor_index as int) ==> {
                &&& m.item_crossing_start matches Some(c) ==> r.start == c
                &&& m.item_crossing_start is None ==> r.start == (match m.first_item {
                    Some(f) => f,
                    None => self@.anchor_index,
                }) - m.items_needed_before
                &&& m.reaches_end ==> r.end == m.item_crossing_end + 1
                &&& !m.reaches_end ==> r.end == (match m.last_item {
                    Some(l) => l,
                    None => self@.anchor_index,
                }) + m.items_needed_after + 1
            },
            !in_range(self@.active_range, self@.anchor_index as int) ==> {
                &&& r.start == self@.anchor_index - m.items_in_margin_before
                &&& r.end == self@.anchor_index + m.items_in_margin_after
            },
    {
        proof {
            lemma_candidate_bounds_sides(self@, *m);
        }
        if self.active_range.start <= self.anchor_index && self.anchor_index < self.active_range.end {
            let start = match m.item_crossing_start {
                Some(c) => c,
                None => {
                    let start_anchor = match m.first_item {
                        Some(f) => f,
                        None => self.anchor_index,
                    };
                    start_anchor - m.items_needed_before
                },
            };
            let end = if m.reaches_end {
                m.item_crossing_end + 1
            } else {
                let end_anchor = match m.last_item {
                    Some(l) => l,
                    None => self.anchor_index,
                };
                end_anchor + m.items_needed_after + 1
            };
            start..end
        } else {
            (self.anchor_index - m.items_in_margin_before)..(self.anchor_index
                + m.items_in_margin_after)
        }
    }

    /// Asks for `target` to be loaded, limited to the valid ids, unless the
    /// previous request has not been handled yet or nothing would change.
    pub fn request_range(&mut self, target: &Range<i64>) -> (r: Option<VirtualScrollAction>)
        ensures
            !old(self)@.action_handled ==> r is None && final(self)@ == old(self)@,
            old(self)@.action_handled ==> {
                let (s, e) = clamped(*target, old(self)@.valid_range);
                if s == old(self)@.active_range.start && e == old(self)@.active_range.end {
                    r is None && final(self)@ == old(self)@
                } else {
                    &&& r matches Some(a) && same_range(a.old_active, old(self)@.active_range)
                        && a.target.start == s && a.target.end == e
                    &&& final(self)@ == (ScrollState { action_handled: false, ..old(self)@ })
                }
            },
    {
        if !self.action_handled {
            return None;
        }
        let target_range = clamp_to_valid(target, &self.valid_range);
        if range_eq(&self.active_range, &target_range) {
            None
        } else {
            self.action_handled = false;
            Some(VirtualScrollAction { old_active: copy_range(&self.active_range), target: target_range })
        }
    }

    /// Bookkeeping of a paint pass: a request still not handled counts as
    /// missed; after more than 10 misses it is marked handled so that it is
    /// sent again.
    pub fn note_paint(&mut self) -> (r: PaintReport)
        requires
            !old(self)@.action_handled ==> old(self)@.missed_actions_count < u32::MAX,
        ensures
            old(self)@.action_handled ==> final(self)@ == old(self)@ && !r.first_miss && !r.resent,
            !old(self)@.action_handled ==> {
                &&& r.first_miss == (old(self)@.missed_actions_count == 0)
                &&& r.resent == (old(self)@.missed_actions_count > 10)
                &&& final(self)@ == (ScrollState {
                    action_handled: r.resent,
                    missed_actions_count: (old(self)@.missed_actions_count + 1) as u32,
                    ..old(self)@
                })
            },
    {
        let mut report = PaintReport { first_miss: false, resent: false };
        if !self.action_handled {
            if self.missed_actions_count == 0 {
                report.first_miss = true;
            }
            if self.missed_actions_count > 10 {
                report.resent = true;
                self.action_handled = true;
            }
            self.missed_actions_count += 1;
        }
        report
    }

    /// Records whether the last layout found every active item loaded, and
    /// returns whether a missing item should be reported now: only the first
    /// time after the items were last dense.
    pub fn note_density(&mut self, dense: bool) -> (warn: bool)
        ensures
            warn == (!dense && !old(self)@.warned_not_dense),
            final(self)@ == (ScrollState { warned_not_dense: !dense, ..old(self)@ }),
    {
        let warn = !dense && !self.warned_not_dense;
        self.warned_not_dense = !dense;
        warn
    }

    /// Records the range of visible items, from the first and the last
    /// items found on screen (half-open, so it ends just after the last; the
    /// empty range at the start of the active range where none is), and
    /// returns it where it differs from the range recorded before.
    pub fn visible_range_update(
        &mut self,
        first_visible: Option<i64>,
        last_visible: Option<i64>,
    ) -> (r: Option<Range<i64>>)
        requires
            last_visible matches Some(l) ==> l < i64::MAX,
        ensures
            ({
                let (s, e) = visible_bounds(old(self)@.active_range.start, first_visible, last_visible);
                &&& first_visible matches Some(f) ==> final(self)@.visible_range.start == f
                &&& first_visible is None ==> final(self)@.visible_range.start
                    == old(self)@.active_range.start
                &&& last_visible matches Some(l) ==> final(self)@.visible_range.end == l + 1
                &&& last_visible is None ==> final(self)@.visible_range.end
                    == final(self)@.visible_range.start
                &&& r matches Some(v) ==> same_range(v, final(self)@.visible_range)
                &&& final(self)@.visible_range.start == s
                &&& final(self)@.visible_range.end == e
                &&& final(self)@ == (ScrollState {
                    visible_range: final(self)@.visible_range,
                    ..old(self)@
                })
                &&& if s == old(self)@.visible_range.start && e == old(self)@.visible_range.end {
                    r is None
                } else {
                    r matches Some(v) && v.start == s && v.end == e
                }
            }),
    {
        let start = match first_visible {
            Some(f) => f,
            None => self.active_range.start,
        };
        let end = match last_visible {
            Some(l) => l + 1,
            None => start,
        };
        let changed = !(start == self.visible_range.start && end == self.visible_range.end);
        self.visible_range = start..end;
        if changed {
            Some(start..end)
        } else {
            None
        }
    }

    /// Handles `action` as a driver does: announces it (see
    /// [`VirtualHScroll::will_handle_action`]), unloads the ids that were
    /// active and are not in the target, and loads, for each id of the target
    /// that was not active, the child `new_child` makes for it. Returns
    /// whether `action` was in sync, and the children unloaded with their ids.
    pub fn handle_action<F: Fn(i64) -> W>(&mut self, action: &VirtualScrollAction, new_child: F) -> (r: (
        bool,
        Vec<(i64, W)>,
    ))
        requires
            forall|i: i64| call_requires(new_child, (i,)),
        ensures
            r.0 == same_range(old(self)@.active_range, action.old_active),
            final(self)@ == (ScrollState {
                items: final(self)@.items,
                ..handled_state(old(self)@, *action)
            }),
            final(self)@.items.dom() == keys_after_driver(old(self)@.items.dom(), *action),
            old(self)@.items.dom() == range_set(old(self)@.active_range) && r.0
                && action.target.start <= action.target.end ==> {
                &&& final(self)@.items.dom() == range_set(final(self)@.active_range)
                &&& final(self)@.items.len() == action.target.end - action.target.start
            },
            forall|j: i64|
                #[trigger] final(self)@.items.contains_key(j) ==> if in_range(action.target, j as int)
                    && !in_range(action.old_active, j as int) {
                    call_ensures(new_child, (j,), final(self)@.items[j])
                } else {
                    final(self)@.items[j] == old(self)@.items[j]
                },
            forall|k: int|
                0 <= k < r.1@.len() ==> {
                    let (j, child) = #[trigger] r.1@[k];
                    &&& old(self)@.items.contains_key(j)
                    &&& in_range(action.old_active, j as int)
                    &&& !in_range(action.target, j as int)
                    &&& child == old(self)@.items[j]
                },
            forall|j: i64|
                #[trigger] old(self)@.items.contains_key(j) && in_range(action.old_active, j as int)
                    && !in_range(action.target, j as int) ==> has_id(r.1@, j),
    {
        let ghost m0 = self@.items;
        let in_sync = self.will_handle_action(action);
        let ghost handled = self@;
        let mut removed: Vec<(i64, W)> = Vec::new();
        let (first, second) = opt_iter_difference(&action.old_active, &action.target);
        proof {
            lemma_difference_parts_exact(action.old_active, action.target);
        }
        // Unload the ids before the target, then those after it.
        let mut i = first.start;
        while i < first.end
            invariant
                first.start <= i,
                i <= first.end || i == first.start,
                self@ == (ScrollState { items: self@.items, ..handled }),
                handled.action_handled,
                handled.active_range == action.target,
                self@.items.dom() == m0.dom().difference(id_set(first.start as int, i as int)),
                forall|j: i64| #[trigger] self@.items.contains_key(j) ==> self@.items[j] == m0[j],
                forall|id: int|
                    (#[trigger] in_bounds((first.start, first.end), id) || in_bounds(
                        (second.start, second.end),
                        id,
                    )) <==> (in_range(action.old_active, id) && !in_range(action.target, id)),
                forall|id: int|
                    #[trigger] in_bounds((second.start, second.end), id) ==> in_range(
                        action.old_active,
                        id,
                    ) && !in_range(action.target, id),
                forall|k: int|
                    0 <= k < removed@.len() ==> {
                        let (j, child) = #[trigger] removed@[k];
                        &&& m0.contains_key(j)
                        &&& in_range(action.old_active, j as int)
                        &&& !in_range(action.target, j as int)
                        &&& child == m0[j]
                        &&& !self@.items.contains_key(j)
                    },
                forall|j: i64|
                    m0.contains_key(j) && #[trigger] id_set(first.start as int, i as int).contains(j)
                        ==> has_id(removed@, j),
            decreases first.end - i,
        {
            proof {
                assert(in_bounds((first.start, first.end), i as int));
            }
            let ghost before = self@.items;
            let ghost removed_before = removed@;
            match self.remove_child(i) {
                Some(child) => {
                    removed.push((i, child));
                    proof {
                        assert(removed@[removed@.len() - 1].0 == i);
                    }
                },
                None => {},
            }
            proof {
                assert(self@.items.dom() =~= m0.dom().difference(
                    id_set(first.start as int, i as int + 1),
                ));
                assert forall|j: i64|
                    m0.contains_key(j) && #[trigger] id_set(first.start as int, i as int + 1).contains(
                        j,
                    ) implies has_id(removed@, j) by {
                    if j == i {
                        assert(before.contains_key(j));
                        assert(removed@[removed@.len() - 1].0 == j);
                        assert(0 <= removed@.len() - 1 < removed@.len());
                    } else {
                        assert(id_set(first.start as int, i as int).contains(j));
                        let k = choose|k: int|
                            0 <= k < removed_before.len() && removed_before[k].0 == j;
                        assert(removed@[k] == removed_before[k]);
                    }
                }
            }
            i = i + 1;
        }
        proof {
            assert(id_set(first.start as int, i as int) =~= id_set(
                first.start as int,
                first.end as int,
            ));
        }
        let ghost after_first = self@.items;
        let mut i = second.start;
        while i < second.end
            invariant
                second.start <= i,
                i <= second.end || i == second.start,
                self@ == (ScrollState { items: self@.items, ..handled }),
                handled.action_handled,
                handled.active_range == action.target,
                self@.items.dom() == after_first.dom().difference(
                    id_set(second.start as int, i as int),
                ),
                after_first.dom() == m0.dom().difference(
                    id_set(first.start as int, first.end as int),
                ),
                forall|j: i64| #[trigger] self@.items.contains_key(j) ==> self@.items[j] == m0[j],
                forall|id: int|
                    (#[trigger] in_bounds((first.start, first.end), id) || in_bounds(
                        (second.start, second.end),
                        id,
                    )) <==> (in_range(action.old_active, id) && !in_range(action.target, id)),
                forall|id: int|
                    #[trigger] in_bounds((second.start, second.end), id) ==> in_range(
                        action.old_active,
                        id,
                    ) && !in_range(action.target, id),
                forall|k: int|
                    0 <= k < removed@.len() ==> {
                        let (j, child) = #[trigger] removed@[k];
                        &&& m0.contains_key(j)
                        &&& in_range(action.old_active, j as int)
                        &&& !in_range(action.target, j as int)
                        &&& child == m0[j]
                        &&& !self@.items.contains_key(j)
                    },
                forall|j: i64|
                    m0.contains_key(j) && (#[trigger] id_set(
                        first.start as int,
                        first.end as int,
                    ).contains(j) || id_set(second.start as int, i as int).contains(j))
                        ==> has_id(removed@, j),
            decreases second.end - i,
        {
            proof {
                assert(in_bounds((second.start, second.end), i as int));
                assert(in_bounds((first.start, first.end), i as int) || in_bounds(
                    (second.start, second.end),
                    i as int,
                ));
            }
            let ghost before = self@.items;
            let ghost removed_before = removed@;
            match self.remove_child(i) {
                Some(child) => {
                    removed.push((i, child));
                    proof {
                        assert(removed@[removed@.len() - 1].0 == i);
                    }
                },
                None => {},
            }
            proof {
                assert(self@.items.dom() =~= after_first.dom().difference(
                    id_set(second.start as int, i as int + 1),
                ));
                assert forall|j: i64|
                    m0.contains_key(j) && (#[trigger] id_set(
                        first.start as int,
                        first.end as int,
                    ).contains(j) || id_set(second.start as int, i as int + 1).contains(
                        j,
                    )) implies has_id(removed@, j) by {
                    if j == i && !id_set(first.start as int, first.end as int).contains(j) {
                        assert(before.contains_key(j));
                        assert(removed@[removed@.len() - 1].0 == j);
                    } else {
                        if !id_set(first.start as int, first.end as int).contains(j) {
                            assert(id_set(second.start as int, i as int).contains(j));
                        }
                        let k = choose|k: int|
                            0 <= k < removed_before.len() && removed_before[k].0 == j;
                        assert(removed@[k] == removed_before[k]);
                    }
                }
            }
            i = i + 1;
        }
        proof {
            assert(id_set(second.start as int, i as int) =~= id_set(
                second.start as int,
                second.end as int,
            ));
            assert(self@.items.dom() =~= m0.dom().difference(
                range_set(action.old_active).difference(range_set(action.target)),
            ));
            assert forall|j: i64|
                #[trigger] m0.contains_key(j) && in_range(action.old_active, j as int) && !in_range(
                    action.target,
                    j as int,
                ) implies has_id(removed@, j) by {
                assert(in_bounds((first.start, first.end), j as int) || in_bounds(
                    (second.start, second.end),
                    j as int,
                ));
                if in_bounds((first.start, first.end), j as int) {
                    assert(id_set(first.start as int, first.end as int).contains(j));
                    assert(has_id(removed@, j));
                } else {
                    assert(id_set(second.start as int, second.end as int).contains(j));
                    assert(id_set(second.start as int, i as int).contains(j));
                    assert(!id_set(first.start as int, first.end as int).contains(j));
                    assert(has_id(removed@, j));
                }
            }
        }
        let ghost kept = self@.items;
        // Load the newly active ids.
        let mut i = action.target.start;
        while i < action.target.end
            invariant
                action.target.start <= i,
                i <= action.target.end || i == action.target.start,
                forall|i: i64| call_requires(new_child, (i,)),
                self@ == (ScrollState { items: self@.items, ..handled }),
                handled.action_handled,
                handled.active_range == action.target,
                kept.dom() == m0.dom().difference(
                    range_set(action.old_active).difference(range_set(action.target)),
                ),
                forall|j: i64| #[trigger] kept.contains_key(j) ==> kept[j] == m0[j],
                self@.items.dom() == kept.dom().union(
                    id_set(action.target.start as int, i as int).difference(
                        range_set(action.old_active),
                    ),
                ),
                forall|j: i64|
                    #[trigger] self@.items.contains_key(j) ==> if action.target.start <= j < i
                        && !in_range(action.old_active, j as int) {
                        call_ensures(new_child, (j,), self@.items[j])
                    } else {
                        self@.items[j] == m0[j]
                    },
            decreases action.target.end - i,
        {
            if !(action.old_active.start <= i && i < action.old_active.end) {
                let child = new_child(i);
                self.add_child(i, child);
            }
            proof {
                assert(self@.items.dom() =~= kept.dom().union(
                    id_set(action.target.start as int, i as int + 1).difference(
                        range_set(action.old_active),
                    ),
                ));
            }
            i = i + 1;
        }
        proof {
            assert(id_set(action.target.start as int, i as int) =~= range_set(action.target));
            assert(self@.items.dom() =~= keys_after_driver(m0.dom(), *action));
            if m0.dom() == range_set(old(self)@.active_range) && in_sync && action.target.start
                <= action.target.end {
                lemma_driver_keeps_items_active(old(self)@, *action, self@.items);
            }
        }
        (in_sync, removed)
    }

    /// The number of loaded children.
    pub fn len(&self) -> (r: usize)
        ensures
            self@.items.dom().finite(),
            r == self@.items.len(),
    {
        self.items.len()
    }

    /// Loads `child` as item `idx`, replacing any child loaded there; the
    /// driver does so once it announced the action it handles, and only for
    /// active ids. Returns whether a child was there (the driver added it
    /// twice).
    pub fn add_child(&mut self, idx: i64, child: W) -> (replaced: bool)
        requires
            old(self)@.action_handled,
            in_range(old(self)@.active_range, idx as int),
        ensures
            replaced == old(self)@.items.contains_key(idx),
            final(self)@ == (ScrollState { items: old(self)@.items.insert(idx, child), ..old(self)@ }),
    {
        self.items.insert(idx, child).is_some()
    }

    /// Unloads item `idx`, returning its child if one was loaded; the driver
    /// does so once it announced the action it handles, and only for ids that
    /// are no longer active.
    pub fn remove_child(&mut self, idx: i64) -> (r: Option<W>)
        requires
            old(self)@.action_handled,
            !in_range(old(self)@.active_range, idx as int),
        ensures
            r is Some <==> old(self)@.items.contains_key(idx),
            r matches Some(child) ==> child == old(self)@.items[idx],
            final(self)@ == (ScrollState { items: old(self)@.items.remove(idx), ..old(self)@ }),
    {
        self.items.remove(&idx)
    }

    /// The child loaded as item `idx`, if any.
    pub fn child(&self, idx: i64) -> (r: Option<&W>)
        ensures
            r is Some <==> self@.items.contains_key(idx),
            r matches Some(child) ==> *child == self@.items[idx],
    {
        self.items.get(&idx)
    }

    /// The child loaded as item `idx`, to change it.
    pub fn child_mut(&mut self, idx: i64) -> (r: &mut W)
        requires
            old(self)@.items.contains_key(idx),
        ensures
            *r == old(self)@.items[idx],
            final(self)@ == (ScrollState {
                items: old(self)@.items.insert(idx, *final(r)),
                ..old(self)@
            }),
    {
        match map_get_mut(&mut self.items, idx) {
            Some(child) => child,
            None => vstd::pervasive::unreached(),
        }
    }

    /// The ids of the loaded children, in increasing order.
    pub fn children_ids(&self) -> (r: Vec<i64>)
        ensures
            forall|a: int, b: int| 0 <= a < b < r@.len() ==> r@[a] < r@[b],
            forall|id: i64| r@.contains(id) <==> self@.items.contains_key(id),
    {
        let mut ids: Vec<i64> = Vec::new();
        let ghost keys = self.items.keys();
        let ghost mut done: int = 0;
        for k in it: self.items.keys()
            invariant
                it.seq() == IteratorSpec::remaining(&keys),
                done == it.index(),
                forall|id: i64|
                    ids@.contains(id) <==> exists|q: int|
                        0 <= q < done && #[trigger] IteratorSpec::remaining(&keys)[q] == &id,
                IteratorSpec::remaining(&keys).unref().to_set() == self@.items.dom(),
                forall|a: int, b: int| 0 <= a < b < ids@.len() ==> ids@[a] < ids@[b],
        {
            let ghost idx = it.index();
            let ghost before = ids@;
            let key = *k;
            proof {
                assert(it.seq()[idx] == k);
            }
            let mut p: usize = 0;
            while p < ids.len() && ids[p] < key
                invariant
                    p <= ids@.len(),
                    forall|q: int| 0 <= q < p ==> ids@[q] < key,
                decreases ids@.len() - p,
            {
                p += 1;
            }
            if p == ids.len() || ids[p] != key {
                ids.insert(p, key);
                proof {
                    assert forall|a: int, b: int| 0 <= a < b < ids@.len() implies ids@[a]
                        < ids@[b] by {
                        if a < p && b > p {
                            assert(before[a] < before[b - 1]);
                        } else if a == p && b > p + 1 {
                            assert(before[p as int] < before[b - 1]);
                        }
                    }
                }
            }
            proof {
                assert forall|id: i64| ids@.contains(id) implies exists|q: int|
                    0 <= q < idx + 1 && #[trigger] it.seq()[q] == &id by {
                    if id == key {
                        assert(it.seq()[idx] == &id);
                    } else {
                        let w = choose|w: int| 0 <= w < ids@.len() && ids@[w] == id;
                        if ids@.len() > before.len() {
                            if w < p {
                                assert(before[w] == id);
                            } else {
                                assert(before[w - 1] == id);
                            }
                        }
                        assert(before.contains(id));
                    }
                }
                assert forall|id: i64| (exists|q: int|
                    0 <= q < idx + 1 && #[trigger] it.seq()[q] == &id) implies ids@.contains(id) by {
                    let q = choose|q: int| 0 <= q < idx + 1 && #[trigger] it.seq()[q] == &id;
                    if q == idx {
                        assert(ids@[p as int] == id);
                    } else {
                        assert(before.contains(id));
                        let w = choose|w: int| 0 <= w < before.len() && before[w] == id;
                        if ids@.len() > before.len() {
                            if w < p {
                                assert(ids@[w] == id);
                            } else {
                                assert(ids@[w + 1] == id);
                            }
                        } else {
                            assert(ids@[w] == id);
                        }
                    }
                }
                done = done + 1;
            }
        }
        assert(done == IteratorSpec::remaining(&keys).len());
        proof {
            let keys_seq = IteratorSpec::remaining(&keys);
            assert forall|id: i64| ids@.contains(id) <==> self@.items.contains_key(id) by {
                if self@.items.contains_key(id) {
                    assert(keys_seq.unref().to_set().contains(id));
                    let q = choose|q: int| 0 <= q < keys_seq.unref().len() && keys_seq.unref()[q] == id;
                    assert(keys_seq[q] == &id);
                }
                if ids@.contains(id) {
                    let q = choose|q: int| 0 <= q < done && #[trigger] keys_seq[q] == &id;
                    assert(keys_seq.unref()[q] == id);
                    assert(keys_seq.unref().contains(id));
                }
            }
        }
        ids
    }

    /// All loaded children, by id.
    pub fn items(&self) -> (r: &HashMap<i64, W>)
        ensures
            r@ == self@.items,
    {
        &self.items
    }

    /// The ids that may be loaded.
    pub fn valid_range(&self) -> (r: Range<i64>)
        ensures
            same_range(r, self@.valid_range),
    {
        copy_range(&self.valid_range)
    }

    /// The ids asked to be loaded.
    pub fn active_range(&self) -> (r: Range<i64>)
        ensures
            same_range(r, self@.active_range),
    {
        copy_range(&self.active_range)
    }

    /// The item the scroll position is measured from.
    pub fn anchor_index(&self) -> (r: i64)
        ensures
            r == self@.anchor_index,
    {
        self.anchor_index
    }

    /// Whether the children are laid out from left to right.
    pub fn left_to_right(&self) -> (r: bool)
        ensures
            r == self@.left_to_right,
    {
        self.left_to_right
    }

    /// Whether the last request to the driver has been handled.
    pub fn action_handled(&self) -> (r: bool)
        ensures
            r == self@.action_handled,
    {
        self.action_handled
    }

    /// How many paints found the last request not handled.
    pub fn missed_actions_count(&self) -> (r: u32)
        ensures
            r == self@.missed_actions_count,
    {
        self.missed_actions_count
    }

    /// Whether a missing item has been reported since the items were last
    /// dense.
    pub fn warned_not_dense(&self) -> (r: bool)
        ensures
            r == self@.warned_not_dense,
    {
        self.warned_not_dense
    }
}

/// Calls `HashMap::get_mut`, which std documents as returning a mutable
/// reference to the value stored under `k`, or `None` where there is none.
/// The contract claims that the reference points at the stored value, that
/// the map then holds under `k` what is left behind it, and that nothing else
/// of the map changes.
#[verifier::external_body]
fn map_get_mut<W>(m: &mut HashMap<i64, W>, k: i64) -> (r: Option<&mut W>)
    ensures
        r is Some <==> old(m)@.contains_key(k),
        r matches Some(v) ==> *v == old(m)@[k] && final(m)@ == old(m)@.insert(k, *final(v)),
        r is None ==> final(m)@ == old(m)@,
{
    m.get_mut(&k)
}

/// A request made by [`VirtualHScroll::request_range`], once the driver
/// announces it, is in sync with the list, and makes the requested ids the
/// active ones.
pub proof fn lemma_request_then_handle<W>(s: ScrollState<W>, action: VirtualScrollAction)
    requires
        same_range(action.old_active, s.active_range),
    ensures
        same_range(s.active_range, action.old_active),
        handled_state(s, action).active_range == action.target,
        handled_state(s, action).action_handled,
        handled_state(s, action).valid_range == s.valid_range,
{
}

/// Some entry of `pairs` is for id `j`.
pub open spec fn has_id<W>(pairs: Seq<(i64, W)>, j: i64) -> bool {
    exists|k: int| 0 <= k < pairs.len() && pairs[k].0 == j
}

/// The ids from `lo` (included) to `hi` (excluded).
pub open spec fn id_set(lo: int, hi: int) -> Set<i64> {
    Set::new(|i: i64| lo <= i < hi)
}

/// The ids of `r`.
pub open spec fn range_set(r: Range<i64>) -> Set<i64> {
    id_set(r.start as int, r.end as int)
}

/// The ids loaded once the driver has handled `action` on a list whose
/// loaded ids were `keys`: it removes the ids that were active and are not
/// in the target, and adds the ids of the target that were not active.
pub open spec fn keys_after_driver(keys: Set<i64>, action: VirtualScrollAction) -> Set<i64> {
    keys.difference(range_set(action.old_active).difference(range_set(action.target))).union(
        range_set(action.target).difference(range_set(action.old_active)),
    )
}

/// A range of ids holds as many ids as its length.
pub proof fn lemma_id_set_len(lo: int, hi: int)
    requires
        i64::MIN <= lo <= hi <= i64::MAX,
    ensures
        id_set(lo, hi).finite(),
        id_set(lo, hi).len() == hi - lo,
    decreases hi - lo,
{
    if lo == hi {
        assert(id_set(lo, hi) =~= Set::<i64>::empty());
    } else {
        lemma_id_set_len(lo, hi - 1);
        let last = (hi - 1) as i64;
        assert(last == hi - 1);
        assert(id_set(lo, hi) =~= id_set(lo, hi - 1).insert(last));
    }
}

/// The driver protocol: where the loaded children are exactly the active
/// ones and the driver handles an action made for that active range (a
/// target that does not end before it starts) by announcing it, removing
/// the children no longer active and adding the newly active ones, the
/// loaded children are exactly the new active ones, and `len` counts them:
/// the length of the target.
pub proof fn lemma_driver_keeps_items_active<W>(
    s: ScrollState<W>,
    action: VirtualScrollAction,
    items: Map<i64, W>,
)
    requires
        s.items.dom() == range_set(s.active_range),
        same_range(action.old_active, s.active_range),
        action.target.start <= action.target.end,
        items.dom() == keys_after_driver(s.items.dom(), action),
    ensures
        items.dom() == range_set(handled_state(s, action).active_range),
        items.dom().finite(),
        items.len() == action.target.end - action.target.start,
{
    assert(range_set(action.old_active) =~= range_set(s.active_range));
    assert(items.dom() =~= range_set(action.target));
    lemma_id_set_len(action.target.start as int, action.target.end as int);
}

/// What settling the anchor does: the end is reached exactly when the
/// anchor is the last valid id or lies past it, and the anchor then moves to
/// the last valid id; within a non-empty valid range, the anchor is moved to
/// the start exactly when it lies before it, and an anchor that is a valid
/// id stays where it is.
pub proof fn lemma_settled_anchor_meaning(anchor: i64, valid: Range<i64>)
    requires
        valid.end > i64::MIN,
    ensures
        ({
            let (a, at_end, reset) = settled_anchor(anchor, valid);
            &&& at_end <==> anchor + 1 >= valid.end
            &&& valid.start < valid.end ==> {
                &&& at_end ==> a == valid.end - 1
                &&& reset <==> anchor < valid.start
                &&& reset ==> a == valid.start
                &&& !at_end && !reset ==> a == anchor
                &&& valid.start <= anchor < valid.end - 1 ==> a == anchor && !at_end && !reset
            }
        }),
{
}

/// Settling keeps the anchor within a non-empty valid range.
pub proof fn lemma_settled_anchor_is_valid(anchor: i64, valid: Range<i64>)
    requires
        valid.start < valid.end,
    ensures
        in_range(valid, settled_anchor(anchor, valid).0 as int),
{
}

} // verus!
