//! The half-hour slot, the atomic unit of availability.

use vstd::prelude::*;
use vstd::relations::total_ordering;
use vstd::seq_lib::lemma_sorted_unique;
use itertools::Itertools;
use super::slot_range::{holds_slot, range_of_slot, some_range_holds, SlotRange};

verus! {

/// Length of every slot, in seconds: thirty minutes.
pub const SLOT_SECONDS: i64 = 1800;

/// A thirty-minute time slot, identified by the instant at which it starts.
#[derive(Debug, Clone, Copy, PartialEq, Eq, Structural)]
pub struct Slot {
    /// Start of the slot, in seconds since the Unix epoch.
    pub start_date: i64,
}

impl Slot {
    /// The instant at which the slot ends, as a mathematical integer.
    pub open spec fn end_spec(&self) -> int {
        self.start_date + SLOT_SECONDS
    }

    /// `other` starts exactly where `self` ends.
    pub open spec fn continues_into(&self, other: &Slot) -> bool {
        self.end_spec() == other.start_date
    }

    pub fn new(start_date: i64) -> (slot: Slot)
        ensures
            slot.start_date == start_date,
    {
        Slot { start_date }
    }

    /// The fixed length of a slot, in seconds.
    pub fn duration() -> (d: i64)
        ensures
            d == SLOT_SECONDS,
    {
        SLOT_SECONDS
    }

    /// The instant at which the slot ends. The end has to be representable.
    pub fn end_date(&self) -> (end: i64)
        requires
            self.end_spec() <= i64::MAX,
        ensures
            end == self.end_spec(),
    {
        self.start_date + SLOT_SECONDS
    }

    /// Whether `other` follows `self` with no gap and no overlap. The relation
    /// is directional: see [`lemma_continuity_is_one_way`].
    pub fn is_continuous(&self, other: &Self) -> (continuous: bool)
        ensures
            continuous == self.continues_into(other),
    {
        match self.start_date.checked_add(SLOT_SECONDS) {
            Some(end) => end == other.start_date,
            None => false,
        }
    }
}

/// Continuity never holds in both directions: if `b` starts where `a` ends,
/// then `a` does not start where `b` ends.
pub proof fn lemma_continuity_is_one_way(a: Slot, b: Slot)
    requires
        a.continues_into(&b),
    ensures
        !b.continues_into(&a),
{
}

/// The order of slots: by start.
pub open spec fn starts_no_later(a: Slot, b: Slot) -> bool {
    a.start_date <= b.start_date
}

/// No slot of the sequence starts earlier than one before it.
pub open spec fn ascending(slots: Seq<Slot>) -> bool {
    forall|i: int, j: int|
        0 <= i < j < slots.len() ==> (#[trigger] slots[i]).start_date <= (
        #[trigger] slots[j]).start_date
}

/// The slots in ascending order of their starts, duplicates kept.
pub open spec fn sorted_slots(slots: Seq<Slot>) -> Seq<Slot> {
    slots.sort_by(|a: Slot, b: Slot| starts_no_later(a, b))
}

/// Merges slots that are in ascending order. Each slot that continues the
/// one before it extends the last range to its own end; every other slot
/// opens a new range. Two slots with equal starts are not continuous, so a
/// duplicate opens a range of its own.
pub open spec fn merge_runs(sorted: Seq<Slot>) -> Seq<SlotRange>
    decreases sorted.len(),
{
    if sorted.len() == 0 {
        Seq::empty()
    } else if sorted.len() == 1 {
        seq![range_of_slot(sorted[0])]
    } else {
        let before = merge_runs(sorted.drop_last());
        let last = sorted.last();
        if sorted[sorted.len() - 2].continues_into(&last) {
            before.drop_last().push(
                SlotRange { start: before.last().start, end: last.end_spec() as i64 },
            )
        } else {
            before.push(range_of_slot(last))
        }
    }
}

/// The ranges that a set of slots, given in any order, merges into.
pub open spec fn collected_ranges(times: Seq<Slot>) -> Seq<SlotRange> {
    merge_runs(sorted_slots(times))
}

/// The end of every slot is representable.
pub open spec fn ends_representable(times: Seq<Slot>) -> bool {
    forall|i: int| 0 <= i < times.len() ==> (#[trigger] times[i]).end_spec() <= i64::MAX
}

/// The order by start is a total order on slots.
pub proof fn lemma_start_order_is_total()
    ensures
        total_ordering(|a: Slot, b: Slot| starts_no_later(a, b)),
{
}

/// A sequence in ascending order that holds the same slots as `times`, each
/// as often, is the sorted form of `times`.
pub proof fn lemma_ascending_is_sorted(times: Seq<Slot>, sorted: Seq<Slot>)
    requires
        ascending(sorted),
        sorted.to_multiset() == times.to_multiset(),
    ensures
        sorted == sorted_slots(times),
{
    let leq = |a: Slot, b: Slot| starts_no_later(a, b);
    lemma_start_order_is_total();
    times.lemma_sort_by_ensures(leq);
    lemma_sorted_unique(sorted, times.sort_by(leq), leq);
}

/// Sorts the slots by start through `Itertools::sorted_by_key`, whose key
/// is the start of a slot. Trusted of it: what comes back holds the slots
/// that went in, each as often, in ascending order of the key.
#[verifier::external_body]
pub(crate) fn sorted_by_start(times: &[Slot]) -> (sorted: Vec<Slot>)
    ensures
        ascending(sorted@),
        sorted@.to_multiset() == times@.to_multiset(),
{
    times.iter().copied().sorted_by_key(|t| t.start_date).collect()
}

/// Closes the run of slots from index `first` to index `last` into one
/// range, from the start of the first to the end of the last, and appends it.
fn combine_slots(first: usize, last: usize, sorted: &Vec<Slot>, durations: &mut Vec<SlotRange>)
    requires
        first <= last < sorted.len(),
        sorted@[last as int].end_spec() <= i64::MAX,
    ensures
        final(durations)@ == old(durations)@.push(
            SlotRange {
                start: sorted@[first as int].start_date,
                end: sorted@[last as int].end_spec() as i64,
            },
        ),
{
    durations.push(SlotRange::new(sorted[first].start_date, sorted[last].end_date()));
}

/// Merges slots, given in any order and possibly more than once, into
/// ranges: `10:00, 10:30, 11:00, 12:00` becomes `10:00-11:30, 12:00-12:30`.
/// There has to be at least one slot.
pub fn collect_slot_ranges(times: &[Slot]) -> (ranges: Vec<SlotRange>)
    requires
        times@.len() > 0,
        ends_representable(times@),
    ensures
        ranges@ == collected_ranges(times@),
{
    let sorted = sorted_by_start(times);
    proof {
        broadcast use vstd::seq_lib::group_to_multiset_ensures;

        lemma_ascending_is_sorted(times@, sorted@);
        assert(sorted@.len() == sorted@.to_multiset().len());
        assert forall|i: int| 0 <= i < sorted@.len() implies (#[trigger] sorted@[i]).end_spec()
            <= i64::MAX by {
            assert(sorted@.to_multiset().count(sorted@[i]) > 0);
        }
    }
    let mut durations: Vec<SlotRange> = Vec::new();
    let mut first: usize = 0;
    let mut i: usize = 0;
    while i < sorted.len() - 1
        invariant
            first <= i < sorted.len(),
            ends_representable(sorted@),
            merge_runs(sorted@.take(i + 1)) == durations@.push(
                SlotRange {
                    start: sorted@[first as int].start_date,
                    end: sorted@[i as int].end_spec() as i64,
                },
            ),
        decreases sorted.len() - i,
    {
        let ghost prefix = sorted@.take(i + 2);
        assert(prefix.drop_last() == sorted@.take(i + 1));
        if !sorted[i].is_continuous(&sorted[i + 1]) {
            combine_slots(first, i, &sorted, &mut durations);
            first = i + 1;
        }
        i = i + 1;
    }
    assert(sorted@.take(i + 1) == sorted@);
    combine_slots(first, i, &sorted, &mut durations);
    durations
}

/// Each slot of the sequence but the last is continued by the one after it.
pub open spec fn is_run(slots: Seq<Slot>) -> bool {
    forall|i: int| 0 <= i < slots.len() - 1 ==> (#[trigger] slots[i]).continues_into(&slots[i + 1])
}

/// Merging one slot gives one range, and the range lasts exactly as long as
/// a slot.
pub proof fn lemma_one_slot_collects_into_one_range(slot: Slot)
    requires
        slot.end_spec() <= i64::MAX,
    ensures
        collected_ranges(seq![slot]) == seq![range_of_slot(slot)],
        range_of_slot(slot).start == slot.start_date,
        range_of_slot(slot).end - range_of_slot(slot).start == SLOT_SECONDS,
{
    lemma_ascending_is_sorted(seq![slot], seq![slot]);
}

/// A run of slots, each continued by the next, merges into the one range
/// from the start of the first slot to the end of the last.
pub proof fn lemma_run_merges_into_one_range(slots: Seq<Slot>)
    requires
        slots.len() > 0,
        is_run(slots),
        ends_representable(slots),
    ensures
        merge_runs(slots) == seq![
            SlotRange { start: slots[0].start_date, end: slots.last().end_spec() as i64 },
        ],
    decreases slots.len(),
{
    if slots.len() > 1 {
        let init = slots.drop_last();
        lemma_run_merges_into_one_range(init);
    }
}

/// Expanding a range into its slots and merging those slots gives the range
/// back, where the range holds at least one slot and its length is a whole
/// number of slots.
pub proof fn lemma_expand_then_collect_is_identity(range: SlotRange)
    requires
        range.start < range.end,
        (range.end - range.start) % (SLOT_SECONDS as int) == 0,
    ensures
        collected_ranges(range.slots()) == seq![range],
{
    let slots = range.slots();
    lemma_ascending_is_sorted(slots, slots);
    lemma_run_merges_into_one_range(slots);
}

/// The instant `at` lies in one of the slots.
pub open spec fn in_a_slot(slots: Seq<Slot>, at: int) -> bool {
    exists|i: int|
        0 <= i < slots.len()
            && (#[trigger] slots[i]).start_date <= at < slots[i].end_spec()
}

/// The instant `at` lies in one of the ranges.
pub open spec fn in_a_range(ranges: Seq<SlotRange>, at: int) -> bool {
    exists|k: int| 0 <= k < ranges.len() && (#[trigger] ranges[k]).start <= at < ranges[k].end
}

/// Merging neither adds nor loses an instant: the ranges hold exactly the
/// instants that the slots hold.
pub proof fn lemma_merged_ranges_hold_the_instants_of_the_slots(sorted: Seq<Slot>, at: int)
    requires
        ends_representable(sorted),
    ensures
        in_a_range(merge_runs(sorted), at) <==> in_a_slot(sorted, at),
        sorted.len() > 0 ==> merge_runs(sorted).len() > 0 && merge_runs(sorted).last().end
            == sorted.last().end_spec() && merge_runs(sorted).last().start
            <= sorted.last().start_date,
    decreases sorted.len(),
{
    if sorted.len() == 1 {
        let ranges = merge_runs(sorted);
        if in_a_slot(sorted, at) {
            assert(ranges[0].start <= at < ranges[0].end);
        }
    } else if sorted.len() > 1 {
        let init = sorted.drop_last();
        let before = merge_runs(init);
        let ranges = merge_runs(sorted);
        lemma_merged_ranges_hold_the_instants_of_the_slots(init, at);
        if in_a_slot(sorted, at) {
            let i = choose|i: int| 0 <= i < sorted.len()
                && (#[trigger] sorted[i]).start_date <= at < sorted[i].end_spec();
            if i < init.len() {
                assert(init[i].start_date <= at < init[i].end_spec());
                let k = choose|k: int| 0 <= k < before.len()
                    && (#[trigger] before[k]).start <= at < before[k].end;
                if k < ranges.len() - 1 {
                    assert(ranges[k].start <= at < ranges[k].end);
                } else {
                    assert(ranges[ranges.len() - 1].start <= at < ranges[ranges.len() - 1].end);
                }
            }
        }
    }
}

/// The ranges that slots merge into hold exactly the instants of the slots,
/// in whatever order the slots are given.
pub proof fn lemma_collected_ranges_hold_the_instants_of_the_slots(times: Seq<Slot>, at: int)
    requires
        ends_representable(times),
    ensures
        in_a_range(collected_ranges(times), at) <==> in_a_slot(times, at),
{
    broadcast use vstd::seq_lib::group_to_multiset_ensures;

    let sorted = sorted_slots(times);
    lemma_start_order_is_total();
    times.lemma_sort_by_ensures(|a: Slot, b: Slot| starts_no_later(a, b));
    assert forall|i: int| 0 <= i < sorted.len() implies times.contains(#[trigger] sorted[i]) by {
        assert(sorted.to_multiset().count(sorted[i]) > 0);
    }
    assert forall|i: int| 0 <= i < times.len() implies sorted.contains(#[trigger] times[i]) by {
        assert(times.to_multiset().count(times[i]) > 0);
    }
    lemma_merged_ranges_hold_the_instants_of_the_slots(sorted, at);
}

/// The ranges that slots in ascending order merge into come in ascending
/// order of their starts, none of them is empty, and none ends where the
/// next one starts: each range is as long as it can be.
pub proof fn lemma_merged_ranges_ascend_and_are_maximal(sorted: Seq<Slot>)
    requires
        ascending(sorted),
        ends_representable(sorted),
    ensures
        forall|k: int|
            0 <= k < merge_runs(sorted).len() ==> (#[trigger] merge_runs(sorted)[k]).start
                < merge_runs(sorted)[k].end,
        forall|k: int|
            0 <= k < merge_runs(sorted).len() - 1 ==> (#[trigger] merge_runs(sorted)[k]).start
                <= merge_runs(sorted)[k + 1].start && merge_runs(sorted)[k].end != merge_runs(
                sorted,
            )[k + 1].start,
        sorted.len() > 0 ==> merge_runs(sorted).len() > 0 && merge_runs(sorted).last().end
            == sorted.last().end_spec() && merge_runs(sorted).last().start
            <= sorted.last().start_date,
    decreases sorted.len(),
{
    if sorted.len() > 1 {
        let init = sorted.drop_last();
        lemma_merged_ranges_ascend_and_are_maximal(init);
    }
}

/// Every slot lies in one of the ranges that the slots merge into, a whole
/// number of slots after the start of that range.
pub proof fn lemma_each_slot_lies_in_a_merged_range(sorted: Seq<Slot>, i: int)
    requires
        ends_representable(sorted),
        0 <= i < sorted.len(),
    ensures
        some_range_holds(merge_runs(sorted), sorted[i]),
        merge_runs(sorted).len() > 0,
        merge_runs(sorted).last().end == sorted.last().end_spec(),
        holds_slot(merge_runs(sorted).last(), sorted.last()),
    decreases sorted.len(),
{
    let ranges = merge_runs(sorted);
    if sorted.len() == 1 {
        assert(holds_slot(ranges[0], sorted[i]));
    } else {
        let init = sorted.drop_last();
        let before = merge_runs(init);
        let at = if i < init.len() {
            i
        } else {
            init.len() - 1
        };
        lemma_each_slot_lies_in_a_merged_range(init, at);
        assert(holds_slot(ranges[ranges.len() - 1], sorted.last()));
        if i < init.len() {
            let k = choose|k: int| 0 <= k < before.len()
                && holds_slot(#[trigger] before[k], init[i]);
            if k < ranges.len() - 1 {
                assert(ranges[k] == before[k]);
            }
        }
    }
}

/// Every slot lies in one of the ranges that the slots are collected into,
/// a whole number of slots after the start of that range.
pub proof fn lemma_each_slot_lies_in_a_collected_range(times: Seq<Slot>, i: int)
    requires
        ends_representable(times),
        0 <= i < times.len(),
    ensures
        some_range_holds(collected_ranges(times), times[i]),
{
    broadcast use vstd::seq_lib::group_to_multiset_ensures;

    let sorted = sorted_slots(times);
    lemma_start_order_is_total();
    times.lemma_sort_by_ensures(|a: Slot, b: Slot| starts_no_later(a, b));
    assert forall|m: int| 0 <= m < sorted.len() implies (#[trigger] sorted[m]).end_spec()
        <= i64::MAX by {
        assert(sorted.to_multiset().count(sorted[m]) > 0);
    }
    assert(times.to_multiset().count(times[i]) > 0);
    let j = choose|j: int| 0 <= j < sorted.len() && sorted[j] == times[i];
    lemma_each_slot_lies_in_a_merged_range(sorted, j);
}

} // verus!
