//! Contiguous ranges of time, their intersection and their expansion into
//! slots.

use vstd::prelude::*;
use super::slot::{Slot, SLOT_SECONDS};

verus! {

/// The span `[start, end)`. Nothing forces `start < end`: a range may be
/// empty or reversed, and then holds no slot.
#[derive(Debug, Clone, Copy, PartialEq, Eq, Structural)]
pub struct SlotRange {
    pub start: i64,
    pub end: i64,
}

/// The range that covers exactly one slot.
pub open spec fn range_of_slot(slot: Slot) -> SlotRange
    recommends
        slot.end_spec() <= i64::MAX,
{
    SlotRange { start: slot.start_date, end: slot.end_spec() as i64 }
}

impl SlotRange {
    /// The two ranges share an instant, their boundaries included: a range
    /// that ends where the other starts overlaps it.
    pub open spec fn overlaps(&self, other: &SlotRange) -> bool {
        self.start <= other.end && other.start <= self.end
    }

    /// The later of the two starts up to the earlier of the two ends.
    pub open spec fn common(&self, other: &SlotRange) -> SlotRange {
        SlotRange {
            start: if self.start > other.start { self.start } else { other.start },
            end: if self.end < other.end { self.end } else { other.end },
        }
    }

    /// The overlap of two ranges, if they overlap.
    pub open spec fn overlap(&self, other: &SlotRange) -> Option<SlotRange> {
        if self.overlaps(other) {
            Some(self.common(other))
        } else {
            None
        }
    }

    /// How many whole slots fit into the range, counted from its start.
    pub open spec fn slot_count(&self) -> nat {
        if self.end - self.start >= SLOT_SECONDS {
            ((self.end - self.start) / (SLOT_SECONDS as int)) as nat
        } else {
            0
        }
    }

    /// The slots of the range in ascending order: the `i`-th starts `i` slot
    /// lengths after the start of the range. A remainder shorter than a slot
    /// at the end of the range holds no slot.
    pub open spec fn slots(&self) -> Seq<Slot> {
        Seq::new(
            self.slot_count(),
            |i: int| Slot { start_date: (self.start + i * SLOT_SECONDS) as i64 },
        )
    }

    pub fn new(start: i64, end: i64) -> (range: SlotRange)
        ensures
            range.start == start,
            range.end == end,
    {
        SlotRange { start, end }
    }

    /// The range that covers one slot. The end of the slot has to be
    /// representable.
    pub fn from(time: Slot) -> (range: SlotRange)
        requires
            time.end_spec() <= i64::MAX,
        ensures
            range == range_of_slot(time),
    {
        SlotRange { start: time.start_date, end: time.end_date() }
    }

    /// Whether the two ranges overlap, touching boundaries included.
    pub fn intersects(&self, other: &Self) -> (hit: bool)
        ensures
            hit == self.overlaps(other),
    {
        self.start <= other.end && other.start <= self.end
    }

    /// The overlap of the two ranges, or `None` where they do not overlap.
    /// Two ranges that only touch give a range of length zero.
    pub fn intersect_slot_range(&self, other: &Self) -> (common: Option<SlotRange>)
        ensures
            common == self.overlap(other),
    {
        if !self.intersects(other) {
            return None;
        }
        let start: i64 = if self.start > other.start {
            self.start
        } else {
            other.start
        };
        let end: i64 = if self.end < other.end {
            self.end
        } else {
            other.end
        };
        Some(SlotRange::new(start, end))
    }

    /// Expands the range into its slots.
    pub fn to_slots(&self) -> (slots: Vec<Slot>)
        ensures
            slots@ == self.slots(),
    {
        let mut slots: Vec<Slot> = Vec::new();
        if self.end < i64::MIN + SLOT_SECONDS {
            return slots;
        }
        let last_start: i64 = self.end - SLOT_SECONDS;
        let mut current: i64 = self.start;
        while current <= last_start
            invariant
                last_start == self.end - SLOT_SECONDS,
                current == self.start + slots@.len() * SLOT_SECONDS,
                slots@.len() > 0 ==> current <= self.end,
                forall|i: int|
                    0 <= i < slots@.len() ==> (#[trigger] slots@[i]).start_date == self.start + i
                        * SLOT_SECONDS,
            decreases self.end - current,
        {
            slots.push(Slot::new(current));
            current = current + SLOT_SECONDS;
        }
        slots
    }
}

/// The overlaps of `range` with the ranges of `others`, in the order of
/// `others`; a range of `others` that does not overlap `range` adds nothing.
pub open spec fn overlaps_with_each(range: SlotRange, others: Seq<SlotRange>) -> Seq<SlotRange>
    decreases others.len(),
{
    if others.len() == 0 {
        Seq::empty()
    } else {
        let before = overlaps_with_each(range, others.drop_last());
        match range.overlap(&others.last()) {
            Some(common) => before.push(common),
            None => before,
        }
    }
}

/// The overlaps of every range of `lhs` with every range of `rhs`: first
/// those of `lhs[0]` in the order of `rhs`, then those of `lhs[1]`, and so on.
pub open spec fn pairwise_overlaps(lhs: Seq<SlotRange>, rhs: Seq<SlotRange>) -> Seq<SlotRange>
    decreases lhs.len(),
{
    if lhs.len() == 0 {
        Seq::empty()
    } else {
        pairwise_overlaps(lhs.drop_last(), rhs) + overlaps_with_each(lhs.last(), rhs)
    }
}

/// What all the collections have in common: the first collection, overlapped
/// pairwise with the second, the result with the third, and so on. No
/// collection at all has nothing in common.
pub open spec fn common_ranges(collections: Seq<Seq<SlotRange>>) -> Seq<SlotRange>
    decreases collections.len(),
{
    if collections.len() == 0 {
        Seq::empty()
    } else if collections.len() == 1 {
        collections[0]
    } else {
        pairwise_overlaps(common_ranges(collections.drop_last()), collections.last())
    }
}

/// The collections held by a vector of vectors, as sequences.
pub open spec fn collections_of(ranges: Seq<Vec<SlotRange>>) -> Seq<Seq<SlotRange>> {
    Seq::new(ranges.len(), |i: int| ranges[i]@)
}

/// Overlaps every range of `lhs` with every range of `rhs` and keeps the
/// overlaps in that order.
pub fn intersect_slot_ranges(lhs: &[SlotRange], rhs: &[SlotRange]) -> (found: Vec<SlotRange>)
    ensures
        found@ == pairwise_overlaps(lhs@, rhs@),
{
    let mut slot_ranges: Vec<SlotRange> = Vec::new();
    let mut i: usize = 0;
    while i < lhs.len()
        invariant
            i <= lhs.len(),
            slot_ranges@ == pairwise_overlaps(lhs@.take(i as int), rhs@),
        decreases lhs.len() - i,
    {
        let ghost done = slot_ranges@;
        let mut j: usize = 0;
        while j < rhs.len()
            invariant
                i < lhs.len(),
                j <= rhs.len(),
                slot_ranges@ == done + overlaps_with_each(lhs@[i as int], rhs@.take(j as int)),
            decreases rhs.len() - j,
        {
            assert(rhs@.take(j + 1).drop_last() == rhs@.take(j as int));
            match lhs[i].intersect_slot_range(&rhs[j]) {
                Some(range) => {
                    slot_ranges.push(range);
                },
                None => {},
            }
            j = j + 1;
        }
        assert(rhs@.take(j as int) == rhs@);
        assert(lhs@.take(i + 1).drop_last() == lhs@.take(i as int));
        i = i + 1;
    }
    assert(lhs@.take(i as int) == lhs@);
    slot_ranges
}

fn copy_ranges(ranges: &Vec<SlotRange>) -> (copy: Vec<SlotRange>)
    ensures
        copy@ == ranges@,
{
    let mut copy: Vec<SlotRange> = Vec::new();
    let mut i: usize = 0;
    while i < ranges.len()
        invariant
            i <= ranges.len(),
            copy@ == ranges@.take(i as int),
        decreases ranges.len() - i,
    {
        copy.push(ranges[i]);
        i = i + 1;
    }
    copy
}

/// The ranges that all the collections have in common, one collection per
/// account: folds [`intersect_slot_ranges`] over them from the left.
pub fn intersect_slot_ranges_array(ranges: Vec<Vec<SlotRange>>) -> (found: Vec<SlotRange>)
    ensures
        found@ == common_ranges(collections_of(ranges@)),
{
    if ranges.len() == 0 {
        return Vec::new();
    }
    let ghost all = collections_of(ranges@);
    let mut acc: Vec<SlotRange> = copy_ranges(&ranges[0]);
    let mut k: usize = 1;
    while k < ranges.len()
        invariant
            1 <= k <= ranges.len(),
            all == collections_of(ranges@),
            acc@ == common_ranges(all.take(k as int)),
        decreases ranges.len() - k,
    {
        assert(all.take(k + 1).drop_last() == all.take(k as int));
        acc = intersect_slot_ranges(acc.as_slice(), ranges[k].as_slice());
        k = k + 1;
    }
    assert(all.take(k as int) == all);
    acc
}

/// The overlap of two ranges does not depend on which of them is asked.
pub proof fn lemma_overlap_is_commutative(a: SlotRange, b: SlotRange)
    ensures
        a.overlaps(&b) == b.overlaps(&a),
        a.overlap(&b) == b.overlap(&a),
{
}

/// Two ranges, neither of them reversed, of which the second starts exactly
/// where the first ends, overlap, and their overlap is that one instant: a
/// range of length zero.
pub proof fn lemma_touching_ranges_overlap_in_an_instant(a: SlotRange, b: SlotRange)
    requires
        a.start <= a.end,
        b.start <= b.end,
        a.end == b.start,
    ensures
        a.overlaps(&b),
        a.overlap(&b) == Some(SlotRange { start: a.end, end: a.end }),
        a.overlap(&b).unwrap().slots() == Seq::<Slot>::empty(),
{
}

/// The overlap of two ranges lies within both of them.
pub proof fn lemma_overlap_is_within_both(a: SlotRange, b: SlotRange)
    requires
        a.overlaps(&b),
    ensures
        a.start <= a.common(&b).start,
        b.start <= a.common(&b).start,
        a.common(&b).end <= a.end,
        a.common(&b).end <= b.end,
{
}

/// A range is among the pairwise overlaps of two collections exactly if it
/// is the overlap of a range of the first with a range of the second.
pub proof fn lemma_pairwise_overlaps_are_the_overlaps(
    lhs: Seq<SlotRange>,
    rhs: Seq<SlotRange>,
    range: SlotRange,
)
    ensures
        pairwise_overlaps(lhs, rhs).contains(range) <==> exists|i: int, j: int|
            0 <= i < lhs.len() && 0 <= j < rhs.len() && #[trigger] lhs[i].overlap(&rhs[j]) == Some(
                range,
            ),
    decreases lhs.len(),
{
    if lhs.len() > 0 {
        let init = lhs.drop_last();
        let row = overlaps_with_each(lhs.last(), rhs);
        lemma_pairwise_overlaps_are_the_overlaps(init, rhs, range);
        lemma_overlaps_with_each_are_the_overlaps(lhs.last(), rhs, range);
        let all = pairwise_overlaps(init, rhs) + row;
        assert(all.contains(range) <==> pairwise_overlaps(init, rhs).contains(range)
            || row.contains(range)) by {
            if pairwise_overlaps(init, rhs).contains(range) {
                let k = choose|k: int|
                    0 <= k < pairwise_overlaps(init, rhs).len() && pairwise_overlaps(init, rhs)[k]
                        == range;
                assert(all[k] == range);
            }
            if row.contains(range) {
                let k = choose|k: int| 0 <= k < row.len() && row[k] == range;
                assert(all[pairwise_overlaps(init, rhs).len() + k] == range);
            }
        }
        if exists|i: int, j: int|
            0 <= i < lhs.len() && 0 <= j < rhs.len() && #[trigger] lhs[i].overlap(&rhs[j]) == Some(
                range,
            ) {
            let (i, j) = choose|i: int, j: int|
                0 <= i < lhs.len() && 0 <= j < rhs.len() && #[trigger] lhs[i].overlap(&rhs[j])
                    == Some(range);
            if i < init.len() {
                assert(init[i].overlap(&rhs[j]) == Some(range));
            }
        }
    }
}

/// A range is among the overlaps of `one` with `others` exactly if it is the
/// overlap of `one` with a range of `others`.
pub proof fn lemma_overlaps_with_each_are_the_overlaps(
    one: SlotRange,
    others: Seq<SlotRange>,
    range: SlotRange,
)
    ensures
        overlaps_with_each(one, others).contains(range) <==> exists|j: int|
            0 <= j < others.len() && #[trigger] one.overlap(&others[j]) == Some(range),
    decreases others.len(),
{
    if others.len() > 0 {
        let init = others.drop_last();
        let before = overlaps_with_each(one, init);
        lemma_overlaps_with_each_are_the_overlaps(one, init, range);
        let now = overlaps_with_each(one, others);
        if exists|j: int|
            0 <= j < others.len() && #[trigger] one.overlap(&others[j]) == Some(range) {
            let j = choose|j: int|
                0 <= j < others.len() && #[trigger] one.overlap(&others[j]) == Some(range);
            if j < init.len() {
                assert(one.overlap(&init[j]) == Some(range));
                let k = choose|k: int| 0 <= k < before.len() && before[k] == range;
                assert(now[k] == range);
            } else {
                assert(now[now.len() - 1] == range);
            }
        }
    }
}

/// `inner` does not reach beyond `outer` at either end.
pub open spec fn lies_within(inner: SlotRange, outer: SlotRange) -> bool {
    outer.start <= inner.start && inner.end <= outer.end
}

/// Every range that the collections have in common lies within a range of
/// each of the collections.
pub proof fn lemma_common_ranges_lie_within_every_collection(
    collections: Seq<Seq<SlotRange>>,
    range: SlotRange,
    a: int,
)
    requires
        common_ranges(collections).contains(range),
        0 <= a < collections.len(),
    ensures
        exists|j: int|
            0 <= j < collections[a].len() && lies_within(range, #[trigger] collections[a][j]),
    decreases collections.len(),
{
    if collections.len() > 1 {
        let init = collections.drop_last();
        let before = common_ranges(init);
        let last = collections.last();
        lemma_pairwise_overlaps_are_the_overlaps(before, last, range);
        let (i, j) = choose|i: int, j: int|
            0 <= i < before.len() && 0 <= j < last.len() && #[trigger] before[i].overlap(&last[j])
                == Some(range);
        if a < init.len() {
            lemma_common_ranges_lie_within_every_collection(init, before[i], a);
        }
    }
}

/// `slot` lies within `range`, a whole number of slots after its start.
pub open spec fn holds_slot(range: SlotRange, slot: Slot) -> bool {
    &&& range.start <= slot.start_date
    &&& slot.end_spec() <= range.end
    &&& (slot.start_date - range.start) % (SLOT_SECONDS as int) == 0
}

/// `slot` lies within one of the ranges, a whole number of slots after its
/// start.
pub open spec fn some_range_holds(ranges: Seq<SlotRange>, slot: Slot) -> bool {
    exists|k: int| 0 <= k < ranges.len() && holds_slot(#[trigger] ranges[k], slot)
}

/// The slots of a range are the slots that lie within it a whole number of
/// slots after its start.
pub proof fn lemma_slots_of_a_range(range: SlotRange, slot: Slot)
    ensures
        range.slots().contains(slot) <==> holds_slot(range, slot),
{
    let slots = range.slots();
    if holds_slot(range, slot) {
        let i = (slot.start_date - range.start) / (SLOT_SECONDS as int);
        assert(slots[i] == slot);
    }
}

/// A slot that lies in a range of each of the collections, a whole number
/// of slots after the start of that range, lies so in a range that the
/// collections have in common.
pub proof fn lemma_common_ranges_hold_what_every_collection_holds(
    collections: Seq<Seq<SlotRange>>,
    slot: Slot,
)
    requires
        collections.len() > 0,
        forall|a: int|
            0 <= a < collections.len() ==> some_range_holds(#[trigger] collections[a], slot),
    ensures
        some_range_holds(common_ranges(collections), slot),
    decreases collections.len(),
{
    let last = collections.last();
    let j = choose|j: int| 0 <= j < last.len() && holds_slot(#[trigger] last[j], slot);
    if collections.len() > 1 {
        let init = collections.drop_last();
        lemma_common_ranges_hold_what_every_collection_holds(init, slot);
        let before = common_ranges(init);
        let i = choose|i: int| 0 <= i < before.len() && holds_slot(#[trigger] before[i], slot);
        let both = before[i].common(&last[j]);
        assert(before[i].overlap(&last[j]) == Some(both));
        lemma_pairwise_overlaps_are_the_overlaps(before, last, both);
    }
}

} // verus!
