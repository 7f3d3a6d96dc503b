//! Finding the slots that a group of accounts can confirm together, and
//! confirming one of them.

use std::sync::Arc;
use vstd::prelude::*;
use vstd::string::*;
use itertools::Itertools;
use crate::domains::data_clients::user_slot_client::{UserSlotClient, UserSlots};
use crate::domains::error::Error;
use crate::domains::slot::{
    ascending, collect_slot_ranges, collected_ranges, in_a_slot, lemma_ascending_is_sorted,
    lemma_collected_ranges_hold_the_instants_of_the_slots,
    lemma_each_slot_lies_in_a_collected_range, sorted_by_start, sorted_slots, Slot, SLOT_SECONDS,
};
use crate::domains::slot_range::{
    collections_of, common_ranges, holds_slot, intersect_slot_ranges_array,
    lemma_common_ranges_hold_what_every_collection_holds,
    lemma_common_ranges_lie_within_every_collection, lemma_slots_of_a_range, some_range_holds,
    SlotRange,
};

verus! {

/// The slots that start at the given instants.
pub open spec fn slots_from(starts: Seq<i64>) -> Seq<Slot> {
    Seq::new(starts.len(), |i: int| Slot { start_date: starts[i] })
}

/// Every slot that the store returned ends at a representable instant.
pub open spec fn starts_fit(user_slots: Seq<UserSlots>) -> bool {
    forall|a: int, i: int|
        0 <= a < user_slots.len() && 0 <= i < user_slots[a].slots@.len()
            ==> #[trigger] user_slots[a].slots@[i]
            + SLOT_SECONDS <= i64::MAX
}

/// One of the accounts has no free slot at all.
pub open spec fn some_account_is_blank(user_slots: Seq<UserSlots>) -> bool {
    exists|a: int| 0 <= a < user_slots.len() && (#[trigger] user_slots[a]).slots@.len() == 0
}

/// For each account, the ranges that its free slots merge into.
pub open spec fn ranges_per_account(user_slots: Seq<UserSlots>) -> Seq<Seq<SlotRange>> {
    Seq::new(user_slots.len(), |a: int| collected_ranges(slots_from(user_slots[a].slots@)))
}

/// The ranges in which every account is free.
pub open spec fn common_free_ranges(user_slots: Seq<UserSlots>) -> Seq<SlotRange> {
    common_ranges(ranges_per_account(user_slots))
}

/// `slot` is one of the slots of one of the ranges.
pub open spec fn in_some_range(ranges: Seq<SlotRange>, slot: Slot) -> bool {
    exists|k: int| 0 <= k < ranges.len() && (#[trigger] ranges[k]).slots().contains(slot)
}

/// All the accounts can confirm `slot` together: each of them has free
/// slots, and `slot` is a slot of a range in which all of them are free.
pub open spec fn is_confirmable(user_slots: Seq<UserSlots>, slot: Slot) -> bool {
    !some_account_is_blank(user_slots) && in_some_range(common_free_ranges(user_slots), slot)
}

/// Every slot of the sequence starts later than the one before it.
pub open spec fn strictly_ascending(slots: Seq<Slot>) -> bool {
    forall|i: int, j: int|
        0 <= i < j < slots.len() ==> (#[trigger] slots[i]).start_date < (
        #[trigger] slots[j]).start_date
}

/// The slots of all the ranges, range after range.
pub open spec fn all_slots(ranges: Seq<SlotRange>) -> Seq<Slot>
    decreases ranges.len(),
{
    if ranges.len() == 0 {
        Seq::empty()
    } else {
        all_slots(ranges.drop_last()) + ranges.last().slots()
    }
}

/// The sequence without the slots that repeat the slot before them.
pub open spec fn without_repeats(slots: Seq<Slot>) -> Seq<Slot>
    decreases slots.len(),
{
    if slots.len() <= 1 {
        slots
    } else {
        let before = without_repeats(slots.drop_last());
        if slots[slots.len() - 2] == slots.last() {
            before
        } else {
            before.push(slots.last())
        }
    }
}

/// The slots that all the accounts can confirm together, as the
/// coordinator lists them: none where one of the accounts has no free slot;
/// else the slots of the ranges in which every account is free, in
/// ascending order, each once.
pub open spec fn confirmable(user_slots: Seq<UserSlots>) -> Seq<Slot> {
    if some_account_is_blank(user_slots) {
        Seq::empty()
    } else {
        without_repeats(sorted_slots(all_slots(common_free_ranges(user_slots))))
    }
}

/// A slot is among all the slots of the ranges exactly if it is a slot of
/// one of them.
pub proof fn lemma_all_slots_are_the_slots_of_the_ranges(ranges: Seq<SlotRange>, slot: Slot)
    ensures
        all_slots(ranges).contains(slot) <==> in_some_range(ranges, slot),
    decreases ranges.len(),
{
    if ranges.len() > 0 {
        let init = ranges.drop_last();
        let head = all_slots(init);
        let tail = ranges.last().slots();
        lemma_all_slots_are_the_slots_of_the_ranges(init, slot);
        if in_some_range(ranges, slot) {
            let r = choose|r: int| 0 <= r < ranges.len()
                && (#[trigger] ranges[r]).slots().contains(slot);
            if r < init.len() {
                assert(init[r].slots().contains(slot));
                let k = choose|k: int| 0 <= k < head.len() && head[k] == slot;
                assert((head + tail)[k] == slot);
            } else {
                let k = choose|k: int| 0 <= k < tail.len() && tail[k] == slot;
                assert((head + tail)[head.len() + k] == slot);
            }
        }
    }
}

/// Dropping the repeats of a sequence in ascending order leaves the same
/// slots, each once, in strictly ascending order.
pub proof fn lemma_without_repeats_of_ascending(slots: Seq<Slot>)
    requires
        ascending(slots),
    ensures
        strictly_ascending(without_repeats(slots)),
        forall|slot: Slot| without_repeats(slots).contains(slot) <==> slots.contains(slot),
        slots.len() > 0 ==> without_repeats(slots).len() > 0 && without_repeats(slots).last()
            == slots.last(),
    decreases slots.len(),
{
    if slots.len() > 1 {
        let init = slots.drop_last();
        let before = without_repeats(init);
        let kept = without_repeats(slots);
        assert(ascending(init)) by {
            assert forall|i: int, j: int| 0 <= i < j < init.len()
                implies (#[trigger] init[i]).start_date
                <= (#[trigger] init[j]).start_date by {
                assert(slots[i].start_date <= slots[j].start_date);
            }
        }
        lemma_without_repeats_of_ascending(init);
        assert(init.last() == slots[slots.len() - 2]);
        assert(slots[slots.len() - 2].start_date <= slots[slots.len() - 1].start_date);
        assert forall|slot: Slot| kept.contains(slot) <==> slots.contains(slot) by {
            if kept.contains(slot) {
                let k = choose|k: int| 0 <= k < kept.len() && kept[k] == slot;
                if k < before.len() {
                    assert(before.contains(slot));
                    assert(init.contains(slot));
                    let i = choose|i: int| 0 <= i < init.len() && init[i] == slot;
                    assert(slots[i] == slot);
                } else {
                    assert(slots[slots.len() - 1] == slot);
                }
            }
            if slots.contains(slot) {
                let i = choose|i: int| 0 <= i < slots.len() && slots[i] == slot;
                if i < init.len() {
                    assert(init[i] == slot);
                    assert(init.contains(slot));
                    assert(before.contains(slot));
                    let k = choose|k: int| 0 <= k < before.len() && before[k] == slot;
                    assert(kept[k] == slot);
                } else if slots[slots.len() - 2] == slots.last() {
                    assert(before[before.len() - 1] == slot);
                } else {
                    assert(kept[kept.len() - 1] == slot);
                }
            }
        }
        if slots[slots.len() - 2] != slots.last() {
            assert forall|i: int, j: int| 0 <= i < j < kept.len()
                implies (#[trigger] kept[i]).start_date
                < (#[trigger] kept[j]).start_date by {
                if j < before.len() {
                    assert(before[i].start_date < before[j].start_date);
                } else if i < before.len() - 1 {
                    assert(before[i].start_date < before[before.len() - 1].start_date);
                }
            }
        }
    }
}

/// Drops repeated slots through `Itertools::dedup`, which compares the
/// starts. Trusted of it: of each section of consecutive equal items the
/// first stays and the others leave, and nothing else changes.
#[verifier::external_body]
fn dedup_by_start(slots: Vec<Slot>) -> (kept: Vec<Slot>)
    ensures
        kept@ == without_repeats(slots@),
{
    slots.into_iter().map(|slot| slot.start_date).dedup().map(Slot::new).collect()
}

/// Whether every slot that the store returned ends at a representable
/// instant.
pub fn slots_fit(user_slots: &[UserSlots]) -> (fit: bool)
    ensures
        fit == starts_fit(user_slots@),
{
    let mut a: usize = 0;
    while a < user_slots.len()
        invariant
            a <= user_slots.len(),
            starts_fit(user_slots@.take(a as int)),
        decreases user_slots.len() - a,
    {
        let starts = &user_slots[a].slots;
        let mut i: usize = 0;
        while i < starts.len()
            invariant
                i <= starts.len(),
                a < user_slots.len(),
                starts == user_slots@[a as int].slots,
                forall|k: int| 0 <= k < i ==> #[trigger] starts@[k] + SLOT_SECONDS <= i64::MAX,
            decreases starts.len() - i,
        {
            if starts[i] > i64::MAX - SLOT_SECONDS {
                return false;
            }
            i = i + 1;
        }
        a = a + 1;
    }
    assert(user_slots@.take(a as int) == user_slots@);
    true
}

/// Whether one of the accounts has no free slot at all.
fn any_account_blank(user_slots: &[UserSlots]) -> (blank: bool)
    ensures
        blank == some_account_is_blank(user_slots@),
{
    let mut a: usize = 0;
    while a < user_slots.len()
        invariant
            a <= user_slots.len(),
            forall|b: int| 0 <= b < a ==> (#[trigger] user_slots@[b]).slots@.len() != 0,
        decreases user_slots.len() - a,
    {
        if user_slots[a].slots.len() == 0 {
            return true;
        }
        a = a + 1;
    }
    false
}

/// The slots that start at the given instants.
fn slots_at(starts: &Vec<i64>) -> (slots: Vec<Slot>)
    ensures
        slots@ == slots_from(starts@),
{
    let mut slots: Vec<Slot> = Vec::new();
    let mut i: usize = 0;
    while i < starts.len()
        invariant
            i <= starts.len(),
            slots@ == slots_from(starts@.take(i as int)),
        decreases starts.len() - i,
    {
        slots.push(Slot::new(starts[i]));
        i = i + 1;
    }
    slots
}

/// The slots of all the ranges, range after range.
fn expand_all(ranges: &Vec<SlotRange>) -> (slots: Vec<Slot>)
    ensures
        slots@ == all_slots(ranges@),
{
    let mut slots: Vec<Slot> = Vec::new();
    let mut k: usize = 0;
    while k < ranges.len()
        invariant
            k <= ranges.len(),
            slots@ == all_slots(ranges@.take(k as int)),
        decreases ranges.len() - k,
    {
        let mut part = ranges[k].to_slots();
        slots.append(&mut part);
        assert(ranges@.take(k + 1).drop_last() == ranges@.take(k as int));
        k = k + 1;
    }
    assert(ranges@.take(k as int) == ranges@);
    slots
}

/// The slots that all the accounts can confirm together, each once, in
/// ascending order. Where one of the accounts has no free slot, there is
/// none; so there is none where no account is given.
pub fn confirmable_slots(user_slots: &[UserSlots]) -> (slots: Vec<Slot>)
    requires
        starts_fit(user_slots@),
    ensures
        slots@ == confirmable(user_slots@),
        strictly_ascending(slots@),
        forall|slot: Slot| slots@.contains(slot) <==> is_confirmable(user_slots@, slot),
        some_account_is_blank(user_slots@) ==> slots@.len() == 0,
{
    if any_account_blank(user_slots) {
        return Vec::new();
    }
    let mut slots_list: Vec<Vec<SlotRange>> = Vec::new();
    let mut a: usize = 0;
    while a < user_slots.len()
        invariant
            a <= user_slots.len(),
            starts_fit(user_slots@),
            !some_account_is_blank(user_slots@),
            slots_list@.len() == a,
            collections_of(slots_list@) == ranges_per_account(user_slots@).take(a as int),
        decreases user_slots.len() - a,
    {
        let times = slots_at(&user_slots[a].slots);
        let ranges = collect_slot_ranges(times.as_slice());
        slots_list.push(ranges);
        a = a + 1;
    }
    assert(ranges_per_account(user_slots@).take(a as int) == ranges_per_account(user_slots@));
    let common = intersect_slot_ranges_array(slots_list);
    let expanded = expand_all(&common);
    let sorted = sorted_by_start(expanded.as_slice());
    let slots = dedup_by_start(sorted);
    proof {
        broadcast use vstd::seq_lib::group_to_multiset_ensures;

        lemma_ascending_is_sorted(expanded@, sorted@);
        lemma_without_repeats_of_ascending(sorted@);
        assert forall|slot: Slot| slots@.contains(slot) <==> is_confirmable(
            user_slots@,
            slot,
        ) by {
            lemma_all_slots_are_the_slots_of_the_ranges(common@, slot);
            assert(sorted@.contains(slot) <==> sorted@.to_multiset().count(slot) > 0);
        }
    }
    slots
}

/// A sequence of slots in strictly ascending order is determined by the
/// slots that it holds: two such sequences with the same slots are equal.
pub proof fn lemma_strictly_ascending_is_determined(x: Seq<Slot>, y: Seq<Slot>)
    requires
        strictly_ascending(x),
        strictly_ascending(y),
        forall|slot: Slot| x.contains(slot) <==> y.contains(slot),
    ensures
        x == y,
    decreases x.len(),
{
    if x.len() == 0 {
        if y.len() > 0 {
            assert(y.contains(y[0]));
        }
    } else {
        assert(x.contains(x.last()));
        assert(y.contains(y.last()));
        let xs = x.drop_last();
        let ys = y.drop_last();
        assert forall|slot: Slot| xs.contains(slot) <==> ys.contains(slot) by {
            if xs.contains(slot) {
                assert(x.contains(slot));
                let m = choose|m: int| 0 <= m < y.len() && y[m] == slot;
                assert(ys[m] == slot);
            }
            if ys.contains(slot) {
                assert(y.contains(slot));
                let m = choose|m: int| 0 <= m < x.len() && x[m] == slot;
                assert(xs[m] == slot);
            }
        }
        lemma_strictly_ascending_is_determined(xs, ys);
        assert(x =~= xs.push(x.last()));
    }
}

/// What the coordinator answers to what the store returned. A failure of
/// the store is handed on as it is. Slots whose end cannot be represented
/// are reported as a failure of the store. Else the answer is the slots
/// that all the accounts can confirm, each once, in ascending order.
pub open spec fn answers(
    fetched: Result<Vec<UserSlots>, Error>,
    outcome: Result<Vec<Slot>, Error>,
) -> bool {
    match fetched {
        Err(error) => outcome == Err::<Vec<Slot>, Error>(error),
        Ok(user_slots) => if starts_fit(user_slots@) {
            &&& outcome matches Ok(slots)
            &&& slots@ == confirmable(user_slots@)
            &&& strictly_ascending(slots@)
            &&& forall|slot: Slot| slots@.contains(slot) <==> is_confirmable(user_slots@, slot)
        } else {
            &&& outcome matches Err(Error::DbError(description))
            &&& description@ == "slot out of range"@
        },
    }
}

/// The answer of the coordinator to what the store returned.
pub fn confirmable_slots_from(fetched: Result<Vec<UserSlots>, Error>) -> (outcome: Result<
    Vec<Slot>,
    Error,
>)
    ensures
        answers(fetched, outcome),
{
    match fetched {
        Err(error) => Err(error),
        Ok(user_slots) => {
            if slots_fit(user_slots.as_slice()) {
                Ok(confirmable_slots(user_slots.as_slice()))
            } else {
                Err(Error::DbError(String::from_str("slot out of range")))
            }
        },
    }
}

/// The booking coordinator: answers both questions of the service over the
/// store that it was made with.
pub struct UserSlotUsecase<C: UserSlotClient> {
    pool: Arc<C>,
}

impl<C: UserSlotClient> UserSlotUsecase<C> {
    /// The store that the coordinator asks.
    pub closed spec fn store(&self) -> Arc<C> {
        self.pool
    }

    pub fn new(pool: Arc<C>) -> (usecase: Self)
        ensures
            usecase.store() == pool,
    {
        Self { pool }
    }

    /// The slots between `start_time` and `end_time` that all of `accounts`
    /// can confirm together: asks the store once for the free slots of the
    /// accounts in that window, and answers as [`answers`] says.
    pub fn fetch_confirmable_slots(
        &self,
        accounts: &[String],
        start_time: i64,
        end_time: i64,
    ) -> (outcome: Result<Vec<Slot>, Error>)
        ensures
            exists|fetched: Result<Vec<UserSlots>, Error>|
                #[trigger] self.store().fetches(accounts@, start_time, end_time, fetched)
                    && answers(fetched, outcome),
    {
        let fetched = self.pool.fetch_user_slots(accounts, start_time, end_time);
        assert(self.store().fetches(accounts@, start_time, end_time, fetched));
        confirmable_slots_from(fetched)
    }

    /// Reserves the slot that starts at `start_time` for all of `accounts`:
    /// what the store gives, unchanged.
    pub fn confirm_users_slot(&self, accounts: &[String], start_time: i64) -> (outcome: Result<
        (),
        Error,
    >)
        ensures
            self.store().confirms(accounts@, start_time, outcome),
    {
        self.pool.confirm_user_slots(accounts, start_time)
    }
}

/// A slot that the accounts can confirm together is free for every one of
/// them: each of its instants lies in a free slot of the account.
pub proof fn lemma_confirmable_slot_is_free_for_every_account(
    user_slots: Seq<UserSlots>,
    slot: Slot,
    a: int,
)
    requires
        starts_fit(user_slots),
        is_confirmable(user_slots, slot),
        0 <= a < user_slots.len(),
    ensures
        forall|at: int|
            slot.start_date <= at < slot.end_spec() ==> in_a_slot(
                slots_from(user_slots[a].slots@),
                at,
            ),
{
    let common = common_free_ranges(user_slots);
    let k = choose|k: int| 0 <= k < common.len() && (#[trigger] common[k]).slots().contains(slot);
    let per_account = ranges_per_account(user_slots);
    lemma_common_ranges_lie_within_every_collection(per_account, common[k], a);
    let times = slots_from(user_slots[a].slots@);
    assert forall|at: int| slot.start_date <= at < slot.end_spec() implies in_a_slot(times, at) by {
        lemma_collected_ranges_hold_the_instants_of_the_slots(times, at);
    }
}

/// A slot that is a free slot of every account can be confirmed by all of
/// them together, if there is an account at all.
pub proof fn lemma_slot_free_for_every_account_is_confirmable(
    user_slots: Seq<UserSlots>,
    start: i64,
)
    requires
        starts_fit(user_slots),
        user_slots.len() > 0,
        forall|a: int| 0 <= a < user_slots.len()
            ==> (#[trigger] user_slots[a]).slots@.contains(start),
    ensures
        is_confirmable(user_slots, Slot { start_date: start }),
{
    let slot = Slot { start_date: start };
    let per_account = ranges_per_account(user_slots);
    assert forall|a: int| 0 <= a < per_account.len() implies some_range_holds(
        #[trigger] per_account[a],
        slot,
    ) by {
        let starts = user_slots[a].slots@;
        let times = slots_from(starts);
        let i = choose|i: int| 0 <= i < starts.len() && starts[i] == start;
        lemma_each_slot_lies_in_a_collected_range(times, i);
    }
    lemma_common_ranges_hold_what_every_collection_holds(per_account, slot);
    let common = common_free_ranges(user_slots);
    let k = choose|k: int| 0 <= k < common.len() && holds_slot(#[trigger] common[k], slot);
    lemma_slots_of_a_range(common[k], slot);
}

} // verus!
