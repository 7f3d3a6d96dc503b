//! A slot store in memory, for one user at a time.
//!
//! The book answers each action of the confirmation protocol as a store
//! does, and holds the rule by which two reservations collide. With it the
//! protocol can be run, and what it guarantees can be stated: see
//! [`ReservationBook::confirm_user_slots`] and the laws after it.

use vstd::prelude::*;
use vstd::string::*;
use crate::domains::error::Error;
use crate::domains::slot::SLOT_SECONDS;
use crate::usecases::confirmation::{
    confirm_start, confirm_step, ConfirmAction, ConfirmEvent, ConfirmState,
    ConfirmStep,
};

verus! {

/// The slot that starts at `start` is reserved for `account`.
#[derive(Debug)]
pub struct Reservation {
    pub account: String,
    /// Start of the slot, in seconds since the Unix epoch.
    pub start: i64,
}

/// The reservations of all accounts.
#[derive(Debug)]
pub struct ReservationBook {
    /// The reservations that are committed, in the order in which they
    /// were made.
    pub entries: Vec<Reservation>,
}

/// A transaction on a book: the reservations that it has inserted and not
/// yet committed; `None` while no transaction is open.
pub type Pending = Option<Vec<Reservation>>;

/// Two slots collide if their starts are less than the length of a slot
/// apart, in either direction.
pub open spec fn collides(start: i64, other: i64) -> bool {
    -SLOT_SECONDS < start - other < SLOT_SECONDS
}

/// `account` is one of `accounts`.
pub open spec fn names(accounts: Seq<String>, account: Seq<char>) -> bool {
    exists|a: int| 0 <= a < accounts.len() && (#[trigger] accounts[a])@ == account
}

/// One of the accounts holds a reservation that collides with the slot
/// that starts at `start`.
pub open spec fn has_conflict(
    entries: Seq<Reservation>,
    accounts: Seq<String>,
    start: i64,
) -> bool {
    exists|i: int|
        0 <= i < entries.len() && names(accounts, (#[trigger] entries[i]).account@) && collides(
            entries[i].start,
            start,
        )
}

/// The reservations that a confirmation inserts: one at `start` for each
/// account, in the order of the accounts; an account that is named twice
/// gets one.
pub open spec fn reservations_for(accounts: Seq<String>, start: i64) -> Seq<Reservation>
    decreases accounts.len(),
{
    if accounts.len() == 0 {
        Seq::empty()
    } else {
        let before = reservations_for(accounts.drop_last(), start);
        if names(accounts.drop_last(), accounts.last()@) {
            before
        } else {
            before.push(Reservation { account: accounts.last(), start })
        }
    }
}

/// How many steps a confirmation has before it at most.
pub open spec fn steps_left(step: ConfirmStep) -> nat {
    match step {
        ConfirmStep::Finish(_) => 0,
        ConfirmStep::Continue(state, _) => match state {
            ConfirmState::RollingBack(_) => 1,
            ConfirmState::Committing => 2,
            ConfirmState::Inserting => 3,
            ConfirmState::Checking => 4,
            ConfirmState::Locking => 5,
            ConfirmState::Beginning => 6,
        },
    }
}

impl ReservationBook {
    /// How the book and its transaction stand while a confirmation for
    /// `accounts` at `start`, begun on the reservations `initial`, has come
    /// to `step`.
    pub open spec fn on_track(
        &self,
        pending: Pending,
        step: ConfirmStep,
        initial: Seq<Reservation>,
        accounts: Seq<String>,
        start: i64,
    ) -> bool {
        let clear = !has_conflict(initial, accounts, start);
        match step {
            ConfirmStep::Finish(outcome) => {
                &&& pending is None
                &&& match outcome {
                    Ok(_) => clear && self.entries@ == initial + reservations_for(accounts, start),
                    Err(error) => !clear && error == Error::Conflicts && self.entries@ == initial,
                }
            },
            ConfirmStep::Continue(state, action) => {
                &&& self.entries@ == initial
                &&& match state {
                    ConfirmState::Beginning => action == ConfirmAction::Begin && pending is None,
                    ConfirmState::Locking => {
                        &&& action == ConfirmAction::LockAccounts
                        &&& pending matches Some(rows)
                        &&& rows@.len() == 0
                    },
                    ConfirmState::Checking => {
                        &&& action == ConfirmAction::CheckConflict
                        &&& pending matches Some(rows)
                        &&& rows@.len() == 0
                    },
                    ConfirmState::Inserting => {
                        &&& action == ConfirmAction::InsertReservations
                        &&& pending matches Some(rows)
                        &&& rows@.len() == 0
                        &&& clear
                    },
                    ConfirmState::Committing => {
                        &&& action == ConfirmAction::Commit
                        &&& pending matches Some(rows)
                        &&& rows@ == reservations_for(accounts, start)
                        &&& clear
                    },
                    ConfirmState::RollingBack(error) => {
                        &&& action == ConfirmAction::Rollback
                        &&& pending is Some
                        &&& error == Error::Conflicts
                        &&& !clear
                    },
                }
            },
        }
    }

    /// What the book does on an action, and what it replies. It fails at
    /// opening a second transaction, and at anything else without a
    /// transaction; nothing changes then. A check answers whether one of
    /// the accounts holds a committed reservation that collides; an insert
    /// adds the reservations to the transaction; a commit moves those of
    /// the transaction into the book; a rollback drops them.
    pub open spec fn performs(
        &self,
        pending: Pending,
        action: ConfirmAction,
        accounts: Seq<String>,
        start: i64,
        after: ReservationBook,
        left: Pending,
        reply: ConfirmEvent,
    ) -> bool {
        let done = ConfirmEvent::Succeeded { conflict: false };
        match pending {
            None => if action == ConfirmAction::Begin {
                &&& reply == done
                &&& after.entries@ == self.entries@
                &&& left matches Some(rows)
                &&& rows@.len() == 0
            } else {
                &&& reply matches ConfirmEvent::Failed(text)
                &&& text@ == "no transaction is open"@
                &&& after.entries@ == self.entries@
                &&& left is None
            },
            Some(rows) => match action {
                ConfirmAction::Begin => {
                    &&& reply matches ConfirmEvent::Failed(text)
                    &&& text@ == "a transaction is open"@
                    &&& after.entries@ == self.entries@
                    &&& left == pending
                },
                ConfirmAction::LockAccounts => reply == done && after.entries@ == self.entries@
                    && left == pending,
                ConfirmAction::CheckConflict => {
                    &&& reply == (ConfirmEvent::Succeeded {
                        conflict: has_conflict(self.entries@, accounts, start),
                    })
                    &&& after.entries@ == self.entries@
                    &&& left == pending
                },
                ConfirmAction::InsertReservations => {
                    &&& reply == done
                    &&& after.entries@ == self.entries@
                    &&& left matches Some(now)
                    &&& now@ == rows@ + reservations_for(accounts, start)
                },
                ConfirmAction::Commit => {
                    &&& reply == done
                    &&& after.entries@ == self.entries@ + rows@
                    &&& left is None
                },
                ConfirmAction::Rollback => {
                    &&& reply == done
                    &&& after.entries@ == self.entries@
                    &&& left is None
                },
            },
        }
    }

    /// A book without reservations.
    pub fn new() -> (book: ReservationBook)
        ensures
            book.entries@.len() == 0,
    {
        ReservationBook { entries: Vec::new() }
    }

    /// Whether one of the accounts holds a committed reservation that
    /// collides with the slot that starts at `desired_start`.
    pub fn has_conflicting_reservation(&self, accounts: &[String], desired_start: i64) -> (found:
        bool)
        ensures
            found == has_conflict(self.entries@, accounts@, desired_start),
    {
        let mut i: usize = 0;
        while i < self.entries.len()
            invariant
                i <= self.entries.len(),
                !has_conflict(self.entries@.take(i as int), accounts@, desired_start),
            decreases self.entries.len() - i,
        {
            let entry = &self.entries[i];
            let gap: i128 = entry.start as i128 - desired_start as i128;
            let near = -(SLOT_SECONDS as i128) < gap && gap < SLOT_SECONDS as i128;
            if near && is_named(accounts, &entry.account) {
                return true;
            }
            i = i + 1;
        }
        assert(self.entries@.take(i as int) == self.entries@);
        false
    }
}

/// Whether `account` is one of the first `upto` of `accounts`.
fn named_before(accounts: &[String], upto: usize, account: &String) -> (named: bool)
    requires
        upto <= accounts@.len(),
    ensures
        named == names(accounts@.take(upto as int), account@),
{
    let mut a: usize = 0;
    while a < upto
        invariant
            a <= upto <= accounts@.len(),
            forall|b: int| 0 <= b < a ==> (#[trigger] accounts@[b])@ != account@,
        decreases upto - a,
    {
        if accounts[a] == *account {
            assert(accounts@.take(upto as int)[a as int]@ == account@);
            return true;
        }
        a = a + 1;
    }
    false
}

/// Whether `account` is one of `accounts`.
fn is_named(accounts: &[String], account: &String) -> (named: bool)
    ensures
        named == names(accounts@, account@),
{
    assert(accounts@.take(accounts@.len() as int) == accounts@);
    named_before(accounts, accounts.len(), account)
}

/// Appends to `rows` the reservations that a confirmation for `accounts`
/// at `start` inserts.
fn insert_reservations(rows: &mut Vec<Reservation>, accounts: &[String], start: i64)
    ensures
        final(rows)@ == old(rows)@ + reservations_for(accounts@, start),
{
    let mut a: usize = 0;
    while a < accounts.len()
        invariant
            a <= accounts.len(),
            rows@ == old(rows)@ + reservations_for(accounts@.take(a as int), start),
        decreases accounts.len() - a,
    {
        assert(accounts@.take(a + 1).drop_last() == accounts@.take(a as int));
        if !named_before(accounts, a, &accounts[a]) {
            rows.push(Reservation { account: accounts[a].clone(), start });
        }
        a = a + 1;
    }
    assert(accounts@.take(a as int) == accounts@);
}

impl ReservationBook {
    /// Performs one action of a confirmation for `accounts` at `start` in
    /// the transaction `pending`, and replies as a store does.
    pub fn perform(
        &mut self,
        pending: &mut Pending,
        action: ConfirmAction,
        accounts: &[String],
        start: i64,
    ) -> (reply: ConfirmEvent)
        ensures
            old(self).performs(
                *old(pending),
                action,
                accounts@,
                start,
                *final(self),
                *final(pending),
                reply,
            ),
    {
        match action {
            ConfirmAction::Begin => {
                if pending.is_some() {
                    return ConfirmEvent::Failed(String::from_str("a transaction is open"));
                }
                *pending = Some(Vec::new());
            },
            ConfirmAction::LockAccounts => {
                if pending.is_none() {
                    return ConfirmEvent::Failed(String::from_str("no transaction is open"));
                }
            },
            ConfirmAction::CheckConflict => {
                if pending.is_none() {
                    return ConfirmEvent::Failed(String::from_str("no transaction is open"));
                }
                return ConfirmEvent::Succeeded {
                    conflict: self.has_conflicting_reservation(accounts, start),
                };
            },
            ConfirmAction::InsertReservations => {
                match pending.take() {
                    None => {
                        return ConfirmEvent::Failed(String::from_str("no transaction is open"));
                    },
                    Some(mut rows) => {
                        insert_reservations(&mut rows, accounts, start);
                        *pending = Some(rows);
                    },
                }
            },
            ConfirmAction::Commit => {
                match pending.take() {
                    None => {
                        return ConfirmEvent::Failed(String::from_str("no transaction is open"));
                    },
                    Some(mut rows) => {
                        self.entries.append(&mut rows);
                    },
                }
            },
            ConfirmAction::Rollback => {
                if pending.take().is_none() {
                    return ConfirmEvent::Failed(String::from_str("no transaction is open"));
                }
            },
        }
        ConfirmEvent::Succeeded { conflict: false }
    }

    /// Reserves the slot that starts at `start_time` for every one of
    /// `accounts`, or for none of them: runs the confirmation protocol on
    /// the book, in a transaction of its own. The confirmation fails, with
    /// `Conflicts`, exactly if one of the accounts holds a reservation that
    /// collides with the slot, and then the book stays as it was.
    pub fn confirm_user_slots(&mut self, accounts: &[String], start_time: i64) -> (outcome: Result<
        (),
        Error,
    >)
        ensures
            outcome is Err <==> has_conflict(old(self).entries@, accounts@, start_time),
            outcome matches Err(error) ==> error == Error::Conflicts && final(self).entries@ == old(
                self,
            ).entries@,
            outcome is Ok ==> final(self).entries@ == old(self).entries@ + reservations_for(
                accounts@,
                start_time,
            ),
    {
        let ghost initial = self.entries@;
        let mut pending: Pending = None;
        let mut step = confirm_start();
        loop
            invariant
                initial == old(self).entries@,
                self.on_track(pending, step, initial, accounts@, start_time),
            decreases steps_left(step),
        {
            match step {
                ConfirmStep::Finish(outcome) => {
                    return outcome;
                },
                ConfirmStep::Continue(state, action) => {
                    let reply = self.perform(&mut pending, action, accounts, start_time);
                    step = confirm_step(state, reply);
                },
            }
        }
    }
}

/// A confirmation inserts exactly one reservation for each account that
/// it names, at the requested start, and none for any other account.
pub proof fn lemma_one_reservation_for_each_account(accounts: Seq<String>, start: i64)
    ensures
        forall|i: int|
            0 <= i < reservations_for(accounts, start).len() ==> names(
                accounts,
                (#[trigger] reservations_for(accounts, start)[i]).account@,
            ) && reservations_for(accounts, start)[i].start == start,
        forall|i: int, j: int|
            0 <= i < j < reservations_for(accounts, start).len() ==> (#[trigger] reservations_for(
                accounts,
                start,
            )[i]).account@ != (#[trigger] reservations_for(accounts, start)[j]).account@,
        forall|a: int|
            0 <= a < accounts.len() ==> exists|i: int|
                0 <= i < reservations_for(accounts, start).len() && (#[trigger] reservations_for(
                    accounts,
                    start,
                )[i]).account@ == (#[trigger] accounts[a])@,
    decreases accounts.len(),
{
    if accounts.len() > 0 {
        let init = accounts.drop_last();
        let before = reservations_for(init, start);
        let rows = reservations_for(accounts, start);
        lemma_one_reservation_for_each_account(init, start);
        assert forall|a: int| 0 <= a < accounts.len() implies exists|i: int|
            0 <= i < rows.len() && (#[trigger] rows[i]).account@ == (#[trigger] accounts[a])@ by {
            if a < init.len() {
                let i = choose|i: int|
                    0 <= i < before.len() && (#[trigger] before[i]).account@ == init[a]@;
                assert(rows[i].account@ == accounts[a]@);
            } else if !names(init, accounts.last()@) {
                assert(rows[rows.len() - 1].account@ == accounts[a]@);
            }
        }
    }
}

/// Of two confirmations that come one after the other, share an account
/// and ask for slots that collide, the second finds the reservation of the
/// first: where the first succeeds, the second ends in a conflict.
pub proof fn lemma_second_colliding_confirmation_conflicts(
    entries: Seq<Reservation>,
    first: Seq<String>,
    first_start: i64,
    second: Seq<String>,
    second_start: i64,
    shared: Seq<char>,
)
    requires
        names(first, shared),
        names(second, shared),
        collides(first_start, second_start),
    ensures
        has_conflict(entries + reservations_for(first, first_start), second, second_start),
{
    lemma_one_reservation_for_each_account(first, first_start);
    let rows = reservations_for(first, first_start);
    let a = choose|a: int| 0 <= a < first.len() && (#[trigger] first[a])@ == shared;
    let i = choose|i: int| 0 <= i < rows.len() && (#[trigger] rows[i]).account@ == first[a]@;
    let after = entries + rows;
    assert(after[entries.len() + i] == rows[i]);
}

/// Confirmations for accounts of which none is shared do not meet: whether
/// the second succeeds does not depend on whether the first has been made.
pub proof fn lemma_disjoint_confirmations_do_not_meet(
    entries: Seq<Reservation>,
    first: Seq<String>,
    first_start: i64,
    second: Seq<String>,
    second_start: i64,
)
    requires
        forall|account: Seq<char>| !(names(first, account) && names(second, account)),
    ensures
        has_conflict(entries + reservations_for(first, first_start), second, second_start)
            == has_conflict(entries, second, second_start),
{
    lemma_one_reservation_for_each_account(first, first_start);
    let rows = reservations_for(first, first_start);
    let after = entries + rows;
    if has_conflict(entries, second, second_start) {
        let i = choose|i: int|
            0 <= i < entries.len() && names(second, (#[trigger] entries[i]).account@) && collides(
                entries[i].start,
                second_start,
            );
        assert(names(second, after[i].account@));
    }
}

} // verus!
