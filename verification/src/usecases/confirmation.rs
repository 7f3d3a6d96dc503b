//! The protocol that reserves one slot for several accounts at once.
//!
//! A confirmation is one transaction against the store: lock the accounts,
//! look for a colliding reservation, insert the reservations, commit. The
//! store does the work; this module decides, after each reply of the store,
//! what is done next. Whoever holds the connection starts with
//! [`confirm_start`], performs the action it is given, reports the reply of
//! the store to [`confirm_step`], and goes on until it is told to finish.

use vstd::prelude::*;
use crate::domains::error::Error;

verus! {

/// How far a confirmation has come: the step whose reply is awaited.
#[derive(Debug)]
pub enum ConfirmState {
    /// The transaction is being opened.
    Beginning,
    /// The accounts are being locked.
    Locking,
    /// The accounts are locked; the store looks for a reservation of one of
    /// them that collides with the requested slot.
    Checking,
    /// No reservation collides; the reservations are being inserted.
    Inserting,
    /// The reservations are inserted; the transaction is being committed.
    Committing,
    /// The confirmation has failed with the given error; the transaction is
    /// being rolled back.
    RollingBack(Error),
}

/// What the store is asked to do next.
#[derive(Debug, Clone, Copy, PartialEq, Eq, Structural)]
pub enum ConfirmAction {
    /// Open a transaction.
    Begin,
    /// Lock the record of every account, for the length of the transaction.
    LockAccounts,
    /// Look for a reservation of one of the accounts that starts less than a
    /// slot length before or after the requested start.
    CheckConflict,
    /// Insert a reservation at the requested start for every account.
    InsertReservations,
    /// Commit the transaction.
    Commit,
    /// Roll the transaction back.
    Rollback,
}

/// What the store replied to the last action.
#[derive(Debug)]
pub enum ConfirmEvent {
    /// The store did what it was asked. `conflict` is the answer to
    /// [`ConfirmAction::CheckConflict`]: whether a reservation collides. It
    /// is not read after any other action.
    Succeeded { conflict: bool },
    /// The store failed at the action; the text says how.
    Failed(String),
}

/// Where a confirmation stands after a reply of the store.
#[derive(Debug)]
pub enum ConfirmStep {
    /// The store is to perform the action; its reply belongs to the state.
    Continue(ConfirmState, ConfirmAction),
    /// The confirmation is over, with this outcome.
    Finish(Result<(), Error>),
}

/// The first step of every confirmation: open a transaction.
pub open spec fn first_step() -> ConfirmStep {
    ConfirmStep::Continue(ConfirmState::Beginning, ConfirmAction::Begin)
}

/// Rolling the transaction back on the way to failing with `error`.
pub open spec fn roll_back(error: Error) -> ConfirmStep {
    ConfirmStep::Continue(ConfirmState::RollingBack(error), ConfirmAction::Rollback)
}

/// The protocol. Each step goes on to the next when the store reports it
/// done. After the check the reservations are inserted only if no
/// reservation collides; a collision ends the confirmation with
/// `Conflicts`. A failure of the store ends it with that failure. While the
/// transaction is open, a failure or a collision first rolls it back, and
/// the confirmation then ends with that error whatever the store replies to
/// the rollback. A transaction that could not be opened, or could not be
/// committed, is not rolled back.
pub open spec fn next_step(state: ConfirmState, event: ConfirmEvent) -> ConfirmStep {
    match (state, event) {
        (ConfirmState::RollingBack(error), _) => ConfirmStep::Finish(Err(error)),
        (ConfirmState::Beginning, ConfirmEvent::Failed(description)) => ConfirmStep::Finish(
            Err(Error::DbError(description)),
        ),
        (ConfirmState::Committing, ConfirmEvent::Failed(description)) => ConfirmStep::Finish(
            Err(Error::DbError(description)),
        ),
        (_, ConfirmEvent::Failed(description)) => roll_back(Error::DbError(description)),
        (ConfirmState::Beginning, _) => ConfirmStep::Continue(
            ConfirmState::Locking,
            ConfirmAction::LockAccounts,
        ),
        (ConfirmState::Locking, _) => ConfirmStep::Continue(
            ConfirmState::Checking,
            ConfirmAction::CheckConflict,
        ),
        (ConfirmState::Checking, ConfirmEvent::Succeeded { conflict }) => if conflict {
            roll_back(Error::Conflicts)
        } else {
            ConfirmStep::Continue(ConfirmState::Inserting, ConfirmAction::InsertReservations)
        },
        (ConfirmState::Inserting, _) => ConfirmStep::Continue(
            ConfirmState::Committing,
            ConfirmAction::Commit,
        ),
        (ConfirmState::Committing, _) => ConfirmStep::Finish(Ok(())),
    }
}

/// Where a confirmation stands after the store has given these replies, one
/// to each action in turn. Replies that come after the end change nothing.
pub open spec fn run(events: Seq<ConfirmEvent>) -> ConfirmStep
    decreases events.len(),
{
    if events.len() == 0 {
        first_step()
    } else {
        match run(events.drop_last()) {
            ConfirmStep::Continue(state, _) => next_step(state, events.last()),
            ConfirmStep::Finish(outcome) => ConfirmStep::Finish(outcome),
        }
    }
}

/// Starts a confirmation.
pub fn confirm_start() -> (step: ConfirmStep)
    ensures
        step == first_step(),
{
    ConfirmStep::Continue(ConfirmState::Beginning, ConfirmAction::Begin)
}

/// Decides how a confirmation in `state` goes on after the store replied
/// `event` to the action that led to `state`.
pub fn confirm_step(state: ConfirmState, event: ConfirmEvent) -> (step: ConfirmStep)
    ensures
        step == next_step(state, event),
{
    match state {
        ConfirmState::RollingBack(error) => ConfirmStep::Finish(Err(error)),
        ConfirmState::Beginning => match event {
            ConfirmEvent::Failed(description) => ConfirmStep::Finish(
                Err(Error::DbError(description)),
            ),
            ConfirmEvent::Succeeded { .. } => ConfirmStep::Continue(
                ConfirmState::Locking,
                ConfirmAction::LockAccounts,
            ),
        },
        ConfirmState::Locking => match event {
            ConfirmEvent::Failed(description) => rolling_back(Error::DbError(description)),
            ConfirmEvent::Succeeded { .. } => ConfirmStep::Continue(
                ConfirmState::Checking,
                ConfirmAction::CheckConflict,
            ),
        },
        ConfirmState::Checking => match event {
            ConfirmEvent::Failed(description) => rolling_back(Error::DbError(description)),
            ConfirmEvent::Succeeded { conflict } => if conflict {
                rolling_back(Error::Conflicts)
            } else {
                ConfirmStep::Continue(ConfirmState::Inserting, ConfirmAction::InsertReservations)
            },
        },
        ConfirmState::Inserting => match event {
            ConfirmEvent::Failed(description) => rolling_back(Error::DbError(description)),
            ConfirmEvent::Succeeded { .. } => ConfirmStep::Continue(
                ConfirmState::Committing,
                ConfirmAction::Commit,
            ),
        },
        ConfirmState::Committing => match event {
            ConfirmEvent::Failed(description) => ConfirmStep::Finish(
                Err(Error::DbError(description)),
            ),
            ConfirmEvent::Succeeded { .. } => ConfirmStep::Finish(Ok(())),
        },
    }
}

fn rolling_back(error: Error) -> (step: ConfirmStep)
    ensures
        step == roll_back(error),
{
    ConfirmStep::Continue(ConfirmState::RollingBack(error), ConfirmAction::Rollback)
}

/// The replies are the first five, all of success, and the check found no
/// collision.
pub open spec fn every_step_succeeded(events: Seq<ConfirmEvent>) -> bool {
    &&& events.len() >= 5
    &&& forall|i: int| 0 <= i < 5 ==> #[trigger] events[i] is Succeeded
    &&& events[2] == (ConfirmEvent::Succeeded { conflict: false })
}

/// A confirmation succeeds exactly if the store opened the transaction,
/// locked the accounts, found no collision, inserted the reservations and
/// committed.
pub proof fn lemma_confirmed_exactly_if_every_step_succeeded(events: Seq<ConfirmEvent>)
    ensures
        run(events) == ConfirmStep::Finish(Ok(())) <==> every_step_succeeded(events),
    decreases events.len(),
{
    reveal_with_fuel(run, 6);
    if events.len() > 5 {
        let init = events.drop_last();
        lemma_confirmed_exactly_if_every_step_succeeded(init);
        assert forall|i: int| 0 <= i < 5 implies init[i] == events[i] by {}
    }
}

/// No confirmation succeeds on fewer than five replies.
pub proof fn lemma_never_confirmed_early(events: Seq<ConfirmEvent>)
    requires
        events.len() < 5,
    ensures
        run(events) != ConfirmStep::Finish(Ok(())),
{
    reveal_with_fuel(run, 6);
}

/// Every confirmation is over after five replies of the store, at the
/// latest.
pub proof fn lemma_every_confirmation_ends(events: Seq<ConfirmEvent>)
    requires
        events.len() >= 5,
    ensures
        run(events) is Finish,
{
    reveal_with_fuel(run, 6);
}

/// Reservations are inserted at one point only: in an open transaction,
/// with the accounts locked, right after the check found no collision.
pub proof fn lemma_inserts_only_after_a_clear_check(events: Seq<ConfirmEvent>)
    requires
        run(events) matches ConfirmStep::Continue(_, action) && action
            == ConfirmAction::InsertReservations,
    ensures
        events.len() == 3,
        events[0] is Succeeded,
        events[1] is Succeeded,
        events[2] == (ConfirmEvent::Succeeded { conflict: false }),
{
    reveal_with_fuel(run, 6);
}

/// A collision found by the check rolls the transaction back and ends the
/// confirmation with `Conflicts`, whatever the store replies to the
/// rollback; no reservation is inserted on the way.
pub proof fn lemma_collision_ends_in_conflict(events: Seq<ConfirmEvent>)
    requires
        events.len() >= 4,
        events[0] is Succeeded,
        events[1] is Succeeded,
        events[2] == (ConfirmEvent::Succeeded { conflict: true }),
    ensures
        run(events.take(3)) == roll_back(Error::Conflicts),
        run(events) == ConfirmStep::Finish(Err(Error::Conflicts)),
    decreases events.len(),
{
    reveal_with_fuel(run, 6);
    if events.len() > 4 {
        lemma_collision_ends_in_conflict(events.drop_last());
    }
}

/// The first failure of the store is what the confirmation ends with; if
/// the transaction was open and not yet being committed, it is rolled back
/// first.
pub proof fn lemma_first_failure_is_reported(events: Seq<ConfirmEvent>, at: int)
    requires
        0 <= at < events.len(),
        at < 5,
        forall|i: int| 0 <= i < at ==> #[trigger] events[i] is Succeeded,
        at > 2 ==> events[2] == (ConfirmEvent::Succeeded { conflict: false }),
        events[at] is Failed,
        at == 0 || at == 4 || at + 1 < events.len(),
    ensures
        run(events) == ConfirmStep::Finish(Err(Error::DbError(events[at]->Failed_0))),
        0 < at < 4 ==> run(events.take(at + 1)) == roll_back(
            Error::DbError(events[at]->Failed_0),
        ),
    decreases events.len(),
{
    reveal_with_fuel(run, 6);
    let reach = if at == 0 || at == 4 {
        at + 1
    } else {
        at + 2
    };
    if events.len() > reach {
        lemma_first_failure_is_reported(events.drop_last(), at);
    }
}

} // verus!
