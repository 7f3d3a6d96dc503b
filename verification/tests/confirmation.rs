use slot_booking::domains::error::Error;
use slot_booking::usecases::confirmation::{
    confirm_start, confirm_step, ConfirmAction, ConfirmEvent, ConfirmState, ConfirmStep,
};

fn done() -> ConfirmEvent {
    ConfirmEvent::Succeeded { conflict: false }
}

fn failed(text: &str) -> ConfirmEvent {
    ConfirmEvent::Failed(text.to_string())
}

/// Feeds the replies to the protocol and returns the actions that it asked
/// for, with the outcome if it came to an end.
fn drive(replies: Vec<ConfirmEvent>) -> (Vec<ConfirmAction>, Option<Result<(), Error>>) {
    let mut actions = vec![];
    let mut step = confirm_start();
    let mut replies = replies.into_iter();
    loop {
        match step {
            ConfirmStep::Finish(outcome) => return (actions, Some(outcome)),
            ConfirmStep::Continue(state, action) => {
                actions.push(action);
                match replies.next() {
                    Some(reply) => step = confirm_step(state, reply),
                    None => return (actions, None),
                }
            }
        }
    }
}

#[test]
fn a_confirmation_starts_by_opening_a_transaction() {
    assert!(matches!(
        confirm_start(),
        ConfirmStep::Continue(ConfirmState::Beginning, ConfirmAction::Begin)
    ));
}

#[test]
fn a_confirmation_without_collision_locks_checks_inserts_and_commits() {
    let (actions, outcome) = drive(vec![done(), done(), done(), done(), done()]);
    assert_eq!(
        actions,
        vec![
            ConfirmAction::Begin,
            ConfirmAction::LockAccounts,
            ConfirmAction::CheckConflict,
            ConfirmAction::InsertReservations,
            ConfirmAction::Commit,
        ]
    );
    assert!(matches!(outcome, Some(Ok(()))));
}

#[test]
fn a_collision_rolls_back_and_reports_the_conflict() {
    let (actions, outcome) =
        drive(vec![done(), done(), ConfirmEvent::Succeeded { conflict: true }, done()]);
    assert_eq!(
        actions,
        vec![
            ConfirmAction::Begin,
            ConfirmAction::LockAccounts,
            ConfirmAction::CheckConflict,
            ConfirmAction::Rollback,
        ]
    );
    assert!(matches!(outcome, Some(Err(Error::Conflicts))));
}

#[test]
fn a_collision_is_reported_even_if_the_rollback_fails() {
    let (_, outcome) =
        drive(vec![done(), done(), ConfirmEvent::Succeeded { conflict: true }, failed("gone")]);
    assert!(matches!(outcome, Some(Err(Error::Conflicts))));
}

#[test]
fn the_collision_flag_is_read_after_the_check_only() {
    let flagged = || ConfirmEvent::Succeeded { conflict: true };
    let (actions, outcome) = drive(vec![flagged(), flagged(), done(), flagged(), flagged()]);
    assert_eq!(actions.len(), 5);
    assert!(matches!(outcome, Some(Ok(()))));
}

#[test]
fn a_transaction_that_does_not_open_is_not_rolled_back() {
    let (actions, outcome) = drive(vec![failed("no connection")]);
    assert_eq!(actions, vec![ConfirmAction::Begin]);
    assert!(matches!(outcome, Some(Err(Error::DbError(text))) if text == "no connection"));
}

#[test]
fn a_failed_lock_rolls_back() {
    let (actions, outcome) = drive(vec![done(), failed("lock wait timeout"), done()]);
    assert_eq!(
        actions,
        vec![ConfirmAction::Begin, ConfirmAction::LockAccounts, ConfirmAction::Rollback]
    );
    assert!(matches!(outcome, Some(Err(Error::DbError(text))) if text == "lock wait timeout"));
}

#[test]
fn a_failed_check_rolls_back() {
    let (actions, outcome) = drive(vec![done(), done(), failed("bad query"), done()]);
    assert_eq!(actions.last(), Some(&ConfirmAction::Rollback));
    assert!(!actions.contains(&ConfirmAction::InsertReservations));
    assert!(matches!(outcome, Some(Err(Error::DbError(text))) if text == "bad query"));
}

#[test]
fn a_failed_insert_rolls_back_and_keeps_its_error() {
    let (actions, outcome) =
        drive(vec![done(), done(), done(), failed("disk full"), failed("gone")]);
    assert_eq!(
        actions,
        vec![
            ConfirmAction::Begin,
            ConfirmAction::LockAccounts,
            ConfirmAction::CheckConflict,
            ConfirmAction::InsertReservations,
            ConfirmAction::Rollback,
        ]
    );
    assert!(matches!(outcome, Some(Err(Error::DbError(text))) if text == "disk full"));
}

#[test]
fn a_failed_commit_ends_the_confirmation() {
    let (actions, outcome) = drive(vec![done(), done(), done(), done(), failed("deadlock")]);
    assert_eq!(actions.last(), Some(&ConfirmAction::Commit));
    assert!(matches!(outcome, Some(Err(Error::DbError(text))) if text == "deadlock"));
}

#[test]
fn nothing_is_decided_before_the_store_replies() {
    let (actions, outcome) = drive(vec![done(), done()]);
    assert_eq!(
        actions,
        vec![ConfirmAction::Begin, ConfirmAction::LockAccounts, ConfirmAction::CheckConflict]
    );
    assert!(outcome.is_none());
}
