use slot_booking::domains::data_clients::reservation_book::{Pending, ReservationBook};
use slot_booking::domains::error::Error;
use slot_booking::usecases::confirmation::{ConfirmAction, ConfirmEvent};

fn accounts(names: &[&str]) -> Vec<String> {
    names.iter().map(|name| name.to_string()).collect()
}

fn held(book: &ReservationBook) -> Vec<(String, i64)> {
    book.entries.iter().map(|entry| (entry.account.clone(), entry.start)).collect()
}

#[test]
fn a_confirmation_reserves_the_slot_for_every_account() {
    let mut book = ReservationBook::new();
    assert!(book.confirm_user_slots(&accounts(&["a", "b"]), 3600).is_ok());
    assert_eq!(held(&book), vec![("a".to_string(), 3600), ("b".to_string(), 3600)]);
}

#[test]
fn of_two_colliding_confirmations_the_second_conflicts() {
    let mut book = ReservationBook::new();
    assert!(book.confirm_user_slots(&accounts(&["a", "b"]), 3600).is_ok());
    let second = book.confirm_user_slots(&accounts(&["b", "c"]), 3600 + 1799);
    assert!(matches!(second, Err(Error::Conflicts)));
    assert_eq!(held(&book), vec![("a".to_string(), 3600), ("b".to_string(), 3600)]);
}

#[test]
fn a_conflict_reserves_for_none_of_the_accounts() {
    let mut book = ReservationBook::new();
    assert!(book.confirm_user_slots(&accounts(&["b"]), 0).is_ok());
    assert!(book.confirm_user_slots(&accounts(&["a", "b", "c"]), 60).is_err());
    assert_eq!(held(&book), vec![("b".to_string(), 0)]);
}

#[test]
fn slots_collide_less_than_thirty_minutes_apart() {
    let mut book = ReservationBook::new();
    let a = accounts(&["a"]);
    assert!(book.confirm_user_slots(&a, 10_000).is_ok());
    assert!(book.has_conflicting_reservation(&a, 10_000));
    assert!(book.has_conflicting_reservation(&a, 10_000 + 1799));
    assert!(book.has_conflicting_reservation(&a, 10_000 - 1799));
    assert!(!book.has_conflicting_reservation(&a, 10_000 + 1800));
    assert!(!book.has_conflicting_reservation(&a, 10_000 - 1800));
    assert!(!book.has_conflicting_reservation(&accounts(&["b"]), 10_000));
    assert!(!book.has_conflicting_reservation(&[], 10_000));
}

#[test]
fn the_next_slot_of_the_same_account_can_be_confirmed() {
    let mut book = ReservationBook::new();
    let a = accounts(&["a"]);
    assert!(book.confirm_user_slots(&a, 0).is_ok());
    assert!(book.confirm_user_slots(&a, 1800).is_ok());
    assert!(book.confirm_user_slots(&a, -1800).is_ok());
    assert!(book.confirm_user_slots(&a, 900).is_err());
    assert_eq!(book.entries.len(), 3);
}

#[test]
fn confirmations_for_other_accounts_do_not_meet() {
    let mut book = ReservationBook::new();
    assert!(book.confirm_user_slots(&accounts(&["a", "b"]), 3600).is_ok());
    assert!(book.confirm_user_slots(&accounts(&["c", "d"]), 3600).is_ok());
    assert_eq!(book.entries.len(), 4);
}

#[test]
fn an_account_named_twice_gets_one_reservation() {
    let mut book = ReservationBook::new();
    assert!(book.confirm_user_slots(&accounts(&["a", "b", "a"]), 0).is_ok());
    assert_eq!(held(&book), vec![("a".to_string(), 0), ("b".to_string(), 0)]);
}

#[test]
fn a_confirmation_for_nobody_reserves_nothing() {
    let mut book = ReservationBook::new();
    assert!(book.confirm_user_slots(&[], 0).is_ok());
    assert!(book.entries.is_empty());
}

#[test]
fn collisions_are_found_at_the_ends_of_time() {
    let mut book = ReservationBook::new();
    let a = accounts(&["a"]);
    assert!(book.confirm_user_slots(&a, i64::MAX).is_ok());
    assert!(book.confirm_user_slots(&a, i64::MIN).is_ok());
    assert!(book.has_conflicting_reservation(&a, i64::MAX - 1));
    assert!(book.has_conflicting_reservation(&a, i64::MIN + 1799));
    assert!(!book.has_conflicting_reservation(&a, 0));
}

#[test]
fn the_book_answers_the_actions_of_a_transaction() {
    let mut book = ReservationBook::new();
    let mut pending: Pending = None;
    let a = accounts(&["a"]);
    let lock = book.perform(&mut pending, ConfirmAction::LockAccounts, &a, 0);
    assert!(matches!(lock, ConfirmEvent::Failed(text) if text == "no transaction is open"));
    let begin = book.perform(&mut pending, ConfirmAction::Begin, &a, 0);
    assert!(matches!(begin, ConfirmEvent::Succeeded { conflict: false }));
    let again = book.perform(&mut pending, ConfirmAction::Begin, &a, 0);
    assert!(matches!(again, ConfirmEvent::Failed(text) if text == "a transaction is open"));
    let insert = book.perform(&mut pending, ConfirmAction::InsertReservations, &a, 0);
    assert!(matches!(insert, ConfirmEvent::Succeeded { conflict: false }));
    assert!(book.entries.is_empty());
    assert_eq!(pending.as_ref().map(|rows| rows.len()), Some(1));
    let rollback = book.perform(&mut pending, ConfirmAction::Rollback, &a, 0);
    assert!(matches!(rollback, ConfirmEvent::Succeeded { conflict: false }));
    assert!(book.entries.is_empty());
    assert!(pending.is_none());
    let commit = book.perform(&mut pending, ConfirmAction::Commit, &a, 0);
    assert!(matches!(commit, ConfirmEvent::Failed(_)));
}

#[test]
fn a_commit_moves_the_reservations_into_the_book() {
    let mut book = ReservationBook::new();
    let mut pending: Pending = None;
    let a = accounts(&["a"]);
    book.perform(&mut pending, ConfirmAction::Begin, &a, 7);
    let check = book.perform(&mut pending, ConfirmAction::CheckConflict, &a, 7);
    assert!(matches!(check, ConfirmEvent::Succeeded { conflict: false }));
    book.perform(&mut pending, ConfirmAction::InsertReservations, &a, 7);
    book.perform(&mut pending, ConfirmAction::Commit, &a, 7);
    assert_eq!(held(&book), vec![("a".to_string(), 7)]);
    assert!(pending.is_none());
    book.perform(&mut pending, ConfirmAction::Begin, &a, 7);
    let check = book.perform(&mut pending, ConfirmAction::CheckConflict, &a, 8);
    assert!(matches!(check, ConfirmEvent::Succeeded { conflict: true }));
}
