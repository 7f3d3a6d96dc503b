//! Queries for the free slots and the reservations of accounts, and the
//! rows of the first of them sorted out by account.

use vstd::prelude::*;
use vstd::string::*;
use crate::domains::data_clients::user_slot_client::UserSlots;
use super::sql_helper::{create_place_holder, place_holder};

verus! {

/// One row of the answer to [`fetch_query`]: an account and the start of
/// one of its slots, in seconds since the Unix epoch, if the row has one.
#[derive(Debug)]
pub struct SlotRow {
    pub email: String,
    pub start: Option<i64>,
}

/// The text before and after the placeholders of the query for the slots of
/// the accounts that start in a window of time, between 10:00 and 19:30 of
/// a day. Its parameters: the accounts, then the two ends of the window.
pub open spec fn fetch_query_frame() -> (Seq<char>, Seq<char>) {
    (
        "SELECT u.email, us.start FROM t_user u LEFT JOIN t_user_slot us ON u.id = us.user_id WHERE u.email IN ("@,
        ") and us.start between ? and ? and TIME(us.start) between '10:00:00' and '19:30:00' ORDER BY u.id"@,
    )
}

/// The text around the placeholders of the query that locks the accounts
/// until the transaction ends. Its parameters: the accounts.
pub open spec fn lock_query_frame() -> (Seq<char>, Seq<char>) {
    ("SELECT * FROM t_user WHERE email IN ("@, ") FOR UPDATE"@)
}

/// The text around the placeholders of the query that finds a reservation
/// of one of the accounts less than thirty minutes before or after an
/// instant. Its parameters: the accounts, then the instant.
pub open spec fn conflict_query_frame() -> (Seq<char>, Seq<char>) {
    (
        "SELECT 1 FROM t_user u INNER JOIN t_user_slot us ON u.id = us.user_id WHERE u.email IN ("@,
        ") and ABS(TIMESTAMPDIFF(MINUTE, ?, us.start)) < 30"@,
    )
}

/// The text around the placeholders of the query that reserves the slot at
/// an instant for each of the accounts. Its parameters: the instant, then
/// the accounts.
pub open spec fn insert_query_frame() -> (Seq<char>, Seq<char>) {
    (
        "INSERT INTO t_user_slot (user_id, start) SELECT id, ? FROM t_user u WHERE u.email IN ("@,
        ")"@,
    )
}

/// A query for `count` accounts: the frame with one placeholder for each
/// account in it.
pub open spec fn framed(frame: (Seq<char>, Seq<char>), count: nat) -> Seq<char> {
    frame.0 + place_holder(count) + frame.1
}

fn frame_query(before: &str, count: usize, after: &str) -> (query: String)
    ensures
        query@ == framed((before@, after@), count as nat),
{
    let mut query = String::from_str(before);
    let holders = create_place_holder(count);
    query.append(holders.as_str());
    query.append(after);
    query
}

/// The query for the slots of `count` accounts in a window of time.
pub fn fetch_query(count: usize) -> (query: String)
    ensures
        query@ == framed(fetch_query_frame(), count as nat),
{
    frame_query(
        "SELECT u.email, us.start FROM t_user u LEFT JOIN t_user_slot us ON u.id = us.user_id WHERE u.email IN (",
        count,
        ") and us.start between ? and ? and TIME(us.start) between '10:00:00' and '19:30:00' ORDER BY u.id",
    )
}

/// The query that locks `count` accounts.
pub fn lock_query(count: usize) -> (query: String)
    ensures
        query@ == framed(lock_query_frame(), count as nat),
{
    frame_query("SELECT * FROM t_user WHERE email IN (", count, ") FOR UPDATE")
}

/// The query that finds a colliding reservation of one of `count` accounts.
pub fn conflict_query(count: usize) -> (query: String)
    ensures
        query@ == framed(conflict_query_frame(), count as nat),
{
    frame_query(
        "SELECT 1 FROM t_user u INNER JOIN t_user_slot us ON u.id = us.user_id WHERE u.email IN (",
        count,
        ") and ABS(TIMESTAMPDIFF(MINUTE, ?, us.start)) < 30",
    )
}

/// The query that reserves a slot for each of `count` accounts.
pub fn insert_query(count: usize) -> (query: String)
    ensures
        query@ == framed(insert_query_frame(), count as nat),
{
    frame_query(
        "INSERT INTO t_user_slot (user_id, start) SELECT id, ? FROM t_user u WHERE u.email IN (",
        count,
        ")",
    )
}

/// The starts of the rows of `account` that have one, in the order of the
/// rows.
pub open spec fn starts_of_account(rows: Seq<SlotRow>, account: Seq<char>) -> Seq<i64>
    decreases rows.len(),
{
    if rows.len() == 0 {
        Seq::empty()
    } else {
        let before = starts_of_account(rows.drop_last(), account);
        match rows.last().start {
            Some(start) if rows.last().email@ == account => before.push(start),
            _ => before,
        }
    }
}

/// `grouped` holds, for each of the accounts in their order, the account
/// and its starts among the rows.
pub open spec fn groups(
    accounts: Seq<String>,
    rows: Seq<SlotRow>,
    grouped: Seq<UserSlots>,
) -> bool {
    &&& grouped.len() == accounts.len()
    &&& forall|a: int|
        0 <= a < accounts.len() ==> (#[trigger] grouped[a]).account == accounts[a]
            && grouped[a].slots@ == starts_of_account(rows, accounts[a]@)
}

fn account_starts(rows: &[SlotRow], account: &String) -> (starts: Vec<i64>)
    ensures
        starts@ == starts_of_account(rows@, account@),
{
    let mut starts: Vec<i64> = Vec::new();
    let mut i: usize = 0;
    while i < rows.len()
        invariant
            i <= rows.len(),
            starts@ == starts_of_account(rows@.take(i as int), account@),
        decreases rows.len() - i,
    {
        assert(rows@.take(i + 1).drop_last() == rows@.take(i as int));
        if rows[i].email == *account {
            match rows[i].start {
                Some(start) => {
                    starts.push(start);
                },
                None => {},
            }
        }
        i = i + 1;
    }
    assert(rows@.take(i as int) == rows@);
    starts
}

/// Sorts the rows out by account: one entry for each of `accounts`, in
/// their order, with the starts of its rows in the order of the rows. An
/// account without a row gets an entry without slots; a row of an account
/// that was not asked for is left out.
pub fn group_by_account(accounts: &[String], rows: &[SlotRow]) -> (grouped: Vec<UserSlots>)
    ensures
        groups(accounts@, rows@, grouped@),
{
    let mut grouped: Vec<UserSlots> = Vec::new();
    let mut a: usize = 0;
    while a < accounts.len()
        invariant
            a <= accounts.len(),
            groups(accounts@.take(a as int), rows@, grouped@),
        decreases accounts.len() - a,
    {
        let account_slots = account_starts(rows, &accounts[a]);
        grouped.push(UserSlots { account: accounts[a].clone(), slots: account_slots });
        a = a + 1;
    }
    grouped
}

} // verus!
