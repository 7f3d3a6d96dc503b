//! Access to the free slots and the reservations of the accounts.

use vstd::prelude::*;
use crate::domains::error::Error;

verus! {

/// The free slots that the store holds for one account in a time window,
/// as it returned them: in any order, possibly more than once.
#[derive(Debug)]
pub struct UserSlots {
    pub account: String,
    /// Starts of the slots, in seconds since the Unix epoch.
    pub slots: Vec<i64>,
}

impl UserSlots {
    pub fn new(account: String, slots: Vec<i64>) -> (user_slots: UserSlots)
        ensures
            user_slots.account == account,
            user_slots.slots == slots,
    {
        UserSlots { account, slots }
    }
}

/// A store of the slots of accounts.
pub trait UserSlotClient {
    /// Whether `outcome` is what this store may give when asked for the
    /// slots of `accounts` between `start_time` and `end_time`. A store that
    /// says nothing of itself may give anything.
    open spec fn fetches(
        &self,
        accounts: Seq<String>,
        start_time: i64,
        end_time: i64,
        outcome: Result<Vec<UserSlots>, Error>,
    ) -> bool {
        true
    }

    /// Whether `outcome` is what this store may give when asked to reserve
    /// the slot that starts at `start_time` for all of `accounts`.
    open spec fn confirms(
        &self,
        accounts: Seq<String>,
        start_time: i64,
        outcome: Result<(), Error>,
    ) -> bool {
        true
    }

    /// The free slots of each of `accounts` that start between `start_time`
    /// and `end_time`.
    fn fetch_user_slots(&self, accounts: &[String], start_time: i64, end_time: i64) -> (outcome:
        Result<Vec<UserSlots>, Error>)
        ensures
            self.fetches(accounts@, start_time, end_time, outcome),
    ;

    /// Reserves the slot that starts at `start_time` for all of `accounts`,
    /// or for none of them.
    fn confirm_user_slots(&self, accounts: &[String], start_time: i64) -> (outcome: Result<
        (),
        Error,
    >)
        ensures
            self.confirms(accounts@, start_time, outcome),
    ;
}

} // verus!
