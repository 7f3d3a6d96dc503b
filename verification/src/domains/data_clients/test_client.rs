//! Maintenance access to the slot store.

use std::collections::HashMap;
use vstd::prelude::*;
use crate::domains::error::Error;

verus! {

/// A store whose reservations can be listed and removed as a whole.
pub trait TestClient {
    /// Whether `outcome` is what listing this store may give. A store that
    /// says nothing of itself may give anything.
    open spec fn dumps(&self, outcome: Result<HashMap<String, String>, Error>) -> bool {
        true
    }

    /// Whether `outcome` is what clearing this store may give.
    open spec fn clears(&self, outcome: Result<(), Error>) -> bool {
        true
    }

    /// The reservations of every account that has any, as one text per
    /// account, keyed by the account.
    fn dump_data(&self) -> (outcome: Result<HashMap<String, String>, Error>)
        ensures
            self.dumps(outcome),
    ;

    /// Removes every reservation.
    fn clear_data(&self) -> (outcome: Result<(), Error>)
        ensures
            self.clears(outcome),
    ;
}

} // verus!
