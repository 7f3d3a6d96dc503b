//! Listing and clearing the store, for maintenance.

use std::collections::HashMap;
use std::sync::Arc;
use vstd::prelude::*;
use crate::domains::data_clients::test_client::TestClient;
use crate::domains::error::Error;

verus! {

/// Maintenance operations over a store.
pub struct DataUsecase<C: TestClient> {
    pool: Arc<C>,
}

impl<C: TestClient> DataUsecase<C> {
    /// The store that the operations go to.
    pub closed spec fn store(&self) -> Arc<C> {
        self.pool
    }

    pub fn new(pool: Arc<C>) -> (usecase: Self)
        ensures
            usecase.store() == pool,
    {
        Self { pool }
    }

    /// Lists the reservations: what the store gives, unchanged.
    pub fn dump(&self) -> (outcome: Result<HashMap<String, String>, Error>)
        ensures
            self.store().dumps(outcome),
    {
        self.pool.dump_data()
    }

    /// Removes every reservation: what the store gives, unchanged.
    pub fn clear(&self) -> (outcome: Result<(), Error>)
        ensures
            self.store().clears(outcome),
    {
        self.pool.clear_data()
    }
}

} // verus!
