//! The operations that the service offers, each over an injected store.

pub mod confirmation;
pub mod data;
pub mod user_slots;
