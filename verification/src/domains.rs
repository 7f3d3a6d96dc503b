//! Value types and rules of the availability engine.

pub mod data_clients;
pub mod error;
pub mod slot;
pub mod slot_range;
