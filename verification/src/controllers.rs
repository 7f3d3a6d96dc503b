//! Reading what a request carries and writing what an answer carries.

pub mod time_helper;
pub mod user_slots;
