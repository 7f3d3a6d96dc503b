//! The interfaces through which the library reaches the slot store, and a
//! store in memory.

pub mod reservation_book;
pub mod test_client;
pub mod user_slot_client;
