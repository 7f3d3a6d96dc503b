//! What a store that speaks SQL needs besides its connection: the text of
//! its queries, and what it makes of the rows that come back.

pub mod data;
pub mod sql_helper;
pub mod user_slots;
