//! Shared availability for groups of accounts.
//!
//! Every account holds a set of free half-hour slots. The library merges
//! contiguous slots into ranges, intersects the ranges of several accounts,
//! and drives the protocol that reserves one slot for all of them at once.
//!
//! Instants are whole seconds since the Unix epoch, held in an `i64`.

pub mod controllers;
pub mod domains;
pub mod sql_clients;
pub mod usecases;
