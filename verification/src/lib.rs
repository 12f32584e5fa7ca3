//! An in-memory inventory registry: a store of stock records keyed by
//! stock-keeping unit, with atomic mutation operations and a
//! polling-based change watcher. Every operation is specified and
//! verified against a map-valued model of the store.

pub mod error;
pub mod item;
pub mod laws;
pub mod store;
pub mod watch;
