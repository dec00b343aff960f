//! A verified set-algebra command subsystem for an in-memory, typed
//! key-value store.
//!
//! Values in the store are tagged variants (`Data`); the commands here read
//! one or more set-typed values, compute a derived set (intersection), write
//! it back under a destination key, and return the result's cardinality.

pub mod domain;
pub mod errors;
pub mod store;
pub mod set;
