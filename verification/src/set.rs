//! The set command subsystem: the shared store accessor, the set algebra
//! with its laws, and the intersection command.

pub mod algebra;
pub mod interstore;
pub mod utilities;
