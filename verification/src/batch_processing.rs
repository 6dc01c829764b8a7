//! The batch job engine: job records, the priority queue, the scheduling
//! state machine and the statements proved about it.

pub mod config;
pub mod engine;
pub mod invariants;
pub mod job;
pub mod laws;
pub mod lookup;
pub mod processor;
