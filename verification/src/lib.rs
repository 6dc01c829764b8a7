//! Batch job orchestration: a bounded, priority-ordered job queue with
//! dependency gating, retry and timeout policy, and derived statistics,
//! together with the bounded buffers and small helpers it is deployed with.

pub mod batch_processing;
pub mod buffer_manager;
pub mod cache;
pub mod data_processing;
pub mod ids;
pub mod path_manager;
pub mod text;
pub mod time;
