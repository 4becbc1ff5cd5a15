//! The head: work queues, orchestration decisions and worker addresses.

pub mod client;
pub mod orchestrator;
pub mod queue;
