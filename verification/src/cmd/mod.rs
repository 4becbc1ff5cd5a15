//! The two roles of the pool: the head (coordinator) and the worker.

pub mod head;
pub mod worker;
