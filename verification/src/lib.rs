//! Verified core of a distributed video-compression pool: file-name rules,
//! CRF extraction, argument handling, the head's scheduling queues and
//! orchestration decisions, and the worker's job bookkeeping.

pub mod text;
pub mod cmd;
pub mod config;
pub mod crf;
pub mod paths;
pub mod types;

