//! Orchestration logic of a batch-classification pipeline: building the job
//! matrix, deciding what a bounded runner does next, routing output lines by
//! their shape, and joining count records against annotation tables.

pub mod config;
pub mod error;
pub mod jobs;
pub mod joiner;
pub mod options;
pub mod runner;
pub mod splitter;
pub mod text;
