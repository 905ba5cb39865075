//! Scheduling and consistency core of an incremental multi-project compiler:
//! which projects must rebuild after a change, how a cycle's per-project
//! outcomes are aggregated, and how the artifact manifest is kept whole.
pub mod compiler;
pub mod errors;
pub mod laws;
pub mod project;
pub mod report;
pub mod scheduler;
pub mod sources;
pub mod state;
