//! Offline-first data-synchronization engine for a point-of-sale application.
//!
//! The engine reconciles a local store with a remote backend in two phases
//! (pull, then push), resolving conflicts record by record with a
//! last-write-wins policy, tracking dirty records, propagating tombstones,
//! and advancing a persisted checkpoint after every run.

pub mod category;
pub mod debt;
pub mod engine;
pub mod errors;
pub mod pull;
pub mod push;
pub mod record;
pub mod remote;
pub mod remote_store;
pub mod resolver;
pub mod store;
pub mod tables;
pub mod timestamp;
