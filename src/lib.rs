//! Verified core of a reactive actor runtime layered on a transactional
//! ordered key-value store: partition assignment and message routing, the
//! per-operation message budget, per-agent retry backoff, scheduled delivery,
//! online repartitioning, client liveness, and the key layout.

pub mod apply;
pub mod assignment;
pub mod blob;
pub mod budget;
pub mod client;
pub mod error;
pub mod keys;
pub mod repartition;
pub mod retry;
pub mod root;
pub mod schedule;
pub mod send;
pub mod subspace;
pub mod timestamp;
