//! Metrics bookkeeping for a web service: bounded histories of route calls,
//! memory events and system snapshots, per-route statistics with sliding
//! windows, allocator counters, a route blacklist, and the merge of persisted
//! metrics.

pub mod blacklist;
pub mod globals;
pub mod history;
pub mod memory_stats;
pub mod metrics;
pub mod models;
pub mod persistence;
pub mod route_stats;
pub mod tracking_allocator;
