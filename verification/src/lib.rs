//! Streaming statistics over a MongoDB oplog.
//!
//! The library consumes a stream of oplog documents and maintains, per
//! grouping key (namespace and operation code), a running document count and
//! cumulative byte size.  It derives ranked snapshots, percentage shares and
//! human-readable size strings from those aggregates, and a stream driver
//! caps processing at a caller-supplied limit while preserving all state
//! aggregated before a mid-stream failure.

pub mod args;
pub mod driver;
pub mod extract;
pub mod oplog_stats;
pub mod share;
pub mod text;
