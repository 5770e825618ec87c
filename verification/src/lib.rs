//! Observability core for a MongoDB inspection client.
//!
//! The library turns the driver's lifecycle event stream (command execution,
//! server discovery, heartbeats) into three small, bounded, queryable views:
//! cluster topology, per-connection heartbeat latency history, and command
//! throughput and latency statistics with a top-K slowest-commands list.
//! All state types are plain data; the surrounding application supplies the
//! driver callbacks, the clock readings and the locking.

pub mod analyze;
pub mod command;
pub mod heartbeat;
pub mod histogram;
pub mod ingest;
pub mod metrics;
pub mod paging;
pub mod slowest;
pub mod topology;
