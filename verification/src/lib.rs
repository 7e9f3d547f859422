//! Verified core of a chat-logging service: event normalization, the batch
//! buffer with its dual-trigger flush scheduler, and a keyed TTL cache that
//! coalesces concurrent recomputation. I/O (chat transport, database, HTTP)
//! lives outside this crate and hands plain values in and out.

pub mod api;
pub mod buffer;
pub mod chart;
pub mod cache;
pub mod config;
pub mod ingest;
pub mod log;
pub mod normalize;
pub mod stats;
pub mod utils;
