//! A pooled proof-of-work mining client: nonce-range partitioning, the
//! time-bounded per-worker search, aggregation of worker results, and the
//! decisions of the round loop that acquires work and submits solutions.

pub mod partition;
pub mod primitives;
pub mod codec;
pub mod search;
pub mod aggregate;
pub mod round;
