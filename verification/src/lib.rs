//! Churn model for committee-based shard assignment on a consistent-hashing
//! address ring.
//!
//! Validator nodes live on a 256-bit address ring. Each node's ring position
//! is re-derived every epoch from a hash of its permanent key together with a
//! rotation-window counter, committees are read off the ring by successor
//! lookup, and the per-epoch membership turnover of every shard's committee is
//! counted and aggregated.

pub mod u256;
pub mod render;
pub mod shards;
pub mod stats;
