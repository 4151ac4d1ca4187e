//! The data: keys with their values and expirations, spread over shards.

pub mod entry;
pub mod laws;
pub mod shard;
pub mod sharded;

pub use entry::{Entry, SnapshotEntry};
pub use sharded::{ShardedStore, TtlState};
