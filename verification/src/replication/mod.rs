//! Replication from a leader to its followers.

pub mod follower;
pub mod leader;
pub mod message;
pub mod state;

pub use state::ReplicaState;
