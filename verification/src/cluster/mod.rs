//! Which node of a static cluster owns a key.

pub mod membership;
pub mod topology;

pub use membership::ClusterNode;
pub use topology::ClusterTopology;
