//! A persistent key-value database: protocol, store, log, replication and clustering.

pub mod buffer;
pub mod checksum;
pub mod cli;
pub mod client;
pub mod cluster;
pub mod command;
pub mod config;
pub mod error;
pub mod hash;
pub mod metrics;
pub mod order;
pub mod persistence;
pub mod protocol;
pub mod replication;
pub mod server;
pub mod store;
pub mod text;
pub mod time;
pub mod wire;

use vstd::prelude::*;

verus! {

/// The version of the crate.
pub const VERSION: &'static str = "0.4.0";

} // verus!
