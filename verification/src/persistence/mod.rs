//! What the database keeps on disk: log records, snapshots, and the way back from them.

pub mod batch;
pub mod compaction;
pub mod database;
pub mod identity;
pub mod laws;
pub mod log;
pub mod record;
pub mod replace;
pub mod restart;
pub mod snapshot;
pub mod wal;

pub use database::{Database, ReplicationBatch, ReplicationSnapshot};
pub use log::{prepare_wal, recover_wal, RecoveryReport};
pub use record::{RecordType, WalRecord, WAL_HEADER, WAL_VERSION};
pub use snapshot::{decode_snapshot, encode_snapshot, load_snapshot, SnapshotReport};
pub use wal::Wal;
