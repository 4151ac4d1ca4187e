//! The database: the store together with its log.
//!
//! A change is staged first, which gives the bytes to append to the log. It is committed, and only
//! then seen by readers, once they were appended.

use bytes::Bytes;
use vstd::prelude::*;

use crate::buffer::{as_slice, contents};
use crate::config::{Config, FsyncMode};
use crate::error::{PersistenceError, StoreError};
use crate::metrics::MetricsSnapshot;
use crate::persistence::batch::{
    at_boundary, batch_end, batch_records, decode_record_batch, is_record_boundary,
    read_record_batch, record_list,
};
use crate::persistence::identity::{DataFiles, Identity};
use crate::persistence::log::{
    all_applied, all_applied_counters, applied, applied_counters, apply_problem, apply_record,
    has_header, prepare_wal, recover_wal_at, recovery_outcome, scan_log, RecoveryReport,
};
use crate::persistence::record::{
    stamped, RecordType, RecordView, WalRecord, WAL_HEADER,
};
use crate::persistence::snapshot::{
    decode_snapshot_at, encode_snapshot, list_problem, load_snapshot_at, scan_snapshot,
    snapshot_bytes, snapshot_report, unexpired, SnapshotReport,
};
use crate::persistence::wal::{saturating, Wal, WalWrite};
use crate::protocol::frame::ProtocolLimits;
use crate::store::entry::{
    distinct_keys, entries_map, entry_list, live, EntryView, SnapshotEntry, SnapshotEntryView,
};
use crate::store::sharded::{
    count_stale, expiry, found, kept_for_good, saturated, stale, ShardedStore,
};
use crate::time::{Duration, Timestamp};

verus! {

/// A change to the data.
#[derive(Debug)]
pub enum Mutation {
    Put { key: Bytes, value: Bytes },
    SetEx { key: Bytes, value: Bytes, expires_at: Timestamp },
    Delete { key: Bytes },
    Persist { key: Bytes },
    Replicated(WalRecord),
}

/// A change to the data, with its parts as mathematical values.
#[verifier::ext_equal]
pub enum MutationView {
    Put { key: Seq<u8>, value: Seq<u8> },
    SetEx { key: Seq<u8>, value: Seq<u8>, expires_at: Timestamp },
    Delete { key: Seq<u8> },
    Persist { key: Seq<u8> },
    Replicated(RecordView),
}

impl View for Mutation {
    type V = MutationView;

    open spec fn view(&self) -> MutationView {
        match *self {
            Mutation::Put { key, value } => MutationView::Put {
                key: contents(key),
                value: contents(value),
            },
            Mutation::SetEx { key, value, expires_at } => MutationView::SetEx {
                key: contents(key),
                value: contents(value),
                expires_at,
            },
            Mutation::Delete { key } => MutationView::Delete { key: contents(key) },
            Mutation::Persist { key } => MutationView::Persist { key: contents(key) },
            Mutation::Replicated(record) => MutationView::Replicated(record@),
        }
    }
}

/// A change whose bytes are ready to be appended.
#[derive(Debug)]
pub struct StagedWrite {
    pub mutation: Mutation,
    pub write: WalWrite,
}

/// A change whose bytes are ready to be appended, with its parts as mathematical values.
#[verifier::ext_equal]
pub struct StagedView {
    pub mutation: MutationView,
    pub encoded: Seq<u8>,
    pub sync: bool,
}

impl View for StagedWrite {
    type V = StagedView;

    open spec fn view(&self) -> StagedView {
        StagedView {
            mutation: self.mutation@,
            encoded: contents(self.write.encoded),
            sync: self.write.sync,
        }
    }
}

/// The database as a mathematical value.
#[verifier::ext_equal]
pub struct DatabaseView {
    /// The data that readers see.
    pub data: Map<Seq<u8>, EntryView>,
    /// The counters.
    pub counters: MetricsSnapshot,
    /// The number of shards.
    pub shards: nat,
    /// The open log.
    pub wal: Wal,
    /// The generation of the log.
    pub generation: u64,
    /// The name of the node.
    pub node_id: Seq<char>,
    /// The limits of keys and values.
    pub limits: ProtocolLimits,
    /// The length from which on the log is compacted. None where it is zero.
    pub compaction_threshold_bytes: u64,
}

/// The data after a change that is committed at `now`.
pub open spec fn mutated(
    data: Map<Seq<u8>, EntryView>,
    mutation: MutationView,
    now: Timestamp,
) -> Map<Seq<u8>, EntryView> {
    match mutation {
        MutationView::Put { key, value } => data.insert(
            key,
            EntryView { value, expires_at: None },
        ),
        MutationView::SetEx { key, value, expires_at } => data.insert(
            key,
            EntryView { value, expires_at: Some(expires_at) },
        ),
        MutationView::Delete { key } => data.remove(key),
        MutationView::Persist { key } => kept_for_good(data, key, now),
        MutationView::Replicated(record) => match apply_problem(record) {
            None => applied(data, record, now),
            Some(_) => data,
        },
    }
}

/// The counters after a record of this length was appended.
pub open spec fn count_append(counters: MetricsSnapshot, length: nat) -> MetricsSnapshot {
    MetricsSnapshot {
        wal_records_written: counters.wal_records_written.wrapping_add(1),
        wal_bytes_written: counters.wal_bytes_written.wrapping_add(length as u64),
        ..counters
    }
}

/// The counters after a change that is committed at `now`.
pub open spec fn mutated_counters(
    counters: MetricsSnapshot,
    data: Map<Seq<u8>, EntryView>,
    mutation: MutationView,
    now: Timestamp,
) -> MetricsSnapshot {
    match mutation {
        MutationView::Put { .. } | MutationView::SetEx { .. } => MetricsSnapshot {
            sets_total: counters.sets_total.wrapping_add(1),
            ..counters
        },
        MutationView::Delete { key } => {
            let counted = count_stale(counters, stale(data, key, now));
            MetricsSnapshot { deletes_total: counted.deletes_total.wrapping_add(1), ..counted }
        },
        MutationView::Persist { key } => count_stale(counters, stale(data, key, now)),
        MutationView::Replicated(record) => match apply_problem(record) {
            None => applied_counters(counters, data, record, now),
            Some(_) => counters,
        },
    }
}

/// What a change that is committed at `now` answers: whether there was a value to remove, or an
/// expiration to take away.
pub open spec fn mutation_answer(
    data: Map<Seq<u8>, EntryView>,
    mutation: MutationView,
    now: Timestamp,
) -> Result<bool, PersistenceError> {
    match mutation {
        MutationView::Delete { key } => Ok(found(data, key, now) is Some),
        MutationView::Persist { key } => Ok(
            found(data, key, now) is Some && found(data, key, now)->0.expires_at is Some,
        ),
        MutationView::Replicated(record) => match apply_problem(record) {
            None => Ok(true),
            Some(error) => Err(error),
        },
        _ => Ok(true),
    }
}

impl DatabaseView {
    /// The database after a staged change was appended and committed at `now`.
    pub open spec fn committed(self, staged: StagedView, now: Timestamp) -> DatabaseView {
        let length = staged.encoded.len();
        DatabaseView {
            data: mutated(self.data, staged.mutation, now),
            counters: mutated_counters(
                count_append(self.counters, length),
                self.data,
                staged.mutation,
                now,
            ),
            wal: Wal {
                fsync: self.wal.fsync,
                bytes_written: saturating(self.wal.bytes_written, length as int),
                dirty: self.wal.fsync != FsyncMode::Always,
            },
            ..self
        }
    }

    /// What is staged for a change with this record.
    pub open spec fn staged(
        self,
        mutation: MutationView,
        record: Result<RecordView, PersistenceError>,
    ) -> Result<StagedView, PersistenceError> {
        match record {
            Err(error) => Err(error),
            Ok(record) => if !record.encodable() {
                Err(PersistenceError::InvalidRecordLength)
            } else {
                Ok(
                    StagedView {
                        mutation,
                        encoded: record.encoded(),
                        sync: self.wal.fsync == FsyncMode::Always,
                    },
                )
            },
        }
    }
}

/// A result with what was staged as a view.
pub open spec fn staged_view(staged: Result<StagedWrite, PersistenceError>) -> Result<
    StagedView,
    PersistenceError,
> {
    match staged {
        Ok(staged) => Ok(staged@),
        Err(error) => Err(error),
    }
}

/// A snapshot that is ready to be written.
#[derive(Debug)]
pub struct SnapshotImage {
    pub encoded: Vec<u8>,
    pub entries: usize,
}

/// A snapshot of a leader that is ready to be installed.
#[derive(Debug)]
pub struct InstallPlan {
    pub entries: Vec<SnapshotEntry>,
    pub encoded: Vec<u8>,
}

/// A run of whole records for a follower.
#[derive(Clone, Debug, PartialEq, Eq)]
pub struct ReplicationBatch {
    pub generation: u64,
    pub start_offset: u64,
    pub end_offset: u64,
    pub leader_end: u64,
    pub bytes: Vec<u8>,
}

/// A snapshot for a follower, with the place in the log that it stands for.
#[derive(Clone, Debug, PartialEq, Eq)]
pub struct ReplicationSnapshot {
    pub generation: u64,
    pub offset: u64,
    pub bytes: Vec<u8>,
}

/// The store together with its log.
#[derive(Debug)]
pub struct Database {
    store: ShardedStore,
    wal: Wal,
    limits: ProtocolLimits,
    compaction_threshold_bytes: u64,
    wal_generation: u64,
    node_id: String,
}

impl View for Database {
    type V = DatabaseView;

    closed spec fn view(&self) -> DatabaseView {
        DatabaseView {
            data: self.store@,
            counters: self.store.counters(),
            shards: self.store.spec_shard_count(),
            wal: self.wal,
            generation: self.wal_generation,
            node_id: self.node_id@,
            limits: self.limits,
            compaction_threshold_bytes: self.compaction_threshold_bytes,
        }
    }
}

/// The log that is recovered: a new one is just its header.
pub open spec fn recovered_log(files: DataFiles) -> Seq<u8> {
    if files.wal@.len() == 0 {
        WAL_HEADER@
    } else {
        files.wal@
    }
}

/// The data that a snapshot leaves in a store before the log is replayed.
pub open spec fn base_data(
    before: Map<Seq<u8>, EntryView>,
    files: DataFiles,
    limits: ProtocolLimits,
    now: Timestamp,
) -> Map<Seq<u8>, EntryView> {
    match files.snapshot {
        None => before,
        Some(bytes) => before.union_prefer_right(
            entries_map(unexpired(scan_snapshot(bytes@, limits).0, now)),
        ),
    }
}

/// What is wrong with the snapshot, if there is one and something is.
pub open spec fn snapshot_fault(files: DataFiles, limits: ProtocolLimits) -> Option<
    PersistenceError,
> {
    match files.snapshot {
        None => None,
        Some(bytes) => scan_snapshot(bytes@, limits).1,
    }
}

/// What is reported of the snapshot.
pub open spec fn snapshot_outcome(
    files: DataFiles,
    limits: ProtocolLimits,
    now: Timestamp,
) -> SnapshotReport {
    match files.snapshot {
        None => SnapshotReport { entries_loaded: 0, expired_entries_skipped: 0 },
        Some(bytes) => snapshot_report(scan_snapshot(bytes@, limits).0, now),
    }
}

/// The report of opening a database whose store is left with this many keys.
pub open spec fn open_outcome(
    files: DataFiles,
    limits: ProtocolLimits,
    now: Timestamp,
    keys: nat,
) -> Result<RecoveryReport, PersistenceError> {
    match snapshot_fault(files, limits) {
        Some(error) => Err(error),
        None => if files.wal@.len() > 0 && !has_header(files.wal@) {
            Err(PersistenceError::InvalidHeader)
        } else {
            match recovery_outcome(recovered_log(files), limits, keys) {
                Err(error) => Err(error),
                Ok(report) => {
                    let snapshot = snapshot_outcome(files, limits, now);
                    Ok(
                        RecoveryReport {
                            snapshot_entries_loaded: snapshot.entries_loaded,
                            snapshot_expired_entries_skipped: snapshot.expired_entries_skipped,
                            ..report
                        },
                    )
                },
            }
        },
    }
}

/// The data of a database that was opened at `now`: the snapshot, then the log, without what has
/// expired.
pub open spec fn opened_data(
    before: Map<Seq<u8>, EntryView>,
    files: DataFiles,
    limits: ProtocolLimits,
    now: Timestamp,
) -> Map<Seq<u8>, EntryView> {
    let records = scan_log(recovered_log(files), 8, limits).0;
    live(all_applied(base_data(before, files, limits, now), records, now), now)
}

/// The counters of a database that was opened at `now`.
pub open spec fn opened_counters(
    counters: MetricsSnapshot,
    before: Map<Seq<u8>, EntryView>,
    files: DataFiles,
    limits: ProtocolLimits,
    now: Timestamp,
) -> MetricsSnapshot {
    let records = scan_log(recovered_log(files), 8, limits).0;
    let base = base_data(before, files, limits, now);
    let replayed = all_applied(base, records, now);
    let counted = all_applied_counters(counters, base, records, now);
    MetricsSnapshot {
        expired_keys_total: counted.expired_keys_total.wrapping_add(
            saturated(replayed.dom().len() - live(replayed, now).dom().len()),
        ),
        ..counted
    }
}

/// Whether a list has the live entries of a database, each once.
pub open spec fn lists_live(
    data: Map<Seq<u8>, EntryView>,
    now: Timestamp,
    list: Seq<SnapshotEntryView>,
) -> bool {
    distinct_keys(list) && entries_map(list) == live(data, now)
}

impl Database {
    /// The store is in order.
    pub closed spec fn valid(self) -> bool {
        self.store.valid()
    }

    /// Opens a database over the files of its directory, at `now`. The log has to be given its
    /// header first where it is empty, and to be cut to the valid bytes where the report says that
    /// its tail was torn.
    pub fn open(
        config: &Config,
        identity: Identity,
        files: &DataFiles,
        store: ShardedStore,
        now: Timestamp,
    ) -> (opened: Result<(Self, RecoveryReport), PersistenceError>)
        requires
            store.valid(),
        ensures
            ({
                let limits = ProtocolLimits {
                    max_frame_size: config.max_frame_size,
                    max_key_size: config.max_key_size,
                    max_value_size: config.max_value_size,
                };
                let data = opened_data(store@, *files, limits, now);
                match opened {
                    Ok((database, report)) => {
                        &&& data.dom().finite()
                        &&& open_outcome(*files, limits, now, data.dom().len()) == Ok::<
                            RecoveryReport,
                            PersistenceError,
                        >(report)
                        &&& database.valid()
                        &&& database@.data == data
                        &&& database@.counters == opened_counters(
                            store.counters(),
                            store@,
                            *files,
                            limits,
                            now,
                        )
                        &&& database@.shards == store.spec_shard_count()
                        &&& database@.wal == (Wal {
                            fsync: config.fsync,
                            bytes_written: report.valid_bytes,
                            dirty: false,
                        })
                        &&& database@.generation == identity.generation
                        &&& database@.node_id == identity.node_id@
                        &&& database@.limits == limits
                        &&& database@.compaction_threshold_bytes
                            == config.wal_compaction_threshold_bytes
                    },
                    Err(error) => open_outcome(*files, limits, now, data.dom().len()) == Err::<
                        RecoveryReport,
                        PersistenceError,
                    >(error),
                }
            }),
    {
        let limits: ProtocolLimits = ProtocolLimits::from(config);
        let mut store: ShardedStore = store;
        let snapshot: Option<&[u8]> = match &files.snapshot {
            Some(bytes) => Some(bytes.as_slice()),
            None => None,
        };
        let report: SnapshotReport = match load_snapshot_at(snapshot, &mut store, limits, now) {
            Ok(report) => report,
            Err(error) => return Err(error),
        };
        let log: &[u8] = match prepare_wal(files.wal.as_slice()) {
            Ok(true) => {
                assert(WAL_HEADER@.take(8) =~= WAL_HEADER@);
                &WAL_HEADER
            },
            Ok(false) => files.wal.as_slice(),
            Err(error) => return Err(error),
        };
        let mut recovery: RecoveryReport = match recover_wal_at(log, &mut store, limits, now) {
            Ok(recovery) => recovery,
            Err(error) => return Err(error),
        };
        recovery.snapshot_entries_loaded = report.entries_loaded;
        recovery.snapshot_expired_entries_skipped = report.expired_entries_skipped;
        let database: Database = Self {
            store,
            wal: Wal::open(config.fsync, recovery.valid_bytes),
            limits,
            compaction_threshold_bytes: config.wal_compaction_threshold_bytes,
            wal_generation: identity.generation,
            node_id: identity.node_id,
        };
        Ok((database, recovery))
    }

    /// The store, to read from.
    pub fn store(&self) -> (store: &ShardedStore)
        requires
            self.valid(),
        ensures
            store.valid(),
            store@ == self@.data,
            store.counters() == self@.counters,
            store.spec_shard_count() == self@.shards,
    {
        &self.store
    }

    /// The store, for reads that drop what has expired.
    pub fn store_mut(&mut self) -> (store: &mut ShardedStore)
        requires
            old(self).valid(),
        ensures
            store.valid(),
            store@ == old(self)@.data,
            store.counters() == old(self)@.counters,
            store.spec_shard_count() == old(self)@.shards,
            final(self).valid() == final(store).valid(),
            final(self)@ == (DatabaseView {
                data: final(store)@,
                counters: final(store).counters(),
                shards: final(store).spec_shard_count(),
                ..old(self)@
            }),
    {
        &mut self.store
    }

    /// The name of the node.
    pub fn node_id(&self) -> (id: &str)
        ensures
            id@ == self@.node_id,
    {
        self.node_id.as_str()
    }

    /// The generation of the log.
    pub fn wal_generation(&self) -> (generation: u64)
        ensures
            generation == self@.generation,
    {
        self.wal_generation
    }

    /// The open log.
    pub fn wal(&self) -> (wal: &Wal)
        ensures
            *wal == self@.wal,
    {
        &self.wal
    }

    /// The limits of keys and values.
    pub fn limits(&self) -> (limits: ProtocolLimits)
        ensures
            limits == self@.limits,
    {
        self.limits
    }

    fn stage(&self, mutation: Mutation, record: Result<WalRecord, PersistenceError>) -> (staged:
        Result<StagedWrite, PersistenceError>)
        ensures
            staged_view(staged) == self@.staged(
                mutation@,
                crate::persistence::record::viewed(record),
            ),
    {
        match record {
            Ok(record) => match self.wal.append(&record) {
                Ok(write) => Ok(StagedWrite { mutation, write }),
                Err(error) => Err(error),
            },
            Err(error) => Err(error),
        }
    }

    /// Stages a write.
    pub fn set(&self, key: Bytes, value: Bytes, now: Timestamp) -> (staged: Result<
        StagedWrite,
        PersistenceError,
    >)
        ensures
            staged_view(staged) == self@.staged(
                MutationView::Put { key: contents(key), value: contents(value) },
                stamped(RecordType::Put, None, contents(key), contents(value), now),
            ),
    {
        let record: Result<WalRecord, PersistenceError> = WalRecord::set_at(
            key.clone(),
            value.clone(),
            now,
        );
        self.stage(Mutation::Put { key, value }, record)
    }

    /// Stages a write that expires `ttl` after `now`.
    pub fn set_ex(&self, key: Bytes, value: Bytes, ttl: Duration, now: Timestamp) -> (staged:
        Result<StagedWrite, PersistenceError>)
        ensures
            staged_view(staged) == (match expiry(ttl, now) {
                Err(error) => Err(PersistenceError::Store(error)),
                Ok(expires_at) => self@.staged(
                    MutationView::SetEx { key: contents(key), value: contents(value), expires_at },
                    stamped(
                        RecordType::SetEx,
                        Some(expires_at),
                        contents(key),
                        contents(value),
                        now,
                    ),
                ),
            }),
    {
        if ttl.is_zero() {
            return Err(PersistenceError::Store(StoreError::InvalidTtl));
        }
        let expires_at: Timestamp = match now.checked_add(ttl) {
            Some(expires_at) => expires_at,
            None => return Err(PersistenceError::Store(StoreError::InvalidExpiration)),
        };
        let record: Result<WalRecord, PersistenceError> = WalRecord::set_ex_at(
            key.clone(),
            value.clone(),
            expires_at,
            now,
        );
        self.stage(Mutation::SetEx { key, value, expires_at }, record)
    }

    /// Stages a removal.
    pub fn delete(&self, key: Bytes, now: Timestamp) -> (staged: Result<
        StagedWrite,
        PersistenceError,
    >)
        ensures
            staged_view(staged) == self@.staged(
                MutationView::Delete { key: contents(key) },
                stamped(RecordType::Del, None, contents(key), seq![], now),
            ),
    {
        let record: Result<WalRecord, PersistenceError> = WalRecord::delete_at(key.clone(), now);
        self.stage(Mutation::Delete { key }, record)
    }

    /// Stages taking an expiration away.
    pub fn persist(&self, key: Bytes, now: Timestamp) -> (staged: Result<
        StagedWrite,
        PersistenceError,
    >)
        ensures
            staged_view(staged) == self@.staged(
                MutationView::Persist { key: contents(key) },
                stamped(RecordType::Persist, None, contents(key), seq![], now),
            ),
    {
        let record: Result<WalRecord, PersistenceError> = WalRecord::persist_at(key.clone(), now);
        self.stage(Mutation::Persist { key }, record)
    }

    /// Stages a record that came from the leader.
    pub fn replicate(&self, record: WalRecord) -> (staged: Result<StagedWrite, PersistenceError>)
        ensures
            staged_view(staged) == self@.staged(
                MutationView::Replicated(record@),
                Ok(record@),
            ),
    {
        match self.wal.append(&record) {
            Ok(write) => Ok(StagedWrite { mutation: Mutation::Replicated(record), write }),
            Err(error) => Err(error),
        }
    }

    /// Makes a staged change, once its bytes were appended to the log. Says whether there was a
    /// value to remove, or an expiration to take away.
    pub fn commit(&mut self, staged: StagedWrite, now: Timestamp) -> (answer: Result<
        bool,
        PersistenceError,
    >)
        requires
            old(self).valid(),
        ensures
            final(self).valid(),
            final(self)@ == old(self)@.committed(staged@, now),
            answer == mutation_answer(old(self)@.data, staged@.mutation, now),
    {
        let length: usize = as_slice(&staged.write.encoded).len();
        self.wal.appended(length);
        self.store.metrics_mut().wal_write(length as u64);
        match staged.mutation {
            Mutation::Put { key, value } => {
                let _ = self.store.set(key, value);
                self.store.metrics_mut().set();
                Ok(true)
            },
            Mutation::SetEx { key, value, expires_at } => {
                let _ = self.store.set_with_expiry(key, value, Some(expires_at));
                self.store.metrics_mut().set();
                Ok(true)
            },
            Mutation::Delete { key } => {
                let deleted: bool = match self.store.delete_at(as_slice(&key), now) {
                    Ok(deleted) => deleted,
                    Err(error) => return Err(PersistenceError::Store(error)),
                };
                self.store.metrics_mut().delete();
                Ok(deleted)
            },
            Mutation::Persist { key } => match self.store.persist_at(as_slice(&key), now) {
                Ok(persisted) => Ok(persisted),
                Err(error) => Err(PersistenceError::Store(error)),
            },
            Mutation::Replicated(record) => match apply_record(&mut self.store, &record, now) {
                Ok(_) => Ok(true),
                Err(error) => Err(error),
            },
        }
    }

    /// Whether a flush of the log also forces it to disk.
    pub fn flush(&self) -> (sync: bool)
        ensures
            sync == (self@.wal.fsync != FsyncMode::Never),
    {
        self.wal.flush()
    }

    /// Whether the log has to be forced to disk on a tick.
    pub fn sync_if_needed(&self) -> (sync: bool)
        ensures
            sync == (self@.wal.fsync == FsyncMode::EverySecond && self@.wal.dirty),
    {
        self.wal.sync_if_needed()
    }

    /// The log was flushed or forced to disk.
    pub fn synced(&mut self)
        ensures
            final(self).valid() == old(self).valid(),
            final(self)@ == (DatabaseView {
                wal: Wal { dirty: false, ..old(self)@.wal },
                ..old(self)@
            }),
    {
        self.wal.synced();
    }

    /// Whether the log is long enough to be compacted.
    pub fn compact_if_needed(&self) -> (needed: bool)
        ensures
            needed == (self@.compaction_threshold_bytes != 0 && self@.wal.bytes_written
                >= self@.compaction_threshold_bytes),
    {
        self.compaction_threshold_bytes != 0 && self.wal.bytes_written()
            >= self.compaction_threshold_bytes
    }

    /// The snapshot of the entries that have not expired at `now`. It is installed before the
    /// generation advances and the log is emptied.
    pub fn snapshot(&self, now: Timestamp) -> (image: Result<SnapshotImage, PersistenceError>)
        requires
            self.valid(),
        ensures
            exists|list: Seq<SnapshotEntryView>|
                #[trigger] lists_live(self@.data, now, list) && match image {
                    Ok(image) => list_problem(list) is None && image.encoded@ == snapshot_bytes(
                        list,
                    ) && image.entries == list.len(),
                    Err(error) => list_problem(list) == Some(error),
                },
    {
        let entries: Vec<SnapshotEntry> = match self.store.snapshot_entries_at(now) {
            Ok(entries) => entries,
            Err(error) => return Err(PersistenceError::Store(error)),
        };
        assert(lists_live(self@.data, now, entry_list(entries@)));
        match encode_snapshot(entries.as_slice()) {
            Ok(encoded) => Ok(SnapshotImage { encoded, entries: entries.len() }),
            Err(error) => Err(error),
        }
    }

    /// The generation after this one.
    pub fn next_generation(&self) -> (next: Result<u64, PersistenceError>)
        ensures
            next == (if self@.generation < u64::MAX {
                Ok((self@.generation + 1) as u64)
            } else {
                Err(PersistenceError::InvalidMetadata("WAL generation overflow"))
            }),
    {
        match self.wal_generation.checked_add(1) {
            Some(next) => Ok(next),
            None => Err(PersistenceError::InvalidMetadata("WAL generation overflow")),
        }
    }

    /// The next generation was written to its file.
    pub fn generation_advanced(&mut self)
        requires
            old(self)@.generation < u64::MAX,
        ensures
            final(self).valid() == old(self).valid(),
            final(self)@ == (DatabaseView {
                generation: (old(self)@.generation + 1) as u64,
                ..old(self)@
            }),
    {
        self.wal_generation = self.wal_generation + 1;
    }

    /// Whether a log that was emptied is to be forced to disk at once.
    pub fn reset(&self) -> (sync: bool)
        ensures
            sync == (self@.wal.fsync != FsyncMode::Never),
    {
        self.wal.reset()
    }

    /// The log was emptied and given its header.
    pub fn was_reset(&mut self)
        ensures
            final(self).valid() == old(self).valid(),
            final(self)@ == (DatabaseView {
                wal: Wal {
                    fsync: old(self)@.wal.fsync,
                    bytes_written: 8,
                    dirty: old(self)@.wal.fsync == FsyncMode::Never,
                },
                ..old(self)@
            }),
    {
        self.wal.was_reset();
    }

    /// A compaction is complete: the snapshot is installed, the generation advanced, and the log
    /// emptied.
    pub fn compacted(&mut self, entries: usize)
        requires
            old(self).valid(),
        ensures
            final(self).valid(),
            final(self)@ == (DatabaseView {
                counters: MetricsSnapshot {
                    snapshots_created_total: old(
                        self)@.counters.snapshots_created_total.wrapping_add(1),
                    wal_compactions_total: old(self)@.counters.wal_compactions_total.wrapping_add(
                        1,
                    ),
                    snapshot_entries_written: old(
                        self)@.counters.snapshot_entries_written.wrapping_add(entries as u64),
                    ..old(self)@.counters
                },
                ..old(self)@
            }),
    {
        self.store.metrics_mut().compaction_completed(entries as u64);
    }

    /// The next batch for a follower that has read a generation of the log up to `offset`. There
    /// is none where that generation is not the current one, the log has no such place, or the
    /// place is not a record boundary.
    pub fn read_replication_batch(
        &self,
        log: &[u8],
        expected_generation: u64,
        offset: u64,
        maximum_bytes: usize,
    ) -> (batch: Result<Option<ReplicationBatch>, PersistenceError>)
        ensures
            if self@.generation != expected_generation || offset < 8 || offset
                > self@.wal.bytes_written {
                batch == Ok::<Option<ReplicationBatch>, PersistenceError>(None)
            } else if offset > log@.len() {
                batch == Err::<Option<ReplicationBatch>, PersistenceError>(
                    PersistenceError::InvalidMetadata("replication offset exceeds WAL length"),
                )
            } else if !at_boundary(log@, offset as int, self@.limits) {
                batch == Ok::<Option<ReplicationBatch>, PersistenceError>(None)
            } else {
                match batch_end(log@, offset as int, offset as int, maximum_bytes, self@.limits) {
                    Err(error) => batch == Err::<Option<ReplicationBatch>, PersistenceError>(error),
                    Ok(end) => {
                        &&& batch is Ok && batch->Ok_0 is Some
                        &&& batch->Ok_0->0.generation == self@.generation
                        &&& batch->Ok_0->0.start_offset == offset
                        &&& batch->Ok_0->0.end_offset == end
                        &&& batch->Ok_0->0.leader_end == self@.wal.bytes_written
                        &&& batch->Ok_0->0.bytes@ == log@.subrange(offset as int, end)
                    },
                }
            },
    {
        let generation: u64 = self.wal_generation;
        let leader_end: u64 = self.wal.bytes_written();
        if generation != expected_generation || offset < WAL_HEADER.len() as u64 || offset
            > leader_end {
            return Ok(None);
        }
        if offset <= log.len() as u64 && !is_record_boundary(log, offset as usize, self.limits) {
            return Ok(None);
        }
        let encoded: Vec<u8> = match read_record_batch(log, offset, maximum_bytes, self.limits) {
            Ok(encoded) => encoded,
            Err(error) => return Err(error),
        };
        assert(log.len() <= usize::MAX);
        let end_offset: u64 = match offset.checked_add(encoded.len() as u64) {
            Some(end_offset) => end_offset,
            None => return Err(PersistenceError::InvalidRecordLength),
        };
        Ok(
            Some(
                ReplicationBatch {
                    generation,
                    start_offset: offset,
                    end_offset,
                    leader_end,
                    bytes: encoded,
                },
            ),
        )
    }

    /// The snapshot for a follower, once it was installed here. The log and its generation stay as
    /// they are.
    pub fn replication_snapshot(&mut self, image: SnapshotImage, maximum_bytes: usize) -> (snapshot:
        Result<ReplicationSnapshot, PersistenceError>)
        requires
            old(self).valid(),
        ensures
            final(self).valid(),
            match snapshot {
                Ok(snapshot) => {
                    &&& image.encoded@.len() <= maximum_bytes
                    &&& snapshot.generation == old(self)@.generation
                    &&& snapshot.offset == old(self)@.wal.bytes_written
                    &&& snapshot.bytes@ == image.encoded@
                    &&& final(self)@ == (DatabaseView {
                        counters: MetricsSnapshot {
                            snapshots_created_total: old(
                                self)@.counters.snapshots_created_total.wrapping_add(1),
                            snapshot_entries_written: old(
                                self)@.counters.snapshot_entries_written.wrapping_add(
                                image.entries as u64,
                            ),
                            ..old(self)@.counters
                        },
                        ..old(self)@
                    })
                },
                Err(error) => {
                    &&& image.encoded@.len() > maximum_bytes
                    &&& error == PersistenceError::InvalidMetadata(
                        "snapshot exceeds configured replication limit",
                    )
                    &&& final(self)@ == old(self)@
                },
            },
    {
        if image.encoded.len() > maximum_bytes {
            return Err(
                PersistenceError::InvalidMetadata("snapshot exceeds configured replication limit"),
            );
        }
        self.store.metrics_mut().replication_snapshot_created(image.entries as u64);
        Ok(
            ReplicationSnapshot {
                generation: self.wal_generation,
                offset: self.wal.bytes_written(),
                bytes: image.encoded,
            },
        )
    }

    /// Reads all records of a batch from the leader before anything is done with them.
    pub fn read_batch(&self, encoded: &[u8], start_offset: u64) -> (records: Result<
        Vec<WalRecord>,
        PersistenceError,
    >)
        ensures
            match records {
                Ok(records) => batch_records(encoded@, 0, start_offset, self@.limits) == Ok::<
                    Seq<RecordView>,
                    PersistenceError,
                >(record_list(records@)),
                Err(error) => batch_records(encoded@, 0, start_offset, self@.limits) == Err::<
                    Seq<RecordView>,
                    PersistenceError,
                >(error),
            },
    {
        decode_record_batch(encoded, start_offset, self.limits)
    }

    /// Reads all of a snapshot from the leader before anything is done with it. Its entries that
    /// have not expired at `now` become the new snapshot here.
    pub fn plan_install(&self, encoded: &[u8], now: Timestamp) -> (plan: Result<
        InstallPlan,
        PersistenceError,
    >)
        ensures
            ({
                let (list, problem) = scan_snapshot(encoded@, self@.limits);
                match plan {
                    Ok(plan) => {
                        &&& problem is None
                        &&& entry_list(plan.entries@) == unexpired(list, now)
                        &&& list_problem(unexpired(list, now)) is None
                        &&& plan.encoded@ == snapshot_bytes(unexpired(list, now))
                    },
                    Err(error) => problem == Some(error) || (problem is None && list_problem(
                        unexpired(list, now),
                    ) == Some(error)),
                }
            }),
    {
        let (entries, _): (Vec<SnapshotEntry>, SnapshotReport) = match decode_snapshot_at(
            encoded,
            self.limits,
            now,
        ) {
            Ok(decoded) => decoded,
            Err(error) => return Err(error),
        };
        match encode_snapshot(entries.as_slice()) {
            Ok(encoded) => Ok(InstallPlan { entries, encoded }),
            Err(error) => Err(error),
        }
    }

    /// Puts the entries of a leader's snapshot in place of all data, once the new snapshot is
    /// installed, the generation advanced and the log emptied. Says how many entries there are.
    pub fn install(&mut self, plan: InstallPlan) -> (count: usize)
        requires
            old(self).valid(),
        ensures
            final(self).valid(),
            final(self)@ == (DatabaseView {
                data: entries_map(entry_list(plan.entries@)),
                ..old(self)@
            }),
            count == plan.entries@.len(),
    {
        let count: usize = plan.entries.len();
        let _ = self.store.replace_all(plan.entries);
        count
    }
}

/// The log is compacted once it has reached the length that was set, and never where that is zero.
/// Each compaction has a generation of its own, the next one, as long as there is one.
pub proof fn law_compaction_starts_at_the_threshold(
    database: Database,
    needed: bool,
    next: Result<u64, PersistenceError>,
)
    requires
        call_ensures(Database::compact_if_needed, (&database,), needed),
        call_ensures(Database::next_generation, (&database,), next),
    ensures
        needed <==> 0 < database@.compaction_threshold_bytes <= database@.wal.bytes_written,
        next is Ok <==> database@.generation < u64::MAX,
        next is Ok ==> next->Ok_0 == database@.generation + 1,
{
}

} // verus!
