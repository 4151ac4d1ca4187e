use bytes::Bytes;
use forgekv::config::{Config, FsyncMode};
use forgekv::error::{PersistenceError, StoreError};
use forgekv::metrics::Metrics;
use forgekv::persistence::batch::{decode_record_batch, is_record_boundary, read_record_batch};
use forgekv::persistence::compaction::{next_compaction_step, CompactionStep};
use forgekv::persistence::database::StagedWrite;
use forgekv::persistence::identity::{
    generation_text, make_node_id, parse_generation, parse_node_id, DataFiles, Identity,
};
use forgekv::persistence::log::{apply_record, recover_wal_at};
use forgekv::persistence::replace::{needs_restore, next_step, sidecar_path, ReplaceStep};
use forgekv::persistence::snapshot::{decode_snapshot_at, load_snapshot_at};
use forgekv::persistence::{
    decode_snapshot, encode_snapshot, load_snapshot, prepare_wal, recover_wal, Database,
    RecordType, RecoveryReport, Wal, WalRecord, WAL_HEADER, WAL_VERSION,
};
use forgekv::protocol::ProtocolLimits;
use forgekv::store::{ShardedStore, SnapshotEntry, TtlState};
use forgekv::time::{Duration, Timestamp};

fn limits() -> ProtocolLimits {
    ProtocolLimits {
        max_frame_size: 1024 * 1024,
        max_key_size: 4096,
        max_value_size: 1024 * 1024,
    }
}

fn store() -> ShardedStore {
    ShardedStore::new(8, Metrics::default()).expect("valid shards")
}

fn at(millis: u64) -> Timestamp {
    Timestamp::from_millis(millis)
}

/// A log in memory, with what is appended to it.
struct Log {
    wal: Wal,
    bytes: Vec<u8>,
}

impl Log {
    fn open(fsync: FsyncMode) -> Self {
        let mut bytes = Vec::new();
        if prepare_wal(&bytes).expect("WAL should initialize") {
            bytes.extend_from_slice(&WAL_HEADER);
        }
        Self {
            wal: Wal::open(fsync, bytes.len() as u64),
            bytes,
        }
    }

    fn append(&mut self, record: &WalRecord) {
        let write = self.wal.append(record).expect("append should work");
        self.bytes.extend_from_slice(&write.encoded);
        self.wal.appended(write.encoded.len());
    }
}

fn empty_files() -> DataFiles {
    DataFiles {
        generation: None,
        node_id: None,
        snapshot: None,
        wal: Vec::new(),
    }
}

fn open(
    config: &Config,
    files: &mut DataFiles,
    now: Timestamp,
) -> Result<(Database, RecoveryReport), PersistenceError> {
    let identity = Identity::establish(files, now, 4711)?;
    files.node_id = Some(identity.node_id.clone());
    files.generation = Some(generation_text(identity.generation));
    if prepare_wal(&files.wal)? {
        files.wal.extend_from_slice(&WAL_HEADER);
    }
    let store = ShardedStore::new(config.shards, Metrics::default()).expect("valid shards");
    let (database, report) = Database::open(config, identity, files, store, now)?;
    files.wal.truncate(report.valid_bytes as usize);
    Ok((database, report))
}

fn write(
    database: &mut Database,
    files: &mut DataFiles,
    staged: Result<StagedWrite, PersistenceError>,
    now: Timestamp,
) -> bool {
    let staged = staged.expect("change should be staged");
    files.wal.extend_from_slice(&staged.write.encoded);
    database.commit(staged, now).expect("change should be made")
}

fn compact(database: &mut Database, files: &mut DataFiles, now: Timestamp) -> usize {
    let image = database.snapshot(now).expect("snapshot should work");
    let next = database.next_generation().expect("generation should fit");
    files.snapshot = Some(image.encoded);
    files.generation = Some(generation_text(next));
    database.generation_advanced();
    files.wal.truncate(WAL_HEADER.len());
    database.was_reset();
    database.compacted(image.entries);
    image.entries
}

fn small_config() -> Config {
    Config {
        shards: 8,
        fsync: FsyncMode::Never,
        wal_compaction_threshold_bytes: 1,
        metrics_enabled: false,
        ..Config::default()
    }
}

#[test]
fn record_encoding_validates_checksum() {
    let record = WalRecord::set(Bytes::from_static(b"key"), Bytes::from_static(b"value"))
        .expect("record should construct");
    let encoded = record.encode().expect("record should encode");
    assert_eq!(
        WalRecord::decode(&encoded, limits(), 8).expect("record should decode"),
        record
    );
    let mut corrupt = encoded.to_vec();
    corrupt[32] ^= 0x01;
    assert!(matches!(
        WalRecord::decode(&corrupt, limits(), 8),
        Err(PersistenceError::ChecksumMismatch { .. })
    ));
}

#[test]
fn replay_applies_set_delete_setex_and_persist() {
    let mut log = Log::open(FsyncMode::Never);
    log.append(
        &WalRecord::set(Bytes::from_static(b"deleted"), Bytes::from_static(b"old"))
            .expect("record should construct"),
    );
    log.append(&WalRecord::delete(Bytes::from_static(b"deleted")).expect("record"));
    let expiration = Timestamp::now()
        .checked_add(Duration::from_secs(300))
        .expect("expiration should fit");
    log.append(
        &WalRecord::set_ex(
            Bytes::from_static(b"session"),
            Bytes::from_static(b"value"),
            expiration,
        )
        .expect("record"),
    );
    log.append(&WalRecord::persist(Bytes::from_static(b"session")).expect("record"));

    let mut recovered = store();
    let report = recover_wal(&log.bytes, &mut recovered, limits()).expect("replay should work");
    assert_eq!(report.records_replayed, 4);
    assert_eq!(recovered.get(b"deleted").expect("get should work"), None);
    assert_eq!(
        recovered.get(b"session").expect("get should work"),
        Some(Bytes::from_static(b"value"))
    );
    assert_eq!(
        recovered.ttl(b"session").expect("ttl should work"),
        TtlState::Persistent
    );
}

#[test]
fn restart_rebuilds_the_memory_store() {
    let mut log = Log::open(FsyncMode::Never);
    log.append(
        &WalRecord::set(Bytes::from_static(b"key"), Bytes::from_static(b"value")).expect("record"),
    );

    let mut first = store();
    recover_wal(&log.bytes, &mut first, limits()).expect("first recovery should work");
    let mut second = store();
    recover_wal(&log.bytes, &mut second, limits()).expect("restart recovery should work");
    assert_eq!(
        second.get(b"key").expect("get should work"),
        Some(Bytes::from_static(b"value"))
    );
}

#[test]
fn truncated_final_record_is_removed_safely() {
    let mut bytes = WAL_HEADER.to_vec();
    let record = WalRecord::set(Bytes::from_static(b"key"), Bytes::from_static(b"value"))
        .expect("record")
        .encode()
        .expect("encode");
    bytes.extend_from_slice(&record[..record.len() - 3]);

    let mut recovered = store();
    let report = recover_wal(&bytes, &mut recovered, limits()).expect("tail should be repaired");
    assert!(report.truncated_tail_removed);
    assert_eq!(report.records_replayed, 0);
    assert_eq!(report.valid_bytes, 8);
}

#[test]
fn corruption_in_complete_record_is_not_ignored() {
    let mut bytes = WAL_HEADER.to_vec();
    let record = WalRecord {
        record_type: RecordType::Put,
        timestamp_ms: 1,
        expires_at_ms: None,
        key: Bytes::from_static(b"key"),
        value: Bytes::from_static(b"value"),
    }
    .encode()
    .expect("record should encode");
    bytes.extend_from_slice(&record);
    bytes[8 + 32] = 0xff;

    assert!(matches!(
        recover_wal(&bytes, &mut store(), limits()),
        Err(PersistenceError::ChecksumMismatch { .. })
    ));
}

#[test]
fn snapshot_round_trip_and_checksum_validation() {
    let entries = vec![SnapshotEntry {
        key: Bytes::from_static(b"snapshot:key"),
        value: Bytes::from_static(b"binary\0value"),
        expires_at: None,
    }];
    let mut bytes = encode_snapshot(&entries).expect("snapshot should write");
    let mut recovered = store();
    let report =
        load_snapshot(Some(&bytes), &mut recovered, limits()).expect("snapshot should load");
    assert_eq!(report.entries_loaded, 1);
    assert_eq!(
        recovered.get(b"snapshot:key").expect("get should work"),
        Some(Bytes::from_static(b"binary\0value"))
    );

    let last = bytes.last_mut().expect("snapshot should not be empty");
    *last ^= 0x01;
    assert!(load_snapshot(Some(&bytes), &mut store(), limits()).is_err());
}

#[test]
fn truncated_snapshot_is_rejected() {
    let entries = vec![SnapshotEntry {
        key: Bytes::from_static(b"key"),
        value: Bytes::from_static(b"value"),
        expires_at: None,
    }];
    let mut bytes = encode_snapshot(&entries).expect("snapshot should write");
    bytes.truncate(bytes.len() - 1);
    assert!(load_snapshot(Some(&bytes), &mut store(), limits()).is_err());
}

#[test]
fn everysec_flushes_dirty_wal_on_tick() {
    let mut log = Log::open(FsyncMode::EverySecond);
    log.append(
        &WalRecord::set(Bytes::from_static(b"key"), Bytes::from_static(b"value"))
            .expect("record should construct"),
    );
    assert!(log.wal.sync_if_needed());
    log.wal.synced();
    assert!(!log.wal.sync_if_needed());
}

#[test]
fn compaction_restarts_from_snapshot_and_new_wal() {
    let config = small_config();
    let mut files = empty_files();
    let now = Timestamp::now();
    let (mut database, _) = open(&config, &mut files, now).expect("database should open");
    let staged = database.set(
        Bytes::from_static(b"compacted"),
        Bytes::from_static(b"value"),
        now,
    );
    write(&mut database, &mut files, staged, now);
    assert!(database.compact_if_needed());
    assert_eq!(compact(&mut database, &mut files, now), 1);
    assert_eq!(database.store().metrics().snapshot().wal_compactions_total, 1);

    let (mut restarted, report) = open(&config, &mut files, now).expect("restart should recover");
    assert_eq!(report.snapshot_entries_loaded, 1);
    assert_eq!(report.records_replayed, 0);
    assert_eq!(
        restarted
            .store_mut()
            .get(b"compacted")
            .expect("get should work"),
        Some(Bytes::from_static(b"value"))
    );
    assert_eq!(restarted.wal_generation(), database.wal_generation());
    assert_eq!(restarted.node_id(), database.node_id());
}

#[test]
fn records_have_their_documented_layout() {
    let record = WalRecord {
        record_type: RecordType::SetEx,
        timestamp_ms: 0x0102,
        expires_at_ms: Some(0x0304),
        key: Bytes::from_static(b"k"),
        value: Bytes::from_static(b"vw"),
    };
    let encoded = record.encode().expect("record should encode");
    assert_eq!(encoded.len(), 39);
    assert_eq!(&encoded[..4], b"FKVR");
    assert_eq!(&encoded[4..8], [WAL_VERSION, 3, 0, 0]);
    assert_eq!(&encoded[8..16], 0x0102u64.to_be_bytes());
    assert_eq!(&encoded[16..24], 0x0304u64.to_be_bytes());
    assert_eq!(&encoded[24..28], 1u32.to_be_bytes());
    assert_eq!(&encoded[28..32], 2u32.to_be_bytes());
    assert_eq!(&encoded[32..35], b"kvw");
    assert_eq!(
        &encoded[35..],
        crc32fast::hash(&encoded[4..35]).to_be_bytes()
    );
    assert_eq!(&WAL_HEADER[..], b"FKVW\x01\0\0\0");
}

#[test]
fn decoding_names_what_is_wrong() {
    let record = WalRecord::set_at(Bytes::from_static(b"key"), Bytes::from_static(b"v"), at(5))
        .expect("record should construct");
    let encoded = record.encode().expect("record should encode").to_vec();
    let broken = |place: usize, byte: u8| {
        let mut bytes = encoded.clone();
        bytes[place] = byte;
        WalRecord::decode(&bytes, limits(), 77).expect_err("record should be refused")
    };
    assert_eq!(
        broken(0, 0).message(),
        "WAL corruption at byte offset 77: invalid record magic"
    );
    assert_eq!(broken(4, 2), PersistenceError::UnsupportedVersion(2));
    assert_eq!(broken(5, 9), PersistenceError::InvalidRecordType(9));
    assert_eq!(
        broken(6, 1).message(),
        "WAL corruption at byte offset 77: record reserved bytes are not zero"
    );
    assert_eq!(broken(24, 0xff), PersistenceError::InvalidRecordLength);
    assert_eq!(
        broken(33, 0),
        PersistenceError::ChecksumMismatch { offset: 77 }
    );
    assert!(matches!(
        WalRecord::decode(&encoded[..20], limits(), 77),
        Err(PersistenceError::Corruption { offset: 77, .. })
    ));
}

#[test]
fn every_kind_of_record_survives() {
    let key = Bytes::from_static(b"k");
    let records = [
        WalRecord::set_at(key.clone(), Bytes::new(), at(1)),
        WalRecord::delete_at(key.clone(), at(2)),
        WalRecord::set_ex_at(key.clone(), Bytes::from_static(b"v"), at(9), at(3)),
        WalRecord::persist_at(key.clone(), at(4)),
    ];
    for record in records {
        let record = record.expect("record should construct");
        assert!(record.is_consistent());
        let encoded = record.encode().expect("record should encode");
        assert_eq!(WalRecord::decode(&encoded, limits(), 8), Ok(record));
    }
    let expiring = WalRecord::set_ex_at(key.clone(), Bytes::new(), at(9), at(3)).expect("record");
    assert_eq!(expiring.expires_at(), Ok(Some(at(9))));
    assert_eq!(
        WalRecord::delete_at(key, at(2)).expect("record").expires_at(),
        Ok(None)
    );
}

#[test]
fn clocks_before_the_epoch_are_refused() {
    let early = Timestamp { nanos: -1 };
    assert_eq!(
        WalRecord::delete_at(Bytes::from_static(b"k"), early),
        Err(PersistenceError::ClockBeforeEpoch)
    );
}

#[test]
fn logs_are_checked_before_they_are_used() {
    assert_eq!(prepare_wal(&[]), Ok(true));
    assert_eq!(prepare_wal(&WAL_HEADER), Ok(false));
    assert_eq!(
        prepare_wal(b"FKVW"),
        Err(PersistenceError::InvalidHeader)
    );
    assert_eq!(
        prepare_wal(b"NOPE\x01\0\0\0"),
        Err(PersistenceError::InvalidHeader)
    );
    assert_eq!(
        PersistenceError::InvalidHeader.message(),
        "invalid WAL header"
    );
}

#[test]
fn recovery_counts_records_and_keys() {
    let mut log = Log::open(FsyncMode::Always);
    for index in 0..10u64 {
        log.append(
            &WalRecord::set_at(
                Bytes::from(format!("key-{}", index % 4)),
                Bytes::from(format!("{index}")),
                at(index),
            )
            .expect("record"),
        );
    }
    let whole = log.bytes.len() as u64;
    assert_eq!(log.wal.bytes_written(), whole);
    let mut recovered = store();
    let report = recover_wal_at(&log.bytes, &mut recovered, limits(), at(100)).expect("recovery");
    assert_eq!(report.records_replayed, 10);
    assert_eq!(report.recovered_keys, 4);
    assert_eq!(report.valid_bytes, whole);
    assert!(!report.truncated_tail_removed);
    assert_eq!(
        recovered.get_at(b"key-1", at(100)),
        Ok(Some(Bytes::from_static(b"9")))
    );
}

#[test]
fn a_torn_append_loses_nothing_else() {
    let mut log = Log::open(FsyncMode::Always);
    log.append(
        &WalRecord::set_at(Bytes::from_static(b"a"), Bytes::from_static(b"1"), at(1))
            .expect("record"),
    );
    let kept = log.bytes.len();
    let torn = WalRecord::set_at(Bytes::from_static(b"b"), Bytes::from_static(b"2"), at(2))
        .expect("record")
        .encode()
        .expect("encode");
    for length in 1..torn.len() {
        let mut bytes = log.bytes.clone();
        bytes.extend_from_slice(&torn[..length]);
        let mut recovered = store();
        let report = recover_wal_at(&bytes, &mut recovered, limits(), at(9)).expect("recovery");
        assert!(report.truncated_tail_removed);
        assert_eq!(report.valid_bytes, kept as u64);
        assert_eq!(report.records_replayed, 1);
        bytes.truncate(kept);
        let again = recover_wal_at(&bytes, &mut store(), limits(), at(9)).expect("recovery");
        assert!(!again.truncated_tail_removed);
    }
}

#[test]
fn replaying_twice_changes_nothing_more() {
    let mut log = Log::open(FsyncMode::Always);
    let key = Bytes::from_static(b"k");
    for record in [
        WalRecord::set_at(key.clone(), Bytes::from_static(b"1"), at(1)),
        WalRecord::delete_at(key.clone(), at(2)),
        WalRecord::set_ex_at(key.clone(), Bytes::from_static(b"2"), at(50), at(3)),
    ] {
        log.append(&record.expect("record"));
    }
    let mut recovered = store();
    recover_wal_at(&log.bytes, &mut recovered, limits(), at(10)).expect("recovery");
    let once = recovered.snapshot_entries_at(at(10)).expect("snapshot");
    recover_wal_at(&log.bytes, &mut recovered, limits(), at(10)).expect("recovery");
    assert_eq!(recovered.snapshot_entries_at(at(10)).expect("snapshot"), once);
    assert_eq!(once.len(), 1);
    assert_eq!(once[0].expires_at, Some(at(50)));
}

#[test]
fn expired_writes_are_not_brought_back() {
    let mut store = store();
    let record =
        WalRecord::set_ex_at(Bytes::from_static(b"k"), Bytes::from_static(b"v"), at(5), at(1))
            .expect("record");
    apply_record(&mut store, &record, at(5)).expect("record should apply");
    assert_eq!(store.len_at(at(0)), Ok(0));
    apply_record(&mut store, &record, at(4)).expect("record should apply");
    assert_eq!(store.len_at(at(4)), Ok(1));
}

#[test]
fn snapshots_have_their_documented_layout() {
    let entries = vec![SnapshotEntry {
        key: Bytes::from_static(b"k"),
        value: Bytes::from_static(b"v"),
        expires_at: Some(at(258)),
    }];
    let bytes = encode_snapshot(&entries).expect("snapshot should write");
    assert_eq!(&bytes[..8], b"FKVS\x01\0\0\0");
    assert_eq!(&bytes[8..16], 1u64.to_be_bytes());
    assert_eq!(&bytes[16..24], 258u64.to_be_bytes());
    assert_eq!(&bytes[24..28], 1u32.to_be_bytes());
    assert_eq!(&bytes[28..32], 1u32.to_be_bytes());
    assert_eq!(&bytes[32..34], b"kv");
    assert_eq!(
        &bytes[34..],
        crc32fast::hash(&bytes[16..34]).to_be_bytes()
    );
}

#[test]
fn snapshots_skip_what_has_expired() {
    let entry = |name: &'static str, expires_at: Option<Timestamp>| SnapshotEntry {
        key: Bytes::from_static(name.as_bytes()),
        value: Bytes::from_static(b"v"),
        expires_at,
    };
    let bytes = encode_snapshot(&[
        entry("old", Some(at(10))),
        entry("live", Some(at(30))),
        entry("kept", None),
    ])
    .expect("snapshot should write");
    let (entries, report) = decode_snapshot_at(&bytes, limits(), at(10)).expect("snapshot");
    assert_eq!(report.entries_loaded, 2);
    assert_eq!(report.expired_entries_skipped, 1);
    assert_eq!(entries.len(), 2);
    assert_eq!(entries[0].key, Bytes::from_static(b"live"));
    assert_eq!(entries[0].expires_at, Some(at(30)));

    let mut recovered = store();
    load_snapshot_at(Some(&bytes), &mut recovered, limits(), at(10)).expect("snapshot");
    assert_eq!(recovered.len_at(at(10)), Ok(2));
    assert!(decode_snapshot(&bytes, limits()).is_ok());
}

#[test]
fn a_missing_snapshot_is_empty() {
    let mut recovered = store();
    let report = load_snapshot(None, &mut recovered, limits()).expect("no snapshot is fine");
    assert_eq!(report.entries_loaded, 0);
    assert_eq!(recovered.len(), Ok(0));
    let empty = encode_snapshot(&[]).expect("empty snapshot");
    assert_eq!(empty.len(), 16);
    assert_eq!(
        decode_snapshot(&empty, limits())
            .expect("empty snapshot")
            .0
            .len(),
        0
    );
}

#[test]
fn broken_snapshots_name_what_is_wrong() {
    let good = encode_snapshot(&[SnapshotEntry {
        key: Bytes::from_static(b"key"),
        value: Bytes::from_static(b"value"),
        expires_at: None,
    }])
    .expect("snapshot should write");
    let read = |bytes: &[u8]| {
        decode_snapshot(bytes, limits()).expect_err("snapshot should be refused")
    };
    let mut header = good.clone();
    header[0] = 0;
    assert_eq!(read(&header), PersistenceError::InvalidSnapshotHeader);
    let mut body = good.clone();
    let place = body.len() - 6;
    body[place] ^= 0x10;
    assert_eq!(
        read(&body),
        PersistenceError::SnapshotCorruption {
            entry: 0,
            reason: "checksum mismatch"
        }
    );
    for kept in 16..good.len() {
        assert!(matches!(
            read(&good[..kept]),
            PersistenceError::SnapshotCorruption { entry: 0, .. }
        ));
    }
    let mut longer = good.clone();
    longer.push(0);
    assert!(decode_snapshot(&longer, limits()).is_err());
}

#[test]
fn writes_are_forced_to_disk_as_configured() {
    let record = WalRecord::delete_at(Bytes::from_static(b"k"), at(1)).expect("record");
    let mut always = Wal::open(FsyncMode::Always, 8);
    let write = always.append(&record).expect("append should work");
    assert!(write.sync);
    always.appended(write.encoded.len());
    assert!(!always.sync_if_needed());
    assert!(always.flush());
    assert_eq!(always.bytes_written(), 8 + 37);
    assert!(always.reset());
    always.was_reset();
    assert_eq!(always.bytes_written(), 8);

    let mut never = Wal::open(FsyncMode::Never, 8);
    let write = never.append(&record).expect("append should work");
    assert!(!write.sync);
    never.appended(write.encoded.len());
    assert!(!never.sync_if_needed());
    assert!(!never.flush());
}

#[test]
fn a_database_comes_back_as_it_was() {
    let config = small_config();
    let mut files = empty_files();
    let (mut database, report) = open(&config, &mut files, at(1_000)).expect("open");
    assert_eq!(report.records_replayed, 0);
    let staged = database.set(Bytes::from_static(b"a"), Bytes::from_static(b"1"), at(1_000));
    write(&mut database, &mut files, staged, at(1_000));
    let staged = database.set_ex(
        Bytes::from_static(b"b"),
        Bytes::from_static(b"2"),
        Duration::from_millis(500),
        at(1_000),
    );
    write(&mut database, &mut files, staged, at(1_000));
    let staged = database.delete(Bytes::from_static(b"a"), at(1_001));
    assert!(write(&mut database, &mut files, staged, at(1_001)));
    let staged = database.persist(Bytes::from_static(b"b"), at(1_002));
    assert!(write(&mut database, &mut files, staged, at(1_002)));
    let counters = database.store().metrics().snapshot();
    assert_eq!(counters.sets_total, 2);
    assert_eq!(counters.deletes_total, 1);
    assert_eq!(counters.wal_records_written, 4);
    assert_eq!(counters.wal_bytes_written + 8, files.wal.len() as u64);
    assert_eq!(database.wal().bytes_written(), files.wal.len() as u64);

    let (mut restarted, report) = open(&config, &mut files, at(1_100)).expect("open");
    assert_eq!(report.records_replayed, 4);
    assert_eq!(report.recovered_keys, 1);
    assert_eq!(restarted.store_mut().get_at(b"a", at(9_999)), Ok(None));
    assert_eq!(
        restarted.store_mut().get_at(b"b", at(9_999)),
        Ok(Some(Bytes::from_static(b"2")))
    );
}

#[test]
fn a_replay_goes_by_the_time_in_the_log() {
    let config = small_config();
    let mut files = empty_files();
    let (mut database, _) = open(&config, &mut files, at(1_000)).expect("open");
    for key in [&b"kept"[..], b"passing"] {
        let staged = database.set_ex(
            Bytes::copy_from_slice(key),
            Bytes::from_static(b"v"),
            Duration::from_millis(100),
            at(1_000),
        );
        write(&mut database, &mut files, staged, at(1_000));
    }
    let staged = database.persist(Bytes::from_static(b"kept"), at(1_050));
    assert!(write(&mut database, &mut files, staged, at(1_050)));

    // Before the time of the values is up, both are found, and one of them is kept for good.
    let (mut early, _) = open(&config, &mut files, at(1_099)).expect("open");
    assert_eq!(
        early.store_mut().ttl_at(b"kept", at(1_099)),
        Ok(TtlState::Persistent)
    );
    assert_eq!(
        early.store_mut().ttl_at(b"passing", at(1_099)),
        Ok(TtlState::ExpiresIn(Duration::from_millis(1)))
    );
    // Afterwards neither is written by the replay, so there is nothing to keep.
    let (mut late, report) = open(&config, &mut files, at(1_100)).expect("open");
    assert_eq!(report.recovered_keys, 0);
    assert_eq!(late.store_mut().get_at(b"kept", at(1_100)), Ok(None));
}

#[test]
fn expirations_are_kept_to_the_millisecond() {
    let config = small_config();
    let mut files = empty_files();
    let now = Timestamp { nanos: 1_000_000_999 };
    let (mut database, _) = open(&config, &mut files, now).expect("open");
    let staged = database.set_ex(
        Bytes::from_static(b"k"),
        Bytes::from_static(b"v"),
        Duration::from_millis(5),
        now,
    );
    write(&mut database, &mut files, staged, now);
    assert_eq!(
        database.store_mut().ttl_at(b"k", now),
        Ok(TtlState::ExpiresIn(Duration::from_millis(5)))
    );
    let (mut restarted, _) = open(&config, &mut files, now).expect("open");
    assert_eq!(
        restarted.store_mut().ttl_at(b"k", now),
        Ok(TtlState::ExpiresIn(Duration { nanos: 4_999_001 }))
    );
}

#[test]
fn staging_changes_nothing() {
    let config = small_config();
    let mut files = empty_files();
    let (mut database, _) = open(&config, &mut files, at(0)).expect("open");
    let staged = database.set(Bytes::from_static(b"k"), Bytes::from_static(b"v"), at(0));
    assert!(staged.is_ok());
    assert_eq!(database.store_mut().len_at(at(0)), Ok(0));
    assert_eq!(database.wal().bytes_written(), 8);
    assert_eq!(
        database
            .set_ex(
                Bytes::from_static(b"k"),
                Bytes::new(),
                Duration::from_millis(0),
                at(0)
            )
            .expect_err("zero TTL should be refused"),
        PersistenceError::Store(StoreError::InvalidTtl)
    );
}

#[test]
fn a_log_is_compacted_from_its_threshold_on() {
    for (threshold, needed) in [(0, false), (1, true), (46, true), (47, false)] {
        let config = Config {
            wal_compaction_threshold_bytes: threshold,
            ..small_config()
        };
        let mut files = empty_files();
        let (mut database, _) = open(&config, &mut files, at(0)).expect("open");
        let staged = database.set(Bytes::from_static(b"k"), Bytes::from_static(b"v"), at(0));
        write(&mut database, &mut files, staged, at(0));
        assert_eq!(files.wal.len(), 46);
        assert_eq!(database.compact_if_needed(), needed);
    }
}

#[test]
fn a_broken_log_does_not_open() {
    let config = small_config();
    let mut files = empty_files();
    let (mut database, _) = open(&config, &mut files, at(0)).expect("open");
    let staged = database.set(Bytes::from_static(b"k"), Bytes::from_static(b"v"), at(0));
    write(&mut database, &mut files, staged, at(0));
    let place = files.wal.len() - 1;
    files.wal[place] ^= 1;
    assert_eq!(
        open(&config, &mut files, at(0)).expect_err("log should be refused"),
        PersistenceError::ChecksumMismatch { offset: 8 }
    );
}

#[test]
fn identities_are_made_once() {
    let mut files = empty_files();
    let identity = Identity::establish(&files, at(1), 9).expect("identity");
    assert_eq!(identity.generation, 1);
    assert_eq!(identity.node_id.len(), 32);
    assert_eq!(parse_node_id(&identity.node_id), Ok(identity.node_id.clone()));
    files.node_id = Some(format!("{}\n", identity.node_id));
    files.generation = Some("7\n".to_owned());
    let again = Identity::establish(&files, at(2), 10).expect("identity");
    assert_eq!(again.node_id, identity.node_id);
    assert_eq!(again.generation, 7);

    files.generation = None;
    files.wal = WAL_HEADER.to_vec();
    files.wal.push(0);
    assert!(matches!(
        Identity::establish(&files, at(2), 10),
        Err(PersistenceError::InvalidMetadata(_))
    ));
}

#[test]
fn generations_and_names_are_checked() {
    assert_eq!(parse_generation("12"), Ok(12));
    assert_eq!(parse_generation(&generation_text(u64::MAX)), Ok(u64::MAX));
    for text in ["0", "", "x", "-1", "18446744073709551616"] {
        assert_eq!(
            parse_generation(text),
            Err(PersistenceError::InvalidMetadata("invalid WAL generation"))
        );
    }
    let id = make_node_id(at(1), 2).expect("name");
    assert!(id.chars().all(|c| c.is_ascii_hexdigit()));
    assert_ne!(id, make_node_id(at(1), 3).expect("name"));
    assert_ne!(id, make_node_id(at(2), 2).expect("name"));
    for text in ["", "0123", "zz23456789abcdef0123456789abcdef"] {
        assert_eq!(
            parse_node_id(text),
            Err(PersistenceError::InvalidMetadata("invalid node identity"))
        );
    }
}

#[test]
fn batches_hold_whole_records() {
    let mut log = Log::open(FsyncMode::Never);
    let mut sizes = Vec::new();
    for index in 0..5u64 {
        let record = WalRecord::set_at(
            Bytes::from(format!("key-{index}")),
            Bytes::from(vec![b'v'; index as usize]),
            at(index),
        )
        .expect("record");
        sizes.push(record.encode().expect("encode").len());
        log.append(&record);
    }
    let batch =
        read_record_batch(&log.bytes, 8, sizes[0] + sizes[1] + 1, limits()).expect("batch");
    assert_eq!(batch, log.bytes[8..8 + sizes[0] + sizes[1]]);
    let records = decode_record_batch(&batch, 8, limits()).expect("records");
    assert_eq!(records.len(), 2);
    assert_eq!(records[1].key, Bytes::from_static(b"key-1"));

    let rest = read_record_batch(&log.bytes, 8 + batch.len() as u64, 1 << 20, limits())
        .expect("batch");
    assert_eq!(batch.len() + rest.len() + 8, log.bytes.len());
    let end = read_record_batch(&log.bytes, log.bytes.len() as u64, 1 << 20, limits());
    assert_eq!(end, Ok(Vec::new()));
    assert_eq!(
        read_record_batch(&log.bytes, log.bytes.len() as u64 + 1, 1 << 20, limits()),
        Err(PersistenceError::InvalidMetadata(
            "replication offset exceeds WAL length"
        ))
    );
    assert_eq!(
        read_record_batch(&log.bytes, 8, sizes[0] - 1, limits()),
        Err(PersistenceError::InvalidMetadata(
            "replication batch cannot contain one WAL record"
        ))
    );
    assert!(decode_record_batch(&batch[..batch.len() - 1], 8, limits()).is_err());
}

/// Files that a crash can strike at any moment.
struct Files {
    current: Option<&'static str>,
    backup: Option<&'static str>,
    temporary: Option<&'static str>,
}

fn carry_out(files: &mut Files, step: ReplaceStep) {
    match step {
        ReplaceStep::WriteTemporary => files.temporary = Some("new"),
        ReplaceStep::RemoveBackup | ReplaceStep::DropBackup => files.backup = None,
        ReplaceStep::SetAside => files.backup = files.current.take(),
        ReplaceStep::Install => files.current = files.temporary.take(),
        ReplaceStep::PutBack => files.current = files.backup.take(),
        ReplaceStep::Done | ReplaceStep::Failed => {}
    }
}

#[test]
fn a_file_is_old_or_new_at_every_moment() {
    for fails_at in 0..8 {
        let mut files = Files {
            current: Some("old"),
            backup: None,
            temporary: None,
        };
        let mut step = ReplaceStep::WriteTemporary;
        let mut count = 0;
        while step != ReplaceStep::Done && step != ReplaceStep::Failed {
            let succeeded = count != fails_at;
            if succeeded {
                carry_out(&mut files, step);
            }
            let seen = if needs_restore(files.current.is_some(), files.backup.is_some()) {
                files.backup
            } else {
                files.current
            };
            assert!(seen == Some("old") || seen == Some("new"));
            step = next_step(
                step,
                succeeded,
                files.current.is_some(),
                files.backup.is_some(),
            );
            count += 1;
            assert!(count < 8);
        }
        if step == ReplaceStep::Done {
            assert_eq!(files.current, Some("new"));
            assert_eq!(files.backup, None);
        } else {
            assert!(files.current.is_some());
        }
    }
}

#[test]
fn a_left_over_backup_is_dealt_with() {
    assert_eq!(
        next_step(ReplaceStep::WriteTemporary, true, true, true),
        ReplaceStep::RemoveBackup
    );
    assert_eq!(
        next_step(ReplaceStep::Install, false, false, true),
        ReplaceStep::PutBack
    );
    assert_eq!(
        next_step(ReplaceStep::PutBack, true, true, false),
        ReplaceStep::Failed
    );
    assert!(needs_restore(false, true));
    assert!(!needs_restore(true, true));
    assert_eq!(sidecar_path("data/x.snapshot", "tmp"), "data/x.snapshot.tmp");
}

#[test]
fn the_log_is_emptied_last() {
    let mut step = CompactionStep::InstallSnapshot;
    let mut order = Vec::new();
    while step != CompactionStep::Done {
        order.push(step);
        step = next_compaction_step(step, true);
    }
    assert_eq!(
        order,
        [
            CompactionStep::InstallSnapshot,
            CompactionStep::AdvanceGeneration,
            CompactionStep::ResetLog
        ]
    );
    assert_eq!(
        next_compaction_step(CompactionStep::AdvanceGeneration, false),
        CompactionStep::Failed
    );
}

#[test]
fn a_crash_before_the_log_is_emptied_is_harmless() {
    let config = small_config();
    let mut files = empty_files();
    let (mut database, _) = open(&config, &mut files, at(0)).expect("open");
    for value in ["1", "2", "3"] {
        let staged = database.set(
            Bytes::from_static(b"k"),
            Bytes::from_static(value.as_bytes()),
            at(0),
        );
        write(&mut database, &mut files, staged, at(0));
    }
    // The snapshot and the generation are in place, and the log still holds its records.
    let image = database.snapshot(at(0)).expect("snapshot");
    files.snapshot = Some(image.encoded);
    files.generation = Some(generation_text(2));
    let (mut restarted, report) = open(&config, &mut files, at(0)).expect("open");
    assert_eq!(report.snapshot_entries_loaded, 1);
    assert_eq!(report.records_replayed, 3);
    assert_eq!(restarted.wal_generation(), 2);
    assert_eq!(
        restarted.store_mut().get_at(b"k", at(0)),
        Ok(Some(Bytes::from_static(b"3")))
    );
}

#[test]
fn persistence_errors_have_texts() {
    let texts = [
        (
            PersistenceError::UnsupportedVersion(3),
            "unsupported WAL version 3",
        ),
        (
            PersistenceError::InvalidRecordType(0x0c),
            "invalid WAL record type 0x0c",
        ),
        (
            PersistenceError::InvalidRecordLength,
            "WAL record length is invalid or exceeds configured limits",
        ),
        (
            PersistenceError::ChecksumMismatch { offset: 8 },
            "WAL checksum mismatch at byte offset 8",
        ),
        (
            PersistenceError::InvalidSnapshotHeader,
            "invalid snapshot header",
        ),
        (
            PersistenceError::SnapshotCorruption {
                entry: 3,
                reason: "checksum mismatch",
            },
            "snapshot corruption at entry 3: checksum mismatch",
        ),
        (
            PersistenceError::InvalidMetadata("invalid node identity"),
            "invalid metadata: invalid node identity",
        ),
        (
            PersistenceError::ClockBeforeEpoch,
            "system clock is before the Unix epoch",
        ),
        (
            PersistenceError::Store(StoreError::CapacityOverflow),
            "store recovery failed: store size exceeded the supported range",
        ),
    ];
    for (error, text) in texts {
        assert_eq!(error.message(), text);
    }
}

/// The IEEE CRC-32, bit by bit.
fn crc(bytes: &[u8]) -> u32 {
    let mut state = u32::MAX;
    for byte in bytes {
        state ^= u32::from(*byte);
        for _ in 0..8 {
            state = if state & 1 == 1 {
                (state >> 1) ^ 0xedb8_8320
            } else {
                state >> 1
            };
        }
    }
    !state
}

#[test]
fn records_carry_the_ieee_checksum() {
    assert_eq!(crc(b"123456789"), 0xcbf4_3926);
    let mut value = Vec::new();
    for length in 0..300_u32 {
        let record = WalRecord::set_at(
            Bytes::from_static(b"key"),
            Bytes::from(value.clone()),
            at(u64::from(length)),
        )
        .expect("record");
        let encoded = record.encode().expect("record should encode");
        let end = encoded.len() - 4;
        assert_eq!(encoded[end..], crc(&encoded[4..end]).to_be_bytes());
        value.push((length * 37 % 251) as u8);
    }
}

#[test]
fn any_flipped_bit_of_a_record_is_seen() {
    let record = WalRecord::set_ex_at(
        Bytes::from_static(b"key"),
        Bytes::from_static(b"value"),
        at(9_000),
        at(5),
    )
    .expect("record");
    let encoded = record.encode().expect("record should encode").to_vec();
    for index in 0..encoded.len() {
        for bit in 0..8 {
            let mut flipped = encoded.clone();
            flipped[index] ^= 1 << bit;
            let refused = WalRecord::decode(&flipped, limits(), 8)
                .expect_err("a flipped bit should be seen");
            if index >= 32 {
                assert_eq!(refused, PersistenceError::ChecksumMismatch { offset: 8 });
            }
        }
    }
}

#[test]
fn flipped_bits_and_longer_snapshots_are_seen() {
    let entries = [
        SnapshotEntry {
            key: Bytes::from_static(b"a"),
            value: Bytes::from_static(b"one"),
            expires_at: None,
        },
        SnapshotEntry {
            key: Bytes::from_static(b"bc"),
            value: Bytes::from_static(b""),
            expires_at: Some(at(7_000)),
        },
    ];
    let encoded = encode_snapshot(&entries).expect("snapshot");
    assert!(decode_snapshot_at(&encoded, limits(), at(1)).is_ok());
    for index in 0..encoded.len() {
        for bit in 0..8 {
            let mut flipped = encoded.clone();
            flipped[index] ^= 1 << bit;
            assert!(decode_snapshot_at(&flipped, limits(), at(1)).is_err());
        }
    }
    let mut longer = encoded;
    longer.push(0);
    assert_eq!(
        decode_snapshot_at(&longer, limits(), at(1)),
        Err(PersistenceError::SnapshotCorruption {
            entry: 2,
            reason: "trailing bytes after declared entries",
        })
    );
}

#[test]
fn boundaries_are_the_places_between_records() {
    let mut log = Log::open(FsyncMode::Never);
    let inner = WalRecord::set_at(Bytes::from_static(b"x"), Bytes::from_static(b"y"), at(1))
        .expect("record")
        .encode()
        .expect("record should encode");
    let mut ends = vec![8];
    for value in [&b"1"[..], &inner[..], b""] {
        log.append(
            &WalRecord::set_at(Bytes::from_static(b"k"), Bytes::copy_from_slice(value), at(2))
                .expect("record"),
        );
        ends.push(log.bytes.len());
    }
    for place in 0..=log.bytes.len() {
        assert_eq!(
            is_record_boundary(&log.bytes, place, limits()),
            ends.contains(&place)
        );
    }
}
