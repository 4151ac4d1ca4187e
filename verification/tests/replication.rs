use bytes::Bytes;
use forgekv::config::{Config, FsyncMode, ReplicationRole};
use forgekv::error::{PersistenceError, ReplicationError};
use forgekv::metrics::Metrics;
use forgekv::persistence::database::StagedWrite;
use forgekv::persistence::identity::{generation_text, DataFiles, Identity};
use forgekv::persistence::{prepare_wal, Database, WAL_HEADER};
use forgekv::replication::follower::{
    accept_response, after_round, caught_up, next_hello, plan_response, synchronizes_first,
    FollowerAction,
};
use forgekv::replication::leader::{count_response, reply_with_batch, response_from_snapshot};
use forgekv::replication::message::{
    encode_hello, encode_response_head, read_hello, read_hello_header, read_leader_id,
    read_response_header, Hello, ResponseKind, SyncResponse, HELLO_FIXED_SIZE,
    RESPONSE_FIXED_SIZE,
};
use forgekv::replication::state::{decode_state, encode_state};
use forgekv::replication::ReplicaState;
use forgekv::store::ShardedStore;
use forgekv::time::Timestamp;

const LEADER: &str = "0123456789abcdef0123456789abcdef";

fn at(millis: u64) -> Timestamp {
    Timestamp::from_millis(millis)
}

/// A database with its files in memory.
struct Node {
    config: Config,
    files: DataFiles,
    database: Database,
}

impl Node {
    fn start(process: u32) -> Self {
        let files = DataFiles {
            generation: None,
            node_id: None,
            snapshot: None,
            wal: Vec::new(),
        };
        Self::open(files, process)
    }

    fn open(mut files: DataFiles, process: u32) -> Self {
        let config = Config {
            shards: 8,
            fsync: FsyncMode::Never,
            wal_compaction_threshold_bytes: 0,
            ..Config::default()
        };
        let identity = Identity::establish(&files, at(1), process).expect("identity");
        files.node_id = Some(identity.node_id.clone());
        files.generation = Some(generation_text(identity.generation));
        if prepare_wal(&files.wal).expect("log") {
            files.wal.extend_from_slice(&WAL_HEADER);
        }
        let store = ShardedStore::new(config.shards, Metrics::default()).expect("store");
        let (database, _) =
            Database::open(&config, identity, &files, store, at(1)).expect("database");
        Self {
            config,
            files,
            database,
        }
    }

    fn write(&mut self, staged: Result<StagedWrite, PersistenceError>) {
        let staged = staged.expect("change should be staged");
        self.files.wal.extend_from_slice(&staged.write.encoded);
        self.database.commit(staged, at(2)).expect("change should be made");
    }

    fn set(&mut self, key: &'static [u8], value: &'static [u8]) {
        let staged = self
            .database
            .set(Bytes::from_static(key), Bytes::from_static(value), at(2));
        self.write(staged);
    }

    fn get(&mut self, key: &[u8]) -> Option<Bytes> {
        self.database.store_mut().get_at(key, at(3)).expect("get")
    }

    fn compact(&mut self) {
        let image = self.database.snapshot(at(2)).expect("snapshot");
        let next = self.database.next_generation().expect("generation");
        self.files.snapshot = Some(image.encoded);
        self.files.generation = Some(generation_text(next));
        self.database.generation_advanced();
        self.files.wal.truncate(8);
        self.database.was_reset();
        self.database.compacted(image.entries);
    }

    fn answer(&mut self, hello: &Hello) -> SyncResponse {
        let max_batch = self.config.replication_max_batch_size;
        match reply_with_batch(&self.database, &self.files.wal, hello, max_batch).expect("reply") {
            Some(response) => response,
            None => {
                let image = self.database.snapshot(at(2)).expect("snapshot");
                let snapshot = self
                    .database
                    .replication_snapshot(image, self.config.replication_max_snapshot_size)
                    .expect("snapshot should fit");
                response_from_snapshot(self.database.node_id(), snapshot)
            }
        }
    }

    fn follow(&mut self, state: &mut ReplicaState, response: SyncResponse) {
        match plan_response(state, &response).expect("response should be accepted") {
            FollowerAction::Nothing => {}
            FollowerAction::ApplyBatch => {
                let records = self
                    .database
                    .read_batch(&response.payload, response.start_offset)
                    .expect("records");
                for record in records {
                    let staged = self.database.replicate(record);
                    self.write(staged);
                }
            }
            FollowerAction::InstallSnapshot => {
                let plan = self
                    .database
                    .plan_install(&response.payload, at(2))
                    .expect("plan");
                let next = self.database.next_generation().expect("generation");
                self.files.snapshot = Some(plan.encoded.clone());
                self.files.generation = Some(generation_text(next));
                self.database.generation_advanced();
                self.files.wal.truncate(8);
                self.database.was_reset();
                self.database.install(plan);
            }
        }
        let metrics = self.database.store_mut().metrics_mut();
        accept_response(state, metrics, &response);
    }
}

fn sync(leader: &mut Node, follower: &mut Node, state: &mut ReplicaState) {
    for rounds in 1.. {
        let response = leader.answer(&next_hello(state));
        let all = caught_up(&response);
        follower.follow(state, response);
        if after_round(rounds, all).expect("synchronization should converge") {
            break;
        }
    }
}

fn batch(start: u64, payload: &[u8]) -> SyncResponse {
    SyncResponse {
        kind: ResponseKind::Batch,
        leader_id: LEADER.to_owned(),
        generation: 3,
        start_offset: start,
        end_offset: start + payload.len() as u64,
        leader_end: start + payload.len() as u64,
        payload: payload.to_vec(),
    }
}

fn state(offset: u64) -> ReplicaState {
    ReplicaState {
        leader_id: LEADER.to_owned(),
        generation: 3,
        offset,
    }
}

#[test]
fn replica_state_round_trip_and_checksum() {
    let state = ReplicaState {
        leader_id: "0123456789abcdef0123456789abcdef".to_owned(),
        generation: 7,
        offset: 128,
    };
    let mut encoded = encode_state(&state).expect("state should persist");
    assert_eq!(decode_state(Some(&encoded)).expect("state should load"), state);
    let last = encoded.last_mut().expect("state should contain checksum");
    *last ^= 1;
    assert!(decode_state(Some(&encoded)).is_err());
}

#[test]
fn follower_receives_snapshot_then_incremental_wal() {
    let mut leader = Node::start(1);
    leader.set(b"snapshot:key", b"snapshot-value");
    let mut follower = Node::start(2);
    let mut state = ReplicaState::default();
    sync(&mut leader, &mut follower, &mut state);
    assert_eq!(
        follower.get(b"snapshot:key"),
        Some(Bytes::from_static(b"snapshot-value"))
    );
    assert_eq!(state.leader_id, leader.database.node_id());

    leader.set(b"incremental:key", b"incremental-value");
    let response = leader.answer(&next_hello(&state));
    assert_eq!(response.kind, ResponseKind::Batch);
    sync(&mut leader, &mut follower, &mut state);
    assert_eq!(
        follower.get(b"incremental:key"),
        Some(Bytes::from_static(b"incremental-value"))
    );
    assert_eq!(state.offset, leader.files.wal.len() as u64);

    let mut restarted = Node::open(follower.files, 2);
    assert_eq!(
        restarted.get(b"snapshot:key"),
        Some(Bytes::from_static(b"snapshot-value"))
    );
    assert_eq!(
        restarted.get(b"incremental:key"),
        Some(Bytes::from_static(b"incremental-value"))
    );
}

#[test]
fn compaction_invalidates_old_replication_generation() {
    let mut node = Node::start(1);
    let generation = node.database.wal_generation();
    node.set(b"key", b"value");
    node.compact();
    assert!(node.database.wal_generation() > generation);
    assert!(node
        .database
        .read_replication_batch(&node.files.wal, generation, 8, 4 * 1024 * 1024)
        .expect("batch")
        .is_none());
}

#[test]
fn a_follower_of_a_compacted_log_gets_a_snapshot() {
    let mut leader = Node::start(1);
    leader.set(b"a", b"1");
    let mut follower = Node::start(2);
    let mut state = ReplicaState::default();
    sync(&mut leader, &mut follower, &mut state);
    leader.set(b"b", b"2");
    leader.compact();
    let response = leader.answer(&next_hello(&state));
    assert_eq!(response.kind, ResponseKind::Snapshot);
    sync(&mut leader, &mut follower, &mut state);
    assert_eq!(follower.get(b"b"), Some(Bytes::from_static(b"2")));
    assert_eq!(state.generation, leader.database.wal_generation());
}

#[test]
fn a_leader_with_another_name_sends_a_snapshot() {
    let mut leader = Node::start(1);
    leader.set(b"a", b"1");
    let hello = Hello {
        leader_id: "f".repeat(32),
        generation: leader.database.wal_generation(),
        offset: 8,
    };
    assert_eq!(leader.answer(&hello).kind, ResponseKind::Snapshot);
    let own = Hello {
        leader_id: leader.database.node_id().to_owned(),
        ..hello
    };
    let response = leader.answer(&own);
    assert_eq!(response.kind, ResponseKind::Batch);
    assert_eq!(response.payload, leader.files.wal[8..]);
}

#[test]
fn snapshots_are_bounded() {
    let mut leader = Node::start(1);
    leader.set(b"a", b"1");
    let image = leader.database.snapshot(at(2)).expect("snapshot");
    assert_eq!(
        leader.database.replication_snapshot(image, 16),
        Err(PersistenceError::InvalidMetadata(
            "snapshot exceeds configured replication limit"
        ))
    );
}

#[test]
fn hellos_survive_the_wire() {
    let hello = Hello {
        leader_id: LEADER.to_owned(),
        generation: 5,
        offset: 99,
    };
    let encoded = encode_hello(&hello).expect("hello should encode");
    assert_eq!(&encoded[..4], b"FKRP");
    let length = read_hello_header(&encoded[..HELLO_FIXED_SIZE]).expect("header");
    assert_eq!(length, 32);
    assert_eq!(
        read_hello(
            &encoded[..HELLO_FIXED_SIZE],
            encoded[HELLO_FIXED_SIZE..].to_vec()
        ),
        Ok(hello)
    );
    let first = next_hello(&ReplicaState::default());
    let encoded = encode_hello(&first).expect("hello should encode");
    assert_eq!(encoded.len(), HELLO_FIXED_SIZE);
    assert_eq!(read_hello(&encoded, Vec::new()), Ok(first));
}

#[test]
fn hellos_are_checked() {
    let hello = Hello {
        leader_id: LEADER.to_owned(),
        generation: 5,
        offset: 99,
    };
    let encoded = encode_hello(&hello).expect("hello should encode");
    let mut wrong = encoded[..HELLO_FIXED_SIZE].to_vec();
    wrong[0] = 0;
    assert_eq!(
        read_hello_header(&wrong)
            .expect_err("prefix should be refused")
            .message(),
        "invalid replication protocol: invalid replication message prefix"
    );
    assert_eq!(
        read_hello(&encoded[..HELLO_FIXED_SIZE], vec![0xff; 32]),
        Err(ReplicationError::InvalidProtocol("node identity is not UTF-8"))
    );
    assert_eq!(
        read_hello(&encoded[..HELLO_FIXED_SIZE], vec![b'z'; 32]),
        Err(ReplicationError::InvalidProtocol(
            "invalid hexadecimal node identity"
        ))
    );
    assert!(encode_hello(&Hello {
        leader_id: "nobody".to_owned(),
        ..hello
    })
    .is_err());
}

#[test]
fn responses_survive_the_replication_wire() {
    let response = batch(40, b"payload");
    let head = encode_response_head(&response).expect("response should encode");
    let header =
        read_response_header(&head[..RESPONSE_FIXED_SIZE], 1024, 1024).expect("header");
    let id = read_leader_id(head[RESPONSE_FIXED_SIZE..].to_vec()).expect("name");
    assert_eq!(header.complete(id, b"payload".to_vec()), response);
    assert_eq!(
        read_response_header(&head[..RESPONSE_FIXED_SIZE], 6, 1024)
            .expect_err("payload should be too large")
            .message(),
        "replication payload of 7 bytes exceeds configured maximum 6"
    );
    let mut kind = head.clone();
    kind[5] = 9;
    assert_eq!(
        read_response_header(&kind[..RESPONSE_FIXED_SIZE], 1024, 1024)
            .expect_err("kind should be refused")
            .message(),
        "invalid replication protocol: invalid response kind"
    );
    assert!(read_leader_id(vec![0xff; 32]).is_err());
}

#[test]
fn batches_have_to_continue_the_state() {
    assert_eq!(
        plan_response(&state(40), &batch(40, b"x")),
        Ok(FollowerAction::ApplyBatch)
    );
    assert_eq!(
        plan_response(&state(40), &batch(40, b"")),
        Ok(FollowerAction::Nothing)
    );
    let refused = |state: &ReplicaState, response: &SyncResponse| {
        plan_response(state, response)
            .expect_err("response should be refused")
            .message()
    };
    assert_eq!(
        refused(&state(41), &batch(40, b"x")),
        "invalid replication protocol: incremental response does not continue follower state"
    );
    let mut longer = batch(40, b"x");
    longer.payload.push(0);
    assert_eq!(
        refused(&state(40), &longer),
        "invalid replication protocol: incremental payload length does not match offsets"
    );
    let mut beyond = batch(40, b"x");
    beyond.leader_end = 40;
    assert_eq!(
        refused(&state(40), &beyond),
        "invalid replication protocol: invalid leader identity or offset range"
    );
    let mut snapshot = batch(0, b"x");
    snapshot.kind = ResponseKind::Snapshot;
    assert_eq!(
        plan_response(&state(40), &snapshot),
        Ok(FollowerAction::InstallSnapshot)
    );
    snapshot.leader_end += 1;
    assert_eq!(
        refused(&state(40), &snapshot),
        "invalid replication protocol: snapshot response does not describe one captured boundary"
    );
}

#[test]
fn progress_and_lag_are_kept() {
    let mut state = state(40);
    let mut metrics = Metrics::default();
    let mut response = batch(40, b"abc");
    response.leader_end = 50;
    assert!(accept_response(&mut state, &mut metrics, &response));
    assert_eq!(state.offset, 43);
    assert!(!caught_up(&response));
    assert_eq!(metrics.snapshot().replication_bytes_received_total, 3);
    assert_eq!(metrics.snapshot().replication_lag_bytes, 7);
    assert!(!accept_response(&mut state, &mut metrics, &batch(43, b"")));
    assert_eq!(metrics.snapshot().replication_lag_bytes, 6_u64.saturating_sub(6));

    count_response(&mut metrics, &response);
    assert_eq!(metrics.snapshot().replication_bytes_sent_total, 3);
    assert_eq!(metrics.snapshot().replication_full_syncs_total, 0);
}

#[test]
fn synchronization_has_to_converge() {
    assert_eq!(after_round(1, true), Ok(true));
    assert_eq!(after_round(10_000, true), Ok(true));
    assert_eq!(after_round(9_999, false), Ok(false));
    assert_eq!(
        after_round(10_000, false),
        Err(ReplicationError::InvalidProtocol(
            "initial synchronization did not converge"
        ))
    );
}

#[test]
fn missing_and_broken_states() {
    assert_eq!(decode_state(None), Ok(ReplicaState::default()));
    let encoded = encode_state(&state(9)).expect("state");
    assert_eq!(
        decode_state(Some(&encoded[..10]))
            .expect_err("state should be refused")
            .message(),
        "invalid replication protocol: invalid replica state header"
    );
    assert_eq!(
        decode_state(Some(&encoded[..encoded.len() - 1]))
            .expect_err("state should be refused")
            .message(),
        "invalid replication protocol: invalid replica state length"
    );
    let mut flipped = encoded.clone();
    flipped[9] ^= 1;
    assert!(decode_state(Some(&flipped)).is_err());
    assert_eq!(
        ReplicationError::Persistence(PersistenceError::InvalidHeader).message(),
        "invalid WAL header"
    );
}

#[test]
fn any_flipped_or_missing_part_of_a_state_is_seen() {
    let encoded = encode_state(&state(9)).expect("state");
    assert_eq!(decode_state(Some(&encoded)), Ok(state(9)));
    for index in 0..encoded.len() {
        assert!(decode_state(Some(&encoded[..index])).is_err());
        for bit in 0..8 {
            let mut flipped = encoded.clone();
            flipped[index] ^= 1 << bit;
            assert!(decode_state(Some(&flipped)).is_err());
        }
    }
}

#[test]
fn a_place_inside_a_record_gets_a_snapshot() {
    let mut leader = Node::start(1);
    leader.set(b"a", b"1");
    let middle = leader.files.wal.len() as u64;
    leader.set(b"b", b"2");
    let end = leader.files.wal.len() as u64;
    for offset in 8..=end {
        let hello = Hello {
            leader_id: leader.database.node_id().to_owned(),
            generation: leader.database.wal_generation(),
            offset,
        };
        let response = leader.answer(&hello);
        if [8, middle, end].contains(&offset) {
            assert_eq!(response.kind, ResponseKind::Batch);
            assert_eq!(response.payload, leader.files.wal[offset as usize..]);
        } else {
            assert_eq!(response.kind, ResponseKind::Snapshot);
            assert_eq!(response.end_offset, end);
        }
    }
}

#[test]
fn a_log_that_is_shorter_than_it_should_be_is_an_error() {
    let mut leader = Node::start(1);
    leader.set(b"a", b"1");
    let hello = Hello {
        leader_id: leader.database.node_id().to_owned(),
        generation: leader.database.wal_generation(),
        offset: leader.files.wal.len() as u64,
    };
    leader.files.wal.pop();
    assert_eq!(
        reply_with_batch(&leader.database, &leader.files.wal, &hello, 1024),
        Err(ReplicationError::Persistence(
            PersistenceError::InvalidMetadata("replication offset exceeds WAL length")
        ))
    );
}

#[test]
fn only_followers_synchronize_first() {
    assert!(synchronizes_first(ReplicationRole::Follower));
    assert!(!synchronizes_first(ReplicationRole::Leader));
    assert!(!synchronizes_first(ReplicationRole::Standalone));
}
