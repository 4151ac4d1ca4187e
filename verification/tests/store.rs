use bytes::Bytes;
use forgekv::error::StoreError;
use forgekv::metrics::Metrics;
use forgekv::store::{Entry, ShardedStore, SnapshotEntry, TtlState};
use forgekv::time::{Duration, Timestamp};

fn store() -> ShardedStore {
    ShardedStore::new(16, Metrics::default()).expect("valid shard count")
}

fn at(millis: u64) -> Timestamp {
    Timestamp::from_millis(millis)
}

#[test]
fn set_get_overwrite_delete_and_exists() {
    let mut store = store();
    store
        .set(Bytes::from_static(b"key"), Bytes::from_static(b"one"))
        .expect("set should work");
    assert_eq!(
        store.get(b"key").expect("get should work"),
        Some(Bytes::from_static(b"one"))
    );
    store
        .set(Bytes::from_static(b"key"), Bytes::from_static(b"two"))
        .expect("overwrite should work");
    assert!(store.contains(b"key").expect("exists should work"));
    assert!(store.delete(b"key").expect("delete should work"));
    assert!(!store.contains(b"key").expect("exists should work"));
}

#[test]
fn lazy_expiration_and_persist_are_deterministic() {
    let mut store = store();
    store
        .set_with_expiry(
            Bytes::from_static(b"expired"),
            Bytes::from_static(b"value"),
            Some(Timestamp::epoch()),
        )
        .expect("set should work");
    assert_eq!(store.get(b"expired").expect("get should work"), None);

    let future = Timestamp::now()
        .checked_add(Duration::from_secs(60))
        .expect("test expiration should fit");
    store
        .set_with_expiry(
            Bytes::from_static(b"live"),
            Bytes::from_static(b"value"),
            Some(future),
        )
        .expect("set should work");
    assert!(matches!(
        store.ttl(b"live").expect("ttl should work"),
        TtlState::ExpiresIn(_)
    ));
    assert!(store.persist(b"live").expect("persist should work"));
    assert_eq!(
        store.ttl(b"live").expect("ttl should work"),
        TtlState::Persistent
    );
}

#[test]
fn shard_selection_is_stable() {
    let first = store();
    let second_store = store();
    assert_eq!(
        first.shard_index(b"same-key"),
        second_store.shard_index(b"same-key")
    );
    assert!(first.shard_index(b"key") < first.shard_count());
}

#[test]
fn concurrent_access_uses_independent_keys() {
    let mut store = store();
    for sequence in 0..250 {
        for worker in 0..8 {
            let key = Bytes::from(format!("worker:{worker}:{sequence}"));
            store
                .set(key.clone(), Bytes::from_static(b"value"))
                .expect("set should work");
            assert!(store.contains(&key).expect("exists should work"));
        }
    }
    assert_eq!(store.len().expect("len should work"), 2_000);
}

#[test]
fn a_store_needs_a_shard() {
    assert_eq!(
        ShardedStore::new(0, Metrics::default())
            .expect_err("no shards should be refused")
            .message(),
        "shard count must be greater than zero"
    );
}

#[test]
fn a_key_falls_to_the_shard_of_its_hash() {
    let store = store();
    let hash = forgekv::hash::fnv1a(b"some key");
    assert_eq!(store.shard_index(b"some key") as u64, hash % 16);
}

#[test]
fn a_value_expires_at_its_instant() {
    let mut store = store();
    let expires = store
        .set_with_ttl_at(
            Bytes::from_static(b"k"),
            Bytes::from_static(b"v"),
            Duration::from_millis(100),
            at(1_000),
        )
        .expect("set should work");
    assert_eq!(expires, at(1_100));
    assert_eq!(
        store.ttl_at(b"k", at(1_040)).expect("ttl should work"),
        TtlState::ExpiresIn(Duration::from_millis(60))
    );
    assert_eq!(
        store.get_at(b"k", at(1_099)).expect("get should work"),
        Some(Bytes::from_static(b"v"))
    );
    assert!(!store.contains_at(b"k", at(1_100)).expect("exists should work"));
    // It was dropped then, and does not come back for an earlier instant.
    assert_eq!(store.get_at(b"k", at(1_000)).expect("get should work"), None);
    assert_eq!(
        store.ttl_at(b"k", at(1_000)).expect("ttl should work"),
        TtlState::Missing
    );
}

#[test]
fn times_to_live_are_checked() {
    let mut store = store();
    assert_eq!(
        store.set_with_ttl_at(
            Bytes::from_static(b"k"),
            Bytes::new(),
            Duration::from_millis(0),
            at(0)
        ),
        Err(StoreError::InvalidTtl)
    );
    assert_eq!(
        store.set_with_ttl_at(
            Bytes::from_static(b"k"),
            Bytes::new(),
            Duration::from_secs(u64::MAX),
            at(u64::MAX)
        ),
        Err(StoreError::InvalidExpiration)
    );
    assert!(store.is_empty().expect("is_empty should work"));
    assert_eq!(
        StoreError::InvalidTtl.message(),
        "TTL must be greater than zero"
    );
    assert_eq!(
        StoreError::InvalidExpiration.message(),
        "expiration timestamp is outside the supported range"
    );
}

#[test]
fn counters_follow_the_lookups() {
    let mut store = store();
    store
        .set_with_expiry(
            Bytes::from_static(b"old"),
            Bytes::from_static(b"v"),
            Some(at(10)),
        )
        .expect("set should work");
    store
        .set(Bytes::from_static(b"new"), Bytes::from_static(b"v"))
        .expect("set should work");
    let _ = store.get_at(b"new", at(20)).expect("get should work");
    let _ = store.get_at(b"old", at(20)).expect("get should work");
    let _ = store.get_at(b"none", at(20)).expect("get should work");
    let counters = store.metrics().snapshot();
    assert_eq!(counters.gets_total, 3);
    assert_eq!(counters.hits_total, 1);
    assert_eq!(counters.misses_total, 2);
    assert_eq!(counters.expired_keys_total, 1);
    assert_eq!(counters.sets_total, 0);
}

#[test]
fn purging_drops_what_has_expired() {
    let mut store = store();
    for index in 0..20u64 {
        store
            .set_with_expiry(
                Bytes::from(format!("key-{index}")),
                Bytes::from_static(b"v"),
                Some(at(index)),
            )
            .expect("set should work");
    }
    assert_eq!(store.purge_expired_at(at(9)).expect("purge should work"), 10);
    assert_eq!(store.purge_expired_at(at(9)).expect("purge should work"), 0);
    assert_eq!(store.len_at(at(9)).expect("len should work"), 10);
    assert_eq!(store.metrics().snapshot().expired_keys_total, 10);
    assert!(!store.is_empty_at(at(18)).expect("is_empty should work"));
    assert!(store.is_empty_at(at(19)).expect("is_empty should work"));
}

#[test]
fn persist_needs_an_expiration_to_take_away() {
    let mut store = store();
    store
        .set(Bytes::from_static(b"k"), Bytes::from_static(b"v"))
        .expect("set should work");
    assert!(!store.persist_at(b"k", at(0)).expect("persist should work"));
    assert!(!store.persist_at(b"none", at(0)).expect("persist should work"));
    store
        .set_with_expiry(
            Bytes::from_static(b"k"),
            Bytes::from_static(b"w"),
            Some(at(50)),
        )
        .expect("set should work");
    assert!(!store.persist_at(b"k", at(50)).expect("persist should work"));
    assert!(!store.contains_at(b"k", at(0)).expect("exists should work"));
}

#[test]
fn deleting_an_expired_key_finds_nothing() {
    let mut store = store();
    store
        .set_with_expiry(
            Bytes::from_static(b"k"),
            Bytes::from_static(b"v"),
            Some(at(5)),
        )
        .expect("set should work");
    assert!(!store.delete_at(b"k", at(5)).expect("delete should work"));
    assert!(!store.delete_at(b"k", at(0)).expect("delete should work"));
}

#[test]
fn snapshots_hold_the_live_entries() {
    let mut first = store();
    first
        .set(Bytes::from_static(b"a"), Bytes::from_static(b"1"))
        .expect("set should work");
    first
        .set_with_expiry(
            Bytes::from_static(b"b"),
            Bytes::from_static(b"2"),
            Some(at(10)),
        )
        .expect("set should work");
    let live = first.snapshot_entries_at(at(10)).expect("snapshot should work");
    assert_eq!(live.len(), 1);
    assert_eq!(live[0].key, Bytes::from_static(b"a"));
    let all = first.snapshot_entries_at(at(9)).expect("snapshot should work");
    assert_eq!(all.len(), 2);

    let mut second = store();
    second
        .set(Bytes::from_static(b"gone"), Bytes::from_static(b"x"))
        .expect("set should work");
    second.replace_all(all).expect("replacing should work");
    assert!(!second.contains_at(b"gone", at(9)).expect("exists should work"));
    assert_eq!(
        second.get_at(b"b", at(9)).expect("get should work"),
        Some(Bytes::from_static(b"2"))
    );
    assert_eq!(second.len_at(at(9)).expect("len should work"), 2);
}

#[test]
fn the_last_of_two_equal_keys_stays() {
    let entry = |value: &'static [u8]| SnapshotEntry {
        key: Bytes::from_static(b"k"),
        value: Bytes::from_static(value),
        expires_at: None,
    };
    let mut store = store();
    store
        .replace_all(vec![entry(b"one"), entry(b"two")])
        .expect("replacing should work");
    assert_eq!(
        store.get_at(b"k", at(0)).expect("get should work"),
        Some(Bytes::from_static(b"two"))
    );
}

#[test]
fn entries_know_when_they_expire() {
    let mut entry = Entry::new(Bytes::from_static(b"v"), Some(at(10)));
    assert_eq!(entry.value(), &Bytes::from_static(b"v"));
    assert_eq!(entry.expires_at(), Some(at(10)));
    assert!(!entry.is_expired_at(at(9)));
    assert!(entry.is_expired_at(at(10)));
    entry.clear_expiration();
    assert!(!entry.is_expired_at(at(u64::MAX)));
}

#[test]
fn time_spans_and_instants() {
    assert_eq!(Duration::from_secs(2).as_millis(), 2_000);
    assert!(Duration::from_millis(0).is_zero());
    assert_eq!(
        at(5).duration_since(at(3)),
        Some(Duration::from_millis(2))
    );
    assert_eq!(at(3).duration_since(at(5)), None);
    assert!(Timestamp::now()
        .duration_since(at(1_600_000_000_000))
        .is_some());
}

#[test]
fn clock_readings_count_from_the_epoch() {
    assert_eq!(Timestamp::from_reading(Ok((0, 0))), Timestamp::epoch());
    assert_eq!(Timestamp::from_reading(Ok((2, 5))).nanos, 2_000_000_005);
    assert_eq!(Timestamp::from_reading(Err((2, 5))).nanos, -2_000_000_005);
    assert_eq!(
        Timestamp::from_reading(Ok((u64::MAX, 999_999_999))).nanos,
        18_446_744_073_709_551_615_999_999_999
    );
    assert_eq!(
        Timestamp::from_reading(Err((u64::MAX, 999_999_999))).nanos,
        -18_446_744_073_709_551_615_999_999_999
    );
}

#[test]
fn metrics_wrap_around_like_counters() {
    let mut metrics = Metrics::default();
    metrics.connection_opened();
    metrics.connection_closed();
    metrics.connection_closed();
    assert_eq!(metrics.snapshot().connections_active, u64::MAX);
    assert_eq!(metrics.snapshot().connections_total, 1);
    metrics.expired(u64::MAX);
    metrics.expired(2);
    assert_eq!(metrics.snapshot().expired_keys_total, 1);
    metrics.set_replication_lag(7);
    assert_eq!(metrics.snapshot().replication_lag_bytes, 7);
}
