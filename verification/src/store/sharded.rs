//! The whole store: shards, each with the keys whose hash falls to it.

use bytes::Bytes;
use vstd::prelude::*;
use vstd::slice::slice_to_vec;

use crate::buffer::{as_slice, contents};
use crate::error::StoreError;
use crate::hash::{fnv1a, fnv1a_of};
use crate::metrics::{Metrics, MetricsSnapshot};
use crate::store::entry::{
    distinct_keys, entries_map, entry_list, live, Entry, EntryView, SnapshotEntry,
    SnapshotEntryView,
};
use crate::store::shard::Shard;
use crate::time::{Duration, Timestamp};

verus! {

/// How long a key has left.
#[derive(Clone, Copy, Debug, PartialEq, Eq, Structural)]
pub enum TtlState {
    Missing,
    Persistent,
    ExpiresIn(Duration),
}

/// The store.
#[derive(Debug)]
pub struct ShardedStore {
    shards: Vec<Shard>,
    metrics: Metrics,
}

/// The shard that a key falls to.
pub open spec fn shard_of(key: Seq<u8>, count: nat) -> int {
    fnv1a_of(key) as int % count as int
}

/// The entries of the first `bound` shards.
spec fn part(shards: Seq<Shard>, bound: int) -> Map<Seq<u8>, EntryView> {
    Map::new(
        |key: Seq<u8>|
            shard_of(key, shards.len()) < bound && shards[shard_of(
                key,
                shards.len(),
            )]@.dom().contains(key),
        |key: Seq<u8>| shards[shard_of(key, shards.len())]@[key],
    )
}

/// Whether every shard is in order and has only keys that fall to it.
spec fn placed(shards: Seq<Shard>) -> bool {
    &&& shards.len() > 0
    &&& forall|i: int| 0 <= i < shards.len() ==> (#[trigger] shards[i]).valid()
    &&& forall|i: int, key: Seq<u8>|
        0 <= i < shards.len() && #[trigger] shards[i]@.dom().contains(key) ==> shard_of(
            key,
            shards.len(),
        ) == i
}

/// The entry under a key, unless it has expired.
pub open spec fn found(map: Map<Seq<u8>, EntryView>, key: Seq<u8>, now: Timestamp) -> Option<
    EntryView,
> {
    if map.dom().contains(key) && !map[key].expired(now) {
        Some(map[key])
    } else {
        None
    }
}

/// Whether there is an entry under a key that has expired.
pub open spec fn stale(map: Map<Seq<u8>, EntryView>, key: Seq<u8>, now: Timestamp) -> bool {
    map.dom().contains(key) && map[key].expired(now)
}

/// The map without the entry under a key, if it has expired.
pub open spec fn refreshed(
    map: Map<Seq<u8>, EntryView>,
    key: Seq<u8>,
    now: Timestamp,
) -> Map<Seq<u8>, EntryView> {
    if stale(map, key, now) {
        map.remove(key)
    } else {
        map
    }
}

/// The counters after one expired entry was dropped, or none.
pub open spec fn count_stale(counters: MetricsSnapshot, dropped: bool) -> MetricsSnapshot {
    if dropped {
        MetricsSnapshot {
            expired_keys_total: counters.expired_keys_total.wrapping_add(1),
            ..counters
        }
    } else {
        counters
    }
}

/// The counters after a lookup.
pub open spec fn count_lookup(
    counters: MetricsSnapshot,
    hit: bool,
    dropped: bool,
) -> MetricsSnapshot {
    let counted = count_stale(counters, dropped);
    if hit {
        MetricsSnapshot {
            gets_total: counted.gets_total.wrapping_add(1),
            hits_total: counted.hits_total.wrapping_add(1),
            ..counted
        }
    } else {
        MetricsSnapshot {
            gets_total: counted.gets_total.wrapping_add(1),
            misses_total: counted.misses_total.wrapping_add(1),
            ..counted
        }
    }
}

/// How long the key has left at `now`.
pub open spec fn time_left(map: Map<Seq<u8>, EntryView>, key: Seq<u8>, now: Timestamp) -> TtlState {
    match found(map, key, now) {
        None => TtlState::Missing,
        Some(entry) => match entry.expires_at {
            None => TtlState::Persistent,
            Some(expires_at) => TtlState::ExpiresIn(
                Duration { nanos: (expires_at.nanos - now.nanos) as u128 },
            ),
        },
    }
}

/// The map with the entry under `key` kept for good, and without it where it has expired.
pub open spec fn kept_for_good(
    map: Map<Seq<u8>, EntryView>,
    key: Seq<u8>,
    now: Timestamp,
) -> Map<Seq<u8>, EntryView> {
    match found(map, key, now) {
        Some(entry) => map.insert(key, EntryView { value: entry.value, expires_at: None }),
        None => refreshed(map, key, now),
    }
}

/// A number as a 64-bit counter shows it that stops at its end.
pub open spec fn saturated(number: int) -> u64 {
    if number > u64::MAX {
        u64::MAX
    } else {
        number as u64
    }
}

impl View for ShardedStore {
    type V = Map<Seq<u8>, EntryView>;

    closed spec fn view(&self) -> Map<Seq<u8>, EntryView> {
        part(self.shards@, self.shards@.len() as int)
    }
}

impl ShardedStore {
    /// Every key is in the shard that it falls to, once.
    pub closed spec fn valid(self) -> bool {
        placed(self.shards@)
    }

    /// The number of shards.
    pub closed spec fn spec_shard_count(self) -> nat {
        self.shards@.len()
    }

    /// The counters.
    pub closed spec fn counters(self) -> MetricsSnapshot {
        self.metrics@
    }

    /// The counters.
    pub fn metrics(&self) -> (metrics: &Metrics)
        ensures
            metrics@ == self.counters(),
    {
        &self.metrics
    }

    /// The counters, to count with.
    pub fn metrics_mut(&mut self) -> (metrics: &mut Metrics)
        ensures
            metrics@ == old(self).counters(),
            final(self).counters() == final(metrics)@,
            final(self).valid() == old(self).valid(),
            final(self).spec_shard_count() == old(self).spec_shard_count(),
            final(self)@ == old(self)@,
    {
        &mut self.metrics
    }

    /// A store has finitely many entries.
    pub proof fn lemma_finite(self)
        requires
            self.valid(),
        ensures
            self@.dom().finite(),
    {
        lemma_part_size(self.shards@, self.shards@.len() as int);
    }

    /// An empty store.
    pub fn new(shard_count: usize, metrics: Metrics) -> (store: Result<Self, StoreError>)
        ensures
            match store {
                Ok(store) => {
                    &&& shard_count > 0
                    &&& store.valid()
                    &&& store.spec_shard_count() == shard_count
                    &&& store@ == Map::<Seq<u8>, EntryView>::empty()
                    &&& store.counters() == metrics@
                },
                Err(error) => shard_count == 0 && error == StoreError::InvalidShardCount,
            },
    {
        if shard_count == 0 {
            return Err(StoreError::InvalidShardCount);
        }
        let mut shards: Vec<Shard> = Vec::with_capacity(shard_count);
        for index in 0..shard_count
            invariant
                shards@.len() == index,
                forall|i: int|
                    0 <= i < index ==> (#[trigger] shards@[i]).valid() && shards@[i]@ == Map::<
                        Seq<u8>,
                        EntryView,
                    >::empty(),
        {
            shards.push(Shard::new());
        }
        let store: ShardedStore = Self { shards, metrics };
        assert(store@ =~= Map::empty()) by {
            assert forall|key: Seq<u8>| !#[trigger] store@.dom().contains(key) by {
                lemma_shard_of(key, shards@.len());
            }
        }
        Ok(store)
    }

    /// The number of shards.
    pub fn shard_count(&self) -> (count: usize)
        ensures
            count == self.spec_shard_count(),
    {
        self.shards.len()
    }

    /// The shard that a key falls to.
    pub fn shard_index(&self, key: &[u8]) -> (index: usize)
        requires
            self.valid(),
        ensures
            index == shard_of(key@, self.spec_shard_count()),
            index < self.spec_shard_count(),
    {
        proof {
            lemma_shard_of(key@, self.shards@.len());
        }
        (fnv1a(key) % self.shards.len() as u64) as usize
    }

    /// Writes a value that does not expire.
    pub fn set(&mut self, key: Bytes, value: Bytes) -> (done: Result<(), StoreError>)
        requires
            old(self).valid(),
        ensures
            done == Ok::<(), StoreError>(()),
            final(self).valid(),
            final(self).spec_shard_count() == old(self).spec_shard_count(),
            final(self).counters() == old(self).counters(),
            final(self)@ == old(self)@.insert(
                contents(key),
                EntryView { value: contents(value), expires_at: None },
            ),
    {
        self.set_with_expiry(key, value, None)
    }

    /// Writes a value that expires `ttl` after `now`, and says when.
    pub fn set_with_ttl_at(
        &mut self,
        key: Bytes,
        value: Bytes,
        ttl: Duration,
        now: Timestamp,
    ) -> (expires_at: Result<Timestamp, StoreError>)
        requires
            old(self).valid(),
        ensures
            final(self).valid(),
            final(self).spec_shard_count() == old(self).spec_shard_count(),
            final(self).counters() == old(self).counters(),
            expires_at == expiry(ttl, now),
            final(self)@ == (match expires_at {
                Ok(instant) => old(self)@.insert(
                    contents(key),
                    EntryView { value: contents(value), expires_at: Some(instant) },
                ),
                Err(_) => old(self)@,
            }),
    {
        if ttl.is_zero() {
            return Err(StoreError::InvalidTtl);
        }
        let expires_at: Timestamp = match now.checked_add(ttl) {
            Some(instant) => instant,
            None => return Err(StoreError::InvalidExpiration),
        };
        match self.set_with_expiry(key, value, Some(expires_at)) {
            Ok(_) => Ok(expires_at),
            Err(error) => Err(error),
        }
    }

    /// Writes a value that expires `ttl` from now, and says when.
    pub fn set_with_ttl(&mut self, key: Bytes, value: Bytes, ttl: Duration) -> (expires_at: Result<
        Timestamp,
        StoreError,
    >)
        requires
            old(self).valid(),
        ensures
            final(self).valid(),
            final(self).spec_shard_count() == old(self).spec_shard_count(),
            final(self).counters() == old(self).counters(),
            exists|now: Timestamp| expires_at == #[trigger] expiry(ttl, now),
            final(self)@ == (match expires_at {
                Ok(instant) => old(self)@.insert(
                    contents(key),
                    EntryView { value: contents(value), expires_at: Some(instant) },
                ),
                Err(_) => old(self)@,
            }),
    {
        self.set_with_ttl_at(key, value, ttl, Timestamp::now())
    }

    /// Writes a value that expires at an instant, or never.
    pub fn set_with_expiry(
        &mut self,
        key: Bytes,
        value: Bytes,
        expires_at: Option<Timestamp>,
    ) -> (done: Result<(), StoreError>)
        requires
            old(self).valid(),
        ensures
            done == Ok::<(), StoreError>(()),
            final(self).valid(),
            final(self).spec_shard_count() == old(self).spec_shard_count(),
            final(self).counters() == old(self).counters(),
            final(self)@ == old(self)@.insert(
                contents(key),
                EntryView { value: contents(value), expires_at },
            ),
    {
        let index: usize = self.shard_index(as_slice(&key));
        let ghost before = self.shards@;
        self.shards[index].insert(slice_to_vec(as_slice(&key)), Entry::new(value, expires_at));
        proof {
            let entry = EntryView { value: contents(value), expires_at };
            lemma_one_shard(before, self.shards@, index as int, contents(key));
            assert(self@ =~= old(self)@.insert(contents(key), entry));
        }
        Ok(())
    }

    /// Reads a value at `now`. A value that has expired is dropped and counts as missing.
    pub fn get_at(&mut self, key: &[u8], now: Timestamp) -> (value: Result<
        Option<Bytes>,
        StoreError,
    >)
        requires
            old(self).valid(),
        ensures
            final(self).valid(),
            final(self).spec_shard_count() == old(self).spec_shard_count(),
            final(self)@ == refreshed(old(self)@, key@, now),
            final(self).counters() == count_lookup(
                old(self).counters(),
                found(old(self)@, key@, now) is Some,
                stale(old(self)@, key@, now),
            ),
            match found(old(self)@, key@, now) {
                Some(entry) => value is Ok && value->Ok_0 is Some && contents(value->Ok_0->0)
                    == entry.value,
                None => value == Ok::<Option<Bytes>, StoreError>(None),
            },
    {
        self.metrics.get();
        let index: usize = self.shard_index(key);
        match self.shards[index].get(key) {
            Some(entry) => {
                if !entry.is_expired_at(now) {
                    let value: Bytes = entry.value().clone();
                    self.metrics.hit();
                    return Ok(Some(value));
                }
            },
            None => {
                self.metrics.miss();
                return Ok(None);
            },
        }
        if self.remove_if_expired(key, now) {
            self.metrics.expired(1);
        }
        self.metrics.miss();
        Ok(None)
    }

    /// Reads a value.
    pub fn get(&mut self, key: &[u8]) -> (value: Result<Option<Bytes>, StoreError>)
        requires
            old(self).valid(),
        ensures
            final(self).valid(),
            final(self).spec_shard_count() == old(self).spec_shard_count(),
            exists|now: Timestamp|
                {
                    &&& final(self)@ == refreshed(old(self)@, key@, now)
                    &&& final(self).counters() == count_lookup(
                        old(self).counters(),
                        found(old(self)@, key@, now) is Some,
                        stale(old(self)@, key@, now),
                    )
                    &&& match #[trigger] found(old(self)@, key@, now) {
                        Some(entry) => value is Ok && value->Ok_0 is Some && contents(
                            value->Ok_0->0,
                        ) == entry.value,
                        None => value == Ok::<Option<Bytes>, StoreError>(None),
                    }
                },
    {
        self.get_at(key, Timestamp::now())
    }

    /// Whether there is a value at `now`. A value that has expired is dropped.
    pub fn contains_at(&mut self, key: &[u8], now: Timestamp) -> (present: Result<bool, StoreError>)
        requires
            old(self).valid(),
        ensures
            final(self).valid(),
            final(self).spec_shard_count() == old(self).spec_shard_count(),
            final(self)@ == refreshed(old(self)@, key@, now),
            final(self).counters() == count_stale(
                old(self).counters(),
                stale(old(self)@, key@, now),
            ),
            present == Ok::<bool, StoreError>(found(old(self)@, key@, now) is Some),
    {
        let index: usize = self.shard_index(key);
        match self.shards[index].get(key) {
            Some(entry) => {
                if !entry.is_expired_at(now) {
                    return Ok(true);
                }
            },
            None => return Ok(false),
        }
        if self.remove_if_expired(key, now) {
            self.metrics.expired(1);
        }
        Ok(false)
    }

    /// Whether there is a value.
    pub fn contains(&mut self, key: &[u8]) -> (present: Result<bool, StoreError>)
        requires
            old(self).valid(),
        ensures
            final(self).valid(),
            final(self).spec_shard_count() == old(self).spec_shard_count(),
            exists|now: Timestamp|
                {
                    &&& final(self)@ == refreshed(old(self)@, key@, now)
                    &&& final(self).counters() == count_stale(
                        old(self).counters(),
                        stale(old(self)@, key@, now),
                    )
                    &&& present == Ok::<bool, StoreError>(
                        #[trigger] found(old(self)@, key@, now) is Some,
                    )
                },
    {
        self.contains_at(key, Timestamp::now())
    }

    /// Removes a key at `now`, and says whether it had a value that had not expired.
    pub fn delete_at(&mut self, key: &[u8], now: Timestamp) -> (deleted: Result<bool, StoreError>)
        requires
            old(self).valid(),
        ensures
            final(self).valid(),
            final(self).spec_shard_count() == old(self).spec_shard_count(),
            final(self)@ == old(self)@.remove(key@),
            final(self).counters() == count_stale(
                old(self).counters(),
                stale(old(self)@, key@, now),
            ),
            deleted == Ok::<bool, StoreError>(found(old(self)@, key@, now) is Some),
    {
        let index: usize = self.shard_index(key);
        let ghost before = self.shards@;
        let removed: Option<Entry> = self.shards[index].remove(key);
        proof {
            lemma_one_shard(before, self.shards@, index as int, key@);
            assert(self@ =~= old(self)@.remove(key@));
        }
        match removed {
            Some(entry) => {
                if entry.is_expired_at(now) {
                    self.metrics.expired(1);
                    Ok(false)
                } else {
                    Ok(true)
                }
            },
            None => Ok(false),
        }
    }

    /// Removes a key.
    pub fn delete(&mut self, key: &[u8]) -> (deleted: Result<bool, StoreError>)
        requires
            old(self).valid(),
        ensures
            final(self).valid(),
            final(self).spec_shard_count() == old(self).spec_shard_count(),
            final(self)@ == old(self)@.remove(key@),
            exists|now: Timestamp|
                {
                    &&& final(self).counters() == count_stale(
                        old(self).counters(),
                        stale(old(self)@, key@, now),
                    )
                    &&& deleted == Ok::<bool, StoreError>(
                        #[trigger] found(old(self)@, key@, now) is Some,
                    )
                },
    {
        self.delete_at(key, Timestamp::now())
    }

    /// Takes the expiration of a value away at `now`, and says whether it had one. A value that
    /// has expired is dropped.
    pub fn persist_at(&mut self, key: &[u8], now: Timestamp) -> (persisted: Result<
        bool,
        StoreError,
    >)
        requires
            old(self).valid(),
        ensures
            final(self).valid(),
            final(self).spec_shard_count() == old(self).spec_shard_count(),
            final(self)@ == kept_for_good(old(self)@, key@, now),
            final(self).counters() == count_stale(
                old(self).counters(),
                stale(old(self)@, key@, now),
            ),
            persisted == Ok::<bool, StoreError>(
                found(old(self)@, key@, now) is Some && found(
                    old(self)@,
                    key@,
                    now,
                )->0.expires_at is Some,
            ),
    {
        if self.remove_if_expired(key, now) {
            self.metrics.expired(1);
            return Ok(false);
        }
        let index: usize = self.shard_index(key);
        let ghost before = self.shards@;
        let cleared: bool = self.shards[index].clear_expiration(key);
        proof {
            lemma_one_shard(before, self.shards@, index as int, key@);
            assert(self@ =~= kept_for_good(old(self)@, key@, now));
        }
        Ok(cleared)
    }

    /// Takes the expiration of a value away, and says whether it had one.
    pub fn persist(&mut self, key: &[u8]) -> (persisted: Result<bool, StoreError>)
        requires
            old(self).valid(),
        ensures
            final(self).valid(),
            final(self).spec_shard_count() == old(self).spec_shard_count(),
            exists|now: Timestamp|
                {
                    &&& final(self)@ == kept_for_good(old(self)@, key@, now)
                    &&& final(self).counters() == count_stale(
                        old(self).counters(),
                        stale(old(self)@, key@, now),
                    )
                    &&& persisted == Ok::<bool, StoreError>(
                        #[trigger] found(old(self)@, key@, now) is Some && found(
                            old(self)@,
                            key@,
                            now,
                        )->0.expires_at is Some,
                    )
                },
    {
        self.persist_at(key, Timestamp::now())
    }

    /// Says how long a value has left at `now`. A value that has expired is dropped.
    pub fn ttl_at(&mut self, key: &[u8], now: Timestamp) -> (state: Result<TtlState, StoreError>)
        requires
            old(self).valid(),
        ensures
            final(self).valid(),
            final(self).spec_shard_count() == old(self).spec_shard_count(),
            final(self)@ == refreshed(old(self)@, key@, now),
            final(self).counters() == count_stale(
                old(self).counters(),
                stale(old(self)@, key@, now),
            ),
            state == Ok::<TtlState, StoreError>(time_left(old(self)@, key@, now)),
    {
        let index: usize = self.shard_index(key);
        match self.shards[index].get(key) {
            None => return Ok(TtlState::Missing),
            Some(entry) => {
                if !entry.is_expired_at(now) {
                    return Ok(
                        match entry.expires_at() {
                            Some(expires_at) => match expires_at.duration_since(now) {
                                Some(left) => TtlState::ExpiresIn(left),
                                None => TtlState::ExpiresIn(Duration::from_secs(0)),
                            },
                            None => TtlState::Persistent,
                        },
                    );
                }
            },
        }
        if self.remove_if_expired(key, now) {
            self.metrics.expired(1);
        }
        Ok(TtlState::Missing)
    }

    /// Says how long a value has left.
    pub fn ttl(&mut self, key: &[u8]) -> (state: Result<TtlState, StoreError>)
        requires
            old(self).valid(),
        ensures
            final(self).valid(),
            final(self).spec_shard_count() == old(self).spec_shard_count(),
            exists|now: Timestamp|
                {
                    &&& final(self)@ == refreshed(old(self)@, key@, now)
                    &&& final(self).counters() == count_stale(
                        old(self).counters(),
                        stale(old(self)@, key@, now),
                    )
                    &&& state == Ok::<TtlState, StoreError>(
                        #[trigger] time_left(old(self)@, key@, now),
                    )
                },
    {
        self.ttl_at(key, Timestamp::now())
    }

    /// Drops the entry under `key` if it has expired at `now`, and says whether it did.
    fn remove_if_expired(&mut self, key: &[u8], now: Timestamp) -> (removed: bool)
        requires
            old(self).valid(),
        ensures
            final(self).valid(),
            final(self).spec_shard_count() == old(self).spec_shard_count(),
            final(self).counters() == old(self).counters(),
            final(self)@ == refreshed(old(self)@, key@, now),
            removed == stale(old(self)@, key@, now),
    {
        let index: usize = self.shard_index(key);
        let expired: bool = match self.shards[index].get(key) {
            Some(entry) => entry.is_expired_at(now),
            None => false,
        };
        if expired {
            let ghost before = self.shards@;
            let _ = self.shards[index].remove(key);
            proof {
                lemma_one_shard(before, self.shards@, index as int, key@);
                assert(self@ =~= old(self)@.remove(key@));
            }
        }
        expired
    }

    /// Drops every entry that has expired at `now`, and says how many there were.
    pub fn purge_expired_at(&mut self, now: Timestamp) -> (removed: Result<u64, StoreError>)
        requires
            old(self).valid(),
        ensures
            final(self).valid(),
            final(self).spec_shard_count() == old(self).spec_shard_count(),
            final(self)@ == live(old(self)@, now),
            old(self)@.dom().finite(),
            final(self)@.dom().finite(),
            removed == Ok::<u64, StoreError>(
                saturated(old(self)@.dom().len() - final(self)@.dom().len()),
            ),
            final(self).counters() == (MetricsSnapshot {
                expired_keys_total: old(self).counters().expired_keys_total.wrapping_add(
                    removed->Ok_0,
                ),
                ..old(self).counters()
            }),
    {
        let ghost before = self.shards@;
        let count: usize = self.shards.len();
        let mut removed: u64 = 0;
        proof {
            assert(before.take(0) =~= seq![]);
        }
        for index in 0..count
            invariant
                placed(before),
                count == before.len(),
                self.shards@.len() == count,
                self.metrics == old(self).metrics,
                forall|i: int|
                    0 <= i < index ==> (#[trigger] self.shards@[i]).valid() && self.shards@[i]@
                        == live(before[i]@, now) && self.shards@[i]@.dom().finite()
                        && before[i]@.dom().finite(),
                forall|i: int| index <= i < count ==> #[trigger] self.shards@[i] == before[i],
                total(self.shards@.take(index as int)) <= total(before.take(index as int)),
                removed == saturated(
                    total(before.take(index as int)) - total(self.shards@.take(index as int)),
                ),
        {
            let ghost middle = self.shards@;
            assert(middle[index as int] == before[index as int]);
            assert(before[index as int].valid());
            let dropped: usize = self.shards[index].purge(now);
            removed = removed.saturating_add(dropped as u64);
            proof {
                let after = self.shards@;
                assert(before.take(index + 1).drop_last() =~= before.take(index as int));
                assert(after.take(index + 1).drop_last() =~= after.take(index as int));
                assert(after.take(index as int) =~= middle.take(index as int));
            }
        }
        proof {
            let after = self.shards@;
            assert(before.take(count as int) =~= before);
            assert(after.take(count as int) =~= after);
            assert forall|i: int, key: Seq<u8>|
                0 <= i < after.len() && #[trigger] after[i]@.dom().contains(key) implies shard_of(
                key,
                after.len(),
            ) == i by {
                assert(after[i]@ == live(before[i]@, now));
                assert(before[i]@.dom().contains(key));
            }
            assert(placed(after));
            lemma_part_size(before, count as int);
            lemma_part_size(after, count as int);
            assert forall|key: Seq<u8>| true implies {
                &&& #[trigger] self@.dom().contains(key) <==> live(old(self)@, now).dom().contains(
                    key,
                )
                &&& self@.dom().contains(key) ==> self@[key] == live(old(self)@, now)[key]
            } by {
                lemma_shard_of(key, after.len());
                let i = shard_of(key, after.len());
                assert(after[i]@ == live(before[i]@, now));
            }
            assert(self@ =~= live(old(self)@, now));
        }
        if removed > 0 {
            self.metrics.expired(removed);
        }
        Ok(removed)
    }

    /// Drops every entry that has expired, and says how many there were.
    pub fn purge_expired(&mut self) -> (removed: Result<u64, StoreError>)
        requires
            old(self).valid(),
        ensures
            final(self).valid(),
            final(self).spec_shard_count() == old(self).spec_shard_count(),
            exists|now: Timestamp| final(self)@ == #[trigger] live(old(self)@, now),
            old(self)@.dom().finite(),
            final(self)@.dom().finite(),
            removed == Ok::<u64, StoreError>(
                saturated(old(self)@.dom().len() - final(self)@.dom().len()),
            ),
            final(self).counters() == (MetricsSnapshot {
                expired_keys_total: old(self).counters().expired_keys_total.wrapping_add(
                    removed->Ok_0,
                ),
                ..old(self).counters()
            }),
    {
        self.purge_expired_at(Timestamp::now())
    }

    /// Drops every entry that has expired at `now`, and counts those that are left.
    pub fn len_at(&mut self, now: Timestamp) -> (length: Result<usize, StoreError>)
        requires
            old(self).valid(),
        ensures
            final(self).valid(),
            final(self).spec_shard_count() == old(self).spec_shard_count(),
            final(self)@ == live(old(self)@, now),
            old(self)@.dom().finite(),
            final(self)@.dom().finite(),
            length == counted(final(self)@.dom().len()),
            final(self).counters() == (MetricsSnapshot {
                expired_keys_total: old(self).counters().expired_keys_total.wrapping_add(
                    saturated(old(self)@.dom().len() - final(self)@.dom().len()),
                ),
                ..old(self).counters()
            }),
    {
        match self.purge_expired_at(now) {
            Ok(_) => self.count_entries(),
            Err(error) => Err(error),
        }
    }

    /// The number of entries, expired or not.
    fn count_entries(&self) -> (length: Result<usize, StoreError>)
        requires
            self.valid(),
        ensures
            length == counted(self@.dom().len()),
    {
        let mut length: usize = 0;
        assert(self.shards@.take(0) =~= seq![]);
        proof {
            lemma_part_size(self.shards@, self.shards@.len() as int);
            assert(self.shards@.take(self.shards@.len() as int) =~= self.shards@);
        }
        for index in 0..self.shards.len()
            invariant
                self.valid(),
                self@.dom().len() == total(self.shards@),
                length == total(self.shards@.take(index as int)),
        {
            proof {
                let part = self.shards@.take(index + 1);
                assert(part.drop_last() =~= self.shards@.take(index as int));
                lemma_total_grows(self.shards@, index + 1);
                assert(self.shards@[index as int].valid());
            }
            length = match length.checked_add(self.shards[index].len()) {
                Some(length) => length,
                None => return Err(StoreError::CapacityOverflow),
            };
        }
        Ok(length)
    }

    /// The number of entries that have not expired.
    pub fn len(&mut self) -> (length: Result<usize, StoreError>)
        requires
            old(self).valid(),
        ensures
            final(self).valid(),
            final(self).spec_shard_count() == old(self).spec_shard_count(),
            exists|now: Timestamp| final(self)@ == #[trigger] live(old(self)@, now),
            old(self)@.dom().finite(),
            final(self)@.dom().finite(),
            length == counted(final(self)@.dom().len()),
            final(self).counters() == (MetricsSnapshot {
                expired_keys_total: old(self).counters().expired_keys_total.wrapping_add(
                    saturated(old(self)@.dom().len() - final(self)@.dom().len()),
                ),
                ..old(self).counters()
            }),
    {
        self.len_at(Timestamp::now())
    }

    /// Whether no entry is left that has not expired at `now`.
    pub fn is_empty_at(&mut self, now: Timestamp) -> (empty: Result<bool, StoreError>)
        requires
            old(self).valid(),
        ensures
            final(self).valid(),
            final(self).spec_shard_count() == old(self).spec_shard_count(),
            final(self)@ == live(old(self)@, now),
            old(self)@.dom().finite(),
            final(self)@.dom().finite(),
            empty == (match counted(final(self)@.dom().len()) {
                Ok(length) => Ok(length == 0),
                Err(error) => Err(error),
            }),
            final(self).counters() == (MetricsSnapshot {
                expired_keys_total: old(self).counters().expired_keys_total.wrapping_add(
                    saturated(old(self)@.dom().len() - final(self)@.dom().len()),
                ),
                ..old(self).counters()
            }),
    {
        match self.len_at(now) {
            Ok(length) => Ok(length == 0),
            Err(error) => Err(error),
        }
    }

    /// Whether no entry is left that has not expired.
    pub fn is_empty(&mut self) -> (empty: Result<bool, StoreError>)
        requires
            old(self).valid(),
        ensures
            final(self).valid(),
            final(self).spec_shard_count() == old(self).spec_shard_count(),
            exists|now: Timestamp| final(self)@ == #[trigger] live(old(self)@, now),
            old(self)@.dom().finite(),
            final(self)@.dom().finite(),
            empty == (match counted(final(self)@.dom().len()) {
                Ok(length) => Ok(length == 0),
                Err(error) => Err(error),
            }),
            final(self).counters() == (MetricsSnapshot {
                expired_keys_total: old(self).counters().expired_keys_total.wrapping_add(
                    saturated(old(self)@.dom().len() - final(self)@.dom().len()),
                ),
                ..old(self).counters()
            }),
    {
        self.is_empty_at(Timestamp::now())
    }

    /// The entries that have not expired at `now`, each once.
    pub fn snapshot_entries_at(&self, now: Timestamp) -> (entries: Result<
        Vec<SnapshotEntry>,
        StoreError,
    >)
        requires
            self.valid(),
        ensures
            entries is Ok,
            distinct_keys(entry_list(entries->Ok_0@)),
            entries_map(entry_list(entries->Ok_0@)) == live(self@, now),
    {
        let mut snapshot: Vec<SnapshotEntry> = Vec::new();
        proof {
            assert(entry_list(snapshot@) =~= seq![]);
            assert forall|key: Seq<u8>| !#[trigger] part(self.shards@, 0).dom().contains(key) by {
                lemma_shard_of(key, self.shards@.len());
            }
            assert(live(part(self.shards@, 0), now) =~= Map::empty());
        }
        for index in 0..self.shards.len()
            invariant
                self.valid(),
                distinct_keys(entry_list(snapshot@)),
                entries_map(entry_list(snapshot@)) == live(part(self.shards@, index as int), now),
        {
            let ghost before = snapshot@;
            assert(self.shards@[index as int].valid());
            self.shards[index].collect(now, &mut snapshot);
            proof {
                let first = entry_list(before);
                let whole = entry_list(snapshot@);
                let added = whole.skip(before.len() as int);
                assert(first =~= entry_list(snapshot@.take(before.len() as int)));
                assert(whole =~= first + added);
                lemma_collected(self.shards@, index as int, first, added, now);
            }
        }
        Ok(snapshot)
    }

    /// The entries that have not expired, each once.
    pub fn snapshot_entries(&self) -> (entries: Result<Vec<SnapshotEntry>, StoreError>)
        requires
            self.valid(),
        ensures
            entries is Ok,
            distinct_keys(entry_list(entries->Ok_0@)),
            exists|now: Timestamp|
                entries_map(entry_list(entries->Ok_0@)) == #[trigger] live(self@, now),
    {
        self.snapshot_entries_at(Timestamp::now())
    }

    /// Puts `entries` in place of everything that is stored. The last entry under a key counts.
    pub fn replace_all(&mut self, entries: Vec<SnapshotEntry>) -> (done: Result<(), StoreError>)
        requires
            old(self).valid(),
        ensures
            done == Ok::<(), StoreError>(()),
            final(self).valid(),
            final(self).spec_shard_count() == old(self).spec_shard_count(),
            final(self).counters() == old(self).counters(),
            final(self)@ == entries_map(entry_list(entries@)),
    {
        let count: usize = self.shards.len();
        for index in 0..count
            invariant
                self.shards@.len() == count,
                count > 0,
                count == old(self).shards@.len(),
                self.metrics == old(self).metrics,
                forall|i: int|
                    0 <= i < index ==> (#[trigger] self.shards@[i]).valid() && self.shards@[i]@
                        == Map::<Seq<u8>, EntryView>::empty(),
        {
            self.shards[index].clear();
        }
        let ghost list = entry_list(entries@);
        proof {
            assert forall|key: Seq<u8>| !#[trigger] self@.dom().contains(key) by {
                lemma_shard_of(key, self.shards@.len());
            }
            assert(self@ =~= Map::empty());
            assert(list.take(0) =~= seq![]);
        }
        for index in 0..entries.len()
            invariant
                self.valid(),
                list == entry_list(entries@),
                self.spec_shard_count() == old(self).spec_shard_count(),
                self.counters() == old(self).counters(),
                self@ == entries_map(list.take(index as int)),
        {
            let entry: &SnapshotEntry = &entries[index];
            assert(list.take(index + 1).drop_last() =~= list.take(index as int));
            assert(list[index as int] == entry@);
            let _ = self.set_with_expiry(
                entry.key.clone(),
                entry.value.clone(),
                entry.expires_at,
            );
        }
        assert(list.take(entries@.len() as int) =~= list);
        Ok(())
    }
}

/// A count of entries, where it fits.
pub open spec fn counted(length: nat) -> Result<usize, StoreError> {
    if length <= usize::MAX {
        Ok(length as usize)
    } else {
        Err(StoreError::CapacityOverflow)
    }
}

/// The number of entries of shards together.
spec fn total(shards: Seq<Shard>) -> nat
    decreases shards.len(),
{
    if shards.len() == 0 {
        0
    } else {
        total(shards.drop_last()) + shards.last()@.dom().len()
    }
}

proof fn lemma_total_grows(shards: Seq<Shard>, bound: int)
    requires
        0 <= bound <= shards.len(),
    ensures
        total(shards.take(bound)) <= total(shards),
    decreases shards.len() - bound,
{
    if bound < shards.len() {
        lemma_total_grows(shards, bound + 1);
        assert(shards.take(bound + 1).drop_last() =~= shards.take(bound));
    } else {
        assert(shards.take(bound) =~= shards);
    }
}

proof fn lemma_part_step(shards: Seq<Shard>, bound: int)
    requires
        placed(shards),
        0 <= bound < shards.len(),
    ensures
        part(shards, bound + 1) == part(shards, bound).union_prefer_right(shards[bound]@),
        part(shards, bound).dom().disjoint(shards[bound]@.dom()),
{
    let (left, right) = (
        part(shards, bound + 1),
        part(shards, bound).union_prefer_right(shards[bound]@),
    );
    assert forall|key: Seq<u8>| true implies {
        &&& #[trigger] left.dom().contains(key) <==> right.dom().contains(key)
        &&& left.dom().contains(key) ==> left[key] == right[key]
    } by {
        lemma_shard_of(key, shards.len());
        if shards[bound]@.dom().contains(key) {
            assert(shard_of(key, shards.len()) == bound);
        }
    }
    assert(left =~= right);
    assert forall|key: Seq<u8>| #[trigger] shards[bound]@.dom().contains(key) implies !part(
        shards,
        bound,
    ).dom().contains(key) by {
        assert(shard_of(key, shards.len()) == bound);
    }
}

proof fn lemma_part_size(shards: Seq<Shard>, bound: int)
    requires
        placed(shards),
        0 <= bound <= shards.len(),
    ensures
        part(shards, bound).dom().finite(),
        part(shards, bound).dom().len() == total(shards.take(bound)),
    decreases bound,
{
    if bound == 0 {
        assert forall|key: Seq<u8>| !#[trigger] part(shards, 0).dom().contains(key) by {
            lemma_shard_of(key, shards.len());
        }
        assert(part(shards, 0).dom() =~= Set::empty());
        assert(shards.take(0) =~= seq![]);
    } else {
        lemma_part_size(shards, bound - 1);
        lemma_part_step(shards, bound - 1);
        shards[bound - 1].lemma_finite();
        let (first, second) = (part(shards, bound - 1).dom(), shards[bound - 1]@.dom());
        assert(shards.take(bound).drop_last() =~= shards.take(bound - 1));
        assert(part(shards, bound).dom() =~= first.union(second));
        vstd::set_lib::lemma_set_disjoint_lens(first, second);
    }
}

proof fn lemma_collected(
    shards: Seq<Shard>,
    index: int,
    first: Seq<SnapshotEntryView>,
    added: Seq<SnapshotEntryView>,
    now: Timestamp,
)
    requires
        placed(shards),
        0 <= index < shards.len(),
        distinct_keys(first),
        distinct_keys(added),
        entries_map(first) == live(part(shards, index), now),
        entries_map(added) == live(shards[index]@, now),
    ensures
        distinct_keys(first + added),
        entries_map(first + added) == live(part(shards, index + 1), now),
{
    lemma_part_step(shards, index);
    crate::store::entry::lemma_entries_map_concat(first, added);
    assert(entries_map(first + added) =~= live(part(shards, index + 1), now));
    let whole = first + added;
    assert forall|i: int, j: int|
        #![trigger whole[i], whole[j]]
        0 <= i < j < whole.len() implies whole[i].key != whole[j].key by {
        if j < first.len() {
            assert(first[i].key != first[j].key);
        } else if i >= first.len() {
            assert(added[i - first.len()].key != added[j - first.len()].key);
        } else {
            let key = whole[i].key;
            let late = whole[j].key;
            crate::store::entry::lemma_entries_map_keys(first, key);
            crate::store::entry::lemma_entries_map_keys(added, late);
            assert(first[i].key == key);
            assert(added[j - first.len()].key == late);
            assert(entries_map(first).dom().contains(key));
            assert(entries_map(added).dom().contains(late));
            assert(part(shards, index).dom().contains(key));
            assert(shards[index]@.dom().contains(late));
        }
    }
}

/// When a value expires that is written at `now`.
pub open spec fn expiry(ttl: Duration, now: Timestamp) -> Result<Timestamp, StoreError> {
    if ttl.nanos == 0 {
        Err(StoreError::InvalidTtl)
    } else if now.nanos + ttl.nanos > crate::time::MAX_TIMESTAMP_NANOS {
        Err(StoreError::InvalidExpiration)
    } else {
        Ok(Timestamp { nanos: (now.nanos + ttl.nanos) as i128 })
    }
}

proof fn lemma_shard_of(key: Seq<u8>, count: nat)
    requires
        count > 0,
    ensures
        0 <= shard_of(key, count) < count,
{
    vstd::arithmetic::div_mod::lemma_mod_bound(fnv1a_of(key) as int, count as int);
}

/// A change of one key in the shard that it falls to leaves the store in order.
proof fn lemma_one_shard(before: Seq<Shard>, after: Seq<Shard>, index: int, key: Seq<u8>)
    requires
        placed(before),
        0 <= index < before.len(),
        index == shard_of(key, before.len()),
        after.len() == before.len(),
        forall|i: int| 0 <= i < before.len() && i != index ==> #[trigger] after[i] == before[i],
        after[index].valid(),
        forall|other: Seq<u8>|
            #![trigger after[index]@.dom().contains(other)]
            other != key ==> after[index]@.dom().contains(other)
                == before[index]@.dom().contains(other) && after[index]@[other]
                == before[index]@[other],
    ensures
        placed(after),
{
    assert forall|i: int, other: Seq<u8>|
        0 <= i < after.len() && #[trigger] after[i]@.dom().contains(other) implies shard_of(
        other,
        after.len(),
    ) == i by {
        if i != index {
            assert(after[i] == before[i]);
            assert(before[i]@.dom().contains(other));
        } else if other != key {
            assert(before[index]@.dom().contains(other));
        }
    }
    assert forall|i: int| 0 <= i < after.len() implies (#[trigger] after[i]).valid() by {
        if i != index {
            assert(after[i] == before[i]);
            assert(before[i].valid());
        }
    }
}

} // verus!
