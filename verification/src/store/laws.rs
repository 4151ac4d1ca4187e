//! What holds of the store as a whole.

use vstd::prelude::*;

use crate::error::StoreError;
use crate::metrics::MetricsSnapshot;
use crate::hash::fnv1a_of;
use crate::store::entry::{entries_map, live, EntryView, SnapshotEntryView};
use crate::store::sharded::{
    count_lookup, count_stale, counted, expiry, found, kept_for_good, refreshed, saturated,
    shard_of, stale, time_left, TtlState,
};
use crate::time::{Duration, Timestamp};

verus! {

/// A value that was written is read back, at every instant at which it has not expired, and at no
/// other. Other keys read as before.
pub proof fn law_read_after_write(
    map: Map<Seq<u8>, EntryView>,
    key: Seq<u8>,
    entry: EntryView,
    other: Seq<u8>,
    now: Timestamp,
)
    ensures
        found(map.insert(key, entry), key, now) == (if entry.expired(now) {
            None
        } else {
            Some(entry)
        }),
        other != key ==> found(map.insert(key, entry), other, now) == found(map, other, now),
        other != key ==> time_left(map.insert(key, entry), other, now) == time_left(
            map,
            other,
            now,
        ),
{
}

/// After a key was removed it reads as missing. Other keys read as before.
pub proof fn law_read_after_delete(
    map: Map<Seq<u8>, EntryView>,
    key: Seq<u8>,
    other: Seq<u8>,
    now: Timestamp,
)
    ensures
        found(map.remove(key), key, now) is None,
        time_left(map.remove(key), key, now) == TtlState::Missing,
        other != key ==> found(map.remove(key), other, now) == found(map, other, now),
        other != key ==> time_left(map.remove(key), other, now) == time_left(map, other, now),
{
}

/// A value whose time is up does not come back.
pub proof fn law_expiration_is_final(
    map: Map<Seq<u8>, EntryView>,
    key: Seq<u8>,
    now: Timestamp,
    later: Timestamp,
)
    requires
        now.nanos <= later.nanos,
    ensures
        found(map, key, now) is None ==> found(map, key, later) is None,
        found(map, key, later) is Some ==> found(map, key, now) == found(map, key, later),
{
}

/// Whether expired entries are dropped early, late or one by one cannot be seen: from then on
/// every key reads as if nothing had been dropped.
pub proof fn law_purging_is_invisible(
    map: Map<Seq<u8>, EntryView>,
    dropped: Seq<u8>,
    key: Seq<u8>,
    now: Timestamp,
    later: Timestamp,
)
    requires
        now.nanos <= later.nanos,
    ensures
        found(live(map, now), key, later) == found(map, key, later),
        time_left(live(map, now), key, later) == time_left(map, key, later),
        live(live(map, now), later) == live(map, later),
        found(refreshed(map, dropped, now), key, later) == found(map, key, later),
        time_left(refreshed(map, dropped, now), key, later) == time_left(map, key, later),
        live(refreshed(map, dropped, now), later) == live(map, later),
{
    assert(live(live(map, now), later) =~= live(map, later));
    assert(live(refreshed(map, dropped, now), later) =~= live(map, later));
}

/// Dropping expired entries twice is dropping them once.
pub proof fn law_purging_is_idempotent(map: Map<Seq<u8>, EntryView>, key: Seq<u8>, now: Timestamp)
    ensures
        live(live(map, now), now) == live(map, now),
        refreshed(refreshed(map, key, now), key, now) == refreshed(map, key, now),
        !stale(refreshed(map, key, now), key, now),
{
    assert(live(live(map, now), now) =~= live(map, now));
}

/// A value that is there and is kept for good reads the same at every later instant, and a value
/// that is not there stays away.
pub proof fn law_persist_keeps_the_value(
    map: Map<Seq<u8>, EntryView>,
    key: Seq<u8>,
    other: Seq<u8>,
    now: Timestamp,
    later: Timestamp,
)
    requires
        now.nanos <= later.nanos,
    ensures
        match found(map, key, now) {
            Some(entry) => {
                &&& found(kept_for_good(map, key, now), key, later) == Some(
                    EntryView { value: entry.value, expires_at: None },
                )
                &&& time_left(kept_for_good(map, key, now), key, later) == TtlState::Persistent
            },
            None => found(kept_for_good(map, key, now), key, later) is None,
        },
        other != key ==> found(kept_for_good(map, key, now), other, later) == found(
            map,
            other,
            later,
        ),
        kept_for_good(kept_for_good(map, key, now), key, later) == kept_for_good(map, key, now),
{
    assert(kept_for_good(kept_for_good(map, key, now), key, later) =~= kept_for_good(
        map,
        key,
        now,
    ));
}

/// A value that was written with a time to live has that time left, loses it second by second,
/// and is gone when it is over.
pub proof fn law_time_to_live(
    map: Map<Seq<u8>, EntryView>,
    key: Seq<u8>,
    value: Seq<u8>,
    ttl: Duration,
    now: Timestamp,
    later: Timestamp,
)
    requires
        expiry(ttl, now) is Ok,
        now.nanos <= later.nanos,
    ensures
        ({
            let entry = EntryView { value, expires_at: Some(expiry(ttl, now)->Ok_0) };
            let after = map.insert(key, entry);
            &&& time_left(after, key, now) == TtlState::ExpiresIn(ttl)
            &&& later.nanos - now.nanos < ttl.nanos ==> found(after, key, later) == Some(entry)
                && time_left(after, key, later) == TtlState::ExpiresIn(
                Duration { nanos: (ttl.nanos - (later.nanos - now.nanos)) as u128 },
            )
            &&& later.nanos - now.nanos >= ttl.nanos ==> found(after, key, later) is None
                && time_left(after, key, later) == TtlState::Missing
        }),
{
}

/// Every lookup is a hit or a miss: where the hits and misses added up to the lookups before one,
/// they do after it.
pub proof fn law_lookups_are_hits_or_misses(counters: MetricsSnapshot, hit: bool, dropped: bool)
    requires
        counters.hits_total.wrapping_add(counters.misses_total) == counters.gets_total,
    ensures
        ({
            let after = count_lookup(counters, hit, dropped);
            after.hits_total.wrapping_add(after.misses_total) == after.gets_total
        }),
{
}

/// Whether a key is there at an instant: it was written, and its time, if it has one, is not up.
pub open spec fn present(data: Map<Seq<u8>, EntryView>, key: Seq<u8>, now: Timestamp) -> bool {
    data.dom().contains(key) && match data[key].expires_at {
        None => true,
        Some(instant) => now.nanos < instant.nanos,
    }
}

/// A lookup finds the entry that is under the key as long as its time is not up, and nothing from
/// then on. An entry whose time is up is dropped by the lookup, and nothing else is.
pub proof fn law_lookups_find_what_is_present(
    map: Map<Seq<u8>, EntryView>,
    key: Seq<u8>,
    other: Seq<u8>,
    now: Timestamp,
)
    ensures
        present(map, key, now) ==> found(map, key, now) == Some(map[key]),
        !present(map, key, now) ==> found(map, key, now) is None,
        stale(map, key, now) == (map.dom().contains(key) && !present(map, key, now)),
        refreshed(map, key, now).dom().contains(other) <==> map.dom().contains(other) && (other
            == key ==> present(map, key, now)),
        refreshed(map, key, now).dom().contains(other) ==> refreshed(map, key, now)[other]
            == map[other],
        live(map, now).dom().contains(other) <==> present(map, other, now),
        live(map, now).dom().contains(other) ==> live(map, now)[other] == map[other],
{
}

/// The time that a key has left is the time from the instant of the question to the instant at
/// which the key is gone. A key that does not expire and a key that is not there have none.
pub proof fn law_time_left_runs_to_the_expiration(
    map: Map<Seq<u8>, EntryView>,
    key: Seq<u8>,
    now: Timestamp,
)
    ensures
        !present(map, key, now) <==> time_left(map, key, now) == TtlState::Missing,
        present(map, key, now) && map[key].expires_at is None <==> time_left(map, key, now)
            == TtlState::Persistent,
        present(map, key, now) && map[key].expires_at is Some ==> (time_left(
            map,
            key,
            now,
        ) matches TtlState::ExpiresIn(left) && now.nanos + left.nanos
            == map[key].expires_at->0.nanos),
{
}

/// Keeping a key for good touches that key alone: a value that is there stays without its
/// expiration, and an entry whose time is up goes.
pub proof fn law_kept_for_good_in_place(
    map: Map<Seq<u8>, EntryView>,
    key: Seq<u8>,
    other: Seq<u8>,
    now: Timestamp,
)
    ensures
        ({
            let after = kept_for_good(map, key, now);
            &&& after.dom().contains(other) <==> map.dom().contains(other) && (other == key
                ==> present(map, key, now))
            &&& after.dom().contains(other) ==> after[other].value == map[other].value
            &&& after.dom().contains(other) && other == key ==> after[other].expires_at is None
            &&& after.dom().contains(other) && other != key ==> after[other] == map[other]
        }),
{
}

/// A time to live ends exactly that much later. There is none of no length, and none that ends
/// beyond the last instant.
pub proof fn law_times_to_live_are_added(ttl: Duration, now: Timestamp)
    ensures
        expiry(ttl, now) is Ok <==> 0 < ttl.nanos && now.nanos + ttl.nanos
            <= 9_223_372_036_854_775_807_999_999_999,
        expiry(ttl, now) is Ok ==> expiry(ttl, now)->Ok_0.nanos == now.nanos + ttl.nanos,
        ttl.nanos == 0 ==> expiry(ttl, now) == Err::<Timestamp, StoreError>(StoreError::InvalidTtl),
        ttl.nanos > 0 && expiry(ttl, now) is Err ==> expiry(ttl, now)->Err_0
            == StoreError::InvalidExpiration,
{
}

/// A lookup counts as one read, which is a hit or a miss, and counts the entry that it dropped.
/// All other counters stay.
pub proof fn law_lookups_are_counted_once(counters: MetricsSnapshot, hit: bool, dropped: bool)
    ensures
        ({
            let after = count_lookup(counters, hit, dropped);
            let one = |flag: bool| if flag { 1u64 } else { 0u64 };
            &&& after.gets_total == counters.gets_total.wrapping_add(1)
            &&& after.hits_total == counters.hits_total.wrapping_add(one(hit))
            &&& after.misses_total == counters.misses_total.wrapping_add(one(!hit))
            &&& after.expired_keys_total == counters.expired_keys_total.wrapping_add(one(dropped))
            &&& after == (MetricsSnapshot {
                gets_total: after.gets_total,
                hits_total: after.hits_total,
                misses_total: after.misses_total,
                expired_keys_total: after.expired_keys_total,
                ..counters
            })
            &&& count_stale(counters, dropped) == (MetricsSnapshot {
                expired_keys_total: counters.expired_keys_total.wrapping_add(one(dropped)),
                ..counters
            })
        }),
{
}

/// Entries are found under their own keys, with their values and expirations. Of two under one key
/// the later one counts.
pub proof fn law_entries_are_found_by_key(
    list: Seq<SnapshotEntryView>,
    entry: SnapshotEntryView,
    key: Seq<u8>,
)
    ensures
        !entries_map(seq![]).dom().contains(key),
        ({
            let (before, after) = (entries_map(list), entries_map(list.push(entry)));
            if key == entry.key {
                &&& after.dom().contains(key)
                &&& after[key].value == entry.value && after[key].expires_at == entry.expires_at
            } else {
                &&& after.dom().contains(key) <==> before.dom().contains(key)
                &&& before.dom().contains(key) ==> after[key] == before[key]
            }
        }),
{
    assert(list.push(entry).drop_last() =~= list);
}

/// Each key falls to one of the shards, by what its hash leaves when divided by their number.
pub proof fn law_keys_fall_to_one_shard(key: Seq<u8>, count: nat, rounds: int)
    requires
        count > 0,
    ensures
        0 <= shard_of(key, count) < count,
        (fnv1a_of(key) - shard_of(key, count)) % count as int == 0,
        0 <= fnv1a_of(key) - rounds * count < count ==> shard_of(key, count) == fnv1a_of(key)
            - rounds * count,
{
    let hash = fnv1a_of(key) as int;
    let size = count as int;
    vstd::arithmetic::div_mod::lemma_mod_bound(hash, size);
    vstd::arithmetic::div_mod::lemma_fundamental_div_mod(hash, size);
    vstd::arithmetic::div_mod::lemma_mod_multiples_basic(hash / size, size);
    assert(hash - hash % size == (hash / size) * size) by (nonlinear_arith)
        requires
            hash == size * (hash / size) + hash % size,
    ;
    if 0 <= hash - rounds * count < count {
        vstd::arithmetic::div_mod::lemma_fundamental_div_mod_converse(
            hash,
            size,
            rounds,
            hash - rounds * count,
        );
    }
}

/// Counts are exact as long as they can be, and stop at the end of their range.
pub proof fn law_counts_stop_at_their_end(number: nat)
    ensures
        number <= u64::MAX ==> saturated(number as int) == number,
        number > u64::MAX ==> saturated(number as int) == u64::MAX,
        number <= usize::MAX ==> counted(number) == Ok::<usize, StoreError>(number as usize),
        number > usize::MAX ==> counted(number) == Err::<usize, StoreError>(
            StoreError::CapacityOverflow,
        ),
{
}

} // verus!
