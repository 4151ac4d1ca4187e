//! Snapshots: all entries at one moment, each with a checksum.

use vstd::prelude::*;
use vstd::slice::slice_subrange;

use crate::buffer::{as_slice, from_slice};
use crate::checksum::{checksum, crc32, law_changed_bytes_change_the_checksum};
use crate::error::PersistenceError;
use crate::persistence::record::{
    instant_of, millis_of, ms_to_system_time, system_time_to_ms, NO_EXPIRATION,
};
use crate::protocol::frame::ProtocolLimits;
use crate::store::entry::{entries_map, entry_list, SnapshotEntry, SnapshotEntryView};
use crate::store::sharded::ShardedStore;
use crate::time::Timestamp;
use crate::wire::{
    be32, be64, put_bytes, put_u32, put_u64, same_bytes, u32_at, u64_at, un32, un64,
};

verus! {

/// The bytes that a snapshot starts with.
pub const SNAPSHOT_MAGIC: [u8; 4] = [0x46, 0x4b, 0x56, 0x53];

/// The version of the snapshot format.
pub const SNAPSHOT_VERSION: u8 = 1;

/// The bytes of a snapshot before its first entry.
pub const SNAPSHOT_HEADER_SIZE: usize = 16;

/// The bytes of an entry before its key.
pub const ENTRY_FIXED_SIZE: usize = 16;

/// What a snapshot gave.
#[derive(Clone, Copy, Debug, PartialEq, Eq, Structural)]
pub struct SnapshotReport {
    pub entries_loaded: u64,
    pub expired_entries_skipped: u64,
}

impl Default for SnapshotReport {
    fn default() -> (report: Self)
        ensures
            report.entries_loaded == 0,
            report.expired_entries_skipped == 0,
    {
        Self { entries_loaded: 0, expired_entries_skipped: 0 }
    }
}

/// The expiration of an entry as it is written.
pub open spec fn written_expiration(entry: SnapshotEntryView) -> u64 {
    match entry.expires_at {
        None => NO_EXPIRATION,
        Some(instant) => millis_of(instant)->Ok_0,
    }
}

/// Why an entry cannot be written, if it cannot.
pub open spec fn entry_problem(entry: SnapshotEntryView) -> Option<PersistenceError> {
    if entry.key.len() == 0 || entry.key.len() > u32::MAX || entry.value.len() > u32::MAX {
        Some(PersistenceError::InvalidRecordLength)
    } else {
        match entry.expires_at {
            None => None,
            Some(instant) => match millis_of(instant) {
                Ok(_) => None,
                Err(error) => Some(error),
            },
        }
    }
}

/// The bytes of an entry that its checksum covers.
pub open spec fn entry_body(entry: SnapshotEntryView) -> Seq<u8> {
    be64(written_expiration(entry)) + be32(entry.key.len() as u32) + be32(entry.value.len() as u32)
        + entry.key + entry.value
}

/// The bytes of an entry.
pub open spec fn entry_bytes(entry: SnapshotEntryView) -> Seq<u8> {
    entry_body(entry) + be32(crc32(entry_body(entry)))
}

/// The bytes of entries, one after another.
pub open spec fn entries_bytes(list: Seq<SnapshotEntryView>) -> Seq<u8>
    decreases list.len(),
{
    if list.len() == 0 {
        seq![]
    } else {
        entries_bytes(list.drop_last()) + entry_bytes(list.last())
    }
}

/// The bytes of a snapshot before its first entry.
pub open spec fn header_bytes(count: u64) -> Seq<u8> {
    SNAPSHOT_MAGIC@ + seq![SNAPSHOT_VERSION, 0u8, 0u8, 0u8] + be64(count)
}

/// The bytes of a snapshot.
pub open spec fn snapshot_bytes(list: Seq<SnapshotEntryView>) -> Seq<u8> {
    header_bytes(list.len() as u64) + entries_bytes(list)
}

/// Why entries cannot be written, if they cannot: what is wrong with the first bad one.
pub open spec fn list_problem(list: Seq<SnapshotEntryView>) -> Option<PersistenceError>
    decreases list.len(),
{
    if list.len() == 0 {
        None
    } else {
        match list_problem(list.drop_last()) {
            Some(error) => Some(error),
            None => entry_problem(list.last()),
        }
    }
}

proof fn lemma_problem_stays(list: Seq<SnapshotEntryView>, bound: int)
    requires
        0 <= bound <= list.len(),
        list_problem(list.take(bound)) is Some,
    ensures
        list_problem(list) == list_problem(list.take(bound)),
    decreases list.len() - bound,
{
    if bound < list.len() {
        assert(list.take(bound + 1).drop_last() =~= list.take(bound));
        lemma_problem_stays(list, bound + 1);
    } else {
        assert(list.take(bound) =~= list);
    }
}

fn put_entry(output: &mut Vec<u8>, entry: &SnapshotEntry) -> (done: Result<(), PersistenceError>)
    ensures
        match done {
            Ok(_) => entry_problem(entry@) is None && final(output)@ == old(output)@ + entry_bytes(
                entry@,
            ),
            Err(error) => entry_problem(entry@) == Some(error),
        },
{
    let key: &[u8] = as_slice(&entry.key);
    let value: &[u8] = as_slice(&entry.value);
    if key.len() == 0 || key.len() > u32::MAX as usize || value.len() > u32::MAX as usize {
        return Err(PersistenceError::InvalidRecordLength);
    }
    let expiration: u64 = match entry.expires_at {
        None => NO_EXPIRATION,
        Some(instant) => match system_time_to_ms(instant) {
            Ok(millis) => millis,
            Err(error) => return Err(error),
        },
    };
    let mut body: Vec<u8> = Vec::new();
    put_u64(&mut body, expiration);
    put_u32(&mut body, key.len() as u32);
    put_u32(&mut body, value.len() as u32);
    put_bytes(&mut body, key);
    put_bytes(&mut body, value);
    assert(body@ =~= entry_body(entry@));
    let sum: u32 = checksum(body.as_slice());
    put_bytes(output, body.as_slice());
    put_u32(output, sum);
    assert(output@ =~= old(output)@ + entry_bytes(entry@));
    Ok(())
}

/// Writes entries as a snapshot.
pub fn encode_snapshot(entries: &[SnapshotEntry]) -> (encoded: Result<Vec<u8>, PersistenceError>)
    ensures
        match encoded {
            Ok(bytes) => list_problem(entry_list(entries@)) is None && bytes@ == snapshot_bytes(
                entry_list(entries@),
            ),
            Err(error) => list_problem(entry_list(entries@)) == Some(error),
        },
{
    let ghost list = entry_list(entries@);
    let mut output: Vec<u8> = Vec::new();
    put_bytes(&mut output, &SNAPSHOT_MAGIC);
    output.push(SNAPSHOT_VERSION);
    output.push(0);
    output.push(0);
    output.push(0);
    put_u64(&mut output, entries.len() as u64);
    proof {
        assert(list.take(0) =~= seq![]);
        assert(output@ =~= header_bytes(list.len() as u64) + entries_bytes(list.take(0)));
    }
    for index in 0..entries.len()
        invariant
            list == entry_list(entries@),
            list_problem(list.take(index as int)) is None,
            output@ == header_bytes(list.len() as u64) + entries_bytes(list.take(index as int)),
    {
        proof {
            let next = list.take(index + 1);
            assert(next.drop_last() =~= list.take(index as int));
            assert(next.last() == entries@[index as int]@);
        }
        let ghost before = output@;
        match put_entry(&mut output, &entries[index]) {
            Ok(_) => {
                assert(output@ =~= header_bytes(list.len() as u64) + entries_bytes(
                    list.take(index + 1),
                ));
            },
            Err(error) => {
                proof {
                    lemma_problem_stays(list, index + 1);
                }
                return Err(error);
            },
        }
    }
    assert(list.take(entries@.len() as int) =~= list);
    Ok(output)
}

/// The entry at `position`, and the position after it. `index` is its number in the snapshot, and
/// goes into the errors.
pub open spec fn entry_at(
    bytes: Seq<u8>,
    position: int,
    index: u64,
    limits: ProtocolLimits,
) -> Result<(SnapshotEntryView, int), PersistenceError> {
    let left = bytes.len() - position;
    let fixed = bytes.subrange(position, position + 16);
    let raw_expiration = un64(fixed.take(8));
    let key_length = un32(fixed.subrange(8, 12)) as int;
    let value_length = un32(fixed.subrange(12, 16)) as int;
    let key_end = position + 16 + key_length;
    let value_end = key_end + value_length;
    if left < 16 {
        Err(
            PersistenceError::SnapshotCorruption { entry: index, reason: "truncated entry header" },
        )
    } else if key_length == 0 || key_length > limits.max_key_size || value_length
        > limits.max_value_size {
        Err(
            PersistenceError::SnapshotCorruption {
                entry: index,
                reason: "entry length exceeds configured limits",
            },
        )
    } else if key_length + value_length + 4 > usize::MAX {
        Err(PersistenceError::SnapshotCorruption { entry: index, reason: "entry length overflow" })
    } else if left < 16 + key_length + value_length + 4 {
        Err(PersistenceError::SnapshotCorruption { entry: index, reason: "truncated entry body" })
    } else if crc32(bytes.subrange(position, value_end)) != un32(
        bytes.subrange(value_end, value_end + 4),
    ) {
        Err(PersistenceError::SnapshotCorruption { entry: index, reason: "checksum mismatch" })
    } else {
        Ok(
            (
                SnapshotEntryView {
                    key: bytes.subrange(position + 16, key_end),
                    value: bytes.subrange(key_end, value_end),
                    expires_at: if raw_expiration == NO_EXPIRATION {
                        None
                    } else {
                        Some(instant_of(raw_expiration))
                    },
                },
                value_end + 4,
            ),
        )
    }
}

fn read_entry(bytes: &[u8], position: usize, index: u64, limits: ProtocolLimits) -> (entry: Result<
    (SnapshotEntry, usize),
    PersistenceError,
>)
    requires
        position <= bytes@.len(),
    ensures
        match entry {
            Ok((entry, end)) => {
                &&& entry_at(bytes@, position as int, index, limits) == Ok::<
                    (SnapshotEntryView, int),
                    PersistenceError,
                >((entry@, end as int))
                &&& position < end <= bytes@.len()
            },
            Err(error) => entry_at(bytes@, position as int, index, limits) == Err::<
                (SnapshotEntryView, int),
                PersistenceError,
            >(error),
        },
{
    let length: usize = bytes.len();
    let left: usize = length - position;
    if left < ENTRY_FIXED_SIZE {
        return Err(snapshot_error(index, "truncated entry header"));
    }
    let fixed: &[u8] = slice_subrange(bytes, position, position + ENTRY_FIXED_SIZE);
    let raw_expiration: u64 = u64_at(fixed, 0);
    let key_length: usize = u32_at(fixed, 8) as usize;
    let value_length: usize = u32_at(fixed, 12) as usize;
    assert(fixed@.subrange(0, 8) =~= fixed@.take(8));
    if key_length == 0 || key_length > limits.max_key_size || value_length
        > limits.max_value_size {
        return Err(snapshot_error(index, "entry length exceeds configured limits"));
    }
    let variable_length: usize = match key_length.checked_add(value_length) {
        Some(partial) => match partial.checked_add(4) {
            Some(total) => total,
            None => return Err(snapshot_error(index, "entry length overflow")),
        },
        None => return Err(snapshot_error(index, "entry length overflow")),
    };
    if left - ENTRY_FIXED_SIZE < variable_length {
        return Err(snapshot_error(index, "truncated entry body"));
    }
    let key_start: usize = position + ENTRY_FIXED_SIZE;
    let key_end: usize = key_start + key_length;
    let value_end: usize = key_end + value_length;
    let expected_checksum: u32 = u32_at(bytes, value_end);
    if checksum(slice_subrange(bytes, position, value_end)) != expected_checksum {
        return Err(snapshot_error(index, "checksum mismatch"));
    }
    let expires_at: Option<Timestamp> = if raw_expiration == NO_EXPIRATION {
        None
    } else {
        match ms_to_system_time(raw_expiration) {
            Ok(instant) => Some(instant),
            Err(_) => return Err(snapshot_error(index, "expiration timestamp overflow")),
        }
    };
    let entry: SnapshotEntry = SnapshotEntry {
        key: from_slice(slice_subrange(bytes, key_start, key_end)),
        value: from_slice(slice_subrange(bytes, key_end, value_end)),
        expires_at,
    };
    Ok((entry, value_end + 4))
}

fn snapshot_error(entry: u64, reason: &'static str) -> (error: PersistenceError)
    ensures
        error == (PersistenceError::SnapshotCorruption { entry, reason }),
{
    PersistenceError::SnapshotCorruption { entry, reason }
}

/// The entries from `position` on, up to `count` in all, and then the position after the last one
/// or what is wrong with the next.
pub open spec fn scan_entries(
    bytes: Seq<u8>,
    position: int,
    index: nat,
    count: nat,
    limits: ProtocolLimits,
) -> (Seq<SnapshotEntryView>, Result<int, PersistenceError>)
    decreases count - index,
{
    if index >= count {
        (seq![], Ok(position))
    } else {
        match entry_at(bytes, position, index as u64, limits) {
            Err(error) => (seq![], Err(error)),
            Ok((entry, end)) => {
                let (rest, outcome) = scan_entries(bytes, end, index + 1, count, limits);
                (seq![entry] + rest, outcome)
            },
        }
    }
}

/// The entries of a snapshot up to the first thing that is wrong with it, and what that is.
pub open spec fn scan_snapshot(bytes: Seq<u8>, limits: ProtocolLimits) -> (
    Seq<SnapshotEntryView>,
    Option<PersistenceError>,
) {
    if bytes.len() < 16 {
        (
            seq![],
            Some(
                PersistenceError::SnapshotCorruption {
                    entry: 0,
                    reason: "truncated snapshot header",
                },
            ),
        )
    } else if bytes.take(4) != SNAPSHOT_MAGIC@ || bytes[4] != SNAPSHOT_VERSION || bytes[5] != 0
        || bytes[6] != 0 || bytes[7] != 0 {
        (seq![], Some(PersistenceError::InvalidSnapshotHeader))
    } else {
        let count = un64(bytes.subrange(8, 16));
        let (list, outcome) = scan_entries(bytes, 16, 0, count as nat, limits);
        match outcome {
            Err(error) => (list, Some(error)),
            Ok(end) => if end < bytes.len() {
                (
                    list,
                    Some(
                        PersistenceError::SnapshotCorruption {
                            entry: count,
                            reason: "trailing bytes after declared entries",
                        },
                    ),
                )
            } else {
                (list, None)
            },
        }
    }
}

/// The entries of a list that have not expired at `now`, in their order.
pub open spec fn unexpired(list: Seq<SnapshotEntryView>, now: Timestamp) -> Seq<SnapshotEntryView>
    decreases list.len(),
{
    if list.len() == 0 {
        seq![]
    } else if list.last().entry().expired(now) {
        unexpired(list.drop_last(), now)
    } else {
        unexpired(list.drop_last(), now).push(list.last())
    }
}

/// What is reported of the entries of a snapshot.
pub open spec fn snapshot_report(list: Seq<SnapshotEntryView>, now: Timestamp) -> SnapshotReport {
    SnapshotReport {
        entries_loaded: unexpired(list, now).len() as u64,
        expired_entries_skipped: (list.len() - unexpired(list, now).len()) as u64,
    }
}

proof fn lemma_unexpired_size(list: Seq<SnapshotEntryView>, now: Timestamp)
    ensures
        unexpired(list, now).len() <= list.len(),
    decreases list.len(),
{
    if list.len() > 0 {
        lemma_unexpired_size(list.drop_last(), now);
    }
}

proof fn lemma_entries_map_push(list: Seq<SnapshotEntryView>, entry: SnapshotEntryView)
    ensures
        entries_map(list.push(entry)) == entries_map(list).insert(entry.key, entry.entry()),
{
    assert(list.push(entry).drop_last() =~= list);
}

/// Puts the entries of a snapshot that have not expired at `now` into the store, until something
/// is wrong with the snapshot. Without a snapshot there is nothing to do.
pub fn load_snapshot_at(
    snapshot: Option<&[u8]>,
    store: &mut ShardedStore,
    limits: ProtocolLimits,
    now: Timestamp,
) -> (report: Result<SnapshotReport, PersistenceError>)
    requires
        old(store).valid(),
    ensures
        final(store).valid(),
        final(store).spec_shard_count() == old(store).spec_shard_count(),
        final(store).counters() == old(store).counters(),
        match snapshot {
            None => {
                &&& report == Ok::<SnapshotReport, PersistenceError>(
                    SnapshotReport { entries_loaded: 0, expired_entries_skipped: 0 },
                )
                &&& final(store)@ == old(store)@
            },
            Some(bytes) => {
                let (list, problem) = scan_snapshot(bytes@, limits);
                &&& report == (match problem {
                    Some(error) => Err(error),
                    None => Ok(snapshot_report(list, now)),
                })
                &&& final(store)@ == old(store)@.union_prefer_right(
                    entries_map(unexpired(list, now)),
                )
            },
        },
{
    let bytes: &[u8] = match snapshot {
        Some(bytes) => bytes,
        None => return Ok(SnapshotReport::default()),
    };
    assert(store@ =~= store@.union_prefer_right(entries_map(unexpired(seq![], now))));
    let count: u64 = match read_header(bytes) {
        Ok(count) => count,
        Err(error) => return Err(error),
    };
    let ghost (all, outcome) = scan_entries(bytes@, 16, 0, count as nat, limits);
    let ghost mut done: Seq<SnapshotEntryView> = seq![];
    let mut report: SnapshotReport = SnapshotReport::default();
    let mut position: usize = SNAPSHOT_HEADER_SIZE;
    let mut index: u64 = 0;
    assert(done + all =~= all);
    while index < count
        invariant
            snapshot == Some(bytes),
            16 <= position <= bytes@.len(),
            index <= count,
            done.len() == index,
            store.valid(),
            store.spec_shard_count() == old(store).spec_shard_count(),
            store.counters() == old(store).counters(),
            store@ == old(store)@.union_prefer_right(entries_map(unexpired(done, now))),
            report == snapshot_report(done, now),
            unexpired(done, now).len() <= done.len(),
            (all, outcome) == ({
                let (rest, end) = scan_entries(
                    bytes@,
                    position as int,
                    index as nat,
                    count as nat,
                    limits,
                );
                (done + rest, end)
            }),
            scan_snapshot(bytes@, limits) == (match outcome {
                Err(error) => (all, Some(error)),
                Ok(end) => if end < bytes@.len() {
                    (
                        all,
                        Some(
                            PersistenceError::SnapshotCorruption {
                                entry: count,
                                reason: "trailing bytes after declared entries",
                            },
                        ),
                    )
                } else {
                    (all, None)
                },
            }),
        decreases count - index,
    {
        let ghost before = done;
        let (entry, end): (SnapshotEntry, usize) = match read_entry(
            bytes,
            position,
            index,
            limits,
        ) {
            Ok(pair) => pair,
            Err(error) => {
                assert(done + seq![] =~= done);
                return Err(error);
            },
        };
        proof {
            done = before.push(entry@);
            let (rest, last) = scan_entries(
                bytes@,
                end as int,
                (index + 1) as nat,
                count as nat,
                limits,
            );
            assert(before + (seq![entry@] + rest) =~= done + rest);
            assert(done.drop_last() =~= before);
            lemma_entries_map_push(unexpired(before, now), entry@);
        }
        let expired: bool = match entry.expires_at {
            Some(instant) => instant.nanos <= now.nanos,
            None => false,
        };
        if expired {
            report.expired_entries_skipped = report.expired_entries_skipped.saturating_add(1);
        } else {
            let ghost earlier = store@;
            match store.set_with_expiry(entry.key, entry.value, entry.expires_at) {
                Ok(_) => {},
                Err(error) => return Err(PersistenceError::Store(error)),
            }
            report.entries_loaded = report.entries_loaded.saturating_add(1);
            assert(store@ =~= old(store)@.union_prefer_right(entries_map(unexpired(done, now))));
        }
        position = end;
        index += 1;
    }
    assert(done + seq![] =~= done);
    if position < bytes.len() {
        return Err(snapshot_error(count, "trailing bytes after declared entries"));
    }
    Ok(report)
}

/// Puts the entries of a snapshot that have not expired into the store.
pub fn load_snapshot(snapshot: Option<&[u8]>, store: &mut ShardedStore, limits: ProtocolLimits) -> (
report: Result<SnapshotReport, PersistenceError>)
    requires
        old(store).valid(),
    ensures
        final(store).valid(),
        final(store).spec_shard_count() == old(store).spec_shard_count(),
        final(store).counters() == old(store).counters(),
        match snapshot {
            None => {
                &&& report == Ok::<SnapshotReport, PersistenceError>(
                    SnapshotReport { entries_loaded: 0, expired_entries_skipped: 0 },
                )
                &&& final(store)@ == old(store)@
            },
            Some(bytes) => {
                let (list, problem) = scan_snapshot(bytes@, limits);
                exists|now: Timestamp|
                    {
                        &&& report == (match problem {
                            Some(error) => Err(error),
                            None => Ok(snapshot_report(list, now)),
                        })
                        &&& final(store)@ == old(store)@.union_prefer_right(
                            entries_map(#[trigger] unexpired(list, now)),
                        )
                    }
            },
        },
{
    load_snapshot_at(snapshot, store, limits, Timestamp::now())
}

fn read_header(bytes: &[u8]) -> (count: Result<u64, PersistenceError>)
    ensures
        match count {
            Ok(count) => {
                &&& bytes@.len() >= 16
                &&& bytes@.take(4) == SNAPSHOT_MAGIC@ && bytes@[4] == SNAPSHOT_VERSION && bytes@[5]
                    == 0 && bytes@[6] == 0 && bytes@[7] == 0
                &&& count == un64(bytes@.subrange(8, 16))
            },
            Err(error) => forall|limits: ProtocolLimits| #[trigger]
                scan_snapshot(bytes@, limits) == (
                    Seq::<SnapshotEntryView>::empty(),
                    Some(error),
                ),
        },
{
    if bytes.len() < SNAPSHOT_HEADER_SIZE {
        return Err(snapshot_error(0, "truncated snapshot header"));
    }
    let magic: &[u8] = slice_subrange(bytes, 0, 4);
    assert(magic@ =~= bytes@.take(4));
    if !same_bytes(magic, &SNAPSHOT_MAGIC) || bytes[4] != SNAPSHOT_VERSION || bytes[5] != 0
        || bytes[6] != 0 || bytes[7] != 0 {
        return Err(PersistenceError::InvalidSnapshotHeader);
    }
    Ok(u64_at(bytes, 8))
}

/// Reads all of a snapshot before anything is done with it. Entries that have expired at `now`
/// are left out.
pub fn decode_snapshot_at(bytes: &[u8], limits: ProtocolLimits, now: Timestamp) -> (decoded: Result<
    (Vec<SnapshotEntry>, SnapshotReport),
    PersistenceError,
>)
    ensures
        ({
            let (list, problem) = scan_snapshot(bytes@, limits);
            match decoded {
                Ok((entries, report)) => {
                    &&& problem is None
                    &&& entry_list(entries@) == unexpired(list, now)
                    &&& report == snapshot_report(list, now)
                },
                Err(error) => problem == Some(error),
            }
        }),
{
    let count: u64 = match read_header(bytes) {
        Ok(count) => count,
        Err(error) => return Err(error),
    };
    let ghost (all, outcome) = scan_entries(bytes@, 16, 0, count as nat, limits);
    let ghost mut done: Seq<SnapshotEntryView> = seq![];
    let mut report: SnapshotReport = SnapshotReport::default();
    let mut entries: Vec<SnapshotEntry> = Vec::new();
    let mut position: usize = SNAPSHOT_HEADER_SIZE;
    let mut index: u64 = 0;
    assert(done + all =~= all);
    assert(entry_list(entries@) =~= seq![]);
    while index < count
        invariant
            16 <= position <= bytes@.len(),
            index <= count,
            done.len() == index,
            entry_list(entries@) == unexpired(done, now),
            report == snapshot_report(done, now),
            unexpired(done, now).len() <= done.len(),
            (all, outcome) == ({
                let (rest, end) = scan_entries(
                    bytes@,
                    position as int,
                    index as nat,
                    count as nat,
                    limits,
                );
                (done + rest, end)
            }),
            scan_snapshot(bytes@, limits) == (match outcome {
                Err(error) => (all, Some(error)),
                Ok(end) => if end < bytes@.len() {
                    (
                        all,
                        Some(
                            PersistenceError::SnapshotCorruption {
                                entry: count,
                                reason: "trailing bytes after declared entries",
                            },
                        ),
                    )
                } else {
                    (all, None)
                },
            }),
        decreases count - index,
    {
        let ghost before = done;
        let (entry, end): (SnapshotEntry, usize) = match read_entry(
            bytes,
            position,
            index,
            limits,
        ) {
            Ok(pair) => pair,
            Err(error) => return Err(error),
        };
        proof {
            done = before.push(entry@);
            let (rest, last) = scan_entries(
                bytes@,
                end as int,
                (index + 1) as nat,
                count as nat,
                limits,
            );
            assert(before + (seq![entry@] + rest) =~= done + rest);
            assert(done.drop_last() =~= before);
        }
        let expired: bool = match entry.expires_at {
            Some(instant) => instant.nanos <= now.nanos,
            None => false,
        };
        if expired {
            report.expired_entries_skipped = report.expired_entries_skipped.saturating_add(1);
        } else {
            let ghost kept = entry_list(entries@);
            let ghost view = entry@;
            entries.push(entry);
            report.entries_loaded = report.entries_loaded.saturating_add(1);
            assert(entry_list(entries@) =~= kept.push(view));
        }
        position = end;
        index += 1;
    }
    assert(done + seq![] =~= done);
    if position < bytes.len() {
        return Err(snapshot_error(count, "trailing bytes after declared entries"));
    }
    Ok((entries, report))
}

/// Reads all of a snapshot before anything is done with it. Entries that have expired are left
/// out.
pub fn decode_snapshot(bytes: &[u8], limits: ProtocolLimits) -> (decoded: Result<
    (Vec<SnapshotEntry>, SnapshotReport),
    PersistenceError,
>)
    ensures
        ({
            let (list, problem) = scan_snapshot(bytes@, limits);
            match decoded {
                Ok((entries, report)) => problem is None && exists|now: Timestamp|
                    entry_list(entries@) == #[trigger] unexpired(list, now) && report
                        == snapshot_report(list, now),
                Err(error) => problem == Some(error),
            }
        }),
{
    decode_snapshot_at(bytes, limits, Timestamp::now())
}

/// An entry as a snapshot keeps it: its expiration is cut to milliseconds, and the last
/// millisecond that can be written stands for none.
pub open spec fn stored(entry: SnapshotEntryView) -> SnapshotEntryView {
    SnapshotEntryView {
        key: entry.key,
        value: entry.value,
        expires_at: if written_expiration(entry) == NO_EXPIRATION {
            None
        } else {
            Some(instant_of(written_expiration(entry)))
        },
    }
}

/// Entries as a snapshot keeps them.
pub open spec fn stored_list(list: Seq<SnapshotEntryView>) -> Seq<SnapshotEntryView> {
    list.map_values(|entry: SnapshotEntryView| stored(entry))
}

/// Whether a reader with these limits accepts an entry.
pub open spec fn entry_accepted(entry: SnapshotEntryView, limits: ProtocolLimits) -> bool {
    &&& entry_problem(entry) is None
    &&& entry.key.len() <= limits.max_key_size
    &&& entry.value.len() <= limits.max_value_size
    &&& entry.key.len() + entry.value.len() + 4 <= usize::MAX
}

/// Whether a reader with these limits accepts every entry.
pub open spec fn list_accepted(list: Seq<SnapshotEntryView>, limits: ProtocolLimits) -> bool {
    forall|i: int| 0 <= i < list.len() ==> entry_accepted(#[trigger] list[i], limits)
}

proof fn lemma_entry_layout(entry: SnapshotEntryView)
    requires
        entry_problem(entry) is None,
    ensures
        ({
            let bytes = entry_bytes(entry);
            let key_end = 16 + entry.key.len() as int;
            let value_end = key_end + entry.value.len() as int;
            &&& bytes.len() == value_end + 4
            &&& bytes.take(16).take(8) == be64(written_expiration(entry))
            &&& bytes.take(16).subrange(8, 12) == be32(entry.key.len() as u32)
            &&& bytes.take(16).subrange(12, 16) == be32(entry.value.len() as u32)
            &&& bytes.subrange(16, key_end) == entry.key
            &&& bytes.subrange(key_end, value_end) == entry.value
            &&& bytes.take(value_end) == entry_body(entry)
            &&& bytes.subrange(value_end, value_end + 4) == be32(crc32(entry_body(entry)))
        }),
{
    broadcast use crate::wire::group_wire;

    let bytes = entry_bytes(entry);
    let key_end = 16 + entry.key.len() as int;
    let value_end = key_end + entry.value.len() as int;
    assert(bytes.take(16).take(8) =~= be64(written_expiration(entry)));
    assert(bytes.take(16).subrange(8, 12) =~= be32(entry.key.len() as u32));
    assert(bytes.take(16).subrange(12, 16) =~= be32(entry.value.len() as u32));
    assert(bytes.subrange(16, key_end) =~= entry.key);
    assert(bytes.subrange(key_end, value_end) =~= entry.value);
    assert(bytes.take(value_end) =~= entry_body(entry));
    assert(bytes.subrange(value_end, value_end + 4) =~= be32(crc32(entry_body(entry))));
}

proof fn lemma_whole_entry(
    bytes: Seq<u8>,
    position: int,
    entry: SnapshotEntryView,
    rest: Seq<u8>,
    index: u64,
    limits: ProtocolLimits,
)
    requires
        0 <= position <= bytes.len(),
        bytes.skip(position) == entry_bytes(entry) + rest,
        entry_accepted(entry, limits),
    ensures
        entry_at(bytes, position, index, limits) == Ok::<
            (SnapshotEntryView, int),
            PersistenceError,
        >((stored(entry), position + entry_bytes(entry).len())),
        bytes.skip(position + entry_bytes(entry).len() as int) == rest,
        position + entry_bytes(entry).len() <= bytes.len(),
{
    broadcast use crate::wire::group_wire;

    lemma_entry_layout(entry);
    let own = entry_bytes(entry);
    let tail = bytes.skip(position);
    let key_end = 16 + entry.key.len() as int;
    let value_end = key_end + entry.value.len() as int;
    assert(tail.len() == own.len() + rest.len());
    assert(bytes.subrange(position, position + 16) =~= tail.take(16));
    assert(tail.take(16) =~= own.take(16));
    assert(bytes.subrange(position + 16, position + key_end) =~= tail.subrange(16, key_end));
    assert(tail.subrange(16, key_end) =~= own.subrange(16, key_end));
    assert(bytes.subrange(position + key_end, position + value_end) =~= tail.subrange(
        key_end,
        value_end,
    ));
    assert(tail.subrange(key_end, value_end) =~= own.subrange(key_end, value_end));
    assert(bytes.subrange(position, position + value_end) =~= tail.take(value_end));
    assert(tail.take(value_end) =~= own.take(value_end));
    assert(bytes.subrange(position + value_end, position + value_end + 4) =~= tail.subrange(
        value_end,
        value_end + 4,
    ));
    assert(tail.subrange(value_end, value_end + 4) =~= own.subrange(value_end, value_end + 4));
    assert(bytes.skip(position + own.len() as int) =~= tail.skip(own.len() as int));
    assert(tail.skip(own.len() as int) =~= rest);
}

proof fn lemma_cut_entry(
    bytes: Seq<u8>,
    position: int,
    entry: SnapshotEntryView,
    kept: int,
    index: u64,
    limits: ProtocolLimits,
)
    requires
        0 <= position <= bytes.len(),
        0 <= kept < entry_bytes(entry).len(),
        bytes.skip(position) == entry_bytes(entry).take(kept),
        entry_accepted(entry, limits),
    ensures
        entry_at(bytes, position, index, limits) is Err,
{
    broadcast use crate::wire::group_wire;

    lemma_entry_layout(entry);
    assert(bytes.skip(position).len() == kept);
    if kept >= 16 {
        assert(bytes.subrange(position, position + 16) =~= bytes.skip(position).take(16));
        assert(entry_bytes(entry).take(kept).take(16) =~= entry_bytes(entry).take(16));
    }
}

proof fn lemma_entries_bytes_front(list: Seq<SnapshotEntryView>)
    requires
        list.len() > 0,
    ensures
        entries_bytes(list) == entry_bytes(list[0]) + entries_bytes(list.skip(1)),
    decreases list.len(),
{
    if list.len() == 1 {
        assert(list.drop_last() =~= seq![]);
        assert(list.skip(1) =~= seq![]);
        assert(entries_bytes(list) =~= entry_bytes(list[0]) + entries_bytes(list.skip(1)));
    } else {
        lemma_entries_bytes_front(list.drop_last());
        assert(list.drop_last().skip(1) =~= list.skip(1).drop_last());
        assert(entries_bytes(list) =~= entry_bytes(list[0]) + entries_bytes(list.skip(1)));
    }
}

proof fn lemma_scan_whole(
    bytes: Seq<u8>,
    position: int,
    list: Seq<SnapshotEntryView>,
    index: nat,
    count: nat,
    limits: ProtocolLimits,
)
    requires
        0 <= position <= bytes.len(),
        bytes.skip(position) == entries_bytes(list),
        list_accepted(list, limits),
        index + list.len() == count,
    ensures
        scan_entries(bytes, position, index, count, limits) == (
            stored_list(list),
            Ok::<int, PersistenceError>(bytes.len() as int),
        ),
    decreases list.len(),
{
    if list.len() == 0 {
        assert(bytes.skip(position).len() == 0);
        assert(stored_list(list) =~= seq![]);
    } else {
        let rest = list.skip(1);
        lemma_entries_bytes_front(list);
        lemma_whole_entry(bytes, position, list[0], entries_bytes(rest), index as u64, limits);
        assert forall|i: int| 0 <= i < rest.len() implies entry_accepted(
            #[trigger] rest[i],
            limits,
        ) by {
            assert(rest[i] == list[i + 1]);
        }
        lemma_scan_whole(
            bytes,
            position + entry_bytes(list[0]).len() as int,
            rest,
            index + 1,
            count,
            limits,
        );
        assert(seq![stored(list[0])] + stored_list(rest) =~= stored_list(list));
    }
}

proof fn lemma_scan_cut(
    bytes: Seq<u8>,
    position: int,
    list: Seq<SnapshotEntryView>,
    kept: int,
    index: nat,
    count: nat,
    limits: ProtocolLimits,
)
    requires
        0 <= position <= bytes.len(),
        0 <= kept < entries_bytes(list).len(),
        bytes.skip(position) == entries_bytes(list).take(kept),
        list_accepted(list, limits),
        index + list.len() == count,
    ensures
        scan_entries(bytes, position, index, count, limits).1 is Err,
    decreases list.len(),
{
    let rest = list.skip(1);
    lemma_entries_bytes_front(list);
    let own = entry_bytes(list[0]);
    assert(entry_accepted(list[0], limits));
    if kept < own.len() {
        assert(entries_bytes(list).take(kept) =~= own.take(kept));
        lemma_cut_entry(bytes, position, list[0], kept, index as u64, limits);
    } else {
        let left = kept - own.len();
        assert(entries_bytes(list).take(kept) =~= own + entries_bytes(rest).take(left));
        lemma_whole_entry(
            bytes,
            position,
            list[0],
            entries_bytes(rest).take(left),
            index as u64,
            limits,
        );
        assert forall|i: int| 0 <= i < rest.len() implies entry_accepted(
            #[trigger] rest[i],
            limits,
        ) by {
            assert(rest[i] == list[i + 1]);
        }
        lemma_scan_cut(
            bytes,
            position + own.len() as int,
            rest,
            left,
            index + 1,
            count,
            limits,
        );
    }
}

proof fn lemma_snapshot_header(list: Seq<SnapshotEntryView>)
    ensures
        ({
            let bytes = snapshot_bytes(list);
            &&& bytes.len() == 16 + entries_bytes(list).len()
            &&& bytes.take(4) == SNAPSHOT_MAGIC@
            &&& bytes[4] == SNAPSHOT_VERSION && bytes[5] == 0 && bytes[6] == 0 && bytes[7] == 0
            &&& bytes.subrange(8, 16) == be64(list.len() as u64)
            &&& bytes.skip(16) == entries_bytes(list)
        }),
{
    broadcast use crate::wire::group_wire;

    let bytes = snapshot_bytes(list);
    assert(bytes.take(4) =~= SNAPSHOT_MAGIC@);
    assert(bytes.subrange(8, 16) =~= be64(list.len() as u64));
    assert(bytes.skip(16) =~= entries_bytes(list));
}

/// A snapshot gives back the entries that were written, with their expirations in whole
/// milliseconds.
pub proof fn law_snapshot_round_trip(list: Seq<SnapshotEntryView>, limits: ProtocolLimits)
    requires
        list_accepted(list, limits),
        list.len() <= u64::MAX,
    ensures
        scan_snapshot(snapshot_bytes(list), limits) == (
            stored_list(list),
            None::<PersistenceError>,
        ),
{
    broadcast use crate::wire::group_wire;

    lemma_snapshot_header(list);
    lemma_scan_whole(snapshot_bytes(list), 16, list, 0, list.len(), limits);
}

/// A snapshot that was cut short is refused, wherever it was cut.
pub proof fn law_cut_snapshot_is_refused(
    list: Seq<SnapshotEntryView>,
    limits: ProtocolLimits,
    kept: int,
)
    requires
        list_accepted(list, limits),
        list.len() <= u64::MAX,
        0 <= kept < snapshot_bytes(list).len(),
    ensures
        scan_snapshot(snapshot_bytes(list).take(kept), limits).1 is Some,
{
    broadcast use crate::wire::group_wire;

    lemma_snapshot_header(list);
    let whole = snapshot_bytes(list);
    let bytes = whole.take(kept);
    if kept >= 16 {
        assert(bytes.take(4) =~= whole.take(4));
        assert(bytes.subrange(8, 16) =~= whole.subrange(8, 16));
        assert(bytes.skip(16) =~= entries_bytes(list).take(kept - 16));
        lemma_scan_cut(bytes, 16, list, kept - 16, 0, list.len(), limits);
    }
}

proof fn lemma_scan_then(
    bytes: Seq<u8>,
    position: int,
    list: Seq<SnapshotEntryView>,
    rest: Seq<u8>,
    index: nat,
    count: nat,
    limits: ProtocolLimits,
)
    requires
        0 <= position <= bytes.len(),
        bytes.skip(position) == entries_bytes(list) + rest,
        list_accepted(list, limits),
        index + list.len() <= count,
    ensures
        ({
            let after = position + entries_bytes(list).len();
            let (more, end) = scan_entries(bytes, after, index + list.len(), count, limits);
            &&& after + rest.len() == bytes.len()
            &&& bytes.skip(after) == rest
            &&& scan_entries(bytes, position, index, count, limits) == (
                stored_list(list) + more,
                end,
            )
        }),
    decreases list.len(),
{
    let after = position + entries_bytes(list).len();
    let (more, end) = scan_entries(bytes, after, index + list.len(), count, limits);
    assert(bytes.skip(position).len() == entries_bytes(list).len() + rest.len());
    if list.len() == 0 {
        assert(bytes.skip(position) =~= rest);
        assert(stored_list(list) + more =~= more);
    } else {
        let others = list.skip(1);
        let own = entry_bytes(list[0]);
        lemma_entries_bytes_front(list);
        assert(bytes.skip(position) =~= own + (entries_bytes(others) + rest));
        lemma_whole_entry(
            bytes,
            position,
            list[0],
            entries_bytes(others) + rest,
            index as u64,
            limits,
        );
        assert forall|i: int| 0 <= i < others.len() implies entry_accepted(
            #[trigger] others[i],
            limits,
        ) by {
            assert(others[i] == list[i + 1]);
        }
        lemma_scan_then(bytes, position + own.len(), others, rest, index + 1, count, limits);
        assert(seq![stored(list[0])] + (stored_list(others) + more) =~= stored_list(list) + more);
    }
}

/// A snapshot with bytes after its last entry is refused.
pub proof fn law_longer_snapshot_is_refused(
    list: Seq<SnapshotEntryView>,
    limits: ProtocolLimits,
    extra: Seq<u8>,
)
    requires
        list_accepted(list, limits),
        list.len() <= u64::MAX,
        extra.len() > 0,
    ensures
        scan_snapshot(snapshot_bytes(list) + extra, limits).1 == Some(
            PersistenceError::SnapshotCorruption {
                entry: list.len() as u64,
                reason: "trailing bytes after declared entries",
            },
        ),
{
    broadcast use crate::wire::group_wire;

    lemma_snapshot_header(list);
    let whole = snapshot_bytes(list);
    let bytes = whole + extra;
    assert(bytes.take(4) =~= whole.take(4));
    assert(bytes.subrange(8, 16) =~= whole.subrange(8, 16));
    assert(bytes.skip(16) =~= entries_bytes(list) + extra);
    lemma_scan_then(bytes, 16, list, extra, 0, list.len(), limits);
}

proof fn lemma_changed_entry(
    bytes: Seq<u8>,
    position: int,
    entry: SnapshotEntryView,
    rest: Seq<u8>,
    place: int,
    byte: u8,
    index: u64,
    limits: ProtocolLimits,
)
    requires
        0 <= position <= bytes.len(),
        0 <= place < entry_bytes(entry).len(),
        byte != entry_bytes(entry)[place],
        bytes.skip(position) == entry_bytes(entry).update(place, byte) + rest,
        entry_accepted(entry, limits),
        rest.len() == 0 || !(8 <= place < 16),
    ensures
        match entry_at(bytes, position, index, limits) {
            Ok((_, end)) => 8 <= place < 16 && end < bytes.len(),
            Err(_) => true,
        },
{
    broadcast use crate::wire::group_wire;

    lemma_entry_layout(entry);
    let own = entry_bytes(entry);
    let changed = own.update(place, byte);
    let tail = bytes.skip(position);
    let value_end = (16 + entry.key.len() + entry.value.len()) as int;
    let fixed = bytes.subrange(position, position + 16);
    assert(tail.len() == own.len() + rest.len());
    assert(fixed =~= tail.take(16));
    assert(tail.take(16) =~= changed.take(16));
    if 8 <= place < 16 {
        let (key_length, value_length) = (fixed.subrange(8, 12), fixed.subrange(12, 16));
        let own_key_length = own.take(16).subrange(8, 12);
        let own_value_length = own.take(16).subrange(12, 16);
        crate::wire::lemma_un32(key_length);
        crate::wire::lemma_un32(value_length);
        if place < 12 {
            assert(value_length =~= own_value_length);
            assert(key_length[place - 8] != own_key_length[place - 8]);
        } else {
            assert(key_length =~= own_key_length);
            assert(value_length[place - 12] != own_value_length[place - 12]);
        }
    } else {
        assert(fixed.subrange(8, 12) =~= own.take(16).subrange(8, 12));
        assert(fixed.subrange(12, 16) =~= own.take(16).subrange(12, 16));
        let covered = bytes.subrange(position, position + value_end);
        let sum = bytes.subrange(position + value_end, position + value_end + 4);
        assert(covered =~= tail.take(value_end));
        assert(covered =~= changed.take(value_end));
        assert(sum =~= tail.subrange(value_end, value_end + 4));
        assert(sum =~= changed.subrange(value_end, value_end + 4));
        if place < value_end {
            assert(covered =~= own.take(value_end).update(place, byte));
            assert(sum =~= own.subrange(value_end, value_end + 4));
            law_changed_bytes_change_the_checksum(own.take(value_end), place, byte);
        } else {
            assert(covered =~= own.take(value_end));
            assert(sum[place - value_end] != own.subrange(value_end, value_end + 4)[place
                - value_end]);
            crate::wire::lemma_un32(sum);
        }
    }
}

/// Whether a change of one byte of entries shows. It always does, but for a length in an entry that
/// others follow: a checksum is then looked for in another place, and what stands there could
/// happen to be the checksum of the bytes before it.
pub open spec fn shows(
    list: Seq<SnapshotEntryView>,
    place: int,
    byte: u8,
    limits: ProtocolLimits,
) -> bool
    decreases list.len(),
{
    if list.len() == 0 {
        false
    } else if place < entry_bytes(list[0]).len() {
        list.len() == 1 || !(8 <= place < 16) || entry_at(
            entries_bytes(list).update(place, byte),
            0,
            0,
            limits,
        ) is Err
    } else {
        shows(list.skip(1), place - entry_bytes(list[0]).len(), byte, limits)
    }
}

proof fn lemma_entry_moved(bytes: Seq<u8>, position: int, index: u64, limits: ProtocolLimits)
    requires
        0 <= position <= bytes.len(),
        entry_at(bytes.skip(position), 0, 0, limits) is Err,
    ensures
        entry_at(bytes, position, index, limits) is Err,
{
    if entry_at(bytes, position, index, limits) is Ok {
        let tail = bytes.skip(position);
        let end = entry_at(bytes, position, index, limits)->Ok_0.1 - position;
        assert(bytes.subrange(position, position + 16) =~= tail.subrange(0, 16));
        assert(bytes.subrange(position, position + end - 4) =~= tail.subrange(0, end - 4));
        assert(bytes.subrange(position + end - 4, position + end) =~= tail.subrange(end - 4, end));
    }
}

proof fn lemma_scan_changed(
    bytes: Seq<u8>,
    position: int,
    list: Seq<SnapshotEntryView>,
    place: int,
    byte: u8,
    index: nat,
    count: nat,
    limits: ProtocolLimits,
)
    requires
        0 <= position <= bytes.len(),
        0 <= place < entries_bytes(list).len(),
        byte != entries_bytes(list)[place],
        bytes.skip(position) == entries_bytes(list).update(place, byte),
        list_accepted(list, limits),
        shows(list, place, byte, limits),
        index + list.len() == count,
    ensures
        match scan_entries(bytes, position, index, count, limits).1 {
            Ok(end) => end < bytes.len(),
            Err(_) => true,
        },
    decreases list.len(),
{
    let others = list.skip(1);
    let own = entry_bytes(list[0]);
    lemma_entries_bytes_front(list);
    assert(entry_accepted(list[0], limits));
    if place < own.len() {
        reveal_with_fuel(scan_entries, 2);
        let rest = entries_bytes(others);
        if list.len() == 1 {
            assert(others =~= seq![]);
        }
        assert(entries_bytes(list).update(place, byte) =~= own.update(place, byte) + rest);
        if list.len() == 1 || !(8 <= place < 16) {
            lemma_changed_entry(
                bytes,
                position,
                list[0],
                rest,
                place,
                byte,
                index as u64,
                limits,
            );
        } else {
            lemma_entry_moved(bytes, position, index as u64, limits);
        }
    } else {
        let left = place - own.len();
        let rest = entries_bytes(others).update(left, byte);
        assert(entries_bytes(list).update(place, byte) =~= own + rest);
        lemma_whole_entry(bytes, position, list[0], rest, index as u64, limits);
        assert forall|i: int| 0 <= i < others.len() implies entry_accepted(
            #[trigger] others[i],
            limits,
        ) by {
            assert(others[i] == list[i + 1]);
        }
        lemma_scan_changed(
            bytes,
            position + own.len(),
            others,
            left,
            byte,
            index + 1,
            count,
            limits,
        );
    }
}

proof fn lemma_scan_other_count(
    bytes: Seq<u8>,
    list: Seq<SnapshotEntryView>,
    count: nat,
    limits: ProtocolLimits,
)
    requires
        bytes.len() >= 16,
        bytes.skip(16) == entries_bytes(list),
        list_accepted(list, limits),
        count != list.len(),
    ensures
        match scan_entries(bytes, 16, 0, count, limits).1 {
            Ok(end) => end < bytes.len(),
            Err(_) => true,
        },
{
    broadcast use crate::wire::group_wire;

    if count < list.len() {
        let (first, others) = (list.take(count as int), list.skip(count as int));
        lemma_entries_bytes_join(first, others);
        assert(first + others =~= list);
        assert forall|i: int| 0 <= i < first.len() implies entry_accepted(
            #[trigger] first[i],
            limits,
        ) by {
            assert(first[i] == list[i]);
        }
        lemma_scan_then(bytes, 16, first, entries_bytes(others), 0, count, limits);
        lemma_entries_bytes_front(others);
        assert(entry_accepted(list[count as int], limits));
        lemma_entry_layout(others[0]);
    } else {
        assert(bytes.skip(16) =~= entries_bytes(list) + seq![]);
        lemma_scan_then(bytes, 16, list, seq![], 0, count, limits);
    }
}

proof fn lemma_entries_bytes_join(first: Seq<SnapshotEntryView>, second: Seq<SnapshotEntryView>)
    ensures
        entries_bytes(first + second) == entries_bytes(first) + entries_bytes(second),
    decreases second.len(),
{
    if second.len() == 0 {
        assert(first + second =~= first);
        assert(entries_bytes(first) + entries_bytes(second) =~= entries_bytes(first));
    } else {
        assert((first + second).drop_last() =~= first + second.drop_last());
        lemma_entries_bytes_join(first, second.drop_last());
        assert(entries_bytes(first + second) =~= entries_bytes(first) + entries_bytes(second));
    }
}

/// A snapshot with one byte changed is refused, whatever it was changed to, where the change shows:
/// everywhere but in the lengths of entries that others follow, and there too unless a moved
/// checksum happens to match. A flipped bit is such a change.
pub proof fn law_changed_snapshot_is_refused(
    list: Seq<SnapshotEntryView>,
    limits: ProtocolLimits,
    place: int,
    byte: u8,
)
    requires
        list_accepted(list, limits),
        list.len() <= u64::MAX,
        0 <= place < snapshot_bytes(list).len(),
        byte != snapshot_bytes(list)[place],
        place < 16 || shows(list, place - 16, byte, limits),
    ensures
        scan_snapshot(snapshot_bytes(list).update(place, byte), limits).1 is Some,
{
    broadcast use crate::wire::group_wire;

    lemma_snapshot_header(list);
    let whole = snapshot_bytes(list);
    let bytes = whole.update(place, byte);
    let count = bytes.subrange(8, 16);
    if place < 4 {
        assert(bytes.take(4)[place] != whole.take(4)[place]);
    } else if place >= 16 {
        assert(bytes.take(4) =~= whole.take(4));
        assert(count =~= whole.subrange(8, 16));
        assert(bytes.skip(16) =~= entries_bytes(list).update(place - 16, byte));
        lemma_scan_changed(bytes, 16, list, place - 16, byte, 0, list.len(), limits);
    } else if place >= 8 {
        assert(count[place - 8] != whole.subrange(8, 16)[place - 8]);
        crate::wire::lemma_un64(count);
        assert(bytes.skip(16) =~= entries_bytes(list));
        lemma_scan_other_count(bytes, list, un64(count) as nat, limits);
    }
}

/// How a snapshot is laid out: its magic bytes, its version, three zero bytes and the number of its
/// entries, then each entry with its expiration in milliseconds, the lengths of its key and its
/// value, both of them, and the checksum of all that.
pub proof fn law_snapshots_have_their_layout(
    list: Seq<SnapshotEntryView>,
    entry: SnapshotEntryView,
    millis: u64,
)
    requires
        match entry.expires_at {
            None => millis == u64::MAX,
            Some(instant) => millis * 1_000_000 <= instant.nanos < (millis + 1) * 1_000_000,
        },
    ensures
        snapshot_bytes(list) == seq![0x46u8, 0x4b, 0x56, 0x53, 1, 0, 0, 0] + be64(
            list.len() as u64,
        ) + entries_bytes(list),
        entries_bytes(seq![]) == Seq::<u8>::empty(),
        ({
            let covered = be64(millis) + be32(entry.key.len() as u32) + be32(
                entry.value.len() as u32,
            ) + entry.key + entry.value;
            entries_bytes(list.push(entry)) == entries_bytes(list) + (covered + be32(
                crc32(covered),
            ))
        }),
{
    assert(SNAPSHOT_MAGIC@ + seq![1u8, 0u8, 0u8, 0u8] =~= seq![
        0x46u8, 0x4b, 0x56, 0x53, 1, 0, 0, 0,
    ]);
    assert(list.push(entry).drop_last() =~= list);
}

/// An entry comes back from a snapshot with its key and its value, and with its expiration cut to
/// the millisecond. One that does not expire comes back as that.
pub proof fn law_entries_are_kept_to_the_millisecond(entry: SnapshotEntryView)
    requires
        entry.expires_at is Some ==> 0 <= entry.expires_at->0.nanos
            < 18_446_744_073_709_551_615_000_000,
    ensures
        stored(entry).key == entry.key,
        stored(entry).value == entry.value,
        entry.expires_at is None <==> stored(entry).expires_at is None,
        entry.expires_at is Some ==> {
            let (exact, cut) = (entry.expires_at->0.nanos, stored(entry).expires_at->0.nanos);
            cut <= exact < cut + 1_000_000 && cut % 1_000_000 == 0
        },
{
}

/// Loading leaves out exactly the entries whose time is up, and reports how many there are of
/// either kind.
pub proof fn law_loading_skips_what_has_expired(
    list: Seq<SnapshotEntryView>,
    entry: SnapshotEntryView,
    now: Timestamp,
)
    requires
        list.len() < u64::MAX,
    ensures
        unexpired(seq![], now) == Seq::<SnapshotEntryView>::empty(),
        unexpired(list.push(entry), now) == (if entry.expires_at is Some
            && entry.expires_at->0.nanos <= now.nanos {
            unexpired(list, now)
        } else {
            unexpired(list, now).push(entry)
        }),
        snapshot_report(list, now).entries_loaded == unexpired(list, now).len(),
        snapshot_report(list, now).entries_loaded + snapshot_report(
            list,
            now,
        ).expired_entries_skipped == list.len(),
{
    assert(list.push(entry).drop_last() =~= list);
    lemma_unexpired_size(list, now);
}

/// Entries with a key and with lengths and an expiration that can be written are written.
pub proof fn law_sound_entries_are_written(list: Seq<SnapshotEntryView>, limits: ProtocolLimits)
    requires
        forall|i: int|
            #![trigger list[i]]
            0 <= i < list.len() ==> {
                &&& 0 < list[i].key.len() <= limits.max_key_size
                &&& list[i].value.len() <= limits.max_value_size
                &&& list[i].key.len() <= u32::MAX && list[i].value.len() <= u32::MAX
                &&& list[i].key.len() + list[i].value.len() + 4 <= usize::MAX
                &&& list[i].expires_at is Some ==> 0 <= list[i].expires_at->0.nanos
                    < 18_446_744_073_709_551_615_000_000
            },
    ensures
        list_problem(list) is None,
        list_accepted(list, limits),
    decreases list.len(),
{
    assert forall|i: int| 0 <= i < list.len() implies entry_accepted(
        #[trigger] list[i],
        limits,
    ) by {
        assert(0 < list[i].key.len());
    }
    if list.len() > 0 {
        let before = list.drop_last();
        assert forall|i: int| #![trigger before[i]] 0 <= i < before.len() implies {
            &&& 0 < before[i].key.len() <= limits.max_key_size
            &&& before[i].value.len() <= limits.max_value_size
            &&& before[i].key.len() <= u32::MAX && before[i].value.len() <= u32::MAX
            &&& before[i].key.len() + before[i].value.len() + 4 <= usize::MAX
            &&& before[i].expires_at is Some ==> 0 <= before[i].expires_at->0.nanos
                < 18_446_744_073_709_551_615_000_000
        } by {
            assert(before[i] == list[i]);
        }
        law_sound_entries_are_written(before, limits);
        assert(entry_accepted(list[list.len() - 1], limits));
    }
}

} // verus!
