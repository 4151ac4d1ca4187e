//! Reading the write-ahead log: recovery, and batches for followers.

use vstd::prelude::*;
use vstd::slice::slice_subrange;

use crate::buffer::as_slice;
use crate::error::PersistenceError;
use crate::metrics::MetricsSnapshot;
use crate::persistence::record::{
    instant_of, lengths_accepted, record_of, validate_lengths, RecordType, RecordView, WalRecord,
    RECORD_FIXED_TOTAL, RECORD_MAGIC, WAL_HEADER,
};
use crate::protocol::frame::ProtocolLimits;
use crate::store::entry::{live, EntryView};
use crate::store::sharded::{
    count_stale, counted, kept_for_good, saturated, stale, ShardedStore,
};
use crate::time::Timestamp;
use crate::wire::{same_bytes, u32_at, un32};

verus! {

/// What a recovery found.
#[derive(Clone, Copy, Debug, PartialEq, Eq, Structural)]
pub struct RecoveryReport {
    pub records_replayed: u64,
    pub recovered_keys: usize,
    pub truncated_tail_removed: bool,
    pub valid_bytes: u64,
    pub snapshot_entries_loaded: u64,
    pub snapshot_expired_entries_skipped: u64,
}

impl Default for RecoveryReport {
    fn default() -> (report: Self)
        ensures
            report == (RecoveryReport {
                records_replayed: 0,
                recovered_keys: 0,
                truncated_tail_removed: false,
                valid_bytes: 0,
                snapshot_entries_loaded: 0,
                snapshot_expired_entries_skipped: 0,
            }),
    {
        Self {
            records_replayed: 0,
            recovered_keys: 0,
            truncated_tail_removed: false,
            valid_bytes: 0,
            snapshot_entries_loaded: 0,
            snapshot_expired_entries_skipped: 0,
        }
    }
}

/// The data after a record was applied at `now`. A value that has expired by then is not
/// brought back.
pub open spec fn applied(
    map: Map<Seq<u8>, EntryView>,
    record: RecordView,
    now: Timestamp,
) -> Map<Seq<u8>, EntryView> {
    match record.record_type {
        RecordType::Put => map.insert(
            record.key,
            EntryView { value: record.value, expires_at: None },
        ),
        RecordType::Del => map.remove(record.key),
        RecordType::SetEx => {
            let expires_at = instant_of(record.expires_at_ms->0);
            if expires_at.nanos <= now.nanos {
                map.remove(record.key)
            } else {
                map.insert(
                    record.key,
                    EntryView { value: record.value, expires_at: Some(expires_at) },
                )
            }
        },
        RecordType::Persist => kept_for_good(map, record.key, now),
    }
}

/// The counters after a record was applied at `now`.
pub open spec fn applied_counters(
    counters: MetricsSnapshot,
    map: Map<Seq<u8>, EntryView>,
    record: RecordView,
    now: Timestamp,
) -> MetricsSnapshot {
    match record.record_type {
        RecordType::Put => counters,
        RecordType::SetEx if instant_of(record.expires_at_ms->0).nanos > now.nanos => counters,
        _ => count_stale(counters, stale(map, record.key, now)),
    }
}

/// The data after records were applied in their order.
pub open spec fn all_applied(
    map: Map<Seq<u8>, EntryView>,
    records: Seq<RecordView>,
    now: Timestamp,
) -> Map<Seq<u8>, EntryView>
    decreases records.len(),
{
    if records.len() == 0 {
        map
    } else {
        applied(all_applied(map, records.drop_last(), now), records.last(), now)
    }
}

/// The counters after records were applied in their order.
pub open spec fn all_applied_counters(
    counters: MetricsSnapshot,
    map: Map<Seq<u8>, EntryView>,
    records: Seq<RecordView>,
    now: Timestamp,
) -> MetricsSnapshot
    decreases records.len(),
{
    if records.len() == 0 {
        counters
    } else {
        applied_counters(
            all_applied_counters(counters, map, records.drop_last(), now),
            all_applied(map, records.drop_last(), now),
            records.last(),
            now,
        )
    }
}

/// Why a record cannot be applied, if it cannot.
pub open spec fn apply_problem(record: RecordView) -> Option<PersistenceError> {
    if record.record_type == RecordType::SetEx && record.expires_at_ms is None {
        Some(
            PersistenceError::Corruption { offset: 0, reason: "SETEX record is missing expiration" },
        )
    } else {
        None
    }
}

/// Applies a record at `now`.
pub fn apply_record(store: &mut ShardedStore, record: &WalRecord, now: Timestamp) -> (done: Result<
    (),
    PersistenceError,
>)
    requires
        old(store).valid(),
    ensures
        final(store).valid(),
        final(store).spec_shard_count() == old(store).spec_shard_count(),
        match apply_problem(record@) {
            None => {
                &&& done == Ok::<(), PersistenceError>(())
                &&& final(store)@ == applied(old(store)@, record@, now)
                &&& final(store).counters() == applied_counters(
                    old(store).counters(),
                    old(store)@,
                    record@,
                    now,
                )
            },
            Some(error) => {
                &&& done == Err::<(), PersistenceError>(error)
                &&& final(store)@ == old(store)@
                &&& final(store).counters() == old(store).counters()
            },
        },
{
    match record.record_type {
        RecordType::Put => {
            let _ = store.set(record.key.clone(), record.value.clone());
        },
        RecordType::Del => {
            let _ = store.delete_at(as_slice(&record.key), now);
        },
        RecordType::SetEx => {
            let expires_at: Timestamp = match record.expires_at() {
                Ok(Some(expires_at)) => expires_at,
                Ok(None) => return Err(
                    PersistenceError::Corruption {
                        offset: 0,
                        reason: "SETEX record is missing expiration",
                    },
                ),
                Err(error) => return Err(error),
            };
            if expires_at.nanos <= now.nanos {
                let _ = store.delete_at(as_slice(&record.key), now);
            } else {
                let _ = store.set_with_expiry(
                    record.key.clone(),
                    record.value.clone(),
                    Some(expires_at),
                );
            }
        },
        RecordType::Persist => {
            let _ = store.persist_at(as_slice(&record.key), now);
        },
    }
    Ok(())
}

/// What stands at a place of the log.
#[verifier::ext_equal]
pub enum LogItemView {
    /// The log ends here.
    End,
    /// The log ends inside the record that starts here.
    Torn,
    /// What stands here is no record.
    Broken(PersistenceError),
    /// A record, and the place after it.
    Record(RecordView, int),
}

/// The length of the record whose fixed fields start at `position`.
pub open spec fn stated_length(log: Seq<u8>, position: int) -> int {
    RECORD_FIXED_TOTAL + un32(log.subrange(position + 24, position + 28)) + un32(
        log.subrange(position + 28, position + 32),
    )
}

/// Whether the lengths that a record states are accepted.
pub open spec fn stated_lengths_accepted(
    log: Seq<u8>,
    position: int,
    limits: ProtocolLimits,
) -> bool {
    lengths_accepted(
        un32(log.subrange(position + 24, position + 28)) as nat,
        un32(log.subrange(position + 28, position + 32)) as nat,
        limits,
    )
}

/// What stands at `position`.
pub open spec fn item_at(log: Seq<u8>, position: int, limits: ProtocolLimits) -> LogItemView {
    let left = log.len() - position;
    if left <= 0 {
        LogItemView::End
    } else if left < 4 {
        LogItemView::Torn
    } else if log.subrange(position, position + 4) != RECORD_MAGIC@ {
        LogItemView::Broken(
            PersistenceError::Corruption {
                offset: position as u64,
                reason: "invalid record magic",
            },
        )
    } else if left < 32 {
        LogItemView::Torn
    } else if !stated_lengths_accepted(log, position, limits) {
        LogItemView::Broken(PersistenceError::InvalidRecordLength)
    } else if left < stated_length(log, position) {
        LogItemView::Torn
    } else {
        let end = position + stated_length(log, position);
        match record_of(log.subrange(position, end), limits, position as u64) {
            Err(error) => LogItemView::Broken(error),
            Ok(record) => LogItemView::Record(record, end),
        }
    }
}

/// How a log ends.
#[verifier::ext_equal]
pub enum LogEnd {
    /// After a whole record.
    Clean,
    /// Inside a record.
    Torn,
    /// At something that is no record.
    Broken(PersistenceError),
}

/// What a log holds: its whole records from `position` on, the place after them, and what stands
/// there.
pub open spec fn scan_log(log: Seq<u8>, position: int, limits: ProtocolLimits) -> (
    Seq<RecordView>,
    int,
    LogEnd,
)
    decreases log.len() - position,
{
    match item_at(log, position, limits) {
        LogItemView::End => (seq![], position, LogEnd::Clean),
        LogItemView::Torn => (seq![], position, LogEnd::Torn),
        LogItemView::Broken(error) => (seq![], position, LogEnd::Broken(error)),
        LogItemView::Record(record, next) => if next <= position {
            (seq![], position, LogEnd::Clean)
        } else {
            let (rest, end, outcome) = scan_log(log, next, limits);
            (seq![record] + rest, end, outcome)
        },
    }
}

enum LogItem {
    End,
    Torn,
    Broken(PersistenceError),
    Record(WalRecord, usize),
}

fn read_item(log: &[u8], position: usize, limits: ProtocolLimits) -> (item: LogItem)
    requires
        position <= log@.len(),
    ensures
        match item {
            LogItem::End => item_at(log@, position as int, limits) == LogItemView::End,
            LogItem::Torn => item_at(log@, position as int, limits) == LogItemView::Torn,
            LogItem::Broken(error) => item_at(log@, position as int, limits)
                == LogItemView::Broken(error),
            LogItem::Record(record, next) => item_at(log@, position as int, limits)
                == LogItemView::Record(record@, next as int) && position < next <= log@.len(),
        },
{
    let length: usize = log.len();
    let left: usize = length - position;
    if left == 0 {
        return LogItem::End;
    }
    if left < 4 {
        return LogItem::Torn;
    }
    if !same_bytes(slice_subrange(log, position, position + 4), &RECORD_MAGIC) {
        return LogItem::Broken(
            PersistenceError::Corruption { offset: position as u64, reason: "invalid record magic" },
        );
    }
    if left < 32 {
        return LogItem::Torn;
    }
    let key_length: usize = u32_at(log, position + 24) as usize;
    let value_length: usize = u32_at(log, position + 28) as usize;
    match validate_lengths(key_length, value_length, limits) {
        Ok(_) => {},
        Err(error) => return LogItem::Broken(error),
    }
    let total: usize = RECORD_FIXED_TOTAL + key_length + value_length;
    if left < total {
        return LogItem::Torn;
    }
    let end: usize = position + total;
    match WalRecord::decode(slice_subrange(log, position, end), limits, position as u64) {
        Ok(record) => LogItem::Record(record, end),
        Err(error) => LogItem::Broken(error),
    }
}

/// Whether a log has its header.
pub open spec fn has_header(log: Seq<u8>) -> bool {
    log.len() >= 8 && log.take(8) == WAL_HEADER@
}

/// Whether a log has to be given its header before it is read: an empty one has. One that starts
/// otherwise is refused.
pub fn prepare_wal(log: &[u8]) -> (needs_header: Result<bool, PersistenceError>)
    ensures
        needs_header == (if log@.len() == 0 {
            Ok(true)
        } else if has_header(log@) {
            Ok(false)
        } else {
            Err(PersistenceError::InvalidHeader)
        }),
{
    if log.len() == 0 {
        Ok(true)
    } else if check_header(log) {
        Ok(false)
    } else {
        Err(PersistenceError::InvalidHeader)
    }
}

fn check_header(log: &[u8]) -> (good: bool)
    ensures
        good == has_header(log@),
{
    if log.len() < WAL_HEADER.len() {
        return false;
    }
    let header: &[u8] = slice_subrange(log, 0, WAL_HEADER.len());
    assert(header@ =~= log@.take(8));
    same_bytes(header, &WAL_HEADER)
}

/// What a recovery at `now` reports, where the store is left with this many keys.
pub open spec fn recovery_outcome(log: Seq<u8>, limits: ProtocolLimits, keys: nat) -> Result<
    RecoveryReport,
    PersistenceError,
> {
    let (records, end, outcome) = scan_log(log, 8, limits);
    match outcome {
        LogEnd::Broken(error) => Err(error),
        _ => match counted(keys) {
            Err(error) => Err(PersistenceError::Store(error)),
            Ok(recovered_keys) => Ok(
                RecoveryReport {
                    records_replayed: records.len() as u64,
                    recovered_keys,
                    truncated_tail_removed: outcome == LogEnd::Torn,
                    valid_bytes: end as u64,
                    snapshot_entries_loaded: 0,
                    snapshot_expired_entries_skipped: 0,
                },
            ),
        },
    }
}

/// Applies the records of a log at `now`, up to its end, to a record that the log ends inside of,
/// or to something that is no record. Expired entries are dropped at the end. Where the report
/// says that a torn tail was found, the log is to be cut to the valid bytes.
pub fn recover_wal_at(
    log: &[u8],
    store: &mut ShardedStore,
    limits: ProtocolLimits,
    now: Timestamp,
) -> (report: Result<RecoveryReport, PersistenceError>)
    requires
        old(store).valid(),
    ensures
        final(store).valid(),
        final(store).spec_shard_count() == old(store).spec_shard_count(),
        final(store)@.dom().finite(),
        if !has_header(log@) {
            &&& report == Err::<RecoveryReport, PersistenceError>(PersistenceError::InvalidHeader)
            &&& final(store)@ == old(store)@
            &&& final(store).counters() == old(store).counters()
        } else {
            let (records, end, outcome) = scan_log(log@, 8, limits);
            let replayed = all_applied(old(store)@, records, now);
            let counters = all_applied_counters(old(store).counters(), old(store)@, records, now);
            &&& report == recovery_outcome(log@, limits, final(store)@.dom().len())
            &&& match outcome {
                LogEnd::Broken(_) => final(store)@ == replayed && final(store).counters()
                    == counters,
                _ => {
                    &&& final(store)@ == live(replayed, now)
                    &&& final(store).counters() == (MetricsSnapshot {
                        expired_keys_total: counters.expired_keys_total.wrapping_add(
                            saturated(replayed.dom().len() - final(store)@.dom().len()),
                        ),
                        ..counters
                    })
                },
            }
        },
{
    proof {
        store.lemma_finite();
    }
    if !check_header(log) {
        return Err(PersistenceError::InvalidHeader);
    }
    let mut report: RecoveryReport = RecoveryReport {
        valid_bytes: WAL_HEADER.len() as u64,
        ..RecoveryReport::default()
    };
    let ghost all = scan_log(log@, 8, limits);
    let ghost mut done: Seq<RecordView> = seq![];
    let mut position: usize = WAL_HEADER.len();
    let mut open: bool = true;
    assert(done + all.0 =~= all.0);
    while open
        invariant
            8 <= position <= log@.len(),
            store.valid(),
            store.spec_shard_count() == old(store).spec_shard_count(),
            has_header(log@),
            all == scan_log(log@, 8, limits),
            store@ == all_applied(old(store)@, done, now),
            store.counters() == all_applied_counters(
                old(store).counters(),
                old(store)@,
                done,
                now,
            ),
            report.valid_bytes == position,
            report.records_replayed == done.len(),
            done.len() <= position,
            report.recovered_keys == 0,
            report.snapshot_entries_loaded == 0,
            report.snapshot_expired_entries_skipped == 0,
            open ==> !report.truncated_tail_removed && all == ({
                let (rest, end, outcome) = scan_log(log@, position as int, limits);
                (done + rest, end, outcome)
            }),
            !open ==> all == (
                done,
                position as int,
                if report.truncated_tail_removed {
                    LogEnd::Torn
                } else {
                    LogEnd::Clean
                },
            ),
        decreases log@.len() - position + if open { 1int } else { 0int },
    {
        assert(done + seq![] =~= done);
        match read_item(log, position, limits) {
            LogItem::End => {
                open = false;
            },
            LogItem::Torn => {
                report.truncated_tail_removed = true;
                open = false;
            },
            LogItem::Broken(error) => {
                proof {
                    store.lemma_finite();
                }
                return Err(error);
            },
            LogItem::Record(record, next) => {
                proof {
                    lemma_item_applies(log@, position as int, limits);
                    let (rest, end, outcome) = scan_log(log@, next as int, limits);
                    assert(done + (seq![record@] + rest) =~= done.push(record@) + rest);
                    assert(done.push(record@).drop_last() =~= done);
                }
                match apply_record(store, &record, now) {
                    Ok(_) => {},
                    Err(error) => return Err(error),
                }
                proof {
                    done = done.push(record@);
                }
                report.records_replayed = report.records_replayed.saturating_add(1);
                report.valid_bytes = next as u64;
                position = next;
            },
        }
    }
    match store.len_at(now) {
        Ok(keys) => {
            report.recovered_keys = keys;
        },
        Err(error) => return Err(PersistenceError::Store(error)),
    }
    Ok(report)
}

/// Applies the records of a log.
pub fn recover_wal(log: &[u8], store: &mut ShardedStore, limits: ProtocolLimits) -> (report: Result<
    RecoveryReport,
    PersistenceError,
>)
    requires
        old(store).valid(),
    ensures
        final(store).valid(),
        final(store).spec_shard_count() == old(store).spec_shard_count(),
        final(store)@.dom().finite(),
        if !has_header(log@) {
            &&& report == Err::<RecoveryReport, PersistenceError>(PersistenceError::InvalidHeader)
            &&& final(store)@ == old(store)@
            &&& final(store).counters() == old(store).counters()
        } else {
            let (records, end, outcome) = scan_log(log@, 8, limits);
            &&& report == recovery_outcome(log@, limits, final(store)@.dom().len())
            &&& exists|now: Timestamp|
                {
                    let replayed = #[trigger] all_applied(old(store)@, records, now);
                    let counters = all_applied_counters(
                        old(store).counters(),
                        old(store)@,
                        records,
                        now,
                    );
                    match outcome {
                        LogEnd::Broken(_) => final(store)@ == replayed && final(store).counters()
                            == counters,
                        _ => final(store)@ == live(replayed, now) && final(store).counters() == (
                        MetricsSnapshot {
                            expired_keys_total: counters.expired_keys_total.wrapping_add(
                                saturated(replayed.dom().len() - final(store)@.dom().len()),
                            ),
                            ..counters
                        }),
                    }
                }
        },
{
    recover_wal_at(log, store, limits, Timestamp::now())
}

proof fn lemma_item_applies(log: Seq<u8>, position: int, limits: ProtocolLimits)
    requires
        0 <= position <= log.len(),
        item_at(log, position, limits) is Record,
    ensures
        apply_problem(item_at(log, position, limits)->Record_0) is None,
        item_at(log, position, limits)->Record_1 >= position + RECORD_FIXED_TOTAL,
{
}

} // verus!
