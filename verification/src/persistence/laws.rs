//! What holds of the log and its replay as a whole.

use vstd::prelude::*;

use crate::error::PersistenceError;
use crate::persistence::batch::{batch_end, batch_records, records_bytes};
use crate::persistence::log::{
    all_applied, applied, has_header, item_at, recovery_outcome, scan_log, stated_length, LogEnd,
    LogItemView, RecoveryReport,
};
use crate::persistence::record::{
    instant_of, law_record_round_trip, lemma_record_layout, RecordType, RecordView,
};
use crate::protocol::frame::ProtocolLimits;
use crate::persistence::database::{mutated, MutationView, StagedView};
use crate::persistence::record::stamped;
use crate::store::entry::{live, EntryView};
use crate::store::laws::present;
use crate::store::sharded::{found, kept_for_good};
use crate::time::Timestamp;

verus! {

proof fn lemma_same_item(first: Seq<u8>, second: Seq<u8>, position: int, limits: ProtocolLimits)
    requires
        0 <= position,
        item_at(first, position, limits) is Record,
        item_at(first, position, limits)->Record_1 <= second.len(),
        item_at(first, position, limits)->Record_1 <= first.len(),
        forall|i: int|
            0 <= i < item_at(first, position, limits)->Record_1 ==> first[i] == second[i],
    ensures
        item_at(second, position, limits) == item_at(first, position, limits),
{
    let next = item_at(first, position, limits)->Record_1;
    assert(first.subrange(position, position + 4) =~= second.subrange(position, position + 4));
    assert(first.subrange(position + 24, position + 28) =~= second.subrange(
        position + 24,
        position + 28,
    ));
    assert(first.subrange(position + 28, position + 32) =~= second.subrange(
        position + 28,
        position + 32,
    ));
    assert(first.subrange(position, next) =~= second.subrange(position, next));
}

proof fn lemma_scan_bounds(log: Seq<u8>, position: int, limits: ProtocolLimits)
    requires
        0 <= position <= log.len(),
    ensures
        position <= scan_log(log, position, limits).1 <= log.len(),
        scan_log(log, position, limits).2 == LogEnd::Clean ==> scan_log(log, position, limits).1
            == log.len(),
    decreases log.len() - position,
{
    if let LogItemView::Record(record, next) = item_at(log, position, limits) {
        lemma_scan_bounds(log, next, limits);
    }
}

proof fn lemma_scan_goes_on(
    log: Seq<u8>,
    tail: Seq<u8>,
    position: int,
    limits: ProtocolLimits,
)
    requires
        0 <= position <= log.len(),
        scan_log(log, position, limits).2 == LogEnd::Clean,
    ensures
        scan_log(log + tail, position, limits) == ({
            let (records, end, outcome) = scan_log(log, position, limits);
            let (more, last, ending) = scan_log(log + tail, log.len() as int, limits);
            (records + more, last, ending)
        }),
    decreases log.len() - position,
{
    match item_at(log, position, limits) {
        LogItemView::Record(record, next) => {
            lemma_same_item(log, log + tail, position, limits);
            lemma_scan_goes_on(log, tail, next, limits);
            let (records, end, outcome) = scan_log(log, next, limits);
            let (more, last, ending) = scan_log(log + tail, log.len() as int, limits);
            assert(seq![record] + (records + more) =~= (seq![record] + records) + more);
        },
        _ => {
            let (more, last, ending) = scan_log(log + tail, log.len() as int, limits);
            assert(seq![] + more =~= more);
        },
    }
}

proof fn lemma_whole_item(
    log: Seq<u8>,
    record: RecordView,
    rest: Seq<u8>,
    limits: ProtocolLimits,
)
    requires
        record.encodable(),
        record.accepted(limits),
    ensures
        item_at(log + (record.encoded() + rest), log.len() as int, limits) == LogItemView::Record(
            record,
            (log.len() + record.encoded().len()) as int,
        ),
{
    broadcast use crate::wire::group_wire;

    lemma_record_layout(record);
    let own = record.encoded();
    let whole = log + (own + rest);
    let start = log.len() as int;
    let length = own.len() as int;
    assert(whole.subrange(start, start + 4) =~= own.take(4));
    assert(whole.subrange(start + 24, start + 28) =~= own.subrange(24, 28));
    assert(whole.subrange(start + 28, start + 32) =~= own.subrange(28, 32));
    assert(whole.subrange(start, start + length) =~= own);
    law_record_round_trip(record, limits, start as u64);
}

/// Whether a reader accepts every record of a list.
pub open spec fn records_accepted(records: Seq<RecordView>, limits: ProtocolLimits) -> bool {
    forall|i: int|
        0 <= i < records.len() ==> (#[trigger] records[i]).encodable() && records[i].accepted(
            limits,
        )
}

proof fn lemma_scan_records(log: Seq<u8>, records: Seq<RecordView>, limits: ProtocolLimits)
    requires
        records_accepted(records, limits),
    ensures
        scan_log(log + records_bytes(records), log.len() as int, limits) == (
            records,
            (log.len() + records_bytes(records).len()) as int,
            LogEnd::Clean,
        ),
    decreases records.len(),
{
    if records.len() == 0 {
        assert(log + records_bytes(records) =~= log);
        assert(records =~= seq![]);
    } else {
        let first = records[0];
        let rest = records.skip(1);
        let longer = log + first.encoded();
        lemma_whole_item(log, first, records_bytes(rest), limits);
        lemma_record_layout(first);
        assert(longer + records_bytes(rest) =~= log + (first.encoded() + records_bytes(rest)));
        assert forall|i: int| 0 <= i < rest.len() implies (#[trigger] rest[i]).encodable()
            && rest[i].accepted(limits) by {
            assert(rest[i] == records[i + 1]);
        }
        lemma_scan_records(longer, rest, limits);
        assert(seq![first] + rest =~= records);
    }
}

/// Records that are appended to a log that ends cleanly are read after those that were there.
pub proof fn law_appended_records_are_read_back(
    log: Seq<u8>,
    start: int,
    records: Seq<RecordView>,
    limits: ProtocolLimits,
)
    requires
        0 <= start <= log.len(),
        scan_log(log, start, limits).2 == LogEnd::Clean,
        records_accepted(records, limits),
    ensures
        scan_log(log + records_bytes(records), start, limits) == (
            scan_log(log, start, limits).0 + records,
            (log.len() + records_bytes(records).len()) as int,
            LogEnd::Clean,
        ),
{
    lemma_scan_goes_on(log, records_bytes(records), start, limits);
    lemma_scan_records(log, records, limits);
}

/// A crash inside an append costs the record that was being appended and nothing else: the log
/// reads as torn exactly where that record starts, after all records that were there.
pub proof fn law_torn_append_loses_nothing_else(
    log: Seq<u8>,
    start: int,
    record: RecordView,
    kept: int,
    limits: ProtocolLimits,
)
    requires
        0 <= start <= log.len(),
        scan_log(log, start, limits).2 == LogEnd::Clean,
        record.encodable(),
        record.accepted(limits),
        0 < kept < record.encoded().len(),
    ensures
        scan_log(log + record.encoded().take(kept), start, limits) == (
            scan_log(log, start, limits).0,
            log.len() as int,
            LogEnd::Torn,
        ),
{
    broadcast use crate::wire::group_wire;

    let own = record.encoded();
    let part = own.take(kept);
    let whole = log + part;
    let place = log.len() as int;
    lemma_scan_goes_on(log, part, start, limits);
    lemma_record_layout(record);
    if kept >= 4 {
        assert(whole.subrange(place, place + 4) =~= own.take(4));
    }
    if kept >= 32 {
        assert(whole.subrange(place + 24, place + 28) =~= own.subrange(24, 28));
        assert(whole.subrange(place + 28, place + 32) =~= own.subrange(28, 32));
    }
    assert(item_at(whole, place, limits) == LogItemView::Torn);
    let before = scan_log(log, start, limits).0;
    assert(before + seq![] =~= before);
}

/// A log that is cut to its valid bytes, as recovery does with a torn one, then holds the same
/// records and ends cleanly: recovering again changes nothing.
pub proof fn law_repaired_log_is_clean(log: Seq<u8>, start: int, limits: ProtocolLimits)
    requires
        0 <= start <= log.len(),
    ensures
        ({
            let (records, end, outcome) = scan_log(log, start, limits);
            &&& start <= end <= log.len()
            &&& scan_log(log.take(end), start, limits) == (records, end, LogEnd::Clean)
        }),
    decreases log.len() - start,
{
    lemma_scan_bounds(log, start, limits);
    let (records, end, outcome) = scan_log(log, start, limits);
    match item_at(log, start, limits) {
        LogItemView::Record(record, next) => {
            law_repaired_log_is_clean(log, next, limits);
            lemma_scan_bounds(log, next, limits);
            lemma_same_item(log, log.take(end), start, limits);
        },
        _ => {},
    }
}

/// What a map has under a key.
pub open spec fn entry_under(map: Map<Seq<u8>, EntryView>, key: Seq<u8>) -> Option<EntryView> {
    if map.dom().contains(key) {
        Some(map[key])
    } else {
        None
    }
}

/// Whether a record decides what its key holds, whatever it held before.
pub open spec fn decides(record: RecordView, key: Seq<u8>) -> bool {
    record.key == key && record.record_type != RecordType::Persist
}

/// Whether one of the records decides what a key holds.
pub open spec fn decided(records: Seq<RecordView>, key: Seq<u8>) -> bool
    decreases records.len(),
{
    records.len() > 0 && (decides(records.last(), key) || decided(records.drop_last(), key))
}

/// What a key holds after a log was replayed is decided by the log alone, where one of its records
/// writes or removes the key: a snapshot that was loaded before makes no difference.
pub proof fn law_replay_decides_written_keys(
    first: Map<Seq<u8>, EntryView>,
    second: Map<Seq<u8>, EntryView>,
    records: Seq<RecordView>,
    key: Seq<u8>,
    now: Timestamp,
)
    requires
        decided(records, key),
    ensures
        entry_under(all_applied(first, records, now), key) == entry_under(
            all_applied(second, records, now),
            key,
        ),
    decreases records.len(),
{
    if !decides(records.last(), key) {
        law_replay_decides_written_keys(first, second, records.drop_last(), key, now);
    }
}

/// A key that no record of a log is about keeps what it holds.
pub proof fn law_replay_leaves_other_keys(
    map: Map<Seq<u8>, EntryView>,
    records: Seq<RecordView>,
    key: Seq<u8>,
    now: Timestamp,
)
    requires
        forall|i: int| 0 <= i < records.len() ==> (#[trigger] records[i]).key != key,
    ensures
        entry_under(all_applied(map, records, now), key) == entry_under(map, key),
    decreases records.len(),
{
    if records.len() > 0 {
        let before = records.drop_last();
        assert forall|i: int| 0 <= i < before.len() implies (#[trigger] before[i]).key != key by {
            assert(before[i] == records[i]);
        }
        law_replay_leaves_other_keys(map, before, key, now);
        assert(records[records.len() - 1].key != key);
    }
}

/// When the value expires that the last of the records to decide what a key holds has written, if
/// it does.
pub open spec fn last_expiration(records: Seq<RecordView>, key: Seq<u8>) -> Option<Timestamp>
    decreases records.len(),
{
    if records.len() == 0 {
        None
    } else if !decides(records.last(), key) {
        last_expiration(records.drop_last(), key)
    } else if records.last().record_type == RecordType::SetEx {
        Some(instant_of(records.last().expires_at_ms->0))
    } else {
        None
    }
}

/// Whether the expiration of a key is taken away after the last of the records that decide what it
/// holds.
pub open spec fn persisted_since(records: Seq<RecordView>, key: Seq<u8>) -> bool
    decreases records.len(),
{
    records.len() > 0 && !decides(records.last(), key) && (records.last().key == key
        || persisted_since(records.drop_last(), key))
}

/// Whether a value is kept for good that would have expired between two instants.
pub open spec fn outlives(
    records: Seq<RecordView>,
    key: Seq<u8>,
    now: Timestamp,
    later: Timestamp,
) -> bool {
    match last_expiration(records, key) {
        Some(instant) => now.nanos < instant.nanos <= later.nanos && persisted_since(records, key),
        None => false,
    }
}

/// What records that are applied at one instant leave under a key.
pub proof fn lemma_left_under(
    map: Map<Seq<u8>, EntryView>,
    records: Seq<RecordView>,
    key: Seq<u8>,
    now: Timestamp,
)
    ensures
        ({
            let after = entry_under(all_applied(map, records, now), key);
            if decided(records, key) {
                &&& match last_expiration(records, key) {
                    Some(instant) => if instant.nanos <= now.nanos {
                        after is None
                    } else {
                        after is Some && after->0.expires_at == (if persisted_since(records, key) {
                            None
                        } else {
                            Some(instant)
                        })
                    },
                    None => after is Some ==> after->0.expires_at is None,
                }
                &&& after is Some ==> after->0.value == last_value(records, key)
                &&& last_expiration(records, key) is None ==> (after is None <==> last_removes(
                    records,
                    key,
                ))
            } else if persisted_since(records, key) {
                after == entry_under(kept_for_good(map, key, now), key)
            } else {
                after == entry_under(map, key)
            }
        }),
    decreases records.len(),
{
    if records.len() > 0 {
        lemma_left_under(map, records.drop_last(), key, now);
    }
}

/// The value that the last of the records to decide what a key holds has written.
pub open spec fn last_value(records: Seq<RecordView>, key: Seq<u8>) -> Seq<u8>
    decreases records.len(),
{
    if records.len() == 0 {
        seq![]
    } else if decides(records.last(), key) {
        records.last().value
    } else {
        last_value(records.drop_last(), key)
    }
}

/// Whether the last of the records to decide what a key holds has removed it.
pub open spec fn last_removes(records: Seq<RecordView>, key: Seq<u8>) -> bool
    decreases records.len(),
{
    if records.len() == 0 {
        false
    } else if decides(records.last(), key) {
        records.last().record_type == RecordType::Del
    } else {
        last_removes(records.drop_last(), key)
    }
}

/// Records can be applied once more to the data that they led to: every key then reads as before,
/// unless it was kept for good and would have expired in between.
pub proof fn law_reapplying_changes_nothing(
    map: Map<Seq<u8>, EntryView>,
    records: Seq<RecordView>,
    key: Seq<u8>,
    now: Timestamp,
    later: Timestamp,
)
    requires
        now.nanos <= later.nanos,
        !outlives(records, key, now, later),
    ensures
        ({
            let once = all_applied(map, records, now);
            found(all_applied(once, records, later), key, later) == found(once, key, later)
        }),
{
    let once = all_applied(map, records, now);
    lemma_left_under(map, records, key, now);
    lemma_left_under(once, records, key, later);
}

/// Applying two runs of records, one after the other, is applying them as one.
pub proof fn law_batches_add_up(
    map: Map<Seq<u8>, EntryView>,
    first: Seq<RecordView>,
    second: Seq<RecordView>,
    now: Timestamp,
)
    ensures
        all_applied(all_applied(map, first, now), second, now) == all_applied(
            map,
            first + second,
            now,
        ),
    decreases second.len(),
{
    if second.len() == 0 {
        assert(first + second =~= first);
    } else {
        law_batches_add_up(map, first, second.drop_last(), now);
        assert((first + second).drop_last() =~= first + second.drop_last());
        assert((first + second).last() == second.last());
    }
}

/// A value is found after a replay exactly when the last record that is about its key left it
/// there and it has not expired.
pub proof fn law_last_record_counts(
    map: Map<Seq<u8>, EntryView>,
    records: Seq<RecordView>,
    now: Timestamp,
    later: Timestamp,
)
    requires
        records.len() > 0,
    ensures
        ({
            let last = records.last();
            let after = all_applied(map, records, now);
            match last.record_type {
                RecordType::Put => found(after, last.key, later) == Some(
                    EntryView { value: last.value, expires_at: None },
                ),
                RecordType::Del => found(after, last.key, later) is None,
                RecordType::SetEx => {
                    let expires_at = instant_of(last.expires_at_ms->0);
                    found(after, last.key, later) == (if now.nanos < expires_at.nanos && later.nanos
                        < expires_at.nanos {
                        Some(EntryView { value: last.value, expires_at: Some(expires_at) })
                    } else {
                        None
                    })
                },
                RecordType::Persist => {
                    let before = all_applied(map, records.drop_last(), now);
                    match found(before, last.key, now) {
                        Some(entry) => found(after, last.key, later) == Some(
                            EntryView { value: entry.value, expires_at: None },
                        ),
                        None => found(after, last.key, later) is None,
                    }
                },
            }
        }),
{
}

proof fn lemma_applied_alive(
    first: Map<Seq<u8>, EntryView>,
    second: Map<Seq<u8>, EntryView>,
    record: RecordView,
    now: Timestamp,
)
    requires
        live(first, now) == live(second, now),
    ensures
        live(applied(first, record, now), now) == live(applied(second, record, now), now),
{
    assert forall|key: Seq<u8>| #[trigger] found(first, key, now) == found(second, key, now) by {
        let (one, other) = (live(first, now), live(second, now));
        assert(one.dom().contains(key) == other.dom().contains(key));
        if one.dom().contains(key) {
            assert(one[key] == first[key] && other[key] == second[key]);
        }
    }
    let (left, right) = (applied(first, record, now), applied(second, record, now));
    assert forall|key: Seq<u8>| found(left, key, now) == #[trigger] found(right, key, now) by {
        assert(found(first, key, now) == found(second, key, now));
        assert(found(first, record.key, now) == found(second, record.key, now));
    }
    assert forall|key: Seq<u8>| true implies {
        &&& #[trigger] live(left, now).dom().contains(key) <==> live(right, now).dom().contains(key)
        &&& live(left, now).dom().contains(key) ==> live(left, now)[key] == live(right, now)[key]
    } by {
        assert(found(left, key, now) == found(right, key, now));
    }
    assert(live(left, now) =~= live(right, now));
}

/// A follower that starts from a snapshot of the leader's live entries and applies the records
/// that the leader wrote since sees what the leader sees.
pub proof fn law_follower_converges(
    leader: Map<Seq<u8>, EntryView>,
    records: Seq<RecordView>,
    captured: Timestamp,
    now: Timestamp,
)
    requires
        captured.nanos <= now.nanos,
    ensures
        live(all_applied(live(leader, captured), records, now), now) == live(
            all_applied(leader, records, now),
            now,
        ),
    decreases records.len(),
{
    if records.len() == 0 {
        assert(live(live(leader, captured), now) =~= live(leader, now));
    } else {
        law_follower_converges(leader, records.drop_last(), captured, now);
        lemma_applied_alive(
            all_applied(live(leader, captured), records.drop_last(), now),
            all_applied(leader, records.drop_last(), now),
            records.last(),
            now,
        );
    }
}

/// The record that a change is logged with.
pub open spec fn logged(mutation: MutationView, now: Timestamp) -> Result<
    RecordView,
    PersistenceError,
> {
    match mutation {
        MutationView::Put { key, value } => stamped(RecordType::Put, None, key, value, now),
        MutationView::SetEx { key, value, expires_at } => stamped(
            RecordType::SetEx,
            Some(expires_at),
            key,
            value,
            now,
        ),
        MutationView::Delete { key } => stamped(RecordType::Del, None, key, seq![], now),
        MutationView::Persist { key } => stamped(RecordType::Persist, None, key, seq![], now),
        MutationView::Replicated(record) => Ok(record),
    }
}

/// Replaying the record of a change does what the change did. Only the expiration of a value is
/// cut to the millisecond, by less than one.
pub proof fn law_replay_repeats_the_change(
    data: Map<Seq<u8>, EntryView>,
    mutation: MutationView,
    now: Timestamp,
)
    requires
        logged(mutation, now) is Ok,
        crate::persistence::log::apply_problem(logged(mutation, now)->Ok_0) is None,
    ensures
        ({
            let record = logged(mutation, now)->Ok_0;
            match mutation {
                MutationView::SetEx { key, value, expires_at } => {
                    let cut = instant_of(record.expires_at_ms->0);
                    &&& cut.nanos <= expires_at.nanos < cut.nanos + 1_000_000
                    &&& now.nanos < cut.nanos ==> applied(data, record, now) == data.insert(
                        key,
                        EntryView { value, expires_at: Some(cut) },
                    )
                },
                _ => applied(data, record, now) == mutated(data, mutation, now),
            }
        }),
{
}

/// A change that was staged and appended is in the log, after all that was there.
pub proof fn law_appended_changes_are_in_the_log(
    log: Seq<u8>,
    staged: StagedView,
    record: RecordView,
    limits: ProtocolLimits,
)
    requires
        8 <= log.len(),
        scan_log(log, 8, limits).2 == LogEnd::Clean,
        record.encodable(),
        record.accepted(limits),
        staged.encoded == record.encoded(),
    ensures
        scan_log(log + staged.encoded, 8, limits) == (
            scan_log(log, 8, limits).0.push(record),
            (log.len() + staged.encoded.len()) as int,
            LogEnd::Clean,
        ),
{
    let one = seq![record];
    assert(records_bytes(one.skip(1)) =~= seq![]);
    assert(records_bytes(one) =~= record.encoded());
    law_appended_records_are_read_back(log, 8, one, limits);
    let before = scan_log(log, 8, limits).0;
    assert(before + one =~= before.push(record));
}

/// A record does to its key what it says, at the instant at which it is applied, and touches no
/// other key. A value that has expired by then is removed, and an expiration that is taken away is
/// taken from a value that is there.
pub proof fn law_records_do_what_they_say(
    map: Map<Seq<u8>, EntryView>,
    record: RecordView,
    now: Timestamp,
    key: Seq<u8>,
)
    ensures
        ({
            let after = applied(map, record, now);
            let until = record.expires_at_ms->0 * 1_000_000;
            if key != record.key {
                &&& after.dom().contains(key) <==> map.dom().contains(key)
                &&& map.dom().contains(key) ==> after[key] == map[key]
            } else {
                match record.record_type {
                    RecordType::Put => {
                        &&& after.dom().contains(key)
                        &&& after[key].value == record.value && after[key].expires_at is None
                    },
                    RecordType::Del => !after.dom().contains(key),
                    RecordType::SetEx => {
                        &&& after.dom().contains(key) <==> now.nanos < until
                        &&& now.nanos < until ==> after[key].value == record.value
                            && after[key].expires_at is Some && after[key].expires_at->0.nanos
                            == until
                    },
                    RecordType::Persist => {
                        &&& after.dom().contains(key) <==> present(map, key, now)
                        &&& present(map, key, now) ==> after[key].value == map[key].value
                            && after[key].expires_at is None
                    },
                }
            }
        }),
{
}

/// Records are applied one after the other, the first one first.
pub proof fn law_records_are_applied_in_order(
    map: Map<Seq<u8>, EntryView>,
    records: Seq<RecordView>,
    record: RecordView,
    now: Timestamp,
)
    ensures
        all_applied(map, seq![], now) == map,
        all_applied(map, records.push(record), now) == applied(
            all_applied(map, records, now),
            record,
            now,
        ),
{
    assert(records.push(record).drop_last() =~= records);
}

/// A record whose key, value or checksum was damaged in the log is not skipped: everything before
/// it is read, and the recovery stops there with an error that says where.
pub proof fn law_damaged_records_stop_recovery(
    log: Seq<u8>,
    record: RecordView,
    index: int,
    byte: u8,
    rest: Seq<u8>,
    limits: ProtocolLimits,
    keys: nat,
)
    requires
        8 <= log.len(),
        scan_log(log, 8, limits).2 == LogEnd::Clean,
        record.encodable(),
        record.accepted(limits),
        32 <= index < record.encoded().len(),
        byte != record.encoded()[index],
    ensures
        ({
            let damaged = log + (record.encoded().update(index, byte) + rest);
            let error = PersistenceError::ChecksumMismatch { offset: log.len() as u64 };
            &&& scan_log(damaged, 8, limits) == (
                scan_log(log, 8, limits).0,
                log.len() as int,
                LogEnd::Broken(error),
            )
            &&& recovery_outcome(damaged, limits, keys) == Err::<RecoveryReport, PersistenceError>(
                error,
            )
        }),
{
    broadcast use crate::wire::group_wire;

    let own = record.encoded();
    let changed = own.update(index, byte);
    let damaged = log + (changed + rest);
    let place = log.len() as int;
    lemma_record_layout(record);
    lemma_scan_goes_on(log, changed + rest, 8, limits);
    assert(damaged.subrange(place, place + 4) =~= own.take(4));
    assert(damaged.subrange(place + 24, place + 28) =~= own.subrange(24, 28));
    assert(damaged.subrange(place + 28, place + 32) =~= own.subrange(28, 32));
    assert(damaged.subrange(place, place + own.len()) =~= changed);
    crate::persistence::record::law_changed_record_is_refused(
        record,
        limits,
        place as u64,
        index,
        byte,
    );
    let before = scan_log(log, 8, limits).0;
    assert(before + seq![] =~= before);
}

/// A recovery reports every record of the log, the keys that are left, and the bytes that hold
/// them. It says that a tail was cut exactly where the log ended inside a record.
pub proof fn law_recoveries_are_reported(
    records: Seq<RecordView>,
    torn: RecordView,
    kept: int,
    limits: ProtocolLimits,
    keys: usize,
)
    requires
        records_accepted(records, limits),
        torn.encodable(),
        torn.accepted(limits),
        0 < kept < torn.encoded().len(),
        8 + records_bytes(records).len() <= u64::MAX,
        records.len() <= u64::MAX,
    ensures
        ({
            let log = seq![0x46u8, 0x4b, 0x56, 0x57, 1, 0, 0, 0] + records_bytes(records);
            let clean = recovery_outcome(log, limits, keys as nat);
            let cut = recovery_outcome(log + torn.encoded().take(kept), limits, keys as nat);
            &&& has_header(log)
            &&& clean is Ok && cut is Ok
            &&& clean->Ok_0.records_replayed == records.len()
            &&& clean->Ok_0.recovered_keys == keys
            &&& clean->Ok_0.valid_bytes == log.len()
            &&& !clean->Ok_0.truncated_tail_removed
            &&& cut->Ok_0.truncated_tail_removed
            &&& cut->Ok_0.valid_bytes == log.len()
            &&& cut->Ok_0.records_replayed == records.len()
            &&& cut->Ok_0.recovered_keys == keys
        }),
{
    let header = seq![0x46u8, 0x4b, 0x56, 0x57, 1, 0, 0, 0];
    let log = header + records_bytes(records);
    assert(header =~= crate::persistence::record::WAL_HEADER@);
    assert(log.take(8) =~= header);
    lemma_scan_records(header, records, limits);
    law_torn_append_loses_nothing_else(log, 8, torn, kept, limits);
}

proof fn lemma_batch_takes(
    log: Seq<u8>,
    before: Seq<u8>,
    start: int,
    records: Seq<RecordView>,
    maximum: usize,
    limits: ProtocolLimits,
    count: int,
)
    requires
        log == before + records_bytes(records),
        log.len() <= usize::MAX,
        0 <= start <= before.len(),
        records_accepted(records, limits),
        before.len() == start && records.len() > 0 ==> records[0].encoded().len() <= maximum,
        0 <= count <= records.len(),
    ensures
        ({
            let end = batch_end(log, before.len() as int, start, maximum, limits);
            let wanted = before.len() + records_bytes(records.take(count)).len();
            end is Ok && (wanted - start <= maximum ==> wanted <= end->Ok_0)
        }),
    decreases records.len(),
{
    broadcast use crate::wire::group_wire;

    let place = before.len() as int;
    let taken = records.take(count);
    if records.len() == 0 {
        assert(taken =~= seq![]);
    } else {
        let first = records[0];
        let rest = records.skip(1);
        let own = first.encoded();
        let next = place + own.len();
        lemma_record_layout(first);
        assert(log =~= (before + own) + records_bytes(rest));
        assert(log.subrange(place, place + 4) =~= own.take(4));
        assert(log.subrange(place + 24, place + 28) =~= own.subrange(24, 28));
        assert(log.subrange(place + 28, place + 32) =~= own.subrange(28, 32));
        assert(log.subrange(place, next) =~= own);
        law_record_round_trip(first, limits, place as u64);
        assert forall|i: int| 0 <= i < rest.len() implies (#[trigger] rest[i]).encodable()
            && rest[i].accepted(limits) by {
            assert(rest[i] == records[i + 1]);
        }
        let follows = if count > 0 {
            count - 1
        } else {
            0
        };
        if count > 0 {
            assert(taken.skip(1) =~= rest.take(count - 1));
            assert(taken[0] == first);
        } else {
            assert(taken =~= seq![]);
        }
        if place == start || next - start <= maximum {
            lemma_batch_takes(log, before + own, start, rest, maximum, limits, follows);
        }
        if count == 0 {
            assert(place <= batch_end(log, place, start, maximum, limits)->Ok_0) by {
                lemma_batch_forward(log, place, start, maximum, limits);
            }
        }
    }
}

proof fn lemma_batch_forward(
    log: Seq<u8>,
    position: int,
    start: int,
    maximum: usize,
    limits: ProtocolLimits,
)
    requires
        0 <= start <= position,
        batch_end(log, position, start, maximum, limits) is Ok,
    ensures
        position <= batch_end(log, position, start, maximum, limits)->Ok_0,
    decreases log.len() - position,
{
    let total = stated_length(log, position);
    let taken = position - start;
    if position < log.len() && !(taken > 0 && taken + total > maximum) {
        lemma_batch_forward(log, position + total, start, maximum, limits);
    }
}

/// A batch takes as many records as fit: where the next record fits in a batch there is one, and
/// any number of the records that come next, if they fit together, are all in it. A record that
/// does not fit in any batch is an error of its own.
pub proof fn law_batches_take_what_fits(
    before: Seq<u8>,
    records: Seq<RecordView>,
    maximum: usize,
    limits: ProtocolLimits,
    count: int,
)
    requires
        records_accepted(records, limits),
        before.len() + records_bytes(records).len() <= usize::MAX,
        0 < count <= records.len(),
    ensures
        ({
            let log = before + records_bytes(records);
            let start = before.len() as int;
            let end = batch_end(log, start, start, maximum, limits);
            let length = records_bytes(records.take(count)).len();
            &&& end is Ok <==> records[0].encoded().len() <= maximum
            &&& end is Ok && length <= maximum ==> start + length <= end->Ok_0
            &&& end is Ok ==> end->Ok_0 <= start + maximum
            &&& end is Err ==> end->Err_0 == PersistenceError::InvalidMetadata(
                "replication batch cannot contain one WAL record",
            )
        }),
{
    broadcast use crate::wire::group_wire;

    let log = before + records_bytes(records);
    let start = before.len() as int;
    let own = records[0].encoded();
    if own.len() <= maximum {
        lemma_batch_takes(log, before, start, records, maximum, limits, count);
        crate::persistence::batch::law_batches_hold_whole_records(log, start, maximum, limits, 0);
    } else {
        lemma_record_layout(records[0]);
        assert(log.subrange(start, start + 4) =~= own.take(4));
        assert(log.subrange(start + 24, start + 28) =~= own.subrange(24, 28));
        assert(log.subrange(start + 28, start + 32) =~= own.subrange(28, 32));
    }
}

#[verifier::spinoff_prover]
#[verifier::rlimit(60)]
proof fn lemma_batch_reads(
    before: Seq<u8>,
    records: Seq<RecordView>,
    tail: Seq<u8>,
    start_offset: u64,
    limits: ProtocolLimits,
)
    requires
        records_accepted(records, limits),
        before.len() + records_bytes(records).len() + tail.len() <= usize::MAX,
        start_offset + before.len() + records_bytes(records).len() + tail.len() <= u64::MAX,
    ensures
        ({
            let batch = before + (records_bytes(records) + tail);
            let place = (before.len() + records_bytes(records).len()) as int;
            batch_records(batch, before.len() as int, start_offset, limits) == (match batch_records(
                batch,
                place,
                start_offset,
                limits,
            ) {
                Ok(rest) => Ok(records + rest),
                Err(error) => Err(error),
            })
        }),
    decreases records.len(),
{
    broadcast use crate::wire::group_wire;

    let batch = before + (records_bytes(records) + tail);
    let start = before.len() as int;
    if records.len() == 0 {
        if let Ok(rest) = batch_records(batch, start, start_offset, limits) {
            assert(records + rest =~= rest);
        }
    } else {
        let first = records[0];
        let rest = records.skip(1);
        let own = first.encoded();
        let longer = before + own;
        lemma_record_layout(first);
        assert(batch =~= longer + (records_bytes(rest) + tail));
        assert(batch.subrange(start + 24, start + 28) =~= own.subrange(24, 28));
        assert(batch.subrange(start + 28, start + 32) =~= own.subrange(28, 32));
        assert(batch.subrange(start, start + own.len()) =~= own);
        law_record_round_trip(first, limits, (start_offset + start) as u64);
        assert forall|i: int| 0 <= i < rest.len() implies (#[trigger] rest[i]).encodable()
            && rest[i].accepted(limits) by {
            assert(rest[i] == records[i + 1]);
        }
        lemma_batch_reads(longer, rest, tail, start_offset, limits);
        let place = (before.len() + records_bytes(records).len()) as int;
        if let Ok(last) = batch_records(batch, place, start_offset, limits) {
            assert(seq![first] + (rest + last) =~= records + last);
        }
    }
}

/// A batch is read as the records whose bytes it is, in their order, wherever in the leader's log it
/// stands. One in which a key, a value or a checksum was damaged is refused as a whole, with the
/// place of the damaged record in the leader's log.
pub proof fn law_batches_are_read_as_written(
    records: Seq<RecordView>,
    damaged: RecordView,
    index: int,
    byte: u8,
    rest: Seq<u8>,
    start_offset: u64,
    limits: ProtocolLimits,
)
    requires
        records_accepted(records, limits),
        damaged.encodable(),
        damaged.accepted(limits),
        32 <= index < damaged.encoded().len(),
        byte != damaged.encoded()[index],
        records_bytes(records).len() + damaged.encoded().len() + rest.len() <= usize::MAX,
        start_offset + records_bytes(records).len() + damaged.encoded().len() + rest.len()
            <= u64::MAX,
    ensures
        batch_records(records_bytes(records), 0, start_offset, limits) == Ok::<
            Seq<RecordView>,
            PersistenceError,
        >(records),
        batch_records(
            records_bytes(records) + (damaged.encoded().update(index, byte) + rest),
            0,
            start_offset,
            limits,
        ) == Err::<Seq<RecordView>, PersistenceError>(
            (PersistenceError::ChecksumMismatch {
                offset: (start_offset + records_bytes(records).len()) as u64,
            }),
        ),
{
    broadcast use crate::wire::group_wire;

    let whole = records_bytes(records);
    lemma_batch_reads(seq![], records, seq![], start_offset, limits);
    assert(seq![] + (whole + seq![]) =~= whole);
    assert(records + seq![] =~= records);
    let own = damaged.encoded();
    let changed = own.update(index, byte);
    let tail = changed + rest;
    let batch = whole + tail;
    let place = whole.len() as int;
    lemma_batch_reads(seq![], records, tail, start_offset, limits);
    assert(seq![] + (whole + tail) =~= batch);
    lemma_record_layout(damaged);
    assert(batch.subrange(place + 24, place + 28) =~= own.subrange(24, 28));
    assert(batch.subrange(place + 28, place + 32) =~= own.subrange(28, 32));
    assert(batch.subrange(place, place + own.len()) =~= changed);
    crate::persistence::record::law_changed_record_is_refused(
        damaged,
        limits,
        (start_offset + place) as u64,
        index,
        byte,
    );
}

/// Where the log goes on with something that does not start as a record, the recovery stops there
/// with an error. It is not taken for the torn end of a record, and nothing is cut away.
pub proof fn law_foreign_bytes_stop_recovery(
    log: Seq<u8>,
    foreign: Seq<u8>,
    limits: ProtocolLimits,
    keys: nat,
)
    requires
        8 <= log.len(),
        scan_log(log, 8, limits).2 == LogEnd::Clean,
        foreign.len() >= 4,
        foreign.take(4) != seq![0x46u8, 0x4b, 0x56, 0x52],
    ensures
        ({
            let error = PersistenceError::Corruption {
                offset: log.len() as u64,
                reason: "invalid record magic",
            };
            &&& scan_log(log + foreign, 8, limits) == (
                scan_log(log, 8, limits).0,
                log.len() as int,
                LogEnd::Broken(error),
            )
            &&& recovery_outcome(log + foreign, limits, keys) == Err::<
                RecoveryReport,
                PersistenceError,
            >(error)
        }),
{
    let place = log.len() as int;
    lemma_scan_goes_on(log, foreign, 8, limits);
    assert((log + foreign).subrange(place, place + 4) =~= foreign.take(4));
    assert(crate::persistence::record::RECORD_MAGIC@ =~= seq![0x46u8, 0x4b, 0x56, 0x52]);
    let before = scan_log(log, 8, limits).0;
    assert(before + seq![] =~= before);
}

/// A record that was damaged before its lengths, in its magic bytes, its version, its type, its
/// reserved bytes or its instants, stops the recovery too.
pub proof fn law_damaged_headers_stop_recovery(
    log: Seq<u8>,
    record: RecordView,
    index: int,
    byte: u8,
    rest: Seq<u8>,
    limits: ProtocolLimits,
    keys: nat,
)
    requires
        8 <= log.len(),
        scan_log(log, 8, limits).2 == LogEnd::Clean,
        record.encodable(),
        record.accepted(limits),
        0 <= index < 24,
        byte != record.encoded()[index],
    ensures
        ({
            let damaged = log + (record.encoded().update(index, byte) + rest);
            let scanned = scan_log(damaged, 8, limits);
            &&& scanned.0 == scan_log(log, 8, limits).0
            &&& scanned.1 == log.len()
            &&& scanned.2 is Broken
            &&& recovery_outcome(damaged, limits, keys) is Err
        }),
{
    broadcast use crate::wire::group_wire;

    let own = record.encoded();
    let changed = own.update(index, byte);
    let damaged = log + (changed + rest);
    let place = log.len() as int;
    lemma_record_layout(record);
    lemma_scan_goes_on(log, changed + rest, 8, limits);
    if index < 4 {
        assert(damaged.subrange(place, place + 4)[index] == byte);
        assert(own.take(4)[index] == own[index]);
    }
    assert(damaged.subrange(place + 24, place + 28) =~= own.subrange(24, 28));
    assert(damaged.subrange(place + 28, place + 32) =~= own.subrange(28, 32));
    assert(damaged.subrange(place, place + own.len()) =~= changed);
    crate::persistence::record::law_changed_record_is_refused(
        record,
        limits,
        place as u64,
        index,
        byte,
    );
    let before = scan_log(log, 8, limits).0;
    assert(before + seq![] =~= before);
}

/// A whole record whose key is empty, or whose key or value is longer than the limits allow, stops
/// the recovery.
pub proof fn law_records_beyond_limits_stop_recovery(
    log: Seq<u8>,
    record: RecordView,
    rest: Seq<u8>,
    limits: ProtocolLimits,
    keys: nat,
)
    requires
        8 <= log.len(),
        scan_log(log, 8, limits).2 == LogEnd::Clean,
        record.encodable(),
        record.key.len() == 0 || record.key.len() > limits.max_key_size || record.value.len()
            > limits.max_value_size,
    ensures
        ({
            let longer = log + (record.encoded() + rest);
            &&& scan_log(longer, 8, limits) == (
                scan_log(log, 8, limits).0,
                log.len() as int,
                LogEnd::Broken(PersistenceError::InvalidRecordLength),
            )
            &&& recovery_outcome(longer, limits, keys) == Err::<RecoveryReport, PersistenceError>(
                PersistenceError::InvalidRecordLength,
            )
        }),
{
    broadcast use crate::wire::group_wire;

    let own = record.encoded();
    let longer = log + (own + rest);
    let place = log.len() as int;
    lemma_record_layout(record);
    lemma_scan_goes_on(log, own + rest, 8, limits);
    assert(longer.subrange(place, place + 4) =~= own.take(4));
    assert(longer.subrange(place + 24, place + 28) =~= own.subrange(24, 28));
    assert(longer.subrange(place + 28, place + 32) =~= own.subrange(28, 32));
    let before = scan_log(log, 8, limits).0;
    assert(before + seq![] =~= before);
}

} // verus!
