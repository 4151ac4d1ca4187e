//! Batches: runs of whole records that a leader sends to its followers.

use vstd::prelude::*;
use vstd::slice::{slice_subrange, slice_to_vec};

use crate::error::PersistenceError;
use crate::persistence::log::{
    item_at, scan_log, stated_length, stated_lengths_accepted, LogEnd, LogItemView,
};
use crate::persistence::record::{
    record_of, validate_lengths, RecordView, WalRecord, RECORD_FIXED_TOTAL, RECORD_MAGIC,
    WAL_HEADER,
};
use crate::protocol::frame::ProtocolLimits;
use crate::wire::{same_bytes, u32_at};

verus! {

/// What is said of a record that an active log ends inside of.
pub open spec fn cut_record(position: int) -> PersistenceError {
    PersistenceError::Corruption {
        offset: position as u64,
        reason: "truncated record in active WAL",
    }
}

/// Where a batch ends that starts at `start` and is whole up to `position`: after as many records
/// as fit in `maximum` bytes.
pub open spec fn batch_end(
    log: Seq<u8>,
    position: int,
    start: int,
    maximum: usize,
    limits: ProtocolLimits,
) -> Result<int, PersistenceError>
    decreases log.len() - position,
{
    let left = log.len() - position;
    let total = stated_length(log, position);
    let taken = position - start;
    if left <= 0 {
        Ok(position)
    } else if left < 32 {
        Err(cut_record(position))
    } else if log.subrange(position, position + 4) != RECORD_MAGIC@ {
        Err(
            PersistenceError::Corruption {
                offset: position as u64,
                reason: "invalid record magic",
            },
        )
    } else if !stated_lengths_accepted(log, position, limits) || taken + total > usize::MAX {
        Err(PersistenceError::InvalidRecordLength)
    } else if taken > 0 && taken + total > maximum {
        Ok(position)
    } else if total > maximum {
        Err(
            PersistenceError::InvalidMetadata("replication batch cannot contain one WAL record"),
        )
    } else if left < total {
        Err(cut_record(position))
    } else {
        match record_of(log.subrange(position, position + total), limits, position as u64) {
            Err(error) => Err(error),
            Ok(_) => batch_end(log, position + total, start, maximum, limits),
        }
    }
}

/// Whether `place` is met on the way from `position` over whole records, by the lengths that they
/// state.
pub open spec fn met_from(log: Seq<u8>, position: int, place: int, limits: ProtocolLimits) -> bool
    decreases place - position,
{
    if position >= place {
        position == place
    } else {
        &&& position + 32 <= log.len()
        &&& log.subrange(position, position + 4) == RECORD_MAGIC@
        &&& stated_lengths_accepted(log, position, limits)
        &&& position + stated_length(log, position) <= place
        &&& met_from(log, position + stated_length(log, position), place, limits)
    }
}

/// Whether a place in a log is a record boundary: the place after its header or after a record.
pub open spec fn at_boundary(log: Seq<u8>, place: int, limits: ProtocolLimits) -> bool {
    met_from(log, 8, place, limits)
}

/// Whether a place in a log is a record boundary.
pub fn is_record_boundary(log: &[u8], place: usize, limits: ProtocolLimits) -> (boundary: bool)
    requires
        place <= log@.len(),
    ensures
        boundary == at_boundary(log@, place as int, limits),
{
    let length: usize = log.len();
    let mut position: usize = WAL_HEADER.len();
    while position < place
        invariant
            length == log@.len(),
            place <= length,
            at_boundary(log@, place as int, limits) == met_from(
                log@,
                position as int,
                place as int,
                limits,
            ),
        decreases place - position,
    {
        if length - position < 32 || !same_bytes(
            slice_subrange(log, position, position + 4),
            &RECORD_MAGIC,
        ) {
            return false;
        }
        let key_length: usize = u32_at(log, position + 24) as usize;
        let value_length: usize = u32_at(log, position + 28) as usize;
        if validate_lengths(key_length, value_length, limits).is_err() {
            return false;
        }
        let total: usize = RECORD_FIXED_TOTAL + key_length + value_length;
        if total > place - position {
            return false;
        }
        position += total;
    }
    position == place
}

/// Takes the next batch from a log: whole records from `offset` on, in `maximum_bytes` at most.
pub fn read_record_batch(
    log: &[u8],
    offset: u64,
    maximum_bytes: usize,
    limits: ProtocolLimits,
) -> (batch: Result<Vec<u8>, PersistenceError>)
    ensures
        if offset > log@.len() {
            batch == Err::<Vec<u8>, PersistenceError>(
                PersistenceError::InvalidMetadata("replication offset exceeds WAL length"),
            )
        } else {
            match batch_end(log@, offset as int, offset as int, maximum_bytes, limits) {
                Ok(end) => batch is Ok && offset <= end <= log@.len() && batch->Ok_0@
                    == log@.subrange(offset as int, end),
                Err(error) => batch == Err::<Vec<u8>, PersistenceError>(error),
            }
        },
{
    let length: usize = log.len();
    if offset > length as u64 {
        return Err(PersistenceError::InvalidMetadata("replication offset exceeds WAL length"));
    }
    let start: usize = offset as usize;
    let mut position: usize = start;
    while position < length
        invariant
            length == log@.len(),
            start == offset,
            start <= position <= length,
            batch_end(log@, start as int, start as int, maximum_bytes, limits) == batch_end(
                log@,
                position as int,
                start as int,
                maximum_bytes,
                limits,
            ),
        decreases length - position,
    {
        let left: usize = length - position;
        if left < 32 {
            return Err(
                PersistenceError::Corruption {
                    offset: position as u64,
                    reason: "truncated record in active WAL",
                },
            );
        }
        if !same_bytes(slice_subrange(log, position, position + 4), &RECORD_MAGIC) {
            return Err(
                PersistenceError::Corruption {
                    offset: position as u64,
                    reason: "invalid record magic",
                },
            );
        }
        let key_length: usize = u32_at(log, position + 24) as usize;
        let value_length: usize = u32_at(log, position + 28) as usize;
        match validate_lengths(key_length, value_length, limits) {
            Ok(_) => {},
            Err(error) => return Err(error),
        }
        let total: usize = RECORD_FIXED_TOTAL + key_length + value_length;
        let taken: usize = position - start;
        let proposed: usize = match taken.checked_add(total) {
            Some(proposed) => proposed,
            None => return Err(PersistenceError::InvalidRecordLength),
        };
        if taken > 0 && proposed > maximum_bytes {
            return Ok(slice_to_vec(slice_subrange(log, start, position)));
        }
        if total > maximum_bytes {
            return Err(
                PersistenceError::InvalidMetadata(
                    "replication batch cannot contain one WAL record",
                ),
            );
        }
        if left < total {
            return Err(
                PersistenceError::Corruption {
                    offset: position as u64,
                    reason: "truncated record in active WAL",
                },
            );
        }
        let record: &[u8] = slice_subrange(log, position, position + total);
        match WalRecord::decode(record, limits, position as u64) {
            Ok(_) => {},
            Err(error) => return Err(error),
        }
        position += total;
    }
    Ok(slice_to_vec(slice_subrange(log, start, position)))
}

/// The records that make up a batch from `position` on. `start_offset` is where the batch stands
/// in the leader's log, and goes into the errors.
pub open spec fn batch_records(
    batch: Seq<u8>,
    position: int,
    start_offset: u64,
    limits: ProtocolLimits,
) -> Result<Seq<RecordView>, PersistenceError>
    decreases batch.len() - position,
{
    let left = batch.len() - position;
    let total = stated_length(batch, position);
    if left <= 0 {
        Ok(seq![])
    } else if left < 32 || !stated_lengths_accepted(batch, position, limits) || position + total
        > usize::MAX || start_offset + position > u64::MAX || left < total {
        Err(PersistenceError::InvalidRecordLength)
    } else {
        match record_of(
            batch.subrange(position, position + total),
            limits,
            (start_offset + position) as u64,
        ) {
            Err(error) => Err(error),
            Ok(record) => match batch_records(batch, position + total, start_offset, limits) {
                Err(error) => Err(error),
                Ok(rest) => Ok(seq![record] + rest),
            },
        }
    }
}

/// The views of records.
pub open spec fn record_list(records: Seq<WalRecord>) -> Seq<RecordView> {
    records.map_values(|record: WalRecord| record@)
}

/// Reads all records of a batch before anything is done with them.
pub fn decode_record_batch(encoded: &[u8], start_offset: u64, limits: ProtocolLimits) -> (records:
    Result<Vec<WalRecord>, PersistenceError>)
    ensures
        match records {
            Ok(records) => batch_records(encoded@, 0, start_offset, limits) == Ok::<
                Seq<RecordView>,
                PersistenceError,
            >(record_list(records@)),
            Err(error) => batch_records(encoded@, 0, start_offset, limits) == Err::<
                Seq<RecordView>,
                PersistenceError,
            >(error),
        },
{
    let length: usize = encoded.len();
    let mut records: Vec<WalRecord> = Vec::new();
    let mut position: usize = 0;
    proof {
        assert(record_list(records@) =~= seq![]);
        if let Ok(all) = batch_records(encoded@, 0, start_offset, limits) {
            assert(seq![] + all =~= all);
        }
    }
    while position < length
        invariant
            length == encoded@.len(),
            position <= length,
            batch_records(encoded@, 0, start_offset, limits) == (match batch_records(
                encoded@,
                position as int,
                start_offset,
                limits,
            ) {
                Err(error) => Err(error),
                Ok(rest) => Ok(record_list(records@) + rest),
            }),
        decreases length - position,
    {
        let left: usize = length - position;
        if left < 32 {
            return Err(PersistenceError::InvalidRecordLength);
        }
        let key_length: usize = u32_at(encoded, position + 24) as usize;
        let value_length: usize = u32_at(encoded, position + 28) as usize;
        match validate_lengths(key_length, value_length, limits) {
            Ok(_) => {},
            Err(error) => return Err(error),
        }
        let total: usize = RECORD_FIXED_TOTAL + key_length + value_length;
        let end: usize = match position.checked_add(total) {
            Some(end) => end,
            None => return Err(PersistenceError::InvalidRecordLength),
        };
        let offset: u64 = match start_offset.checked_add(position as u64) {
            Some(offset) => offset,
            None => return Err(PersistenceError::InvalidRecordLength),
        };
        if end > length {
            return Err(PersistenceError::InvalidRecordLength);
        }
        let record: WalRecord = match WalRecord::decode(
            slice_subrange(encoded, position, end),
            limits,
            offset,
        ) {
            Ok(record) => record,
            Err(error) => return Err(error),
        };
        let ghost before = record_list(records@);
        let ghost view = record@;
        records.push(record);
        proof {
            assert(record_list(records@) =~= before.push(view));
            if let Ok(rest) = batch_records(encoded@, end as int, start_offset, limits) {
                assert(before + (seq![view] + rest) =~= record_list(records@) + rest);
            }
        }
        position = end;
    }
    assert(record_list(records@) + seq![] =~= record_list(records@));
    Ok(records)
}

/// The bytes of records, one after another.
pub open spec fn records_bytes(records: Seq<RecordView>) -> Seq<u8>
    decreases records.len(),
{
    if records.len() == 0 {
        seq![]
    } else {
        records[0].encoded() + records_bytes(records.skip(1))
    }
}

proof fn lemma_batch_records(
    log: Seq<u8>,
    position: int,
    start: int,
    maximum: usize,
    limits: ProtocolLimits,
    batch: Seq<u8>,
    start_offset: u64,
)
    requires
        0 <= start <= position <= log.len(),
        log.len() <= usize::MAX,
        position - start <= maximum,
        batch_end(log, position, start, maximum, limits) is Ok,
        batch == log.subrange(start, batch_end(log, position, start, maximum, limits)->Ok_0),
        start_offset + batch.len() <= u64::MAX,
    ensures
        ({
            let end = batch_end(log, position, start, maximum, limits)->Ok_0;
            let records = batch_records(batch, position - start, start_offset, limits);
            &&& position <= end <= log.len()
            &&& end - start <= maximum
            &&& position < log.len() && position == start ==> end > position
            &&& records is Ok
            &&& records_bytes(records->Ok_0) == log.subrange(position, end)
        }),
    decreases log.len() - position,
{
    let end = batch_end(log, position, start, maximum, limits)->Ok_0;
    let left = log.len() - position;
    let total = stated_length(log, position);
    let taken = position - start;
    if left <= 0 || (taken > 0 && taken + total > maximum) {
        assert(end == position);
        assert(log.subrange(position, end) =~= seq![]);
    } else {
        let next = position + total;
        lemma_batch_records(log, next, start, maximum, limits, batch, start_offset);
        let place = position - start;
        assert(batch.subrange(place, place + total) =~= log.subrange(position, next));
        assert(batch.subrange(place + 24, place + 28) =~= log.subrange(
            position + 24,
            position + 28,
        ));
        assert(batch.subrange(place + 28, place + 32) =~= log.subrange(
            position + 28,
            position + 32,
        ));
        let own = log.subrange(position, next);
        let offset = (start_offset + place) as u64;
        lemma_offset_is_for_errors(own, limits, position as u64, offset);
        crate::persistence::record::law_record_bytes_are_canonical(own, limits, offset);
        let record = record_of(own, limits, offset)->Ok_0;
        let rest = batch_records(batch, place + total, start_offset, limits)->Ok_0;
        assert((seq![record] + rest).skip(1) =~= rest);
        assert(log.subrange(position, end) =~= own + log.subrange(next, end));
    }
}

proof fn lemma_offset_is_for_errors(
    encoded: Seq<u8>,
    limits: ProtocolLimits,
    first: u64,
    second: u64,
)
    ensures
        record_of(encoded, limits, first) is Ok ==> record_of(encoded, limits, second) == record_of(
            encoded,
            limits,
            first,
        ),
{
}

/// A batch is made of whole records, in the order of the log, and is no longer than it may be.
/// Where the log goes on there is at least one record in it. A follower that reads it gets exactly
/// the records whose bytes it is.
pub proof fn law_batches_hold_whole_records(
    log: Seq<u8>,
    start: int,
    maximum: usize,
    limits: ProtocolLimits,
    start_offset: u64,
)
    requires
        0 <= start <= log.len(),
        log.len() <= usize::MAX,
        start_offset + log.len() <= u64::MAX,
        batch_end(log, start, start, maximum, limits) is Ok,
    ensures
        ({
            let end = batch_end(log, start, start, maximum, limits)->Ok_0;
            let batch = log.subrange(start, end);
            let records = batch_records(batch, 0, start_offset, limits);
            &&& start <= end <= log.len()
            &&& batch.len() <= maximum
            &&& start < log.len() ==> start < end
            &&& records is Ok
            &&& records_bytes(records->Ok_0) == batch
        }),
{
    let end = batch_end(log, start, start, maximum, limits)->Ok_0;
    lemma_batch_bounds(log, start, start, maximum, limits);
    let batch = log.subrange(start, end);
    lemma_batch_records(log, start, start, maximum, limits, batch, start_offset);
}

proof fn lemma_batch_bounds(
    log: Seq<u8>,
    position: int,
    start: int,
    maximum: usize,
    limits: ProtocolLimits,
)
    requires
        0 <= start <= position <= log.len(),
        batch_end(log, position, start, maximum, limits) is Ok,
    ensures
        position <= batch_end(log, position, start, maximum, limits)->Ok_0 <= log.len(),
    decreases log.len() - position,
{
    let left = log.len() - position;
    let total = stated_length(log, position);
    let taken = position - start;
    if !(left <= 0 || (taken > 0 && taken + total > maximum)) {
        lemma_batch_bounds(log, position + total, start, maximum, limits);
    }
}

proof fn lemma_met_on(
    log: Seq<u8>,
    tail: Seq<u8>,
    position: int,
    place: int,
    limits: ProtocolLimits,
)
    requires
        0 <= position,
        place <= log.len(),
        met_from(log, position, place, limits),
    ensures
        met_from(log + tail, position, place, limits),
    decreases place - position,
{
    if position < place {
        let longer = log + tail;
        assert(longer.subrange(position, position + 4) =~= log.subrange(position, position + 4));
        assert(longer.subrange(position + 24, position + 28) =~= log.subrange(
            position + 24,
            position + 28,
        ));
        assert(longer.subrange(position + 28, position + 32) =~= log.subrange(
            position + 28,
            position + 32,
        ));
        lemma_met_on(log, tail, position + stated_length(log, position), place, limits);
    }
}

proof fn lemma_met_through(
    log: Seq<u8>,
    position: int,
    middle: int,
    place: int,
    limits: ProtocolLimits,
)
    requires
        met_from(log, position, middle, limits),
        met_from(log, middle, place, limits),
    ensures
        met_from(log, position, place, limits),
    decreases middle - position,
{
    if position < middle {
        lemma_met_through(log, position + stated_length(log, position), middle, place, limits);
        lemma_met_order(log, middle, place, limits);
    }
}

proof fn lemma_met_order(log: Seq<u8>, position: int, place: int, limits: ProtocolLimits)
    requires
        met_from(log, position, place, limits),
    ensures
        position <= place,
    decreases place - position,
{
}

proof fn lemma_batch_meets(
    log: Seq<u8>,
    position: int,
    start: int,
    maximum: usize,
    limits: ProtocolLimits,
)
    requires
        0 <= start <= position <= log.len(),
        batch_end(log, position, start, maximum, limits) is Ok,
    ensures
        met_from(log, position, batch_end(log, position, start, maximum, limits)->Ok_0, limits),
    decreases log.len() - position,
{
    let left = log.len() - position;
    let total = stated_length(log, position);
    let taken = position - start;
    if !(left <= 0 || (taken > 0 && taken + total > maximum)) {
        lemma_batch_meets(log, position + total, start, maximum, limits);
        lemma_batch_bounds(log, position + total, start, maximum, limits);
    }
}

/// Progress that starts at a record boundary stays at one: a batch from there ends at a boundary,
/// and every boundary of a log remains one when the log grows.
pub proof fn law_batches_end_at_boundaries(
    log: Seq<u8>,
    start: int,
    maximum: usize,
    limits: ProtocolLimits,
    tail: Seq<u8>,
)
    requires
        0 <= start <= log.len(),
        at_boundary(log, start, limits),
        batch_end(log, start, start, maximum, limits) is Ok,
    ensures
        ({
            let end = batch_end(log, start, start, maximum, limits)->Ok_0;
            at_boundary(log, end, limits) && at_boundary(log + tail, end, limits)
        }),
{
    let end = batch_end(log, start, start, maximum, limits)->Ok_0;
    lemma_batch_bounds(log, start, start, maximum, limits);
    lemma_batch_meets(log, start, start, maximum, limits);
    lemma_met_through(log, 8, start, end, limits);
    lemma_met_on(log, tail, 8, end, limits);
}

proof fn lemma_met_by_scan(log: Seq<u8>, position: int, limits: ProtocolLimits)
    requires
        0 <= position <= log.len(),
        scan_log(log, position, limits).2 == LogEnd::Clean,
    ensures
        met_from(log, position, log.len() as int, limits),
    decreases log.len() - position,
{
    if let LogItemView::Record(record, next) = item_at(log, position, limits) {
        lemma_met_by_scan(log, next, limits);
    }
}

proof fn lemma_scan_to(log: Seq<u8>, position: int, place: int, limits: ProtocolLimits)
    requires
        0 <= position,
        place <= log.len(),
        scan_log(log, position, limits).2 == LogEnd::Clean,
        met_from(log, position, place, limits),
    ensures
        scan_log(log.take(place), position, limits).1 == place,
        scan_log(log.take(place), position, limits).2 == LogEnd::Clean,
    decreases place - position,
{
    if position < place {
        let shorter = log.take(place);
        let next = position + stated_length(log, position);
        lemma_met_order(log, next, place, limits);
        assert(shorter.subrange(position, position + 4) =~= log.subrange(position, position + 4));
        assert(shorter.subrange(position + 24, position + 28) =~= log.subrange(
            position + 24,
            position + 28,
        ));
        assert(shorter.subrange(position + 28, position + 32) =~= log.subrange(
            position + 28,
            position + 32,
        ));
        assert(shorter.subrange(position, next) =~= log.subrange(position, next));
        lemma_scan_to(log, next, place, limits);
    }
}

/// In a log that ends cleanly, the record boundaries are the places at which it could have been
/// cut without tearing a record. Its end is one of them.
pub proof fn law_boundaries_part_records(log: Seq<u8>, place: int, limits: ProtocolLimits)
    requires
        8 <= place <= log.len(),
        scan_log(log, 8, limits).2 == LogEnd::Clean,
    ensures
        at_boundary(log, place, limits) <==> scan_log(log.take(place), 8, limits).2
            == LogEnd::Clean,
        at_boundary(log, log.len() as int, limits),
{
    lemma_met_by_scan(log, 8, limits);
    if at_boundary(log, place, limits) {
        lemma_scan_to(log, 8, place, limits);
    }
    if scan_log(log.take(place), 8, limits).2 == LogEnd::Clean {
        lemma_met_by_scan(log.take(place), 8, limits);
        lemma_met_on(log.take(place), log.skip(place), 8, place, limits);
        assert(log.take(place) + log.skip(place) =~= log);
    }
}

} // verus!
