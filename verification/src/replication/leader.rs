//! What a leader answers its followers.

use vstd::prelude::*;

use crate::error::{PersistenceError, ReplicationError};
use crate::metrics::{Metrics, MetricsSnapshot};
use crate::persistence::batch::{
    at_boundary, batch_end, law_batches_hold_whole_records, law_boundaries_part_records,
    records_bytes,
};
use crate::persistence::database::{
    Database, DatabaseView, ReplicationBatch, ReplicationSnapshot,
};
use crate::persistence::laws::{
    law_appended_records_are_read_back, law_batches_take_what_fits, records_accepted,
};
use crate::persistence::log::{scan_log, LogEnd};
use crate::persistence::record::RecordView;
use crate::replication::follower::{action_of, state_after, FollowerAction};
use crate::replication::message::{Hello, HelloView, ResponseKind, SyncResponse, SyncView};
use crate::replication::state::StateView;
use crate::text::same_text;

verus! {

/// What a leader can answer with a batch.
pub open spec fn batch_reply(
    database: DatabaseView,
    log: Seq<u8>,
    hello: HelloView,
    max_batch_size: usize,
) -> Result<Option<SyncView>, PersistenceError> {
    if hello.leader_id != database.node_id || hello.generation != database.generation
        || hello.offset < 8 || hello.offset > database.wal.bytes_written {
        Ok(None)
    } else if hello.offset > log.len() {
        Err(PersistenceError::InvalidMetadata("replication offset exceeds WAL length"))
    } else if !at_boundary(log, hello.offset as int, database.limits) {
        Ok(None)
    } else {
        match batch_end(
            log,
            hello.offset as int,
            hello.offset as int,
            max_batch_size,
            database.limits,
        ) {
            Err(error) => Err(error),
            Ok(end) => Ok(
                Some(
                    SyncView {
                        kind: ResponseKind::Batch,
                        leader_id: database.node_id,
                        generation: database.generation,
                        start_offset: hello.offset,
                        end_offset: end as u64,
                        leader_end: database.wal.bytes_written,
                        payload: log.subrange(hello.offset as int, end),
                    },
                ),
            ),
        }
    }
}

/// Answers a follower with the records after its place in the log, where its request names this
/// leader, the current generation, and a record boundary of the log. Where it does not, the follower
/// needs a snapshot.
pub fn reply_with_batch(database: &Database, log: &[u8], hello: &Hello, max_batch_size: usize) -> (
response: Result<Option<SyncResponse>, ReplicationError>)
    ensures
        match response {
            Ok(Some(response)) => batch_reply(database@, log@, hello@, max_batch_size) == Ok::<
                Option<SyncView>,
                PersistenceError,
            >(Some(response@)),
            Ok(None) => batch_reply(database@, log@, hello@, max_batch_size) == Ok::<
                Option<SyncView>,
                PersistenceError,
            >(None),
            Err(error) => match batch_reply(database@, log@, hello@, max_batch_size) {
                Ok(_) => false,
                Err(inner) => error == ReplicationError::Persistence(inner),
            },
        },
{
    if !same_text(hello.leader_id.as_str(), database.node_id()) {
        return Ok(None);
    }
    match database.read_replication_batch(log, hello.generation, hello.offset, max_batch_size) {
        Ok(Some(batch)) => Ok(Some(response_from_batch(database.node_id(), batch))),
        Ok(None) => Ok(None),
        Err(error) => Err(ReplicationError::Persistence(error)),
    }
}

fn response_from_batch(node_id: &str, batch: ReplicationBatch) -> (response: SyncResponse)
    ensures
        response@ == (SyncView {
            kind: ResponseKind::Batch,
            leader_id: node_id@,
            generation: batch.generation,
            start_offset: batch.start_offset,
            end_offset: batch.end_offset,
            leader_end: batch.leader_end,
            payload: batch.bytes@,
        }),
{
    SyncResponse {
        kind: ResponseKind::Batch,
        leader_id: node_id.to_owned(),
        generation: batch.generation,
        start_offset: batch.start_offset,
        end_offset: batch.end_offset,
        leader_end: batch.leader_end,
        payload: batch.bytes,
    }
}

/// Answers a follower with a snapshot, which stands for the log up to the place where it was
/// taken.
pub fn response_from_snapshot(node_id: &str, snapshot: ReplicationSnapshot) -> (response:
    SyncResponse)
    ensures
        response@ == (SyncView {
            kind: ResponseKind::Snapshot,
            leader_id: node_id@,
            generation: snapshot.generation,
            start_offset: 0,
            end_offset: snapshot.offset,
            leader_end: snapshot.offset,
            payload: snapshot.bytes@,
        }),
{
    SyncResponse {
        kind: ResponseKind::Snapshot,
        leader_id: node_id.to_owned(),
        generation: snapshot.generation,
        start_offset: 0,
        end_offset: snapshot.offset,
        leader_end: snapshot.offset,
        payload: snapshot.bytes,
    }
}

/// Counts a response that was sent.
pub fn count_response(metrics: &mut Metrics, response: &SyncResponse)
    ensures
        final(metrics)@ == (MetricsSnapshot {
            replication_syncs_total: old(metrics)@.replication_syncs_total.wrapping_add(1),
            replication_full_syncs_total: if response@.kind == ResponseKind::Snapshot {
                old(metrics)@.replication_full_syncs_total.wrapping_add(1)
            } else {
                old(metrics)@.replication_full_syncs_total
            },
            replication_bytes_sent_total: old(metrics)@.replication_bytes_sent_total.wrapping_add(
                response@.payload.len() as u64,
            ),
            ..old(metrics)@
        }),
{
    metrics.replication_sent(
        response.payload.len() as u64,
        response.kind == ResponseKind::Snapshot,
    );
}

/// A follower accepts every batch that its leader answers its own request with, where the leader's
/// log is as long as it is said to be.
pub proof fn law_batches_continue_their_request(
    database: DatabaseView,
    log: Seq<u8>,
    state: StateView,
    max_batch_size: usize,
)
    requires
        database.node_id.len() > 0,
        database.generation > 0,
        database.wal.bytes_written == log.len(),
        log.len() <= usize::MAX,
        ({
            let hello = HelloView {
                leader_id: state.leader_id,
                generation: state.generation,
                offset: state.offset,
            };
            batch_reply(database, log, hello, max_batch_size) matches Ok(Some(_))
        }),
    ensures
        ({
            let hello = HelloView {
                leader_id: state.leader_id,
                generation: state.generation,
                offset: state.offset,
            };
            let response = batch_reply(database, log, hello, max_batch_size)->Ok_0->0;
            &&& action_of(state, response) is Ok
            &&& response.payload.len() <= max_batch_size
            &&& state.offset < log.len() ==> action_of(state, response)->Ok_0
                == FollowerAction::ApplyBatch
        }),
{
    crate::persistence::batch::law_batches_hold_whole_records(
        log,
        state.offset as int,
        max_batch_size,
        database.limits,
        0,
    );
}

/// A follower accepts every snapshot that a leader answers with, whatever it has read before.
pub proof fn law_snapshots_are_accepted(
    database: DatabaseView,
    state: StateView,
    payload: Seq<u8>,
)
    requires
        database.node_id.len() > 0,
        database.generation > 0,
    ensures
        action_of(
            state,
            SyncView {
                kind: ResponseKind::Snapshot,
                leader_id: database.node_id,
                generation: database.generation,
                start_offset: 0,
                end_offset: database.wal.bytes_written,
                leader_end: database.wal.bytes_written,
                payload,
            },
        ) == Ok::<FollowerAction, ReplicationError>(FollowerAction::InstallSnapshot),
{
}

/// A request for another leader, for an old generation, for a place that the log does not have, or
/// for a place inside a record is answered with no batch and no error: the follower gets a snapshot.
pub proof fn law_stale_requests_get_no_batch(
    database: DatabaseView,
    log: Seq<u8>,
    hello: HelloView,
    max_batch_size: usize,
)
    requires
        hello.leader_id != database.node_id || hello.generation != database.generation
            || hello.offset < 8 || hello.offset > database.wal.bytes_written || (hello.offset
            <= log.len() && !at_boundary(log, hello.offset as int, database.limits)),
    ensures
        batch_reply(database, log, hello, max_batch_size) == Ok::<
            Option<SyncView>,
            PersistenceError,
        >(None),
{
}

/// A follower that has read up to a record boundary of the current log gets the records that come
/// next, as many as fit, byte for byte. It is told where they start and end, and how far the log
/// goes. One that has read everything gets an empty batch.
pub proof fn law_followers_get_what_comes_next(
    database: DatabaseView,
    before: Seq<u8>,
    records: Seq<RecordView>,
    max_batch_size: usize,
    count: int,
)
    requires
        8 <= before.len(),
        scan_log(before, 8, database.limits).2 == LogEnd::Clean,
        records_accepted(records, database.limits),
        before.len() + records_bytes(records).len() == database.wal.bytes_written,
        database.wal.bytes_written <= usize::MAX,
        records.len() > 0 ==> records[0].encoded().len() <= max_batch_size,
        0 <= count <= records.len(),
        count <= 1 || records_bytes(records.take(count)).len() <= max_batch_size,
    ensures
        ({
            let log = before + records_bytes(records);
            let hello = HelloView {
                leader_id: database.node_id,
                generation: database.generation,
                offset: before.len() as u64,
            };
            let reply = batch_reply(database, log, hello, max_batch_size);
            let sent = reply->Ok_0->0;
            &&& reply matches Ok(Some(_))
            &&& sent.kind == ResponseKind::Batch
            &&& sent.leader_id == database.node_id
            &&& sent.generation == database.generation
            &&& sent.start_offset == before.len()
            &&& sent.end_offset == before.len() + sent.payload.len()
            &&& sent.leader_end == log.len()
            &&& sent.payload == records_bytes(records).take(sent.payload.len() as int)
            &&& records_bytes(records.take(count)).len() <= sent.payload.len()
            &&& sent.payload.len() <= max_batch_size
        }),
{
    let log = before + records_bytes(records);
    let place = before.len() as int;
    law_appended_records_are_read_back(before, 8, records, database.limits);
    assert(log.take(place) =~= before);
    law_boundaries_part_records(log, place, database.limits);
    if records.len() > 0 {
        let wanted = if count == 0 {
            1
        } else {
            count
        };
        if wanted == 1 {
            assert(records.take(1)[0] == records[0]);
            assert(records_bytes(records.take(1)) =~= records[0].encoded()) by {
                reveal_with_fuel(records_bytes, 2);
                assert(records.take(1).skip(1) =~= seq![]);
            }
        }
        law_batches_take_what_fits(before, records, max_batch_size, database.limits, wanted);
        law_batches_hold_whole_records(log, place, max_batch_size, database.limits, 0);
    } else {
        assert(records.take(count) =~= seq![]);
    }
    if count == 0 {
        assert(records.take(0) =~= seq![]);
    }
    let end = batch_end(log, place, place, max_batch_size, database.limits)->Ok_0;
    assert(log.subrange(place, end) =~= records_bytes(records).take(end - place));
}

/// A snapshot for a follower stands for the whole log up to where it was taken: it starts at nothing
/// and ends at the leader's end, and a follower that takes it stands there afterwards.
pub proof fn law_snapshots_stand_for_the_whole_log(
    node_id: &str,
    snapshot: ReplicationSnapshot,
    response: SyncResponse,
    state: StateView,
)
    requires
        call_ensures(response_from_snapshot, (node_id, snapshot), response),
        node_id@.len() > 0,
        snapshot.generation > 0,
    ensures
        action_of(state, response@) == Ok::<FollowerAction, ReplicationError>(
            FollowerAction::InstallSnapshot,
        ),
        state_after(response@) == (StateView {
            leader_id: node_id@,
            generation: snapshot.generation,
            offset: snapshot.offset,
        }),
        response@.payload == snapshot.bytes@,
{
}

} // verus!
