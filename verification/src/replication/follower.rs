//! What a follower does with its leader's responses.

use vstd::prelude::*;

use crate::config::ReplicationRole;
use crate::error::ReplicationError;
use crate::metrics::{Metrics, MetricsSnapshot};
use crate::replication::message::{Hello, HelloView, ResponseKind, SyncResponse, SyncView};
use crate::replication::state::{initial_state, ReplicaState, StateView};
use crate::text::same_text;

verus! {

/// How many responses a follower asks for at most before it starts.
pub const MAX_INITIAL_ROUNDS: usize = 10_000;

/// What a follower does with the payload of a response.
#[derive(Clone, Copy, Debug, PartialEq, Eq, Structural)]
pub enum FollowerAction {
    /// There are no records in it.
    Nothing,
    /// Apply its records.
    ApplyBatch,
    /// Put its snapshot in place of all data.
    InstallSnapshot,
}

/// The request that continues a follower's progress.
pub fn next_hello(state: &ReplicaState) -> (hello: Hello)
    ensures
        hello@ == (HelloView {
            leader_id: state@.leader_id,
            generation: state@.generation,
            offset: state@.offset,
        }),
{
    Hello { leader_id: state.leader_id.clone(), generation: state.generation, offset: state.offset }
}

/// What a follower does with a response, or why it refuses it.
pub open spec fn action_of(state: StateView, response: SyncView) -> Result<
    FollowerAction,
    ReplicationError,
> {
    if response.leader_id.len() == 0 || response.generation == 0 || response.end_offset
        > response.leader_end {
        Err(ReplicationError::InvalidProtocol("invalid leader identity or offset range"))
    } else {
        match response.kind {
            ResponseKind::Batch => if state.leader_id != response.leader_id || state.generation
                != response.generation || state.offset != response.start_offset {
                Err(
                    ReplicationError::InvalidProtocol(
                        "incremental response does not continue follower state",
                    ),
                )
            } else if response.end_offset < response.start_offset {
                Err(ReplicationError::InvalidProtocol("incremental offset underflow"))
            } else if response.end_offset - response.start_offset != response.payload.len() {
                Err(
                    ReplicationError::InvalidProtocol(
                        "incremental payload length does not match offsets",
                    ),
                )
            } else if response.payload.len() == 0 {
                Ok(FollowerAction::Nothing)
            } else {
                Ok(FollowerAction::ApplyBatch)
            },
            ResponseKind::Snapshot => if response.start_offset != 0 || response.end_offset
                != response.leader_end {
                Err(
                    ReplicationError::InvalidProtocol(
                        "snapshot response does not describe one captured boundary",
                    ),
                )
            } else {
                Ok(FollowerAction::InstallSnapshot)
            },
        }
    }
}

/// Decides what to do with a response. Nothing changes when it is refused.
pub fn plan_response(state: &ReplicaState, response: &SyncResponse) -> (action: Result<
    FollowerAction,
    ReplicationError,
>)
    ensures
        action == action_of(state@, response@),
{
    let unnamed: bool = crate::text::chars_of(response.leader_id.as_str()).len() == 0;
    if unnamed || response.generation == 0 || response.end_offset > response.leader_end {
        return Err(ReplicationError::InvalidProtocol("invalid leader identity or offset range"));
    }
    match response.kind {
        ResponseKind::Batch => {
            if !same_text(state.leader_id.as_str(), response.leader_id.as_str())
                || state.generation != response.generation || state.offset
                != response.start_offset {
                return Err(
                    ReplicationError::InvalidProtocol(
                        "incremental response does not continue follower state",
                    ),
                );
            }
            let expected: u64 = match response.end_offset.checked_sub(response.start_offset) {
                Some(expected) => expected,
                None => return Err(
                    ReplicationError::InvalidProtocol("incremental offset underflow"),
                ),
            };
            if expected != response.payload.len() as u64 {
                return Err(
                    ReplicationError::InvalidProtocol(
                        "incremental payload length does not match offsets",
                    ),
                );
            }
            if response.payload.len() == 0 {
                Ok(FollowerAction::Nothing)
            } else {
                Ok(FollowerAction::ApplyBatch)
            }
        },
        ResponseKind::Snapshot => {
            if response.start_offset != 0 || response.end_offset != response.leader_end {
                return Err(
                    ReplicationError::InvalidProtocol(
                        "snapshot response does not describe one captured boundary",
                    ),
                );
            }
            Ok(FollowerAction::InstallSnapshot)
        },
    }
}

/// A follower's progress after it has done what a response called for.
pub open spec fn state_after(response: SyncView) -> StateView {
    StateView {
        leader_id: response.leader_id,
        generation: response.generation,
        offset: response.end_offset,
    }
}

/// Moves a follower's progress on, once its action was carried out. Says whether the progress is
/// other than before, and so has to be written.
pub fn accept_response(state: &mut ReplicaState, metrics: &mut Metrics, response: &SyncResponse) -> (
changed: bool)
    ensures
        final(state)@ == state_after(response@),
        changed == (final(state)@ != old(state)@),
        final(metrics)@ == (MetricsSnapshot {
            replication_bytes_received_total: old(
                metrics)@.replication_bytes_received_total.wrapping_add(
                response@.payload.len() as u64,
            ),
            replication_lag_bytes: if response@.leader_end >= response@.end_offset {
                (response@.leader_end - response@.end_offset) as u64
            } else {
                0
            },
            ..old(metrics)@
        }),
{
    let changed: bool = !same_text(state.leader_id.as_str(), response.leader_id.as_str())
        || state.generation != response.generation || state.offset != response.end_offset;
    state.leader_id = response.leader_id.clone();
    state.generation = response.generation;
    state.offset = response.end_offset;
    metrics.replication_received(response.payload.len() as u64);
    metrics.set_replication_lag(response.leader_end.saturating_sub(response.end_offset));
    changed
}

/// Whether a follower that has accepted a response has all that the leader had.
pub fn caught_up(response: &SyncResponse) -> (all: bool)
    ensures
        all == (response@.end_offset >= response@.leader_end),
{
    response.end_offset >= response.leader_end
}

/// Whether a server of this role synchronizes with its leader before it starts.
pub fn synchronizes_first(role: ReplicationRole) -> (first: bool)
    ensures
        first == (role == ReplicationRole::Follower),
{
    role == ReplicationRole::Follower
}

/// Whether the first synchronization is over after this many rounds. It fails when the follower
/// does not catch up.
pub fn after_round(rounds: usize, caught_up: bool) -> (over: Result<bool, ReplicationError>)
    ensures
        over == (if caught_up {
            Ok(true)
        } else if rounds >= 10_000 {
            Err(ReplicationError::InvalidProtocol("initial synchronization did not converge"))
        } else {
            Ok(false)
        }),
{
    if caught_up {
        Ok(true)
    } else if rounds >= MAX_INITIAL_ROUNDS {
        Err(ReplicationError::InvalidProtocol("initial synchronization did not converge"))
    } else {
        Ok(false)
    }
}

/// An accepted batch moves a follower on by exactly the bytes that it holds, in the same
/// generation of the same leader, and not past the leader's end.
pub proof fn law_batches_leave_no_gap(state: StateView, response: SyncView)
    requires
        action_of(state, response) is Ok,
        response.kind == ResponseKind::Batch,
    ensures
        state_after(response).leader_id == state.leader_id,
        state_after(response).generation == state.generation,
        state_after(response).offset == state.offset + response.payload.len(),
        state_after(response).offset <= response.leader_end,
        action_of(state, response)->Ok_0 == FollowerAction::Nothing <==> state_after(response)
            == state,
{
    if response.payload.len() == 0 {
        assert(state_after(response) =~= state);
    }
}

/// A follower that has read nothing accepts no batch.
pub proof fn law_new_follower_needs_a_snapshot(response: SyncView)
    requires
        action_of(initial_state(), response) is Ok,
    ensures
        action_of(initial_state(), response)->Ok_0 == FollowerAction::InstallSnapshot,
        state_after(response).offset == response.leader_end,
{
}

/// A follower applies a batch exactly where it comes from the leader and the generation that it
/// reads, starts where it stands, and is as long as its offsets say. It takes a snapshot from any
/// leader, exactly where the snapshot stands for the whole log. Neither may go past the leader's
/// end, and both name their leader and a generation.
pub proof fn law_followers_take_what_continues(state: StateView, response: SyncView)
    ensures
        ({
            let action = action_of(state, response);
            let named = response.leader_id.len() > 0 && response.generation > 0
                && response.end_offset <= response.leader_end;
            match response.kind {
                ResponseKind::Batch => {
                    let continues = named && response.leader_id == state.leader_id
                        && response.generation == state.generation && response.start_offset
                        == state.offset && response.end_offset == state.offset
                        + response.payload.len();
                    &&& action is Ok <==> continues
                    &&& continues && response.payload.len() > 0 ==> action->Ok_0
                        == FollowerAction::ApplyBatch
                    &&& continues && response.payload.len() == 0 ==> action->Ok_0
                        == FollowerAction::Nothing
                },
                ResponseKind::Snapshot => {
                    let whole = named && response.start_offset == 0 && response.end_offset
                        == response.leader_end;
                    &&& action is Ok <==> whole
                    &&& whole ==> action->Ok_0 == FollowerAction::InstallSnapshot
                },
            }
        }),
{
}

/// What a follower asks for next continues where the response that it accepted ended, with the
/// leader and the generation that the response names. A new follower has no leader and stands at
/// the start of nothing.
pub proof fn law_progress_is_where_the_response_ended(response: SyncView)
    ensures
        state_after(response).leader_id == response.leader_id,
        state_after(response).generation == response.generation,
        state_after(response).offset == response.end_offset,
        initial_state().leader_id.len() == 0,
        initial_state().generation == 0,
        initial_state().offset == 0,
{
}

/// The first synchronization goes on until the follower has reached the leader's end. It gives up
/// after ten thousand rounds, and only a follower has one at all.
pub proof fn law_synchronization_ends_at_the_leaders_end(
    response: SyncResponse,
    all: bool,
    rounds: usize,
    over: Result<bool, ReplicationError>,
    role: ReplicationRole,
    first: bool,
)
    requires
        call_ensures(caught_up, (&response,), all),
        call_ensures(after_round, (rounds, all), over),
        call_ensures(synchronizes_first, (role,), first),
        response@.end_offset <= response@.leader_end,
    ensures
        over == Ok::<bool, ReplicationError>(true) <==> response@.end_offset
            == response@.leader_end,
        over is Err <==> response@.end_offset < response@.leader_end && rounds >= 10_000,
        over == Ok::<bool, ReplicationError>(false) <==> response@.end_offset
            < response@.leader_end && rounds < 10_000,
        first <==> role == ReplicationRole::Follower,
{
}

} // verus!
