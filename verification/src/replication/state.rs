//! A follower's progress, as it is kept on disk.

use vstd::prelude::*;
use vstd::slice::{slice_subrange, slice_to_vec};
use vstd::utf8::{decode_utf8, encode_utf8, valid_utf8};

use crate::checksum::{checksum, crc32, law_changed_bytes_change_the_checksum};
use crate::error::ReplicationError;
use crate::persistence::identity::valid_node_id;
use crate::replication::message::{
    bad_identity, lemma_id_bytes, validate_node_id, MAX_NODE_ID_SIZE, REPLICATION_VERSION,
};
use crate::text::from_utf8;
use crate::wire::{
    be16, be32, be64, put_bytes, put_u16, put_u32, put_u64, same_bytes, u16_at, u32_at, u64_at,
    un16, un32, un64,
};

verus! {

/// The bytes that the file starts with.
pub const STATE_MAGIC: [u8; 4] = [0x46, 0x4b, 0x52, 0x53];

/// The bytes of the file before the leader's name.
pub const STATE_FIXED_SIZE: usize = 26;

/// How far a follower has read: the leader, the generation of its log, and the place in it.
#[derive(Clone, Debug, PartialEq, Eq)]
pub struct ReplicaState {
    pub leader_id: String,
    pub generation: u64,
    pub offset: u64,
}

/// How far a follower has read, with the name as a sequence of characters.
#[verifier::ext_equal]
pub struct StateView {
    pub leader_id: Seq<char>,
    pub generation: u64,
    pub offset: u64,
}

impl View for ReplicaState {
    type V = StateView;

    open spec fn view(&self) -> StateView {
        StateView {
            leader_id: self.leader_id@,
            generation: self.generation,
            offset: self.offset,
        }
    }
}

/// The progress of a follower that has read nothing.
pub open spec fn initial_state() -> StateView {
    StateView { leader_id: seq![], generation: 0, offset: 0 }
}

impl Default for ReplicaState {
    fn default() -> (state: Self)
        ensures
            state@ == initial_state(),
    {
        let state: ReplicaState = Self { leader_id: String::new(), generation: 0, offset: 0 };
        assert(state@.leader_id =~= seq![]);
        state
    }
}

/// The bytes that the checksum covers.
pub open spec fn state_body(state: StateView) -> Seq<u8> {
    STATE_MAGIC@ + seq![REPLICATION_VERSION, 0u8, 0u8, 0u8] + be64(state.generation) + be64(
        state.offset,
    ) + be16(encode_utf8(state.leader_id).len() as u16) + encode_utf8(state.leader_id)
}

/// The bytes of the file.
pub open spec fn state_bytes(state: StateView) -> Seq<u8> {
    state_body(state) + be32(crc32(state_body(state)))
}

/// Writes a follower's progress.
pub fn encode_state(state: &ReplicaState) -> (encoded: Result<Vec<u8>, ReplicationError>)
    ensures
        match encoded {
            Ok(bytes) => valid_node_id(state@.leader_id) && bytes@ == state_bytes(state@),
            Err(error) => !valid_node_id(state@.leader_id) && error == bad_identity(),
        },
{
    match validate_node_id(state.leader_id.as_str(), false) {
        Ok(_) => {},
        Err(error) => return Err(error),
    }
    proof {
        lemma_id_bytes(state.leader_id@);
    }
    let id: &[u8] = state.leader_id.as_str().as_bytes();
    let mut encoded: Vec<u8> = Vec::with_capacity(STATE_FIXED_SIZE);
    put_bytes(&mut encoded, &STATE_MAGIC);
    encoded.push(REPLICATION_VERSION);
    encoded.push(0);
    encoded.push(0);
    encoded.push(0);
    put_u64(&mut encoded, state.generation);
    put_u64(&mut encoded, state.offset);
    put_u16(&mut encoded, id.len() as u16);
    put_bytes(&mut encoded, id);
    assert(encoded@ =~= state_body(state@));
    let sum: u32 = checksum(encoded.as_slice());
    put_u32(&mut encoded, sum);
    Ok(encoded)
}

/// The progress that a file holds.
pub open spec fn state_of(encoded: Seq<u8>) -> Result<StateView, ReplicationError> {
    let id_length = un16(encoded.subrange(24, 26)) as int;
    let end = 26 + id_length;
    if encoded.len() < 30 || encoded.take(4) != STATE_MAGIC@ || encoded[4] != REPLICATION_VERSION
        || encoded[5] != 0 || encoded[6] != 0 || encoded[7] != 0 {
        Err(ReplicationError::InvalidProtocol("invalid replica state header"))
    } else if id_length > MAX_NODE_ID_SIZE || encoded.len() != end + 4 {
        Err(ReplicationError::InvalidProtocol("invalid replica state length"))
    } else if crc32(encoded.take(end)) != un32(encoded.subrange(end, end + 4)) {
        Err(ReplicationError::InvalidProtocol("replica state checksum mismatch"))
    } else if !valid_utf8(encoded.subrange(26, end)) {
        Err(ReplicationError::InvalidProtocol("replica state identity is not UTF-8"))
    } else if !valid_node_id(decode_utf8(encoded.subrange(26, end))) {
        Err(bad_identity())
    } else {
        Ok(
            StateView {
                leader_id: decode_utf8(encoded.subrange(26, end)),
                generation: un64(encoded.subrange(8, 16)),
                offset: un64(encoded.subrange(16, 24)),
            },
        )
    }
}

/// Reads a follower's progress. Where there is no file, nothing was read yet.
pub fn decode_state(file: Option<&[u8]>) -> (state: Result<ReplicaState, ReplicationError>)
    ensures
        match file {
            None => state is Ok && state->Ok_0@ == initial_state(),
            Some(encoded) => match state {
                Ok(state) => state_of(encoded@) == Ok::<StateView, ReplicationError>(state@),
                Err(error) => state_of(encoded@) == Err::<StateView, ReplicationError>(error),
            },
        },
{
    let encoded: &[u8] = match file {
        Some(encoded) => encoded,
        None => return Ok(ReplicaState::default()),
    };
    if encoded.len() < STATE_FIXED_SIZE + 4 {
        return Err(ReplicationError::InvalidProtocol("invalid replica state header"));
    }
    let magic: &[u8] = slice_subrange(encoded, 0, 4);
    assert(magic@ =~= encoded@.take(4));
    if !same_bytes(magic, &STATE_MAGIC) || encoded[4] != REPLICATION_VERSION || encoded[5] != 0
        || encoded[6] != 0 || encoded[7] != 0 {
        return Err(ReplicationError::InvalidProtocol("invalid replica state header"));
    }
    let id_length: usize = u16_at(encoded, 24) as usize;
    let end: usize = STATE_FIXED_SIZE + id_length;
    if id_length > MAX_NODE_ID_SIZE || encoded.len() != end + 4 {
        return Err(ReplicationError::InvalidProtocol("invalid replica state length"));
    }
    let covered: &[u8] = slice_subrange(encoded, 0, end);
    assert(covered@ =~= encoded@.take(end as int));
    if checksum(covered) != u32_at(encoded, end) {
        return Err(ReplicationError::InvalidProtocol("replica state checksum mismatch"));
    }
    let id: &[u8] = slice_subrange(encoded, STATE_FIXED_SIZE, end);
    let leader_id: String = match from_utf8(slice_to_vec(id)) {
        Some(leader_id) => leader_id,
        None => return Err(
            ReplicationError::InvalidProtocol("replica state identity is not UTF-8"),
        ),
    };
    match validate_node_id(leader_id.as_str(), false) {
        Ok(_) => {},
        Err(error) => return Err(error),
    }
    Ok(ReplicaState { leader_id, generation: u64_at(encoded, 8), offset: u64_at(encoded, 16) })
}

proof fn lemma_state_layout(state: StateView)
    requires
        valid_node_id(state.leader_id),
    ensures
        ({
            let encoded = state_bytes(state);
            let name = encode_utf8(state.leader_id);
            let end = 26 + name.len() as int;
            &&& name.len() <= MAX_NODE_ID_SIZE
            &&& encoded.len() == end + 4
            &&& encoded.take(4) == STATE_MAGIC@
            &&& encoded.subrange(8, 16) == be64(state.generation)
            &&& encoded.subrange(16, 24) == be64(state.offset)
            &&& encoded.subrange(24, 26) == be16(name.len() as u16)
            &&& encoded.subrange(26, end) == name
            &&& encoded.take(end) == state_body(state)
            &&& encoded.subrange(end, end + 4) == be32(crc32(state_body(state)))
        }),
{
    broadcast use crate::wire::group_wire;

    lemma_id_bytes(state.leader_id);
    let encoded = state_bytes(state);
    let name = encode_utf8(state.leader_id);
    let end = 26 + name.len() as int;
    assert(encoded.take(4) =~= STATE_MAGIC@);
    assert(encoded.subrange(8, 16) =~= be64(state.generation));
    assert(encoded.subrange(16, 24) =~= be64(state.offset));
    assert(encoded.subrange(24, 26) =~= be16(name.len() as u16));
    assert(encoded.subrange(26, end) =~= name);
    assert(encoded.take(end) =~= state_body(state));
    assert(encoded.subrange(end, end + 4) =~= be32(crc32(state_body(state))));
}

/// A follower's progress is read back from its file.
pub proof fn law_state_round_trip(state: StateView)
    requires
        valid_node_id(state.leader_id),
    ensures
        state_of(state_bytes(state)) == Ok::<StateView, ReplicationError>(state),
{
    broadcast use crate::wire::group_wire;
    broadcast use vstd::utf8::encode_utf8_valid_utf8;
    broadcast use vstd::utf8::encode_utf8_decode_utf8;

    lemma_state_layout(state);
}

/// A file that was cut short is refused, wherever it was cut.
pub proof fn law_cut_state_is_refused(state: StateView, kept: int)
    requires
        valid_node_id(state.leader_id),
        0 <= kept < state_bytes(state).len(),
    ensures
        state_of(state_bytes(state).take(kept)) is Err,
{
    broadcast use crate::wire::group_wire;

    lemma_state_layout(state);
    let encoded = state_bytes(state);
    if kept >= 30 {
        assert(encoded.take(kept).subrange(24, 26) =~= encoded.subrange(24, 26));
    }
}

/// A file with one byte changed is refused, whatever the byte and whatever it was changed to. A
/// flipped bit is such a change.
pub proof fn law_changed_state_is_refused(state: StateView, index: int, byte: u8)
    requires
        valid_node_id(state.leader_id),
        0 <= index < state_bytes(state).len(),
        byte != state_bytes(state)[index],
    ensures
        state_of(state_bytes(state).update(index, byte)) is Err,
{
    broadcast use crate::wire::group_wire;

    lemma_state_layout(state);
    let encoded = state_bytes(state);
    let changed = encoded.update(index, byte);
    let end = encoded.len() - 4;
    if index < end {
        assert(changed.take(end) =~= encoded.take(end).update(index, byte));
        assert(changed.subrange(end, end + 4) =~= encoded.subrange(end, end + 4));
        law_changed_bytes_change_the_checksum(encoded.take(end), index, byte);
    } else {
        let sum = changed.subrange(end, end + 4);
        assert(changed.take(end) =~= encoded.take(end));
        assert(sum[index - end] != encoded.subrange(end, end + 4)[index - end]);
        crate::wire::lemma_un32(sum);
    }
}

/// How the file is laid out: its magic bytes, its version, three zero bytes, the generation, the
/// place in the log, the length of the leader's name, the name, and the checksum of all that.
pub proof fn law_states_have_their_layout(state: StateView)
    ensures
        ({
            let name = encode_utf8(state.leader_id);
            let covered = seq![0x46u8, 0x4b, 0x52, 0x53, 1, 0, 0, 0] + be64(state.generation)
                + be64(state.offset) + be16(name.len() as u16) + name;
            state_bytes(state) == covered + be32(crc32(covered))
        }),
{
    assert(STATE_MAGIC@ + seq![1u8, 0u8, 0u8, 0u8] =~= seq![0x46u8, 0x4b, 0x52, 0x53, 1, 0, 0, 0]);
}

} // verus!
