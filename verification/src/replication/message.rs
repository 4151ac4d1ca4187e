//! The messages between a follower and its leader.

use vstd::prelude::*;
use vstd::utf8::{decode_utf8, encode_utf8, valid_utf8};

use crate::error::ReplicationError;
use crate::persistence::identity::{is_node_id, valid_node_id};
use crate::text::{chars_of, from_utf8};
use crate::wire::{
    be16, be64, put_bytes, put_u16, put_u64, same_bytes, u16_at, u64_at, un16, un64,
};

verus! {

/// The bytes that a message starts with.
pub const PROTOCOL_MAGIC: [u8; 4] = [0x46, 0x4b, 0x52, 0x50];

/// The version of the messages.
pub const REPLICATION_VERSION: u8 = 1;

/// The kind of a follower's request.
pub const HELLO_KIND: u8 = 1;

/// The kind of a response that holds records.
pub const BATCH_KIND: u8 = 2;

/// The kind of a response that holds a snapshot.
pub const SNAPSHOT_KIND: u8 = 3;

/// The bytes of a request before the leader's name.
pub const HELLO_FIXED_SIZE: usize = 24;

/// The bytes of a response before the leader's name.
pub const RESPONSE_FIXED_SIZE: usize = 48;

/// The most bytes that a node's name can have.
pub const MAX_NODE_ID_SIZE: usize = 64;

/// A follower's request: what it has read so far.
#[derive(Clone, Debug, PartialEq, Eq)]
pub struct Hello {
    pub leader_id: String,
    pub generation: u64,
    pub offset: u64,
}

/// A follower's request, with the name as a sequence of characters.
#[verifier::ext_equal]
pub struct HelloView {
    pub leader_id: Seq<char>,
    pub generation: u64,
    pub offset: u64,
}

impl View for Hello {
    type V = HelloView;

    open spec fn view(&self) -> HelloView {
        HelloView {
            leader_id: self.leader_id@,
            generation: self.generation,
            offset: self.offset,
        }
    }
}

/// What a response holds.
#[derive(Clone, Copy, Debug, PartialEq, Eq, Structural)]
pub enum ResponseKind {
    Batch,
    Snapshot,
}

impl ResponseKind {
    /// The byte that names the kind.
    pub open spec fn spec_code(self) -> u8 {
        match self {
            ResponseKind::Batch => BATCH_KIND,
            ResponseKind::Snapshot => SNAPSHOT_KIND,
        }
    }
}

/// A leader's response.
#[derive(Clone, Debug, PartialEq, Eq)]
pub struct SyncResponse {
    pub kind: ResponseKind,
    pub leader_id: String,
    pub generation: u64,
    pub start_offset: u64,
    pub end_offset: u64,
    pub leader_end: u64,
    pub payload: Vec<u8>,
}

/// A leader's response, with its parts as mathematical values.
#[verifier::ext_equal]
pub struct SyncView {
    pub kind: ResponseKind,
    pub leader_id: Seq<char>,
    pub generation: u64,
    pub start_offset: u64,
    pub end_offset: u64,
    pub leader_end: u64,
    pub payload: Seq<u8>,
}

impl View for SyncResponse {
    type V = SyncView;

    open spec fn view(&self) -> SyncView {
        SyncView {
            kind: self.kind,
            leader_id: self.leader_id@,
            generation: self.generation,
            start_offset: self.start_offset,
            end_offset: self.end_offset,
            leader_end: self.leader_end,
            payload: self.payload@,
        }
    }
}

/// What is said of a name that is not one.
pub open spec fn bad_identity() -> ReplicationError {
    ReplicationError::InvalidProtocol("invalid hexadecimal node identity")
}

/// Refuses a text that is no node's name. An empty one may pass.
pub fn validate_node_id(node_id: &str, allow_empty: bool) -> (valid: Result<(), ReplicationError>)
    ensures
        valid == (if valid_node_id(node_id@) || (allow_empty && node_id@.len() == 0) {
            Ok(())
        } else {
            Err(bad_identity())
        }),
{
    let chars: Vec<char> = chars_of(node_id);
    if (allow_empty && chars.len() == 0) || is_node_id(chars.as_slice()) {
        Ok(())
    } else {
        Err(ReplicationError::InvalidProtocol("invalid hexadecimal node identity"))
    }
}

/// A name has as many bytes as characters.
pub proof fn lemma_id_bytes(id: Seq<char>)
    requires
        valid_node_id(id) || id.len() == 0,
    ensures
        encode_utf8(id).len() == id.len(),
        id.len() <= 64,
{
    broadcast use vstd::utf8::is_ascii_chars_encode_utf8;

    assert forall|i: int| 0 <= i < id.len() implies '\0' <= #[trigger] id[i] <= '\u{7f}' by {}
    assert(vstd::utf8::is_ascii_chars(id));
}

/// The bytes of a request.
pub open spec fn hello_bytes(hello: HelloView) -> Seq<u8> {
    PROTOCOL_MAGIC@ + seq![REPLICATION_VERSION, HELLO_KIND] + be16(
        encode_utf8(hello.leader_id).len() as u16,
    ) + be64(hello.generation) + be64(hello.offset) + encode_utf8(hello.leader_id)
}

/// Writes a request.
pub fn encode_hello(hello: &Hello) -> (encoded: Result<Vec<u8>, ReplicationError>)
    ensures
        match encoded {
            Ok(bytes) => (valid_node_id(hello@.leader_id) || hello@.leader_id.len() == 0) && bytes@
                == hello_bytes(hello@),
            Err(error) => !valid_node_id(hello@.leader_id) && hello@.leader_id.len() > 0 && error
                == bad_identity(),
        },
{
    match validate_node_id(hello.leader_id.as_str(), true) {
        Ok(_) => {},
        Err(error) => return Err(error),
    }
    proof {
        lemma_id_bytes(hello.leader_id@);
    }
    let id: &[u8] = hello.leader_id.as_str().as_bytes();
    let mut encoded: Vec<u8> = Vec::with_capacity(HELLO_FIXED_SIZE);
    put_bytes(&mut encoded, &PROTOCOL_MAGIC);
    encoded.push(REPLICATION_VERSION);
    encoded.push(HELLO_KIND);
    put_u16(&mut encoded, id.len() as u16);
    put_u64(&mut encoded, hello.generation);
    put_u64(&mut encoded, hello.offset);
    put_bytes(&mut encoded, id);
    assert(encoded@ =~= hello_bytes(hello@));
    Ok(encoded)
}

/// The length of the leader's name that a request announces.
pub open spec fn hello_id_length(fixed: Seq<u8>) -> Result<usize, ReplicationError> {
    if fixed.take(4) != PROTOCOL_MAGIC@ || fixed[4] != REPLICATION_VERSION || fixed[5]
        != HELLO_KIND {
        Err(ReplicationError::InvalidProtocol("invalid replication message prefix"))
    } else if un16(fixed.subrange(6, 8)) > MAX_NODE_ID_SIZE {
        Err(ReplicationError::InvalidProtocol("node identity is too long"))
    } else {
        Ok(un16(fixed.subrange(6, 8)) as usize)
    }
}

/// Reads the fixed part of a request, and says how long the leader's name is that follows it.
pub fn read_hello_header(fixed: &[u8]) -> (length: Result<usize, ReplicationError>)
    requires
        fixed@.len() == HELLO_FIXED_SIZE,
    ensures
        length == hello_id_length(fixed@),
{
    let magic: &[u8] = vstd::slice::slice_subrange(fixed, 0, 4);
    assert(magic@ =~= fixed@.take(4));
    if !same_bytes(magic, &PROTOCOL_MAGIC) || fixed[4] != REPLICATION_VERSION || fixed[5]
        != HELLO_KIND {
        return Err(ReplicationError::InvalidProtocol("invalid replication message prefix"));
    }
    let length: usize = u16_at(fixed, 6) as usize;
    if length > MAX_NODE_ID_SIZE {
        return Err(ReplicationError::InvalidProtocol("node identity is too long"));
    }
    Ok(length)
}

/// The request that its fixed part and the leader's name make up.
pub open spec fn hello_of(fixed: Seq<u8>, id: Seq<u8>) -> Result<HelloView, ReplicationError> {
    if !valid_utf8(id) {
        Err(ReplicationError::InvalidProtocol("node identity is not UTF-8"))
    } else if !valid_node_id(decode_utf8(id)) && decode_utf8(id).len() > 0 {
        Err(bad_identity())
    } else {
        Ok(
            HelloView {
                leader_id: decode_utf8(id),
                generation: un64(fixed.subrange(8, 16)),
                offset: un64(fixed.subrange(16, 24)),
            },
        )
    }
}

/// Reads a request from its fixed part and the leader's name.
pub fn read_hello(fixed: &[u8], id: Vec<u8>) -> (hello: Result<Hello, ReplicationError>)
    requires
        fixed@.len() == HELLO_FIXED_SIZE,
    ensures
        match hello {
            Ok(hello) => hello_of(fixed@, id@) == Ok::<HelloView, ReplicationError>(hello@),
            Err(error) => hello_of(fixed@, id@) == Err::<HelloView, ReplicationError>(error),
        },
{
    let leader_id: String = match from_utf8(id) {
        Some(leader_id) => leader_id,
        None => return Err(ReplicationError::InvalidProtocol("node identity is not UTF-8")),
    };
    match validate_node_id(leader_id.as_str(), true) {
        Ok(_) => {},
        Err(error) => return Err(error),
    }
    Ok(Hello { leader_id, generation: u64_at(fixed, 8), offset: u64_at(fixed, 16) })
}

/// The bytes of a response before its payload.
pub open spec fn response_head(response: SyncView) -> Seq<u8> {
    PROTOCOL_MAGIC@ + seq![REPLICATION_VERSION, response.kind.spec_code()] + be16(
        encode_utf8(response.leader_id).len() as u16,
    ) + be64(response.generation) + be64(response.start_offset) + be64(response.end_offset) + be64(
        response.leader_end,
    ) + be64(response.payload.len() as u64) + encode_utf8(response.leader_id)
}

/// The bytes of a response.
pub open spec fn response_bytes(response: SyncView) -> Seq<u8> {
    response_head(response) + response.payload
}

/// Writes the part of a response that comes before its payload.
pub fn encode_response_head(response: &SyncResponse) -> (encoded: Result<
    Vec<u8>,
    ReplicationError,
>)
    ensures
        match encoded {
            Ok(bytes) => valid_node_id(response@.leader_id) && bytes@ == response_head(response@),
            Err(error) => !valid_node_id(response@.leader_id) && error == bad_identity(),
        },
{
    match validate_node_id(response.leader_id.as_str(), false) {
        Ok(_) => {},
        Err(error) => return Err(error),
    }
    proof {
        lemma_id_bytes(response.leader_id@);
    }
    let id: &[u8] = response.leader_id.as_str().as_bytes();
    let mut encoded: Vec<u8> = Vec::with_capacity(RESPONSE_FIXED_SIZE);
    put_bytes(&mut encoded, &PROTOCOL_MAGIC);
    encoded.push(REPLICATION_VERSION);
    encoded.push(
        match response.kind {
            ResponseKind::Batch => BATCH_KIND,
            ResponseKind::Snapshot => SNAPSHOT_KIND,
        },
    );
    put_u16(&mut encoded, id.len() as u16);
    put_u64(&mut encoded, response.generation);
    put_u64(&mut encoded, response.start_offset);
    put_u64(&mut encoded, response.end_offset);
    put_u64(&mut encoded, response.leader_end);
    put_u64(&mut encoded, response.payload.len() as u64);
    put_bytes(&mut encoded, id);
    assert(encoded@ =~= response_head(response@));
    Ok(encoded)
}

/// What the fixed part of a response says.
#[derive(Clone, Copy, Debug, PartialEq, Eq, Structural)]
pub struct ResponseHeader {
    pub kind: ResponseKind,
    pub id_length: usize,
    pub generation: u64,
    pub start_offset: u64,
    pub end_offset: u64,
    pub leader_end: u64,
    pub payload_length: usize,
}

/// The limit of a payload of this kind.
pub open spec fn payload_limit(
    kind: ResponseKind,
    max_batch_size: usize,
    max_snapshot_size: usize,
) -> usize {
    match kind {
        ResponseKind::Batch => max_batch_size,
        ResponseKind::Snapshot => max_snapshot_size,
    }
}

/// What the fixed part of a response says, where a follower with these limits accepts it.
pub open spec fn header_of(
    fixed: Seq<u8>,
    max_batch_size: usize,
    max_snapshot_size: usize,
) -> Result<ResponseHeader, ReplicationError> {
    let kind = if fixed[5] == BATCH_KIND {
        ResponseKind::Batch
    } else {
        ResponseKind::Snapshot
    };
    let id_length = un16(fixed.subrange(6, 8));
    let payload_length = un64(fixed.subrange(40, 48));
    let maximum = payload_limit(kind, max_batch_size, max_snapshot_size);
    if fixed.take(4) != PROTOCOL_MAGIC@ || fixed[4] != REPLICATION_VERSION {
        Err(ReplicationError::InvalidProtocol("invalid replication response prefix"))
    } else if fixed[5] != BATCH_KIND && fixed[5] != SNAPSHOT_KIND {
        Err(ReplicationError::InvalidProtocol("invalid response kind"))
    } else if id_length == 0 || id_length > MAX_NODE_ID_SIZE {
        Err(ReplicationError::InvalidProtocol("invalid leader identity length"))
    } else if payload_length > maximum {
        Err(ReplicationError::PayloadTooLarge { actual: payload_length, maximum })
    } else {
        Ok(
            ResponseHeader {
                kind,
                id_length: id_length as usize,
                generation: un64(fixed.subrange(8, 16)),
                start_offset: un64(fixed.subrange(16, 24)),
                end_offset: un64(fixed.subrange(24, 32)),
                leader_end: un64(fixed.subrange(32, 40)),
                payload_length: payload_length as usize,
            },
        )
    }
}

/// Reads the fixed part of a response. A follower asks this before it makes room for the rest.
pub fn read_response_header(fixed: &[u8], max_batch_size: usize, max_snapshot_size: usize) -> (
header: Result<ResponseHeader, ReplicationError>)
    requires
        fixed@.len() == RESPONSE_FIXED_SIZE,
    ensures
        header == header_of(fixed@, max_batch_size, max_snapshot_size),
{
    let magic: &[u8] = vstd::slice::slice_subrange(fixed, 0, 4);
    assert(magic@ =~= fixed@.take(4));
    if !same_bytes(magic, &PROTOCOL_MAGIC) || fixed[4] != REPLICATION_VERSION {
        return Err(ReplicationError::InvalidProtocol("invalid replication response prefix"));
    }
    let kind: ResponseKind = if fixed[5] == BATCH_KIND {
        ResponseKind::Batch
    } else if fixed[5] == SNAPSHOT_KIND {
        ResponseKind::Snapshot
    } else {
        return Err(ReplicationError::InvalidProtocol("invalid response kind"));
    };
    let id_length: usize = u16_at(fixed, 6) as usize;
    if id_length == 0 || id_length > MAX_NODE_ID_SIZE {
        return Err(ReplicationError::InvalidProtocol("invalid leader identity length"));
    }
    let payload_length: u64 = u64_at(fixed, 40);
    let maximum: usize = match kind {
        ResponseKind::Batch => max_batch_size,
        ResponseKind::Snapshot => max_snapshot_size,
    };
    if payload_length > maximum as u64 {
        return Err(ReplicationError::PayloadTooLarge { actual: payload_length, maximum });
    }
    Ok(
        ResponseHeader {
            kind,
            id_length,
            generation: u64_at(fixed, 8),
            start_offset: u64_at(fixed, 16),
            end_offset: u64_at(fixed, 24),
            leader_end: u64_at(fixed, 32),
            payload_length: payload_length as usize,
        },
    )
}

/// The leader's name in a response.
pub open spec fn leader_id_of(id: Seq<u8>) -> Result<Seq<char>, ReplicationError> {
    if !valid_utf8(id) {
        Err(ReplicationError::InvalidProtocol("leader identity is not UTF-8"))
    } else if !valid_node_id(decode_utf8(id)) {
        Err(bad_identity())
    } else {
        Ok(decode_utf8(id))
    }
}

/// Reads the leader's name in a response.
pub fn read_leader_id(id: Vec<u8>) -> (leader_id: Result<String, ReplicationError>)
    ensures
        match leader_id {
            Ok(leader_id) => leader_id_of(id@) == Ok::<Seq<char>, ReplicationError>(leader_id@),
            Err(error) => leader_id_of(id@) == Err::<Seq<char>, ReplicationError>(error),
        },
{
    let leader_id: String = match from_utf8(id) {
        Some(leader_id) => leader_id,
        None => return Err(ReplicationError::InvalidProtocol("leader identity is not UTF-8")),
    };
    match validate_node_id(leader_id.as_str(), false) {
        Ok(_) => Ok(leader_id),
        Err(error) => Err(error),
    }
}

impl ResponseHeader {
    /// The response that this header, the leader's name and the payload make up.
    pub open spec fn response(self, leader_id: Seq<char>, payload: Seq<u8>) -> SyncView {
        SyncView {
            kind: self.kind,
            leader_id,
            generation: self.generation,
            start_offset: self.start_offset,
            end_offset: self.end_offset,
            leader_end: self.leader_end,
            payload,
        }
    }

    /// The response that this header, the leader's name and the payload make up.
    pub fn complete(self, leader_id: String, payload: Vec<u8>) -> (response: SyncResponse)
        ensures
            response@ == self.response(leader_id@, payload@),
    {
        SyncResponse {
            kind: self.kind,
            leader_id,
            generation: self.generation,
            start_offset: self.start_offset,
            end_offset: self.end_offset,
            leader_end: self.leader_end,
            payload,
        }
    }
}

/// A request is read back from its bytes.
pub proof fn law_hello_round_trip(hello: HelloView)
    requires
        valid_node_id(hello.leader_id) || hello.leader_id.len() == 0,
    ensures
        ({
            let bytes = hello_bytes(hello);
            let (fixed, id) = (bytes.take(24), bytes.skip(24));
            &&& hello_id_length(fixed) == Ok::<usize, ReplicationError>(id.len() as usize)
            &&& hello_of(fixed, id) == Ok::<HelloView, ReplicationError>(hello)
        }),
{
    broadcast use crate::wire::group_wire;
    broadcast use vstd::utf8::encode_utf8_valid_utf8;
    broadcast use vstd::utf8::encode_utf8_decode_utf8;

    lemma_id_bytes(hello.leader_id);
    let bytes = hello_bytes(hello);
    let (fixed, id) = (bytes.take(24), bytes.skip(24));
    let name = encode_utf8(hello.leader_id);
    assert(fixed.take(4) =~= PROTOCOL_MAGIC@);
    assert(fixed.subrange(6, 8) =~= be16(name.len() as u16));
    assert(fixed.subrange(8, 16) =~= be64(hello.generation));
    assert(fixed.subrange(16, 24) =~= be64(hello.offset));
    assert(id =~= name);
}

/// A response is read back from its bytes by a follower whose limits allow its payload.
pub proof fn law_response_round_trip(
    response: SyncView,
    max_batch_size: usize,
    max_snapshot_size: usize,
)
    requires
        valid_node_id(response.leader_id),
        response.payload.len() <= payload_limit(response.kind, max_batch_size, max_snapshot_size),
    ensures
        ({
            let bytes = response_bytes(response);
            let fixed = bytes.take(48);
            let header = header_of(fixed, max_batch_size, max_snapshot_size);
            let id = bytes.subrange(48, 48 + header->Ok_0.id_length);
            let payload = bytes.skip(48 + header->Ok_0.id_length);
            &&& header is Ok
            &&& header->Ok_0.payload_length == payload.len()
            &&& leader_id_of(id) == Ok::<Seq<char>, ReplicationError>(response.leader_id)
            &&& header->Ok_0.response(response.leader_id, payload) == response
        }),
{
    broadcast use crate::wire::group_wire;
    broadcast use vstd::utf8::encode_utf8_valid_utf8;
    broadcast use vstd::utf8::encode_utf8_decode_utf8;

    lemma_id_bytes(response.leader_id);
    let bytes = response_bytes(response);
    let fixed = bytes.take(48);
    let name = encode_utf8(response.leader_id);
    assert(fixed.take(4) =~= PROTOCOL_MAGIC@);
    assert(fixed[5] == response.kind.spec_code());
    assert(fixed.subrange(6, 8) =~= be16(name.len() as u16));
    assert(fixed.subrange(8, 16) =~= be64(response.generation));
    assert(fixed.subrange(16, 24) =~= be64(response.start_offset));
    assert(fixed.subrange(24, 32) =~= be64(response.end_offset));
    assert(fixed.subrange(32, 40) =~= be64(response.leader_end));
    assert(fixed.subrange(40, 48) =~= be64(response.payload.len() as u64));
    let length = name.len() as int;
    assert(bytes.subrange(48, 48 + length) =~= name);
    assert(bytes.skip(48 + length) =~= response.payload);
}

/// How messages are laid out: their magic bytes, their version, their kind, the length of the
/// leader's name and the generation. A request goes on with the place in the log, and a response
/// with the start and the end of its payload, the leader's end and the payload's length. The name
/// comes after that, and a response's payload after the name.
pub proof fn law_messages_have_their_layout(hello: HelloView, response: SyncView)
    ensures
        ({
            let name = encode_utf8(hello.leader_id);
            hello_bytes(hello) == seq![0x46u8, 0x4b, 0x52, 0x50, 1, 1] + be16(name.len() as u16)
                + be64(hello.generation) + be64(hello.offset) + name
        }),
        ({
            let name = encode_utf8(response.leader_id);
            let kind: u8 = match response.kind {
                ResponseKind::Batch => 2,
                ResponseKind::Snapshot => 3,
            };
            response_bytes(response) == seq![0x46u8, 0x4b, 0x52, 0x50, 1, kind] + be16(
                name.len() as u16,
            ) + be64(response.generation) + be64(response.start_offset) + be64(
                response.end_offset,
            ) + be64(response.leader_end) + be64(response.payload.len() as u64) + name
                + response.payload
        }),
{
    let kind: u8 = match response.kind {
        ResponseKind::Batch => 2,
        ResponseKind::Snapshot => 3,
    };
    assert(PROTOCOL_MAGIC@ + seq![1u8, 1u8] =~= seq![0x46u8, 0x4b, 0x52, 0x50, 1, 1]);
    assert(PROTOCOL_MAGIC@ + seq![1u8, kind] =~= seq![0x46u8, 0x4b, 0x52, 0x50, 1, kind]);
}

/// A follower accepts the fixed part of a response exactly where the payload is within the limit
/// for its kind: one for batches, another for snapshots.
pub proof fn law_payloads_are_bounded(
    response: SyncView,
    max_batch_size: usize,
    max_snapshot_size: usize,
)
    requires
        valid_node_id(response.leader_id),
        response.payload.len() <= u64::MAX,
    ensures
        ({
            let header = header_of(
                response_bytes(response).take(48),
                max_batch_size,
                max_snapshot_size,
            );
            let maximum = match response.kind {
                ResponseKind::Batch => max_batch_size,
                ResponseKind::Snapshot => max_snapshot_size,
            };
            if response.payload.len() > maximum {
                header == Err::<ResponseHeader, ReplicationError>(
                    ReplicationError::PayloadTooLarge {
                        actual: response.payload.len() as u64,
                        maximum,
                    },
                )
            } else {
                &&& header is Ok
                &&& header->Ok_0.kind == response.kind
                &&& header->Ok_0.payload_length == response.payload.len()
            }
        }),
{
    broadcast use crate::wire::group_wire;

    if response.payload.len() <= payload_limit(response.kind, max_batch_size, max_snapshot_size) {
        law_response_round_trip(response, max_batch_size, max_snapshot_size);
    }
    lemma_id_bytes(response.leader_id);
    let fixed = response_bytes(response).take(48);
    let name = encode_utf8(response.leader_id);
    assert(fixed.take(4) =~= PROTOCOL_MAGIC@);
    assert(fixed[5] == response.kind.spec_code());
    assert(fixed.subrange(6, 8) =~= be16(name.len() as u16));
    assert(fixed.subrange(40, 48) =~= be64(response.payload.len() as u64));
}

} // verus!
