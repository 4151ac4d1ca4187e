//! Records of the write-ahead log.

use bytes::Bytes;
use vstd::prelude::*;
use vstd::slice::slice_subrange;

use crate::buffer::{as_slice, contents, from_slice, from_vec};
use crate::checksum::{checksum, crc32, law_changed_bytes_change_the_checksum};
use crate::error::PersistenceError;
use crate::protocol::frame::ProtocolLimits;
use crate::time::{Duration, Timestamp};
use crate::wire::{
    be16, be32, be64, put_bytes, put_u16, put_u32, put_u64, u32_at, u64_at, un32, un64,
};

verus! {

/// The version of the log format.
pub const WAL_VERSION: u8 = 1;

/// The bytes that a log starts with.
pub const WAL_HEADER: [u8; 8] = [0x46, 0x4b, 0x56, 0x57, 0x01, 0x00, 0x00, 0x00];

/// The bytes that a record starts with.
pub const RECORD_MAGIC: [u8; 4] = [0x46, 0x4b, 0x56, 0x52];

/// The bytes of a record between its first four and its key.
pub const RECORD_FIXED_AFTER_MAGIC: usize = 28;

/// The bytes of a record that are neither key nor value.
pub const RECORD_FIXED_TOTAL: usize = 36;

/// What stands in a record without an expiration.
pub const NO_EXPIRATION: u64 = u64::MAX;

/// What a record does.
#[derive(Clone, Copy, Debug, PartialEq, Eq, Structural)]
pub enum RecordType {
    Put,
    Del,
    SetEx,
    Persist,
}

/// The record type that a byte names.
pub open spec fn record_type_of(code: u8) -> Option<RecordType> {
    if code == 0x01 {
        Some(RecordType::Put)
    } else if code == 0x02 {
        Some(RecordType::Del)
    } else if code == 0x03 {
        Some(RecordType::SetEx)
    } else if code == 0x04 {
        Some(RecordType::Persist)
    } else {
        None
    }
}

impl RecordType {
    /// The byte that names the record type in the log.
    pub open spec fn spec_code(self) -> u8 {
        match self {
            RecordType::Put => 0x01,
            RecordType::Del => 0x02,
            RecordType::SetEx => 0x03,
            RecordType::Persist => 0x04,
        }
    }

    /// The byte that names the record type in the log.
    pub fn code(self) -> (code: u8)
        ensures
            code == self.spec_code(),
            record_type_of(code) == Some(self),
    {
        match self {
            RecordType::Put => 0x01,
            RecordType::Del => 0x02,
            RecordType::SetEx => 0x03,
            RecordType::Persist => 0x04,
        }
    }
}

impl TryFrom<u8> for RecordType {
    type Error = PersistenceError;

    fn try_from(value: u8) -> (record_type: Result<Self, PersistenceError>) {
        match value {
            0x01 => Ok(RecordType::Put),
            0x02 => Ok(RecordType::Del),
            0x03 => Ok(RecordType::SetEx),
            0x04 => Ok(RecordType::Persist),
            _ => Err(PersistenceError::InvalidRecordType(value)),
        }
    }
}

impl vstd::std_specs::convert::TryFromSpecImpl<u8> for RecordType {
    open spec fn obeys_try_from_spec() -> bool {
        true
    }

    open spec fn try_from_spec(value: u8) -> Result<Self, PersistenceError> {
        match record_type_of(value) {
            Some(record_type) => Ok(record_type),
            None => Err(PersistenceError::InvalidRecordType(value)),
        }
    }
}

/// One change to the data.
#[derive(Clone, Debug, PartialEq, Eq)]
pub struct WalRecord {
    pub record_type: RecordType,
    pub timestamp_ms: u64,
    pub expires_at_ms: Option<u64>,
    pub key: Bytes,
    pub value: Bytes,
}

/// One change to the data, with its key and value as sequences of bytes.
#[verifier::ext_equal]
pub struct RecordView {
    pub record_type: RecordType,
    pub timestamp_ms: u64,
    pub expires_at_ms: Option<u64>,
    pub key: Seq<u8>,
    pub value: Seq<u8>,
}

impl View for WalRecord {
    type V = RecordView;

    open spec fn view(&self) -> RecordView {
        RecordView {
            record_type: self.record_type,
            timestamp_ms: self.timestamp_ms,
            expires_at_ms: self.expires_at_ms,
            key: contents(self.key),
            value: contents(self.value),
        }
    }
}

impl RecordView {
    /// The expiration as it is written.
    pub open spec fn expiration(self) -> u64 {
        match self.expires_at_ms {
            Some(millis) => millis,
            None => NO_EXPIRATION,
        }
    }

    /// The bytes of the record that its checksum covers.
    pub open spec fn body(self) -> Seq<u8> {
        seq![WAL_VERSION, self.record_type.spec_code()] + be16(0) + be64(self.timestamp_ms) + be64(
            self.expiration(),
        ) + be32(self.key.len() as u32) + be32(self.value.len() as u32) + self.key + self.value
    }

    /// The bytes of the record in the log.
    pub open spec fn encoded(self) -> Seq<u8> {
        RECORD_MAGIC@ + self.body() + be32(crc32(self.body()))
    }

    /// Whether both lengths fit their fields and the record fits in memory.
    pub open spec fn encodable(self) -> bool {
        self.key.len() <= u32::MAX && self.value.len() <= u32::MAX && RECORD_FIXED_TOTAL
            + self.key.len() + self.value.len() <= usize::MAX
    }

    /// Whether the parts of the record are those that its type calls for.
    pub open spec fn consistent(self) -> bool {
        match self.record_type {
            RecordType::Put => self.expires_at_ms is None,
            RecordType::Del => self.expires_at_ms is None && self.value.len() == 0,
            RecordType::Persist => self.expires_at_ms is None && self.value.len() == 0,
            RecordType::SetEx => self.expires_at_ms is Some && self.expires_at_ms->0
                != NO_EXPIRATION,
        }
    }

    /// Whether a reader with these limits accepts the record.
    pub open spec fn accepted(self, limits: ProtocolLimits) -> bool {
        self.consistent() && lengths_accepted(self.key.len(), self.value.len(), limits)
    }
}

/// The milliseconds between the epoch and an instant.
pub open spec fn millis_of(instant: Timestamp) -> Result<u64, PersistenceError> {
    if instant.nanos < 0 {
        Err(PersistenceError::ClockBeforeEpoch)
    } else if instant.nanos / 1_000_000 > u64::MAX {
        Err(PersistenceError::InvalidRecordLength)
    } else {
        Ok((instant.nanos / 1_000_000) as u64)
    }
}

/// The milliseconds between the epoch and an instant.
pub fn system_time_to_ms(value: Timestamp) -> (millis: Result<u64, PersistenceError>)
    ensures
        millis == millis_of(value),
{
    let since: Duration = match value.duration_since(Timestamp::epoch()) {
        Some(since) => since,
        None => return Err(PersistenceError::ClockBeforeEpoch),
    };
    let millis: u128 = since.as_millis();
    if millis > u64::MAX as u128 {
        return Err(PersistenceError::InvalidRecordLength);
    }
    Ok(millis as u64)
}

/// The instant that many milliseconds after the epoch.
pub open spec fn instant_of(millis: u64) -> Timestamp {
    Timestamp { nanos: (millis * 1_000_000) as i128 }
}

/// The instant that many milliseconds after the epoch. Every such instant is within reach.
pub fn ms_to_system_time(value: u64) -> (instant: Result<Timestamp, PersistenceError>)
    ensures
        instant == Ok::<Timestamp, PersistenceError>(instant_of(value)),
{
    match Timestamp::epoch().checked_add(Duration::from_millis(value)) {
        Some(instant) => Ok(instant),
        None => Err(PersistenceError::InvalidRecordLength),
    }
}

/// The record of a change that was made at `now`.
pub open spec fn stamped(
    record_type: RecordType,
    expires_at: Option<Timestamp>,
    key: Seq<u8>,
    value: Seq<u8>,
    now: Timestamp,
) -> Result<RecordView, PersistenceError> {
    match millis_of(now) {
        Err(error) => Err(error),
        Ok(timestamp_ms) => match expires_at {
            None => Ok(RecordView { record_type, timestamp_ms, expires_at_ms: None, key, value }),
            Some(expires_at) => match millis_of(expires_at) {
                Err(error) => Err(error),
                Ok(millis) => Ok(
                    RecordView {
                        record_type,
                        timestamp_ms,
                        expires_at_ms: Some(millis),
                        key,
                        value,
                    },
                ),
            },
        },
    }
}

/// A result with its record as a view.
pub open spec fn viewed(record: Result<WalRecord, PersistenceError>) -> Result<
    RecordView,
    PersistenceError,
> {
    match record {
        Ok(record) => Ok(record@),
        Err(error) => Err(error),
    }
}

impl WalRecord {
    /// The record of a write at `now`.
    pub fn set_at(key: Bytes, value: Bytes, now: Timestamp) -> (record: Result<
        Self,
        PersistenceError,
    >)
        ensures
            viewed(record) == stamped(RecordType::Put, None, contents(key), contents(value), now),
    {
        match system_time_to_ms(now) {
            Ok(timestamp_ms) => Ok(
                Self { record_type: RecordType::Put, timestamp_ms, expires_at_ms: None, key, value },
            ),
            Err(error) => Err(error),
        }
    }

    /// The record of a write now.
    pub fn set(key: Bytes, value: Bytes) -> (record: Result<Self, PersistenceError>)
        ensures
            exists|now: Timestamp|
                viewed(record) == #[trigger] stamped(
                    RecordType::Put,
                    None,
                    contents(key),
                    contents(value),
                    now,
                ),
    {
        Self::set_at(key, value, Timestamp::now())
    }

    /// The record of a removal at `now`.
    pub fn delete_at(key: Bytes, now: Timestamp) -> (record: Result<Self, PersistenceError>)
        ensures
            viewed(record) == stamped(RecordType::Del, None, contents(key), seq![], now),
    {
        match system_time_to_ms(now) {
            Ok(timestamp_ms) => {
                let value: Bytes = from_vec(Vec::new());
                Ok(
                    Self {
                        record_type: RecordType::Del,
                        timestamp_ms,
                        expires_at_ms: None,
                        key,
                        value,
                    },
                )
            },
            Err(error) => Err(error),
        }
    }

    /// The record of a removal now.
    pub fn delete(key: Bytes) -> (record: Result<Self, PersistenceError>)
        ensures
            exists|now: Timestamp|
                viewed(record) == #[trigger] stamped(
                    RecordType::Del,
                    None,
                    contents(key),
                    seq![],
                    now,
                ),
    {
        Self::delete_at(key, Timestamp::now())
    }

    /// The record of a write with an expiration, at `now`.
    pub fn set_ex_at(key: Bytes, value: Bytes, expires_at: Timestamp, now: Timestamp) -> (record:
        Result<Self, PersistenceError>)
        ensures
            viewed(record) == stamped(
                RecordType::SetEx,
                Some(expires_at),
                contents(key),
                contents(value),
                now,
            ),
    {
        let timestamp_ms: u64 = match system_time_to_ms(now) {
            Ok(millis) => millis,
            Err(error) => return Err(error),
        };
        match system_time_to_ms(expires_at) {
            Ok(millis) => Ok(
                Self {
                    record_type: RecordType::SetEx,
                    timestamp_ms,
                    expires_at_ms: Some(millis),
                    key,
                    value,
                },
            ),
            Err(error) => Err(error),
        }
    }

    /// The record of a write with an expiration, now.
    pub fn set_ex(key: Bytes, value: Bytes, expires_at: Timestamp) -> (record: Result<
        Self,
        PersistenceError,
    >)
        ensures
            exists|now: Timestamp|
                viewed(record) == #[trigger] stamped(
                    RecordType::SetEx,
                    Some(expires_at),
                    contents(key),
                    contents(value),
                    now,
                ),
    {
        Self::set_ex_at(key, value, expires_at, Timestamp::now())
    }

    /// The record of an expiration taken away at `now`.
    pub fn persist_at(key: Bytes, now: Timestamp) -> (record: Result<Self, PersistenceError>)
        ensures
            viewed(record) == stamped(RecordType::Persist, None, contents(key), seq![], now),
    {
        match system_time_to_ms(now) {
            Ok(timestamp_ms) => {
                let value: Bytes = from_vec(Vec::new());
                Ok(
                    Self {
                        record_type: RecordType::Persist,
                        timestamp_ms,
                        expires_at_ms: None,
                        key,
                        value,
                    },
                )
            },
            Err(error) => Err(error),
        }
    }

    /// The record of an expiration taken away now.
    pub fn persist(key: Bytes) -> (record: Result<Self, PersistenceError>)
        ensures
            exists|now: Timestamp|
                viewed(record) == #[trigger] stamped(
                    RecordType::Persist,
                    None,
                    contents(key),
                    seq![],
                    now,
                ),
    {
        Self::persist_at(key, Timestamp::now())
    }

    /// Writes the record, unless a length does not fit its field.
    pub fn encode(&self) -> (encoded: Result<Bytes, PersistenceError>)
        ensures
            match encoded {
                Ok(bytes) => self@.encodable() && contents(bytes) == self@.encoded(),
                Err(error) => !self@.encodable() && error == PersistenceError::InvalidRecordLength,
            },
    {
        broadcast use crate::wire::group_wire;

        let key: &[u8] = as_slice(&self.key);
        let value: &[u8] = as_slice(&self.value);
        if key.len() > u32::MAX as usize || value.len() > u32::MAX as usize {
            return Err(PersistenceError::InvalidRecordLength);
        }
        let capacity: usize = match record_length(key.len(), value.len()) {
            Some(capacity) => capacity,
            None => return Err(PersistenceError::InvalidRecordLength),
        };
        let expiration: u64 = match self.expires_at_ms {
            Some(millis) => millis,
            None => NO_EXPIRATION,
        };
        let mut output: Vec<u8> = Vec::with_capacity(capacity);
        put_bytes(&mut output, &RECORD_MAGIC);
        output.push(WAL_VERSION);
        output.push(self.record_type.code());
        put_u16(&mut output, 0);
        put_u64(&mut output, self.timestamp_ms);
        put_u64(&mut output, expiration);
        put_u32(&mut output, key.len() as u32);
        put_u32(&mut output, value.len() as u32);
        put_bytes(&mut output, key);
        put_bytes(&mut output, value);
        assert(output@ =~= RECORD_MAGIC@ + self@.body());
        let covered: &[u8] = slice_subrange(output.as_slice(), 4, output.len());
        assert(covered@ =~= self@.body());
        let sum: u32 = checksum(covered);
        put_u32(&mut output, sum);
        Ok(from_vec(output))
    }

    /// Reads a record that makes up all of `encoded`. `offset` is where it stands in the log, and
    /// goes into the errors.
    pub fn decode(encoded: &[u8], limits: ProtocolLimits, offset: u64) -> (record: Result<
        Self,
        PersistenceError,
    >)
        ensures
            viewed(record) == record_of(encoded@, limits, offset),
    {
        if encoded.len() < RECORD_FIXED_TOTAL {
            return Err(
                PersistenceError::Corruption {
                    offset,
                    reason: "record is shorter than its fixed fields",
                },
            );
        }
        let magic: &[u8] = slice_subrange(encoded, 0, 4);
        assert(magic@ =~= encoded@.take(4));
        if !crate::wire::same_bytes(magic, &RECORD_MAGIC) {
            return Err(PersistenceError::Corruption { offset, reason: "invalid record magic" });
        }
        if encoded[4] != WAL_VERSION {
            return Err(PersistenceError::UnsupportedVersion(encoded[4]));
        }
        let record_type: RecordType = match RecordType::try_from(encoded[5]) {
            Ok(record_type) => record_type,
            Err(error) => return Err(error),
        };
        if encoded[6] != 0 || encoded[7] != 0 {
            return Err(
                PersistenceError::Corruption {
                    offset,
                    reason: "record reserved bytes are not zero",
                },
            );
        }
        let timestamp_ms: u64 = u64_at(encoded, 8);
        let raw_expiration: u64 = u64_at(encoded, 16);
        let key_length: usize = u32_at(encoded, 24) as usize;
        let value_length: usize = u32_at(encoded, 28) as usize;
        match validate_lengths(key_length, value_length, limits) {
            Ok(_) => {},
            Err(error) => return Err(error),
        }
        let expected: usize = match record_length(key_length, value_length) {
            Some(expected) => expected,
            None => return Err(PersistenceError::InvalidRecordLength),
        };
        if encoded.len() != expected {
            return Err(PersistenceError::InvalidRecordLength);
        }
        let expected_checksum: u32 = u32_at(encoded, expected - 4);
        let actual_checksum: u32 = checksum(slice_subrange(encoded, 4, expected - 4));
        if actual_checksum != expected_checksum {
            return Err(PersistenceError::ChecksumMismatch { offset });
        }
        let key_end: usize = 32 + key_length;
        let key: Bytes = from_slice(slice_subrange(encoded, 32, key_end));
        let value: Bytes = from_slice(slice_subrange(encoded, key_end, expected - 4));
        let record: WalRecord = Self {
            record_type,
            timestamp_ms,
            expires_at_ms: if raw_expiration != NO_EXPIRATION {
                Some(raw_expiration)
            } else {
                None
            },
            key,
            value,
        };
        if record.is_consistent() {
            Ok(record)
        } else {
            Err(
                PersistenceError::Corruption {
                    offset,
                    reason: "record fields do not match the record type",
                },
            )
        }
    }

    /// Whether the parts of the record are those that its type calls for. An expiration must not
    /// be the one that stands for none.
    pub fn is_consistent(&self) -> (consistent: bool)
        ensures
            consistent == self@.consistent(),
    {
        match self.record_type {
            RecordType::Put => self.expires_at_ms.is_none(),
            RecordType::Del => self.expires_at_ms.is_none() && as_slice(&self.value).len() == 0,
            RecordType::Persist => self.expires_at_ms.is_none() && as_slice(&self.value).len() == 0,
            RecordType::SetEx => match self.expires_at_ms {
                Some(millis) => millis != NO_EXPIRATION,
                None => false,
            },
        }
    }

    /// The instant at which the written value expires.
    pub fn expires_at(&self) -> (instant: Result<Option<Timestamp>, PersistenceError>)
        ensures
            instant == Ok::<Option<Timestamp>, PersistenceError>(
                match self.expires_at_ms {
                    Some(millis) => Some(instant_of(millis)),
                    None => None,
                },
            ),
    {
        match self.expires_at_ms {
            Some(millis) => match ms_to_system_time(millis) {
                Ok(instant) => Ok(Some(instant)),
                Err(error) => Err(error),
            },
            None => Ok(None),
        }
    }
}

/// The length of a record with a key and a value of these lengths.
fn record_length(key_length: usize, value_length: usize) -> (total: Option<usize>)
    ensures
        total == (if RECORD_FIXED_TOTAL + key_length + value_length <= usize::MAX {
            Some((RECORD_FIXED_TOTAL + key_length + value_length) as usize)
        } else {
            None
        }),
{
    match key_length.checked_add(RECORD_FIXED_TOTAL) {
        Some(partial) => partial.checked_add(value_length),
        None => None,
    }
}

/// Whether a record may have a key and a value of these lengths.
pub open spec fn lengths_accepted(key_length: nat, value_length: nat, limits: ProtocolLimits) -> bool {
    0 < key_length <= limits.max_key_size && value_length <= limits.max_value_size && key_length
        + value_length + RECORD_FIXED_TOTAL <= usize::MAX
}

/// Refuses lengths that no record may have.
pub fn validate_lengths(key_length: usize, value_length: usize, limits: ProtocolLimits) -> (valid:
    Result<(), PersistenceError>)
    ensures
        valid == (if lengths_accepted(key_length as nat, value_length as nat, limits) {
            Ok(())
        } else {
            Err(PersistenceError::InvalidRecordLength)
        }),
{
    if key_length == 0 || key_length > limits.max_key_size || value_length > limits.max_value_size {
        return Err(PersistenceError::InvalidRecordLength);
    }
    match record_length(key_length, value_length) {
        Some(_) => Ok(()),
        None => Err(PersistenceError::InvalidRecordLength),
    }
}

/// The record that makes up all of `encoded`.
pub open spec fn record_of(encoded: Seq<u8>, limits: ProtocolLimits, offset: u64) -> Result<
    RecordView,
    PersistenceError,
> {
    if encoded.len() < RECORD_FIXED_TOTAL {
        Err(
            PersistenceError::Corruption {
                offset,
                reason: "record is shorter than its fixed fields",
            },
        )
    } else if encoded.take(4) != RECORD_MAGIC@ {
        Err(PersistenceError::Corruption { offset, reason: "invalid record magic" })
    } else if encoded[4] != WAL_VERSION {
        Err(PersistenceError::UnsupportedVersion(encoded[4]))
    } else if record_type_of(encoded[5]) is None {
        Err(PersistenceError::InvalidRecordType(encoded[5]))
    } else if encoded[6] != 0 || encoded[7] != 0 {
        Err(PersistenceError::Corruption { offset, reason: "record reserved bytes are not zero" })
    } else {
        let key_length = un32(encoded.subrange(24, 28)) as int;
        let value_length = un32(encoded.subrange(28, 32)) as int;
        let covered = encoded.subrange(4, encoded.len() - 4);
        let record = record_parts(encoded, key_length);
        if !lengths_accepted(key_length as nat, value_length as nat, limits) {
            Err(PersistenceError::InvalidRecordLength)
        } else if encoded.len() != RECORD_FIXED_TOTAL + key_length + value_length {
            Err(PersistenceError::InvalidRecordLength)
        } else if crc32(covered) != un32(
            encoded.subrange(encoded.len() - 4, encoded.len() as int),
        ) {
            Err(PersistenceError::ChecksumMismatch { offset })
        } else if !record.consistent() {
            Err(
                PersistenceError::Corruption {
                    offset,
                    reason: "record fields do not match the record type",
                },
            )
        } else {
            Ok(record)
        }
    }
}

/// The parts of a record whose lengths and checksum are in order.
pub open spec fn record_parts(encoded: Seq<u8>, key_length: int) -> RecordView {
    let raw_expiration = un64(encoded.subrange(16, 24));
    RecordView {
        record_type: record_type_of(encoded[5])->0,
        timestamp_ms: un64(encoded.subrange(8, 16)),
        expires_at_ms: if raw_expiration != NO_EXPIRATION {
            Some(raw_expiration)
        } else {
            None
        },
        key: encoded.subrange(32, 32 + key_length),
        value: encoded.subrange(32 + key_length, encoded.len() - 4),
    }
}

/// A record that a reader accepts is read back from its bytes.
pub proof fn law_record_round_trip(record: RecordView, limits: ProtocolLimits, offset: u64)
    requires
        record.encodable(),
        record.accepted(limits),
    ensures
        record_of(record.encoded(), limits, offset) == Ok::<RecordView, PersistenceError>(record),
{
    broadcast use crate::wire::group_wire;

    lemma_record_layout(record);
    let encoded = record.encoded();
    assert(record_parts(encoded, record.key.len() as int) =~= record);
}

/// Where the parts of a record stand in its bytes.
pub proof fn lemma_record_layout(record: RecordView)
    requires
        record.encodable(),
    ensures
        ({
            let encoded = record.encoded();
            let length = encoded.len() as int;
            &&& length == RECORD_FIXED_TOTAL + record.key.len() + record.value.len()
            &&& encoded.take(4) == RECORD_MAGIC@
            &&& encoded[4] == WAL_VERSION
            &&& encoded[5] == record.record_type.spec_code()
            &&& encoded[6] == 0 && encoded[7] == 0
            &&& encoded.subrange(8, 16) == be64(record.timestamp_ms)
            &&& encoded.subrange(16, 24) == be64(record.expiration())
            &&& encoded.subrange(24, 28) == be32(record.key.len() as u32)
            &&& encoded.subrange(28, 32) == be32(record.value.len() as u32)
            &&& encoded.subrange(32, 32 + record.key.len() as int) == record.key
            &&& encoded.subrange(32 + record.key.len() as int, length - 4) == record.value
            &&& encoded.subrange(4, length - 4) == record.body()
            &&& encoded.subrange(length - 4, length) == be32(crc32(record.body()))
        }),
{
    broadcast use crate::wire::group_wire;

    let encoded = record.encoded();
    let length = encoded.len() as int;
    assert(encoded.take(4) =~= RECORD_MAGIC@);
    assert(be16(0)[0] == 0 && be16(0)[1] == 0) by {
        reveal(be16);
    }
    assert(encoded.subrange(8, 16) =~= be64(record.timestamp_ms));
    assert(encoded.subrange(16, 24) =~= be64(record.expiration()));
    assert(encoded.subrange(24, 28) =~= be32(record.key.len() as u32));
    assert(encoded.subrange(28, 32) =~= be32(record.value.len() as u32));
    assert(encoded.subrange(32, 32 + record.key.len() as int) =~= record.key);
    assert(encoded.subrange(32 + record.key.len() as int, length - 4) =~= record.value);
    assert(encoded.subrange(4, length - 4) =~= record.body());
    assert(encoded.subrange(length - 4, length) =~= be32(crc32(record.body())));
}

/// Bytes that are read as a record are the bytes of that record: no two byte runs hold the same
/// record.
pub proof fn law_record_bytes_are_canonical(encoded: Seq<u8>, limits: ProtocolLimits, offset: u64)
    requires
        record_of(encoded, limits, offset) is Ok,
    ensures
        record_of(encoded, limits, offset)->Ok_0.encodable(),
        record_of(encoded, limits, offset)->Ok_0.accepted(limits),
        record_of(encoded, limits, offset)->Ok_0.encoded() == encoded,
{
    broadcast use crate::wire::group_wire;

    let record = record_of(encoded, limits, offset)->Ok_0;
    let length = encoded.len() as int;
    let key_end = 32 + record.key.len() as int;
    crate::wire::lemma_un64(encoded.subrange(8, 16));
    crate::wire::lemma_un64(encoded.subrange(16, 24));
    crate::wire::lemma_un32(encoded.subrange(24, 28));
    crate::wire::lemma_un32(encoded.subrange(28, 32));
    crate::wire::lemma_un32(encoded.subrange(length - 4, length));
    assert(be16(0) =~= seq![0u8, 0u8]) by {
        reveal(be16);
    }
    let body = encoded.subrange(4, length - 4);
    assert(body =~= seq![encoded[4], encoded[5]] + seq![encoded[6], encoded[7]] + encoded.subrange(
        8,
        16,
    ) + encoded.subrange(16, 24) + encoded.subrange(24, 28) + encoded.subrange(28, 32)
        + encoded.subrange(32, key_end) + encoded.subrange(key_end, length - 4));
    assert(record.body() =~= body);
    assert(encoded =~= encoded.take(4) + body + encoded.subrange(length - 4, length));
}

/// A record with one byte changed is refused, whatever the byte and whatever it was changed to. A
/// flipped bit is such a change. Where the record was accepted and its key, its value or its
/// checksum was changed, it is the checksum that shows it.
pub proof fn law_changed_record_is_refused(
    record: RecordView,
    limits: ProtocolLimits,
    offset: u64,
    index: int,
    byte: u8,
)
    requires
        record.encodable(),
        0 <= index < record.encoded().len(),
        byte != record.encoded()[index],
    ensures
        record_of(record.encoded().update(index, byte), limits, offset) is Err,
        record.accepted(limits) && index >= 32 ==> record_of(
            record.encoded().update(index, byte),
            limits,
            offset,
        ) == Err::<RecordView, PersistenceError>(PersistenceError::ChecksumMismatch { offset }),
{
    broadcast use crate::wire::group_wire;

    lemma_record_layout(record);
    let encoded = record.encoded();
    let changed = encoded.update(index, byte);
    let end = encoded.len() - 4;
    if index >= 32 {
        assert(changed.take(4) =~= encoded.take(4));
        assert(changed.subrange(24, 28) =~= encoded.subrange(24, 28));
        assert(changed.subrange(28, 32) =~= encoded.subrange(28, 32));
    }
    if index < 4 {
        assert(changed.take(4)[index] != encoded.take(4)[index]);
    } else if index < end {
        let covered = encoded.subrange(4, end);
        assert(changed.subrange(4, end) =~= covered.update(index - 4, byte));
        assert(changed.subrange(end, end + 4) =~= encoded.subrange(end, end + 4));
        law_changed_bytes_change_the_checksum(covered, index - 4, byte);
    } else {
        let sum = changed.subrange(end, end + 4);
        assert(changed.subrange(4, end) =~= encoded.subrange(4, end));
        assert(sum[index - end] != encoded.subrange(end, end + 4)[index - end]);
        crate::wire::lemma_un32(sum);
    }
}

/// How a record is laid out: its magic bytes, its version, its type, two zero bytes, when it was
/// made and when it expires in milliseconds, the lengths of its key and its value, both of them,
/// and the checksum of all but the magic bytes.
pub proof fn law_records_have_their_layout(record: RecordView)
    ensures
        ({
            let code: u8 = match record.record_type {
                RecordType::Put => 1,
                RecordType::Del => 2,
                RecordType::SetEx => 3,
                RecordType::Persist => 4,
            };
            let expiration = match record.expires_at_ms {
                Some(millis) => millis,
                None => u64::MAX,
            };
            let covered = seq![1u8, code, 0u8, 0u8] + be64(record.timestamp_ms) + be64(expiration)
                + be32(record.key.len() as u32) + be32(record.value.len() as u32) + record.key
                + record.value;
            record.encoded() == seq![0x46u8, 0x4b, 0x56, 0x52] + covered + be32(crc32(covered))
        }),
{
    reveal(be16);
    let code: u8 = match record.record_type {
        RecordType::Put => 1,
        RecordType::Del => 2,
        RecordType::SetEx => 3,
        RecordType::Persist => 4,
    };
    let expiration = match record.expires_at_ms {
        Some(millis) => millis,
        None => u64::MAX,
    };
    let covered = seq![1u8, code, 0u8, 0u8] + be64(record.timestamp_ms) + be64(expiration) + be32(
        record.key.len() as u32,
    ) + be32(record.value.len() as u32) + record.key + record.value;
    assert(record.body() =~= covered);
    assert(RECORD_MAGIC@ =~= seq![0x46u8, 0x4b, 0x56, 0x52]);
}

/// A record is read from its bytes, as it was, exactly where its key is not empty, its key and value
/// are within limits, and its parts go with its type: only SETEX has an expiration, and only SET
/// and SETEX have a value. The greatest number of milliseconds stands for no expiration.
pub proof fn law_records_within_limits_are_accepted(
    record: RecordView,
    limits: ProtocolLimits,
    offset: u64,
)
    requires
        record.key.len() <= u32::MAX,
        record.value.len() <= u32::MAX,
        36 + record.key.len() + record.value.len() <= usize::MAX,
    ensures
        ({
            let read = record_of(record.encoded(), limits, offset);
            let written = record.expires_at_ms is Some && record.expires_at_ms->0 < u64::MAX;
            &&& read is Ok <==> 0 < record.key.len() <= limits.max_key_size && record.value.len()
                <= limits.max_value_size && (match record.record_type {
                RecordType::Put => !written,
                RecordType::SetEx => written,
                _ => !written && record.value.len() == 0,
            })
            &&& read is Ok ==> read->Ok_0.record_type == record.record_type && read->Ok_0.key
                == record.key && read->Ok_0.value == record.value && read->Ok_0.timestamp_ms
                == record.timestamp_ms
            &&& read is Ok ==> read->Ok_0.expires_at_ms == (if written {
                record.expires_at_ms
            } else {
                None
            })
        }),
{
    broadcast use crate::wire::group_wire;

    lemma_record_layout(record);
    let plain = RecordView {
        expires_at_ms: if record.expires_at_ms == Some(u64::MAX) {
            None
        } else {
            record.expires_at_ms
        },
        ..record
    };
    assert(plain.body() == record.body());
    if plain.accepted(limits) {
        law_record_round_trip(plain, limits, offset);
    }
}

/// An instant is kept to the millisecond, rounded down, and comes back as the start of it. One
/// before the epoch cannot be kept, nor one whose milliseconds do not fit.
pub proof fn law_instants_are_kept_in_milliseconds(instant: Timestamp, millis: u64)
    ensures
        instant.nanos < 0 ==> millis_of(instant) == Err::<u64, PersistenceError>(
            PersistenceError::ClockBeforeEpoch,
        ),
        instant.nanos >= 18_446_744_073_709_551_616_000_000 ==> millis_of(instant) == Err::<
            u64,
            PersistenceError,
        >(PersistenceError::InvalidRecordLength),
        0 <= instant.nanos < 18_446_744_073_709_551_616_000_000 ==> millis_of(instant) is Ok && {
            let kept = instant_of(millis_of(instant)->Ok_0);
            kept.nanos <= instant.nanos < kept.nanos + 1_000_000
        },
        millis_of(instant_of(millis)) == Ok::<u64, PersistenceError>(millis),
        instant_of(0).nanos == 0,
        millis < u64::MAX ==> instant_of((millis + 1) as u64).nanos - instant_of(millis).nanos
            == 1_000_000,
{
}

/// The record of a change says what was changed, and when: both instants are kept in milliseconds.
/// Without a clock that stands after the epoch there is none.
pub proof fn law_records_are_stamped(
    record_type: RecordType,
    expires_at: Option<Timestamp>,
    key: Seq<u8>,
    value: Seq<u8>,
    now: Timestamp,
)
    ensures
        ({
            let record = stamped(record_type, expires_at, key, value, now);
            let kept = record->Ok_0;
            &&& record is Ok <==> millis_of(now) is Ok && (expires_at is Some ==> millis_of(
                expires_at->0,
            ) is Ok)
            &&& record is Ok ==> kept.record_type == record_type && kept.key == key && kept.value
                == value && kept.timestamp_ms == millis_of(now)->Ok_0
            &&& record is Ok && expires_at is None ==> kept.expires_at_ms is None
            &&& record is Ok && expires_at is Some ==> kept.expires_at_ms == Some(
                millis_of(expires_at->0)->Ok_0,
            )
        }),
{
}

} // verus!
