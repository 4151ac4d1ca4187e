//! The envelope of every message: a length, a protocol version, a code and a payload.

use bytes::Bytes;
use vstd::prelude::*;

use crate::buffer::{as_slice, contents, from_vec};
use crate::config::Config;
use crate::error::ProtocolError;
use crate::wire::{be32, put_bytes, put_u32};

verus! {

/// The protocol version that this crate speaks.
pub const PROTOCOL_VERSION: u8 = 1;

/// The bytes of a frame's body before its payload.
pub const FRAME_HEADER_SIZE: usize = 2;

/// What a request asks for.
#[derive(Clone, Copy, Debug, PartialEq, Eq, Structural)]
pub enum Opcode {
    Ping,
    Put,
    Get,
    Del,
    Exists,
    SetEx,
    Ttl,
    Persist,
    Info,
    Stats,
}

/// The opcode that a byte names.
pub open spec fn opcode_of(code: u8) -> Option<Opcode> {
    if code == 0x01 {
        Some(Opcode::Ping)
    } else if code == 0x02 {
        Some(Opcode::Put)
    } else if code == 0x03 {
        Some(Opcode::Get)
    } else if code == 0x04 {
        Some(Opcode::Del)
    } else if code == 0x05 {
        Some(Opcode::Exists)
    } else if code == 0x06 {
        Some(Opcode::SetEx)
    } else if code == 0x07 {
        Some(Opcode::Ttl)
    } else if code == 0x08 {
        Some(Opcode::Persist)
    } else if code == 0x09 {
        Some(Opcode::Info)
    } else if code == 0x0a {
        Some(Opcode::Stats)
    } else {
        None
    }
}

impl Opcode {
    /// The byte that names the opcode on the wire.
    pub fn code(self) -> (code: u8)
        ensures
            opcode_of(code) == Some(self),
            code == self.spec_code(),
    {
        match self {
            Opcode::Ping => 0x01,
            Opcode::Put => 0x02,
            Opcode::Get => 0x03,
            Opcode::Del => 0x04,
            Opcode::Exists => 0x05,
            Opcode::SetEx => 0x06,
            Opcode::Ttl => 0x07,
            Opcode::Persist => 0x08,
            Opcode::Info => 0x09,
            Opcode::Stats => 0x0a,
        }
    }

    /// The byte that names the opcode on the wire.
    pub open spec fn spec_code(self) -> u8 {
        match self {
            Opcode::Ping => 0x01,
            Opcode::Put => 0x02,
            Opcode::Get => 0x03,
            Opcode::Del => 0x04,
            Opcode::Exists => 0x05,
            Opcode::SetEx => 0x06,
            Opcode::Ttl => 0x07,
            Opcode::Persist => 0x08,
            Opcode::Info => 0x09,
            Opcode::Stats => 0x0a,
        }
    }
}

impl TryFrom<u8> for Opcode {
    type Error = ProtocolError;

    fn try_from(value: u8) -> (opcode: Result<Self, ProtocolError>) {
        match value {
            0x01 => Ok(Opcode::Ping),
            0x02 => Ok(Opcode::Put),
            0x03 => Ok(Opcode::Get),
            0x04 => Ok(Opcode::Del),
            0x05 => Ok(Opcode::Exists),
            0x06 => Ok(Opcode::SetEx),
            0x07 => Ok(Opcode::Ttl),
            0x08 => Ok(Opcode::Persist),
            0x09 => Ok(Opcode::Info),
            0x0a => Ok(Opcode::Stats),
            _ => Err(ProtocolError::InvalidOpcode(value)),
        }
    }
}

impl vstd::std_specs::convert::TryFromSpecImpl<u8> for Opcode {
    open spec fn obeys_try_from_spec() -> bool {
        true
    }

    open spec fn try_from_spec(value: u8) -> Result<Self, ProtocolError> {
        match opcode_of(value) {
            Some(opcode) => Ok(opcode),
            None => Err(ProtocolError::InvalidOpcode(value)),
        }
    }
}

/// How a request ended.
#[derive(Clone, Copy, Debug, PartialEq, Eq, Structural)]
pub enum StatusCode {
    Success,
    NotFound,
    InvalidRequest,
    ServerError,
    Pong,
    Value,
    Integer,
    Info,
    Stats,
    Redirect,
}

/// The status that a byte names.
pub open spec fn status_of(code: u8) -> Option<StatusCode> {
    if code == 0x00 {
        Some(StatusCode::Success)
    } else if code == 0x01 {
        Some(StatusCode::NotFound)
    } else if code == 0x02 {
        Some(StatusCode::InvalidRequest)
    } else if code == 0x03 {
        Some(StatusCode::ServerError)
    } else if code == 0x04 {
        Some(StatusCode::Pong)
    } else if code == 0x05 {
        Some(StatusCode::Value)
    } else if code == 0x06 {
        Some(StatusCode::Integer)
    } else if code == 0x07 {
        Some(StatusCode::Info)
    } else if code == 0x08 {
        Some(StatusCode::Stats)
    } else if code == 0x09 {
        Some(StatusCode::Redirect)
    } else {
        None
    }
}

impl StatusCode {
    /// The byte that names the status on the wire.
    pub fn code(self) -> (code: u8)
        ensures
            status_of(code) == Some(self),
            code == self.spec_code(),
    {
        match self {
            StatusCode::Success => 0x00,
            StatusCode::NotFound => 0x01,
            StatusCode::InvalidRequest => 0x02,
            StatusCode::ServerError => 0x03,
            StatusCode::Pong => 0x04,
            StatusCode::Value => 0x05,
            StatusCode::Integer => 0x06,
            StatusCode::Info => 0x07,
            StatusCode::Stats => 0x08,
            StatusCode::Redirect => 0x09,
        }
    }

    /// The byte that names the status on the wire.
    pub open spec fn spec_code(self) -> u8 {
        match self {
            StatusCode::Success => 0x00,
            StatusCode::NotFound => 0x01,
            StatusCode::InvalidRequest => 0x02,
            StatusCode::ServerError => 0x03,
            StatusCode::Pong => 0x04,
            StatusCode::Value => 0x05,
            StatusCode::Integer => 0x06,
            StatusCode::Info => 0x07,
            StatusCode::Stats => 0x08,
            StatusCode::Redirect => 0x09,
        }
    }
}

impl TryFrom<u8> for StatusCode {
    type Error = ProtocolError;

    fn try_from(value: u8) -> (status: Result<Self, ProtocolError>) {
        match value {
            0x00 => Ok(StatusCode::Success),
            0x01 => Ok(StatusCode::NotFound),
            0x02 => Ok(StatusCode::InvalidRequest),
            0x03 => Ok(StatusCode::ServerError),
            0x04 => Ok(StatusCode::Pong),
            0x05 => Ok(StatusCode::Value),
            0x06 => Ok(StatusCode::Integer),
            0x07 => Ok(StatusCode::Info),
            0x08 => Ok(StatusCode::Stats),
            0x09 => Ok(StatusCode::Redirect),
            _ => Err(ProtocolError::InvalidOpcode(value)),
        }
    }
}

impl vstd::std_specs::convert::TryFromSpecImpl<u8> for StatusCode {
    open spec fn obeys_try_from_spec() -> bool {
        true
    }

    open spec fn try_from_spec(value: u8) -> Result<Self, ProtocolError> {
        match status_of(value) {
            Some(status) => Ok(status),
            None => Err(ProtocolError::InvalidOpcode(value)),
        }
    }
}

/// One message.
#[derive(Clone, Debug, PartialEq, Eq)]
pub struct Frame {
    pub version: u8,
    pub code: u8,
    pub payload: Bytes,
}

/// A message with its payload as a sequence of bytes.
#[verifier::ext_equal]
pub struct FrameView {
    pub version: u8,
    pub code: u8,
    pub payload: Seq<u8>,
}

impl View for Frame {
    type V = FrameView;

    open spec fn view(&self) -> FrameView {
        FrameView { version: self.version, code: self.code, payload: contents(self.payload) }
    }
}

impl FrameView {
    /// The bytes of the message after its length.
    pub open spec fn body(self) -> Seq<u8> {
        seq![self.version, self.code] + self.payload
    }

    /// The bytes of the message on the wire.
    pub open spec fn encoded(self) -> Seq<u8> {
        be32(self.body().len() as u32) + self.body()
    }
}

/// The sizes that a peer accepts.
#[derive(Clone, Copy, Debug, PartialEq, Eq, Structural)]
pub struct ProtocolLimits {
    pub max_frame_size: usize,
    pub max_key_size: usize,
    pub max_value_size: usize,
}

impl From<&Config> for ProtocolLimits {
    fn from(config: &Config) -> (limits: Self) {
        Self {
            max_frame_size: config.max_frame_size,
            max_key_size: config.max_key_size,
            max_value_size: config.max_value_size,
        }
    }
}

impl vstd::std_specs::convert::FromSpecImpl<&Config> for ProtocolLimits {
    open spec fn obeys_from_spec() -> bool {
        true
    }

    open spec fn from_spec(config: &Config) -> Self {
        ProtocolLimits {
            max_frame_size: config.max_frame_size,
            max_key_size: config.max_key_size,
            max_value_size: config.max_value_size,
        }
    }
}

impl Frame {
    /// A request.
    pub fn request(opcode: Opcode, payload: Bytes) -> (frame: Self)
        ensures
            frame@ == (FrameView {
                version: PROTOCOL_VERSION,
                code: opcode.spec_code(),
                payload: contents(payload),
            }),
    {
        Self { version: PROTOCOL_VERSION, code: opcode.code(), payload }
    }

    /// A response.
    pub fn response(status: StatusCode, payload: Bytes) -> (frame: Self)
        ensures
            frame@ == (FrameView {
                version: PROTOCOL_VERSION,
                code: status.spec_code(),
                payload: contents(payload),
            }),
    {
        Self { version: PROTOCOL_VERSION, code: status.code(), payload }
    }

    /// The size of the message on the wire.
    pub fn encoded_len(&self) -> (length: Result<usize, ProtocolError>)
        ensures
            length == (if self@.encoded().len() <= usize::MAX {
                Ok(self@.encoded().len() as usize)
            } else {
                Err(ProtocolError::IntegerOverflow)
            }),
    {
        broadcast use crate::wire::group_wire;

        let payload_length: usize = as_slice(&self.payload).len();
        match payload_length.checked_add(4 + FRAME_HEADER_SIZE) {
            Some(length) => Ok(length),
            None => Err(ProtocolError::IntegerOverflow),
        }
    }

    /// Writes the message, unless it is larger than the limits allow.
    pub fn encode(&self, limits: ProtocolLimits) -> (encoded: Result<Bytes, ProtocolError>)
        ensures
            match encoded {
                Ok(bytes) => contents(bytes) == self@.encoded() && encode_error(
                    self@.body().len(),
                    limits,
                ) is None,
                Err(error) => encode_error(self@.body().len(), limits) == Some(error),
            },
    {
        let payload: &[u8] = as_slice(&self.payload);
        let body_length: usize = match payload.len().checked_add(FRAME_HEADER_SIZE) {
            Some(length) => length,
            None => return Err(ProtocolError::IntegerOverflow),
        };
        if body_length > limits.max_frame_size {
            return Err(
                ProtocolError::FrameTooLarge {
                    actual: body_length,
                    maximum: limits.max_frame_size,
                },
            );
        }
        if body_length > u32::MAX as usize {
            return Err(ProtocolError::IntegerOverflow);
        }
        let capacity: usize = match body_length.checked_add(4) {
            Some(capacity) => capacity,
            None => return Err(ProtocolError::IntegerOverflow),
        };
        let mut output: Vec<u8> = Vec::with_capacity(capacity);
        put_u32(&mut output, body_length as u32);
        output.push(self.version);
        output.push(self.code);
        put_bytes(&mut output, payload);
        assert(output@ =~= self@.encoded());
        Ok(from_vec(output))
    }
}

/// Why a body of `length` bytes cannot be written, if it cannot.
pub open spec fn encode_error(length: nat, limits: ProtocolLimits) -> Option<ProtocolError> {
    if length > usize::MAX {
        Some(ProtocolError::IntegerOverflow)
    } else if length > limits.max_frame_size {
        Some(
            ProtocolError::FrameTooLarge {
                actual: length as usize,
                maximum: limits.max_frame_size,
            },
        )
    } else if length > u32::MAX || length + 4 > usize::MAX {
        Some(ProtocolError::IntegerOverflow)
    } else {
        None
    }
}

} // verus!
