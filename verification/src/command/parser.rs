//! Commands as request frames, and back.

use bytes::Bytes;
use vstd::prelude::*;

use crate::buffer::{as_slice, contents, from_slice, from_vec};
use crate::error::ProtocolError;
use crate::protocol::cursor::{run, u32_field, u64_field, Cursor};
use crate::protocol::frame::{
    opcode_of, Frame, FrameView, Opcode, ProtocolLimits, PROTOCOL_VERSION,
};
use crate::protocol::response::sized32;
use crate::time::Duration;
use crate::wire::{be32, be64, put_bytes, put_u32, put_u64, un32};

verus! {

/// One request.
#[derive(Clone, Debug, PartialEq, Eq)]
pub enum Command {
    Ping,
    Put { key: Bytes, value: Bytes },
    Get { key: Bytes },
    Del { key: Bytes },
    Exists { key: Bytes },
    SetEx { key: Bytes, ttl: Duration, value: Bytes },
    Ttl { key: Bytes },
    Persist { key: Bytes },
    Info,
    Stats,
}

/// A request with its parts as mathematical values.
#[verifier::ext_equal]
pub enum CommandView {
    Ping,
    Put { key: Seq<u8>, value: Seq<u8> },
    Get { key: Seq<u8> },
    Del { key: Seq<u8> },
    Exists { key: Seq<u8> },
    SetEx { key: Seq<u8>, ttl: Duration, value: Seq<u8> },
    Ttl { key: Seq<u8> },
    Persist { key: Seq<u8> },
    Info,
    Stats,
}

impl View for Command {
    type V = CommandView;

    open spec fn view(&self) -> CommandView {
        match *self {
            Command::Ping => CommandView::Ping,
            Command::Put { key, value } => CommandView::Put {
                key: contents(key),
                value: contents(value),
            },
            Command::Get { key } => CommandView::Get { key: contents(key) },
            Command::Del { key } => CommandView::Del { key: contents(key) },
            Command::Exists { key } => CommandView::Exists { key: contents(key) },
            Command::SetEx { key, ttl, value } => CommandView::SetEx {
                key: contents(key),
                ttl,
                value: contents(value),
            },
            Command::Ttl { key } => CommandView::Ttl { key: contents(key) },
            Command::Persist { key } => CommandView::Persist { key: contents(key) },
            Command::Info => CommandView::Info,
            Command::Stats => CommandView::Stats,
        }
    }
}

impl CommandView {
    /// The opcode that stands for this kind of request.
    pub open spec fn opcode(self) -> Opcode {
        match self {
            CommandView::Ping => Opcode::Ping,
            CommandView::Put { .. } => Opcode::Put,
            CommandView::Get { .. } => Opcode::Get,
            CommandView::Del { .. } => Opcode::Del,
            CommandView::Exists { .. } => Opcode::Exists,
            CommandView::SetEx { .. } => Opcode::SetEx,
            CommandView::Ttl { .. } => Opcode::Ttl,
            CommandView::Persist { .. } => Opcode::Persist,
            CommandView::Info => Opcode::Info,
            CommandView::Stats => Opcode::Stats,
        }
    }

    /// The key that the request is about, if it is about one.
    pub open spec fn key(self) -> Option<Seq<u8>> {
        match self {
            CommandView::Put { key, .. } => Some(key),
            CommandView::Get { key } => Some(key),
            CommandView::Del { key } => Some(key),
            CommandView::Exists { key } => Some(key),
            CommandView::SetEx { key, .. } => Some(key),
            CommandView::Ttl { key } => Some(key),
            CommandView::Persist { key } => Some(key),
            _ => None,
        }
    }

    /// The payload that carries the request.
    pub open spec fn payload(self) -> Seq<u8> {
        match self {
            CommandView::Put { key, value } => sized32(key) + sized32(value),
            CommandView::SetEx { key, ttl, value } => sized32(key) + be64(
                (ttl.nanos / 1_000_000) as u64,
            ) + sized32(value),
            CommandView::Get { key } => sized32(key),
            CommandView::Del { key } => sized32(key),
            CommandView::Exists { key } => sized32(key),
            CommandView::Ttl { key } => sized32(key),
            CommandView::Persist { key } => sized32(key),
            _ => seq![],
        }
    }

    /// Whether every length fits its length field, the payload fits in memory, and the time to
    /// live is a number of milliseconds that eight bytes can hold.
    pub open spec fn encodable(self) -> bool {
        match self {
            CommandView::Put { key, value } => key.len() <= u32::MAX && value.len() <= u32::MAX && 8
                + key.len() + value.len() <= usize::MAX,
            CommandView::SetEx { key, ttl, value } => ttl.nanos / 1_000_000 <= u64::MAX && key.len()
                <= u32::MAX && value.len() <= u32::MAX && 16 + key.len() + value.len()
                <= usize::MAX,
            _ => self.key() is Some ==> self.key()->0.len() <= u32::MAX && 4 + self.key()->0.len()
                <= usize::MAX,
        }
    }

    /// The frame that carries the request.
    pub open spec fn frame(self) -> FrameView {
        FrameView {
            version: PROTOCOL_VERSION,
            code: self.opcode().spec_code(),
            payload: self.payload(),
        }
    }

    /// Whether a server with these limits accepts the request.
    pub open spec fn accepted(self, limits: ProtocolLimits) -> bool {
        &&& self.key() is Some ==> 0 < self.key()->0.len() <= limits.max_key_size
        &&& match self {
            CommandView::Put { value, .. } => value.len() <= limits.max_value_size,
            CommandView::SetEx { ttl, value, .. } => value.len() <= limits.max_value_size
                && ttl.nanos >= 1_000_000,
            _ => true,
        }
    }

    /// The request with its time to live cut to whole milliseconds.
    pub open spec fn whole(self) -> CommandView {
        match self {
            CommandView::SetEx { key, ttl, value } => CommandView::SetEx {
                key,
                ttl: Duration { nanos: ((ttl.nanos / 1_000_000) * 1_000_000) as u128 },
                value,
            },
            _ => self,
        }
    }
}

/// The key at `position` behind its length, and the position after it.
pub open spec fn key_field(payload: Seq<u8>, position: int, limits: ProtocolLimits) -> Result<
    (Seq<u8>, int),
    ProtocolError,
> {
    match u32_field(payload, position) {
        Err(error) => Err(error),
        Ok(length) => if length == 0 {
            Err(ProtocolError::InvalidPayload("key cannot be empty"))
        } else if length > limits.max_key_size {
            Err(
                ProtocolError::KeyTooLarge {
                    actual: length as usize,
                    maximum: limits.max_key_size,
                },
            )
        } else {
            match run(payload, position + 4, length as int) {
                Err(error) => Err(error),
                Ok(key) => Ok((key, position + 4 + length)),
            }
        },
    }
}

/// The value at `position` behind its length, and the position after it.
pub open spec fn value_field(payload: Seq<u8>, position: int, limits: ProtocolLimits) -> Result<
    (Seq<u8>, int),
    ProtocolError,
> {
    match u32_field(payload, position) {
        Err(error) => Err(error),
        Ok(length) => if length > limits.max_value_size {
            Err(
                ProtocolError::ValueTooLarge {
                    actual: length as usize,
                    maximum: limits.max_value_size,
                },
            )
        } else {
            match run(payload, position + 4, length as int) {
                Err(error) => Err(error),
                Ok(value) => Ok((value, position + 4 + length)),
            }
        },
    }
}

/// `command` where the payload ends at `position`.
pub open spec fn ending(payload: Seq<u8>, position: int, command: CommandView) -> Result<
    CommandView,
    ProtocolError,
> {
    if position == payload.len() {
        Ok(command)
    } else {
        Err(ProtocolError::InvalidPayload("trailing payload bytes"))
    }
}

/// `command` where the payload is empty.
pub open spec fn bare(payload: Seq<u8>, command: CommandView) -> Result<
    CommandView,
    ProtocolError,
> {
    if payload.len() == 0 {
        Ok(command)
    } else {
        Err(ProtocolError::InvalidPayload("command does not accept a payload"))
    }
}

/// The key that makes up a whole payload.
pub open spec fn sole_key(payload: Seq<u8>, limits: ProtocolLimits) -> Result<
    Seq<u8>,
    ProtocolError,
> {
    match key_field(payload, 0, limits) {
        Err(error) => Err(error),
        Ok((key, end)) => if end == payload.len() {
            Ok(key)
        } else {
            Err(ProtocolError::InvalidPayload("trailing payload bytes"))
        },
    }
}

/// The request of an opcode with its payload.
pub open spec fn request_of(opcode: Opcode, payload: Seq<u8>, limits: ProtocolLimits) -> Result<
    CommandView,
    ProtocolError,
> {
    match opcode {
        Opcode::Ping => bare(payload, CommandView::Ping),
        Opcode::Info => bare(payload, CommandView::Info),
        Opcode::Stats => bare(payload, CommandView::Stats),
        Opcode::Get => match sole_key(payload, limits) {
            Ok(key) => Ok(CommandView::Get { key }),
            Err(error) => Err(error),
        },
        Opcode::Del => match sole_key(payload, limits) {
            Ok(key) => Ok(CommandView::Del { key }),
            Err(error) => Err(error),
        },
        Opcode::Exists => match sole_key(payload, limits) {
            Ok(key) => Ok(CommandView::Exists { key }),
            Err(error) => Err(error),
        },
        Opcode::Ttl => match sole_key(payload, limits) {
            Ok(key) => Ok(CommandView::Ttl { key }),
            Err(error) => Err(error),
        },
        Opcode::Persist => match sole_key(payload, limits) {
            Ok(key) => Ok(CommandView::Persist { key }),
            Err(error) => Err(error),
        },
        Opcode::Put => match key_field(payload, 0, limits) {
            Err(error) => Err(error),
            Ok((key, after_key)) => match value_field(payload, after_key, limits) {
                Err(error) => Err(error),
                Ok((value, end)) => ending(payload, end, CommandView::Put { key, value }),
            },
        },
        Opcode::SetEx => match key_field(payload, 0, limits) {
            Err(error) => Err(error),
            Ok((key, after_key)) => match u64_field(payload, after_key) {
                Err(error) => Err(error),
                Ok(millis) => if millis == 0 {
                    Err(ProtocolError::InvalidPayload("TTL must be greater than zero"))
                } else {
                    match value_field(payload, after_key + 8, limits) {
                        Err(error) => Err(error),
                        Ok((value, end)) => {
                            let ttl = Duration { nanos: (millis * 1_000_000) as u128 };
                            ending(payload, end, CommandView::SetEx { key, ttl, value })
                        },
                    }
                },
            },
        },
    }
}

/// The request that a frame carries.
pub open spec fn command_of(frame: FrameView, limits: ProtocolLimits) -> Result<
    CommandView,
    ProtocolError,
> {
    if frame.version != PROTOCOL_VERSION {
        Err(ProtocolError::UnsupportedVersion(frame.version))
    } else {
        match opcode_of(frame.code) {
            None => Err(ProtocolError::InvalidOpcode(frame.code)),
            Some(opcode) => request_of(opcode, frame.payload, limits),
        }
    }
}

impl Command {
    /// The key that the request is about, if it is about one.
    pub fn key(&self) -> (key: Option<&Bytes>)
        ensures
            match key {
                Some(key) => self@.key() == Some(contents(*key)),
                None => self@.key() is None,
            },
    {
        match self {
            Command::Put { key, .. } => Some(key),
            Command::Get { key } => Some(key),
            Command::Del { key } => Some(key),
            Command::Exists { key } => Some(key),
            Command::SetEx { key, .. } => Some(key),
            Command::Ttl { key } => Some(key),
            Command::Persist { key } => Some(key),
            Command::Ping => None,
            Command::Info => None,
            Command::Stats => None,
        }
    }

    /// The frame that carries the request, unless a part of it does not fit its field.
    pub fn into_frame(self) -> (frame: Result<Frame, ProtocolError>)
        ensures
            match frame {
                Ok(frame) => self@.encodable() && frame@ == self@.frame(),
                Err(error) => !self@.encodable() && error == ProtocolError::IntegerOverflow,
            },
    {
        let (opcode, payload): (Opcode, Result<Vec<u8>, ProtocolError>) = match &self {
            Command::Ping => (Opcode::Ping, Ok(Vec::new())),
            Command::Info => (Opcode::Info, Ok(Vec::new())),
            Command::Stats => (Opcode::Stats, Ok(Vec::new())),
            Command::Get { key } => (Opcode::Get, encode_key(key)),
            Command::Del { key } => (Opcode::Del, encode_key(key)),
            Command::Exists { key } => (Opcode::Exists, encode_key(key)),
            Command::Ttl { key } => (Opcode::Ttl, encode_key(key)),
            Command::Persist { key } => (Opcode::Persist, encode_key(key)),
            Command::Put { key, value } => (Opcode::Put, encode_key_value(key, value)),
            Command::SetEx { key, ttl, value } => (
                Opcode::SetEx,
                encode_key_ttl_value(key, *ttl, value),
            ),
        };
        match payload {
            Ok(payload) => {
                assert(payload@ =~= self@.payload());
                Ok(Frame::request(opcode, from_vec(payload)))
            },
            Err(error) => Err(error),
        }
    }
}

fn encode_key(key: &Bytes) -> (payload: Result<Vec<u8>, ProtocolError>)
    ensures
        ({
            let view = CommandView::Get { key: contents(*key) };
            match payload {
                Ok(payload) => view.encodable() && payload@ == view.payload(),
                Err(error) => !view.encodable() && error == ProtocolError::IntegerOverflow,
            }
        }),
{
    let key: &[u8] = as_slice(key);
    if key.len() > u32::MAX as usize {
        return Err(ProtocolError::IntegerOverflow);
    }
    let capacity: usize = match key.len().checked_add(4) {
        Some(capacity) => capacity,
        None => return Err(ProtocolError::IntegerOverflow),
    };
    let mut payload: Vec<u8> = Vec::with_capacity(capacity);
    put_u32(&mut payload, key.len() as u32);
    put_bytes(&mut payload, key);
    assert(payload@ =~= sized32(key@));
    Ok(payload)
}

fn encode_key_value(key: &Bytes, value: &Bytes) -> (payload: Result<Vec<u8>, ProtocolError>)
    ensures
        ({
            let view = CommandView::Put { key: contents(*key), value: contents(*value) };
            match payload {
                Ok(payload) => view.encodable() && payload@ == view.payload(),
                Err(error) => !view.encodable() && error == ProtocolError::IntegerOverflow,
            }
        }),
{
    let key: &[u8] = as_slice(key);
    let value: &[u8] = as_slice(value);
    if key.len() > u32::MAX as usize || value.len() > u32::MAX as usize {
        return Err(ProtocolError::IntegerOverflow);
    }
    let capacity: usize = match total_capacity(8, key.len(), value.len()) {
        Some(capacity) => capacity,
        None => return Err(ProtocolError::IntegerOverflow),
    };
    let mut payload: Vec<u8> = Vec::with_capacity(capacity);
    put_u32(&mut payload, key.len() as u32);
    put_bytes(&mut payload, key);
    put_u32(&mut payload, value.len() as u32);
    put_bytes(&mut payload, value);
    assert(payload@ =~= sized32(key@) + sized32(value@));
    Ok(payload)
}

fn encode_key_ttl_value(key: &Bytes, ttl: Duration, value: &Bytes) -> (payload: Result<
    Vec<u8>,
    ProtocolError,
>)
    ensures
        ({
            let view = CommandView::SetEx { key: contents(*key), ttl, value: contents(*value) };
            match payload {
                Ok(payload) => view.encodable() && payload@ == view.payload(),
                Err(error) => !view.encodable() && error == ProtocolError::IntegerOverflow,
            }
        }),
{
    let key: &[u8] = as_slice(key);
    let value: &[u8] = as_slice(value);
    let millis: u128 = ttl.as_millis();
    if millis > u64::MAX as u128 || key.len() > u32::MAX as usize || value.len()
        > u32::MAX as usize {
        return Err(ProtocolError::IntegerOverflow);
    }
    let capacity: usize = match total_capacity(16, key.len(), value.len()) {
        Some(capacity) => capacity,
        None => return Err(ProtocolError::IntegerOverflow),
    };
    let mut payload: Vec<u8> = Vec::with_capacity(capacity);
    put_u32(&mut payload, key.len() as u32);
    put_bytes(&mut payload, key);
    put_u64(&mut payload, millis as u64);
    put_u32(&mut payload, value.len() as u32);
    put_bytes(&mut payload, value);
    assert(payload@ =~= sized32(key@) + be64(millis as u64) + sized32(value@));
    Ok(payload)
}

fn total_capacity(fixed: usize, first: usize, second: usize) -> (total: Option<usize>)
    ensures
        total == (if fixed + first + second <= usize::MAX {
            Some((fixed + first + second) as usize)
        } else {
            None
        }),
{
    match fixed.checked_add(first) {
        Some(partial) => partial.checked_add(second),
        None => None,
    }
}

fn take_key(cursor: &mut Cursor, limits: ProtocolLimits) -> (key: Result<Bytes, ProtocolError>)
    requires
        old(cursor).valid(),
    ensures
        final(cursor).valid(),
        final(cursor).payload@ == old(cursor).payload@,
        match key_field(old(cursor).payload@, old(cursor).position as int, limits) {
            Ok((expected, end)) => key is Ok && contents(key->Ok_0) == expected && final(
                cursor).position == end,
            Err(error) => key == Err::<Bytes, ProtocolError>(error),
        },
{
    let length: usize = match cursor.u32() {
        Ok(length) => length as usize,
        Err(error) => return Err(error),
    };
    if length == 0 {
        return Err(ProtocolError::InvalidPayload("key cannot be empty"));
    }
    if length > limits.max_key_size {
        return Err(
            ProtocolError::KeyTooLarge { actual: length, maximum: limits.max_key_size },
        );
    }
    match cursor.take(length) {
        Ok(key) => Ok(from_slice(key)),
        Err(error) => Err(error),
    }
}

fn take_value(cursor: &mut Cursor, limits: ProtocolLimits) -> (value: Result<Bytes, ProtocolError>)
    requires
        old(cursor).valid(),
    ensures
        final(cursor).valid(),
        final(cursor).payload@ == old(cursor).payload@,
        match value_field(old(cursor).payload@, old(cursor).position as int, limits) {
            Ok((expected, end)) => value is Ok && contents(value->Ok_0) == expected && final(
                cursor).position == end,
            Err(error) => value == Err::<Bytes, ProtocolError>(error),
        },
{
    let length: usize = match cursor.u32() {
        Ok(length) => length as usize,
        Err(error) => return Err(error),
    };
    if length > limits.max_value_size {
        return Err(
            ProtocolError::ValueTooLarge { actual: length, maximum: limits.max_value_size },
        );
    }
    match cursor.take(length) {
        Ok(value) => Ok(from_slice(value)),
        Err(error) => Err(error),
    }
}

fn one_key(payload: &[u8], limits: ProtocolLimits) -> (key: Result<Bytes, ProtocolError>)
    ensures
        match key {
            Ok(key) => sole_key(payload@, limits) == Ok::<Seq<u8>, ProtocolError>(contents(key)),
            Err(error) => sole_key(payload@, limits) == Err::<Seq<u8>, ProtocolError>(error),
        },
{
    let mut cursor: Cursor = Cursor::new(payload);
    let key: Bytes = match take_key(&mut cursor, limits) {
        Ok(key) => key,
        Err(error) => return Err(error),
    };
    match cursor.finish() {
        Ok(_) => Ok(key),
        Err(error) => Err(error),
    }
}

fn key_and_value(payload: &[u8], limits: ProtocolLimits) -> (command: Result<
    Command,
    ProtocolError,
>)
    ensures
        match command {
            Ok(command) => request_of(Opcode::Put, payload@, limits) == Ok::<
                CommandView,
                ProtocolError,
            >(command@),
            Err(error) => request_of(Opcode::Put, payload@, limits) == Err::<
                CommandView,
                ProtocolError,
            >(error),
        },
{
    let mut cursor: Cursor = Cursor::new(payload);
    let key: Bytes = match take_key(&mut cursor, limits) {
        Ok(key) => key,
        Err(error) => return Err(error),
    };
    let value: Bytes = match take_value(&mut cursor, limits) {
        Ok(value) => value,
        Err(error) => return Err(error),
    };
    match cursor.finish() {
        Ok(_) => Ok(Command::Put { key, value }),
        Err(error) => Err(error),
    }
}

fn key_ttl_and_value(payload: &[u8], limits: ProtocolLimits) -> (command: Result<
    Command,
    ProtocolError,
>)
    ensures
        match command {
            Ok(command) => request_of(Opcode::SetEx, payload@, limits) == Ok::<
                CommandView,
                ProtocolError,
            >(command@),
            Err(error) => request_of(Opcode::SetEx, payload@, limits) == Err::<
                CommandView,
                ProtocolError,
            >(error),
        },
{
    let mut cursor: Cursor = Cursor::new(payload);
    let key: Bytes = match take_key(&mut cursor, limits) {
        Ok(key) => key,
        Err(error) => return Err(error),
    };
    let millis: u64 = match cursor.u64() {
        Ok(millis) => millis,
        Err(error) => return Err(error),
    };
    if millis == 0 {
        return Err(ProtocolError::InvalidPayload("TTL must be greater than zero"));
    }
    let value: Bytes = match take_value(&mut cursor, limits) {
        Ok(value) => value,
        Err(error) => return Err(error),
    };
    match cursor.finish() {
        Ok(_) => Ok(Command::SetEx { key, ttl: Duration::from_millis(millis), value }),
        Err(error) => Err(error),
    }
}

/// Reads the request that a frame carries.
pub fn parse_command(frame: &Frame, limits: ProtocolLimits) -> (command: Result<
    Command,
    ProtocolError,
>)
    ensures
        match command {
            Ok(command) => command_of(frame@, limits) == Ok::<CommandView, ProtocolError>(command@),
            Err(error) => command_of(frame@, limits) == Err::<CommandView, ProtocolError>(error),
        },
{
    if frame.version != PROTOCOL_VERSION {
        return Err(ProtocolError::UnsupportedVersion(frame.version));
    }
    let opcode: Opcode = match Opcode::try_from(frame.code) {
        Ok(opcode) => opcode,
        Err(error) => return Err(error),
    };
    let payload: &[u8] = as_slice(&frame.payload);
    match opcode {
        Opcode::Ping => require_empty(payload, Command::Ping),
        Opcode::Info => require_empty(payload, Command::Info),
        Opcode::Stats => require_empty(payload, Command::Stats),
        Opcode::Put => key_and_value(payload, limits),
        Opcode::SetEx => key_ttl_and_value(payload, limits),
        Opcode::Get => match one_key(payload, limits) {
            Ok(key) => Ok(Command::Get { key }),
            Err(error) => Err(error),
        },
        Opcode::Del => match one_key(payload, limits) {
            Ok(key) => Ok(Command::Del { key }),
            Err(error) => Err(error),
        },
        Opcode::Exists => match one_key(payload, limits) {
            Ok(key) => Ok(Command::Exists { key }),
            Err(error) => Err(error),
        },
        Opcode::Ttl => match one_key(payload, limits) {
            Ok(key) => Ok(Command::Ttl { key }),
            Err(error) => Err(error),
        },
        Opcode::Persist => match one_key(payload, limits) {
            Ok(key) => Ok(Command::Persist { key }),
            Err(error) => Err(error),
        },
    }
}

fn require_empty(payload: &[u8], command: Command) -> (checked: Result<Command, ProtocolError>)
    ensures
        match checked {
            Ok(checked) => bare(payload@, command@) == Ok::<CommandView, ProtocolError>(checked@),
            Err(error) => bare(payload@, command@) == Err::<CommandView, ProtocolError>(error),
        },
{
    if payload.len() == 0 {
        Ok(command)
    } else {
        Err(ProtocolError::InvalidPayload("command does not accept a payload"))
    }
}

proof fn lemma_sized_at(payload: Seq<u8>, position: int, item: Seq<u8>, rest: Seq<u8>)
    requires
        0 <= position <= payload.len(),
        payload.len() <= usize::MAX,
        item.len() <= u32::MAX,
        payload.skip(position) == sized32(item) + rest,
    ensures
        u32_field(payload, position) == Ok::<u32, ProtocolError>(item.len() as u32),
        run(payload, position + 4, item.len() as int) == Ok::<Seq<u8>, ProtocolError>(item),
        payload.skip(position + 4 + item.len() as int) == rest,
        position + 4 + item.len() + rest.len() == payload.len(),
{
    broadcast use crate::wire::group_wire;

    let tail = payload.skip(position);
    assert(tail.len() == 4 + item.len() + rest.len());
    assert(payload.subrange(position, position + 4) =~= tail.take(4));
    assert(tail.take(4) =~= be32(item.len() as u32));
    assert(payload.subrange(position + 4, position + 4 + item.len()) =~= tail.subrange(
        4,
        4 + item.len() as int,
    ));
    assert(tail.subrange(4, 4 + item.len() as int) =~= item);
    assert(payload.skip(position + 4 + item.len() as int) =~= tail.skip(4 + item.len() as int));
    assert(tail.skip(4 + item.len() as int) =~= rest);
}

/// A request that the server accepts is read back from its frame, with its time to live in whole
/// milliseconds.
pub proof fn law_command_round_trip(command: CommandView, limits: ProtocolLimits)
    requires
        command.encodable(),
        command.accepted(limits),
    ensures
        command_of(command.frame(), limits) == Ok::<CommandView, ProtocolError>(command.whole()),
{
    broadcast use crate::wire::group_wire;

    let payload = command.payload();
    assert(payload.skip(0) =~= payload);
    match command {
        CommandView::Put { key, value } => {
            lemma_sized_at(payload, 0, key, sized32(value));
            assert(sized32(value) =~= sized32(value) + seq![]);
            lemma_sized_at(payload, 4 + key.len() as int, value, seq![]);
        },
        CommandView::SetEx { key, ttl, value } => {
            let millis = (ttl.nanos / 1_000_000) as u64;
            assert(payload =~= sized32(key) + (be64(millis) + sized32(value)));
            lemma_sized_at(payload, 0, key, be64(millis) + sized32(value));
            let middle = 4 + key.len() as int;
            let tail = payload.skip(middle);
            assert(payload.subrange(middle, middle + 8) =~= tail.take(8));
            assert(tail.take(8) =~= be64(millis));
            assert(payload.skip(middle + 8) =~= tail.skip(8));
            assert(tail.skip(8) =~= sized32(value) + seq![]);
            lemma_sized_at(payload, middle + 8, value, seq![]);
        },
        _ => {
            if command.key() is Some {
                let key = command.key()->0;
                assert(payload =~= sized32(key) + seq![]);
                lemma_sized_at(payload, 0, key, seq![]);
            }
        },
    }
}

proof fn lemma_field_bytes(payload: Seq<u8>, position: int, length: u32)
    requires
        0 <= position,
        position + 4 + length <= payload.len(),
        un32(payload.subrange(position, position + 4)) == length,
    ensures
        payload.subrange(position, position + 4 + length) == sized32(
            payload.subrange(position + 4, position + 4 + length),
        ),
{
    crate::wire::lemma_un32(payload.subrange(position, position + 4));
    assert(payload.subrange(position, position + 4 + length) =~= payload.subrange(
        position,
        position + 4,
    ) + payload.subrange(position + 4, position + 4 + length));
}

/// Every frame that is read as a request is the frame of that request: no two frames carry the
/// same request.
pub proof fn law_request_frames_are_canonical(frame: FrameView, limits: ProtocolLimits)
    requires
        command_of(frame, limits) is Ok,
        frame.payload.len() <= usize::MAX,
    ensures
        command_of(frame, limits)->Ok_0.encodable(),
        command_of(frame, limits)->Ok_0.accepted(limits),
        command_of(frame, limits)->Ok_0.frame() == frame,
{
    let command = command_of(frame, limits)->Ok_0;
    let payload = frame.payload;
    match command {
        CommandView::Put { key, value } => {
            let (first, second) = (key.len() as u32, value.len() as u32);
            lemma_field_bytes(payload, 0, first);
            lemma_field_bytes(payload, 4 + first as int, second);
            assert(payload =~= payload.subrange(0, 4 + first) + payload.subrange(
                4 + first as int,
                payload.len() as int,
            ));
        },
        CommandView::SetEx { key, ttl, value } => {
            let (first, second) = (key.len() as u32, value.len() as u32);
            lemma_field_bytes(payload, 0, first);
            let middle = 4 + first as int;
            crate::wire::lemma_un64(payload.subrange(middle, middle + 8));
            lemma_field_bytes(payload, middle + 8, second);
            assert(payload =~= payload.subrange(0, middle) + payload.subrange(middle, middle + 8)
                + payload.subrange(middle + 8, payload.len() as int));
        },
        _ => {
            if command.key() is Some {
                let length = command.key()->0.len() as u32;
                lemma_field_bytes(payload, 0, length);
                assert(payload =~= payload.subrange(0, 4 + length));
            }
        },
    }
    assert(command.frame().payload =~= payload);
}

/// Whether a key is one that a server accepts, and a value.
pub open spec fn acceptable(key: Seq<u8>, value: Seq<u8>, limits: ProtocolLimits) -> bool {
    0 < key.len() <= limits.max_key_size && value.len() <= limits.max_value_size
}

/// A request is accepted exactly where its key is not empty, its key and its value are within
/// limits, and its time to live is a millisecond or more. It is then read as it was written, with
/// its time to live in whole milliseconds.
pub proof fn law_requests_within_limits_are_accepted(
    key: Seq<u8>,
    value: Seq<u8>,
    millis: u64,
    limits: ProtocolLimits,
)
    requires
        16 + key.len() + value.len() <= usize::MAX,
        key.len() <= u32::MAX,
        value.len() <= u32::MAX,
    ensures
        ({
            let ttl = Duration { nanos: (millis * 1_000_000) as u128 };
            let put = CommandView::Put { key, value };
            let setex = CommandView::SetEx { key, ttl, value };
            &&& command_of(put.frame(), limits) is Ok <==> acceptable(key, value, limits)
            &&& command_of(setex.frame(), limits) is Ok <==> acceptable(key, value, limits)
                && millis > 0
            &&& acceptable(key, value, limits) ==> command_of(put.frame(), limits) == Ok::<
                CommandView,
                ProtocolError,
            >(put)
            &&& acceptable(key, value, limits) && millis > 0 ==> command_of(setex.frame(), limits)
                == Ok::<CommandView, ProtocolError>(setex)
            &&& acceptable(key, seq![], limits) ==> {
                let same = |command: CommandView|
                    command_of(command.frame(), limits) == Ok::<CommandView, ProtocolError>(
                        command,
                    );
                &&& same(CommandView::Get { key })
                &&& same(CommandView::Del { key })
                &&& same(CommandView::Exists { key })
                &&& same(CommandView::Ttl { key })
                &&& same(CommandView::Persist { key })
            }
            &&& command_of(CommandView::Ping.frame(), limits) == Ok::<CommandView, ProtocolError>(
                CommandView::Ping,
            )
            &&& command_of(CommandView::Info.frame(), limits) == Ok::<CommandView, ProtocolError>(
                CommandView::Info,
            )
            &&& command_of(CommandView::Stats.frame(), limits) == Ok::<CommandView, ProtocolError>(
                CommandView::Stats,
            )
        }),
{
    let ttl = Duration { nanos: (millis * 1_000_000) as u128 };
    let put = CommandView::Put { key, value };
    let setex = CommandView::SetEx { key, ttl, value };
    assert(ttl.nanos / 1_000_000 == millis);
    law_command_round_trip(CommandView::Ping, limits);
    law_command_round_trip(CommandView::Info, limits);
    law_command_round_trip(CommandView::Stats, limits);
    if acceptable(key, value, limits) {
        law_command_round_trip(put, limits);
        if millis > 0 {
            law_command_round_trip(setex, limits);
        }
    }
    if acceptable(key, seq![], limits) {
        law_command_round_trip(CommandView::Get { key }, limits);
        law_command_round_trip(CommandView::Del { key }, limits);
        law_command_round_trip(CommandView::Exists { key }, limits);
        law_command_round_trip(CommandView::Ttl { key }, limits);
        law_command_round_trip(CommandView::Persist { key }, limits);
    }
    lemma_refused(key, value, ttl, limits);
}

proof fn lemma_refused(key: Seq<u8>, value: Seq<u8>, ttl: Duration, limits: ProtocolLimits)
    requires
        16 + key.len() + value.len() <= usize::MAX,
        key.len() <= u32::MAX,
        value.len() <= u32::MAX,
        ttl.nanos / 1_000_000 <= u64::MAX,
    ensures
        !acceptable(key, value, limits) ==> command_of(
            (CommandView::Put { key, value }).frame(),
            limits,
        ) is Err,
        !acceptable(key, value, limits) || ttl.nanos < 1_000_000 ==> command_of(
            (CommandView::SetEx { key, ttl, value }).frame(),
            limits,
        ) is Err,
{
    broadcast use crate::wire::group_wire;

    let put = (CommandView::Put { key, value }).payload();
    assert(put.skip(0) =~= put);
    lemma_sized_at(put, 0, key, sized32(value));
    assert(sized32(value) =~= sized32(value) + seq![]);
    lemma_sized_at(put, 4 + key.len() as int, value, seq![]);
    let millis = (ttl.nanos / 1_000_000) as u64;
    let setex = (CommandView::SetEx { key, ttl, value }).payload();
    assert(setex =~= sized32(key) + (be64(millis) + sized32(value)));
    assert(setex.skip(0) =~= setex);
    lemma_sized_at(setex, 0, key, be64(millis) + sized32(value));
    let middle = 4 + key.len() as int;
    let tail = setex.skip(middle);
    assert(setex.subrange(middle, middle + 8) =~= tail.take(8));
    assert(tail.take(8) =~= be64(millis));
    assert(setex.skip(middle + 8) =~= tail.skip(8));
    assert(tail.skip(8) =~= sized32(value) + seq![]);
    lemma_sized_at(setex, middle + 8, value, seq![]);
}

/// How requests are laid out: the code of the command, then each key and value behind its length
/// in four bytes, with the milliseconds of a time to live in eight bytes between them.
pub proof fn law_requests_have_their_layout(key: Seq<u8>, value: Seq<u8>, ttl: Duration)
    ensures
        ({
            let length = be32(key.len() as u32);
            let value_length = be32(value.len() as u32);
            let alone = length + key;
            let is = |command: CommandView, code: u8, payload: Seq<u8>|
                command.frame().version == 1 && command.frame().code == code
                    && command.frame().payload == payload;
            &&& is(CommandView::Ping, 1, seq![])
            &&& is(CommandView::Put { key, value }, 2, alone + (value_length + value))
            &&& is(CommandView::Get { key }, 3, alone)
            &&& is(CommandView::Del { key }, 4, alone)
            &&& is(CommandView::Exists { key }, 5, alone)
            &&& is(
                CommandView::SetEx { key, ttl, value },
                6,
                alone + be64((ttl.nanos / 1_000_000) as u64) + (value_length + value),
            )
            &&& is(CommandView::Ttl { key }, 7, alone)
            &&& is(CommandView::Persist { key }, 8, alone)
            &&& is(CommandView::Info, 9, seq![])
            &&& is(CommandView::Stats, 10, seq![])
        }),
{
}

/// Why requests about one key are refused: an empty key, one that is too long, bytes behind it, or
/// a payload that ends before it does.
pub proof fn law_keys_are_refused_with_a_reason(
    code: u8,
    key: Seq<u8>,
    rest: Seq<u8>,
    kept: int,
    limits: ProtocolLimits,
)
    requires
        code == 3 || code == 4 || code == 5 || code == 7 || code == 8,
        key.len() <= u32::MAX,
        4 + key.len() + rest.len() <= usize::MAX,
        0 <= kept < 4 + key.len(),
    ensures
        ({
            let payload = be32(key.len() as u32) + key + rest;
            let reading = command_of(FrameView { version: 1, code, payload }, limits);
            let cut = command_of(
                FrameView { version: 1, code, payload: payload.take(kept) },
                limits,
            );
            let fits = 0 < key.len() <= limits.max_key_size;
            &&& key.len() == 0 ==> reading == Err::<CommandView, ProtocolError>(
                ProtocolError::InvalidPayload("key cannot be empty"),
            )
            &&& 0 < key.len() && key.len() > limits.max_key_size ==> reading == Err::<
                CommandView,
                ProtocolError,
            >(
                ProtocolError::KeyTooLarge {
                    actual: key.len() as usize,
                    maximum: limits.max_key_size,
                },
            )
            &&& fits && rest.len() > 0 ==> reading == Err::<CommandView, ProtocolError>(
                ProtocolError::InvalidPayload("trailing payload bytes"),
            )
            &&& fits ==> cut == Err::<CommandView, ProtocolError>(ProtocolError::Truncated)
            &&& reading is Ok ==> fits && rest.len() == 0
        }),
{
    broadcast use crate::wire::group_wire;

    let payload = be32(key.len() as u32) + key + rest;
    assert(payload.skip(0) =~= sized32(key) + rest);
    lemma_sized_at(payload, 0, key, rest);
    let cut = payload.take(kept);
    if kept >= 4 {
        assert(cut.subrange(0, 4) =~= payload.subrange(0, 4));
    }
}

/// Why writes are refused that have a sound key: a value that is too long, bytes behind it, or no
/// time to live.
pub proof fn law_values_are_refused_with_a_reason(
    key: Seq<u8>,
    value: Seq<u8>,
    millis: u64,
    rest: Seq<u8>,
    limits: ProtocolLimits,
)
    requires
        0 < key.len() <= limits.max_key_size,
        key.len() <= u32::MAX,
        value.len() <= u32::MAX,
        16 + key.len() + value.len() + rest.len() <= usize::MAX,
    ensures
        ({
            let start = be32(key.len() as u32) + key;
            let end = be32(value.len() as u32) + value + rest;
            let put = command_of(
                FrameView { version: 1, code: 2, payload: start + end },
                limits,
            );
            let setex = command_of(
                FrameView { version: 1, code: 6, payload: start + be64(millis) + end },
                limits,
            );
            let long = Err::<CommandView, ProtocolError>(
                ProtocolError::ValueTooLarge {
                    actual: value.len() as usize,
                    maximum: limits.max_value_size,
                },
            );
            let trailing = Err::<CommandView, ProtocolError>(
                ProtocolError::InvalidPayload("trailing payload bytes"),
            );
            &&& value.len() > limits.max_value_size ==> put == long
            &&& value.len() > limits.max_value_size && millis > 0 ==> setex == long
            &&& value.len() <= limits.max_value_size && rest.len() > 0 ==> put == trailing
            &&& value.len() <= limits.max_value_size && rest.len() > 0 && millis > 0 ==> setex
                == trailing
            &&& millis == 0 ==> setex == Err::<CommandView, ProtocolError>(
                ProtocolError::InvalidPayload("TTL must be greater than zero"),
            )
        }),
{
    broadcast use crate::wire::group_wire;

    let start = be32(key.len() as u32) + key;
    let end = be32(value.len() as u32) + value + rest;
    let put = start + end;
    assert(put.skip(0) =~= sized32(key) + end);
    lemma_sized_at(put, 0, key, end);
    assert(end =~= sized32(value) + rest);
    lemma_sized_at(put, 4 + key.len() as int, value, rest);
    let setex = start + be64(millis) + end;
    assert(setex.skip(0) =~= sized32(key) + (be64(millis) + end));
    lemma_sized_at(setex, 0, key, be64(millis) + end);
    let middle = 4 + key.len() as int;
    assert(setex.subrange(middle, middle + 8) =~= be64(millis));
    assert(setex.skip(middle + 8) =~= sized32(value) + rest);
    lemma_sized_at(setex, middle + 8, value, rest);
}

/// Commands without a payload are refused with one, and codes that name no command are refused.
pub proof fn law_other_requests_are_refused(code: u8, payload: Seq<u8>, limits: ProtocolLimits)
    ensures
        ({
            let reading = command_of(FrameView { version: 1, code, payload }, limits);
            &&& (code == 1 || code == 9 || code == 10) && payload.len() > 0 ==> reading == Err::<
                CommandView,
                ProtocolError,
            >(ProtocolError::InvalidPayload("command does not accept a payload"))
            &&& code == 0 || code > 10 ==> reading == Err::<CommandView, ProtocolError>(
                ProtocolError::InvalidOpcode(code),
            )
        }),
{
}

} // verus!
