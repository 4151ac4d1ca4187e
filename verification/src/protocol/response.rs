//! Responses and their payloads.

use bytes::Bytes;
use vstd::prelude::*;
use vstd::slice::{slice_subrange, slice_to_vec};
use vstd::utf8::encode_utf8;

use crate::buffer::{as_slice, contents, from_slice, from_vec};
use crate::error::ProtocolError;
use crate::protocol::cursor::{name_field, spelled, text_field, u16_field, u64_field, Cursor};
use crate::protocol::frame::{status_of, Frame, FrameView, StatusCode, PROTOCOL_VERSION};
use crate::text::from_utf8;
use crate::wire::{
    be16, be32, be64, put_bytes, put_u16, put_u32, put_u64, u32_at, u64_at, un16, un32, un64,
};

verus! {

/// What a server answers.
#[derive(Clone, Debug, PartialEq, Eq)]
pub enum Response {
    Success,
    NotFound,
    InvalidRequest(String),
    ServerError(String),
    Pong,
    Value(Bytes),
    Integer(i64),
    Info(Vec<(String, String)>),
    Stats(Vec<(String, u64)>),
    Redirect(String),
}

/// An answer with its parts as mathematical values.
#[verifier::ext_equal]
pub enum ResponseView {
    Success,
    NotFound,
    InvalidRequest(Seq<char>),
    ServerError(Seq<char>),
    Pong,
    Value(Seq<u8>),
    Integer(i64),
    Info(Seq<(Seq<char>, Seq<char>)>),
    Stats(Seq<(Seq<char>, u64)>),
    Redirect(Seq<char>),
}

/// The names and values of text fields.
pub open spec fn info_view(fields: Seq<(String, String)>) -> Seq<(Seq<char>, Seq<char>)> {
    fields.map_values(|field: (String, String)| (field.0@, field.1@))
}

/// The names and values of number fields.
pub open spec fn stats_view(fields: Seq<(String, u64)>) -> Seq<(Seq<char>, u64)> {
    fields.map_values(|field: (String, u64)| (field.0@, field.1))
}

impl View for Response {
    type V = ResponseView;

    open spec fn view(&self) -> ResponseView {
        match *self {
            Response::Success => ResponseView::Success,
            Response::NotFound => ResponseView::NotFound,
            Response::InvalidRequest(message) => ResponseView::InvalidRequest(message@),
            Response::ServerError(message) => ResponseView::ServerError(message@),
            Response::Pong => ResponseView::Pong,
            Response::Value(value) => ResponseView::Value(contents(value)),
            Response::Integer(value) => ResponseView::Integer(value),
            Response::Info(fields) => ResponseView::Info(info_view(fields@)),
            Response::Stats(fields) => ResponseView::Stats(stats_view(fields@)),
            Response::Redirect(address) => ResponseView::Redirect(address@),
        }
    }
}

/// Bytes behind their four-byte length.
pub open spec fn sized32(bytes: Seq<u8>) -> Seq<u8> {
    be32(bytes.len() as u32) + bytes
}

/// Bytes behind their two-byte length.
pub open spec fn sized16(bytes: Seq<u8>) -> Seq<u8> {
    be16(bytes.len() as u16) + bytes
}

/// One text field as it is laid out.
pub open spec fn info_field(field: (Seq<char>, Seq<char>)) -> Seq<u8> {
    sized16(encode_utf8(field.0)) + sized32(encode_utf8(field.1))
}

/// Text fields, one after another.
pub open spec fn info_run(fields: Seq<(Seq<char>, Seq<char>)>) -> Seq<u8>
    decreases fields.len(),
{
    if fields.len() == 0 {
        seq![]
    } else {
        info_field(fields[0]) + info_run(fields.skip(1))
    }
}

/// One number field as it is laid out.
pub open spec fn stats_field(field: (Seq<char>, u64)) -> Seq<u8> {
    sized16(encode_utf8(field.0)) + be64(field.1)
}

/// Number fields, one after another.
pub open spec fn stats_run(fields: Seq<(Seq<char>, u64)>) -> Seq<u8>
    decreases fields.len(),
{
    if fields.len() == 0 {
        seq![]
    } else {
        stats_field(fields[0]) + stats_run(fields.skip(1))
    }
}

/// The lengths that a length field of four bytes can hold and that fit in memory beside it.
pub open spec fn fits32(length: nat) -> bool {
    length <= u32::MAX && length + 4 <= usize::MAX
}

impl ResponseView {
    /// The status that stands for this kind of answer.
    pub open spec fn status(self) -> StatusCode {
        match self {
            ResponseView::Success => StatusCode::Success,
            ResponseView::NotFound => StatusCode::NotFound,
            ResponseView::InvalidRequest(_) => StatusCode::InvalidRequest,
            ResponseView::ServerError(_) => StatusCode::ServerError,
            ResponseView::Pong => StatusCode::Pong,
            ResponseView::Value(_) => StatusCode::Value,
            ResponseView::Integer(_) => StatusCode::Integer,
            ResponseView::Info(_) => StatusCode::Info,
            ResponseView::Stats(_) => StatusCode::Stats,
            ResponseView::Redirect(_) => StatusCode::Redirect,
        }
    }

    /// Whether every length of the answer fits its length field.
    pub open spec fn encodable(self) -> bool {
        match self {
            ResponseView::InvalidRequest(text) => fits32(encode_utf8(text).len()),
            ResponseView::ServerError(text) => fits32(encode_utf8(text).len()),
            ResponseView::Redirect(text) => fits32(encode_utf8(text).len()),
            ResponseView::Value(value) => fits32(value.len()),
            ResponseView::Info(fields) => fields.len() <= u16::MAX && (forall|i: int|
                #![trigger fields[i]]
                0 <= i < fields.len() ==> encode_utf8(fields[i].0).len() <= u16::MAX && encode_utf8(
                    fields[i].1,
                ).len() <= u32::MAX),
            ResponseView::Stats(fields) => fields.len() <= u16::MAX && (forall|i: int|
                #![trigger fields[i]]
                0 <= i < fields.len() ==> encode_utf8(fields[i].0).len() <= u16::MAX),
            _ => true,
        }
    }

    /// The payload that carries the answer.
    pub open spec fn payload(self) -> Seq<u8> {
        match self {
            ResponseView::InvalidRequest(text) => sized32(encode_utf8(text)),
            ResponseView::ServerError(text) => sized32(encode_utf8(text)),
            ResponseView::Redirect(text) => sized32(encode_utf8(text)),
            ResponseView::Value(value) => sized32(value),
            ResponseView::Integer(value) => be64(value as u64),
            ResponseView::Info(fields) => be16(fields.len() as u16) + info_run(fields),
            ResponseView::Stats(fields) => be16(fields.len() as u16) + stats_run(fields),
            _ => seq![],
        }
    }

    /// The frame that carries the answer.
    pub open spec fn frame(self) -> FrameView {
        FrameView {
            version: PROTOCOL_VERSION,
            code: self.status().spec_code(),
            payload: self.payload(),
        }
    }
}

/// The byte string that makes up a whole payload.
pub open spec fn value_of(payload: Seq<u8>) -> Result<Seq<u8>, ProtocolError> {
    if payload.len() < 4 {
        Err(ProtocolError::Truncated)
    } else {
        let length = un32(payload.take(4));
        if 4 + length > usize::MAX {
            Err(ProtocolError::IntegerOverflow)
        } else if payload.len() != 4 + length {
            Err(ProtocolError::InvalidPayload("invalid byte string length"))
        } else {
            Ok(payload.skip(4))
        }
    }
}

/// The text that makes up a whole payload.
pub open spec fn text_of(payload: Seq<u8>) -> Result<Seq<char>, ProtocolError> {
    match value_of(payload) {
        Err(error) => Err(error),
        Ok(bytes) => spelled(bytes, "message is not valid UTF-8"),
    }
}

/// The text fields from `position` on, and the position after them.
pub open spec fn info_at(payload: Seq<u8>, position: int, count: nat) -> Result<
    (Seq<(Seq<char>, Seq<char>)>, int),
    ProtocolError,
>
    decreases count,
{
    if count == 0 {
        Ok((seq![], position))
    } else {
        match name_field(payload, position) {
            Err(error) => Err(error),
            Ok((name, after_name)) => match text_field(payload, after_name) {
                Err(error) => Err(error),
                Ok((value, after_value)) => match info_at(
                    payload,
                    after_value,
                    (count - 1) as nat,
                ) {
                    Err(error) => Err(error),
                    Ok((fields, end)) => Ok((seq![(name, value)] + fields, end)),
                },
            },
        }
    }
}

/// The number fields from `position` on, and the position after them.
pub open spec fn stats_at(payload: Seq<u8>, position: int, count: nat) -> Result<
    (Seq<(Seq<char>, u64)>, int),
    ProtocolError,
>
    decreases count,
{
    if count == 0 {
        Ok((seq![], position))
    } else {
        match name_field(payload, position) {
            Err(error) => Err(error),
            Ok((name, after_name)) => match u64_field(payload, after_name) {
                Err(error) => Err(error),
                Ok(value) => match stats_at(payload, after_name + 8, (count - 1) as nat) {
                    Err(error) => Err(error),
                    Ok((fields, end)) => Ok((seq![(name, value)] + fields, end)),
                },
            },
        }
    }
}

/// The text fields that make up a whole payload.
pub open spec fn info_of(payload: Seq<u8>) -> Result<Seq<(Seq<char>, Seq<char>)>, ProtocolError> {
    match u16_field(payload, 0) {
        Err(error) => Err(error),
        Ok(count) => match info_at(payload, 2, count as nat) {
            Err(error) => Err(error),
            Ok((fields, end)) => if end == payload.len() {
                Ok(fields)
            } else {
                Err(ProtocolError::InvalidPayload("trailing payload bytes"))
            },
        },
    }
}

/// The number fields that make up a whole payload.
pub open spec fn stats_of(payload: Seq<u8>) -> Result<Seq<(Seq<char>, u64)>, ProtocolError> {
    match u16_field(payload, 0) {
        Err(error) => Err(error),
        Ok(count) => match stats_at(payload, 2, count as nat) {
            Err(error) => Err(error),
            Ok((fields, end)) => if end == payload.len() {
                Ok(fields)
            } else {
                Err(ProtocolError::InvalidPayload("trailing payload bytes"))
            },
        },
    }
}

/// `answer` where the payload is empty.
pub open spec fn bare(payload: Seq<u8>, answer: ResponseView) -> Result<
    ResponseView,
    ProtocolError,
> {
    if payload.len() == 0 {
        Ok(answer)
    } else {
        Err(ProtocolError::InvalidPayload("response status does not accept a payload"))
    }
}

/// The answer of a status with its payload.
pub open spec fn answer_of(status: StatusCode, payload: Seq<u8>) -> Result<
    ResponseView,
    ProtocolError,
> {
    match status {
        StatusCode::Success => bare(payload, ResponseView::Success),
        StatusCode::NotFound => bare(payload, ResponseView::NotFound),
        StatusCode::Pong => bare(payload, ResponseView::Pong),
        StatusCode::InvalidRequest => match text_of(payload) {
            Ok(text) => Ok(ResponseView::InvalidRequest(text)),
            Err(error) => Err(error),
        },
        StatusCode::ServerError => match text_of(payload) {
            Ok(text) => Ok(ResponseView::ServerError(text)),
            Err(error) => Err(error),
        },
        StatusCode::Redirect => match text_of(payload) {
            Ok(text) => Ok(ResponseView::Redirect(text)),
            Err(error) => Err(error),
        },
        StatusCode::Value => match value_of(payload) {
            Ok(value) => Ok(ResponseView::Value(value)),
            Err(error) => Err(error),
        },
        StatusCode::Integer => if payload.len() != 8 {
            Err(ProtocolError::InvalidPayload("integer response must contain exactly eight bytes"))
        } else {
            Ok(ResponseView::Integer(un64(payload) as i64))
        },
        StatusCode::Info => match info_of(payload) {
            Ok(fields) => Ok(ResponseView::Info(fields)),
            Err(error) => Err(error),
        },
        StatusCode::Stats => match stats_of(payload) {
            Ok(fields) => Ok(ResponseView::Stats(fields)),
            Err(error) => Err(error),
        },
    }
}

/// The answer that a frame carries.
pub open spec fn response_of(frame: FrameView) -> Result<ResponseView, ProtocolError> {
    if frame.version != PROTOCOL_VERSION {
        Err(ProtocolError::UnsupportedVersion(frame.version))
    } else {
        match status_of(frame.code) {
            None => Err(ProtocolError::InvalidOpcode(frame.code)),
            Some(status) => answer_of(status, frame.payload),
        }
    }
}

impl Response {
    /// The frame that carries the answer, unless a length does not fit its length field.
    pub fn into_frame(self) -> (frame: Result<Frame, ProtocolError>)
        ensures
            match frame {
                Ok(frame) => self@.encodable() && frame@ == self@.frame(),
                Err(error) => !self@.encodable() && error == ProtocolError::IntegerOverflow,
            },
    {
        let (status, payload): (StatusCode, Vec<u8>) = match &self {
            Response::Success => (StatusCode::Success, Vec::new()),
            Response::NotFound => (StatusCode::NotFound, Vec::new()),
            Response::Pong => (StatusCode::Pong, Vec::new()),
            Response::InvalidRequest(message) => match encode_value(message.as_str().as_bytes()) {
                Ok(payload) => (StatusCode::InvalidRequest, payload),
                Err(error) => return Err(error),
            },
            Response::ServerError(message) => match encode_value(message.as_str().as_bytes()) {
                Ok(payload) => (StatusCode::ServerError, payload),
                Err(error) => return Err(error),
            },
            Response::Redirect(address) => match encode_value(address.as_str().as_bytes()) {
                Ok(payload) => (StatusCode::Redirect, payload),
                Err(error) => return Err(error),
            },
            Response::Value(value) => match encode_value(as_slice(value)) {
                Ok(payload) => (StatusCode::Value, payload),
                Err(error) => return Err(error),
            },
            Response::Integer(value) => {
                let mut payload: Vec<u8> = Vec::with_capacity(8);
                put_u64(&mut payload, *value as u64);
                (StatusCode::Integer, payload)
            },
            Response::Info(fields) => match encode_string_fields(fields) {
                Ok(payload) => (StatusCode::Info, payload),
                Err(error) => return Err(error),
            },
            Response::Stats(fields) => match encode_metric_fields(fields) {
                Ok(payload) => (StatusCode::Stats, payload),
                Err(error) => return Err(error),
            },
        };
        assert(payload@ =~= self@.payload());
        Ok(Frame::response(status, from_vec(payload)))
    }

    /// Reads the answer that a frame carries.
    pub fn from_frame(frame: Frame) -> (response: Result<Self, ProtocolError>)
        ensures
            match response {
                Ok(response) => response_of(frame@) == Ok::<ResponseView, ProtocolError>(
                    response@,
                ),
                Err(error) => response_of(frame@) == Err::<ResponseView, ProtocolError>(error),
            },
    {
        if frame.version != PROTOCOL_VERSION {
            return Err(ProtocolError::UnsupportedVersion(frame.version));
        }
        let status: StatusCode = match StatusCode::try_from(frame.code) {
            Ok(status) => status,
            Err(error) => return Err(error),
        };
        let payload: &[u8] = as_slice(&frame.payload);
        match status {
            StatusCode::Success => require_empty(payload, Response::Success),
            StatusCode::NotFound => require_empty(payload, Response::NotFound),
            StatusCode::Pong => require_empty(payload, Response::Pong),
            StatusCode::InvalidRequest => match decode_string(payload) {
                Ok(message) => Ok(Response::InvalidRequest(message)),
                Err(error) => Err(error),
            },
            StatusCode::ServerError => match decode_string(payload) {
                Ok(message) => Ok(Response::ServerError(message)),
                Err(error) => Err(error),
            },
            StatusCode::Redirect => match decode_string(payload) {
                Ok(address) => Ok(Response::Redirect(address)),
                Err(error) => Err(error),
            },
            StatusCode::Value => match decode_value(payload) {
                Ok(value) => Ok(Response::Value(from_slice(value))),
                Err(error) => Err(error),
            },
            StatusCode::Integer => {
                if payload.len() != 8 {
                    return Err(
                        ProtocolError::InvalidPayload(
                            "integer response must contain exactly eight bytes",
                        ),
                    );
                }
                assert(payload@.subrange(0, 8) =~= payload@);
                Ok(Response::Integer(u64_at(payload, 0) as i64))
            },
            StatusCode::Info => match decode_string_fields(payload) {
                Ok(fields) => Ok(Response::Info(fields)),
                Err(error) => Err(error),
            },
            StatusCode::Stats => match decode_metric_fields(payload) {
                Ok(fields) => Ok(Response::Stats(fields)),
                Err(error) => Err(error),
            },
        }
    }
}

fn require_empty(payload: &[u8], response: Response) -> (checked: Result<Response, ProtocolError>)
    ensures
        match checked {
            Ok(checked) => bare(payload@, response@) == Ok::<ResponseView, ProtocolError>(checked@),
            Err(error) => bare(payload@, response@) == Err::<ResponseView, ProtocolError>(error),
        },
{
    if payload.len() == 0 {
        Ok(response)
    } else {
        Err(ProtocolError::InvalidPayload("response status does not accept a payload"))
    }
}

fn encode_value(value: &[u8]) -> (payload: Result<Vec<u8>, ProtocolError>)
    ensures
        match payload {
            Ok(payload) => fits32(value@.len()) && payload@ == sized32(value@),
            Err(error) => !fits32(value@.len()) && error == ProtocolError::IntegerOverflow,
        },
{
    if value.len() > u32::MAX as usize {
        return Err(ProtocolError::IntegerOverflow);
    }
    let capacity: usize = match value.len().checked_add(4) {
        Some(capacity) => capacity,
        None => return Err(ProtocolError::IntegerOverflow),
    };
    let mut payload: Vec<u8> = Vec::with_capacity(capacity);
    put_u32(&mut payload, value.len() as u32);
    put_bytes(&mut payload, value);
    assert(payload@ =~= sized32(value@));
    Ok(payload)
}

fn decode_value(payload: &[u8]) -> (value: Result<&[u8], ProtocolError>)
    ensures
        match value {
            Ok(value) => value_of(payload@) == Ok::<Seq<u8>, ProtocolError>(value@),
            Err(error) => value_of(payload@) == Err::<Seq<u8>, ProtocolError>(error),
        },
{
    if payload.len() < 4 {
        return Err(ProtocolError::Truncated);
    }
    let length: usize = u32_at(payload, 0) as usize;
    assert(payload@.subrange(0, 4) =~= payload@.take(4));
    let expected: usize = match length.checked_add(4) {
        Some(expected) => expected,
        None => return Err(ProtocolError::IntegerOverflow),
    };
    if payload.len() != expected {
        return Err(ProtocolError::InvalidPayload("invalid byte string length"));
    }
    let value: &[u8] = slice_subrange(payload, 4, expected);
    assert(value@ =~= payload@.skip(4));
    Ok(value)
}

fn decode_string(payload: &[u8]) -> (text: Result<String, ProtocolError>)
    ensures
        match text {
            Ok(text) => text_of(payload@) == Ok::<Seq<char>, ProtocolError>(text@),
            Err(error) => text_of(payload@) == Err::<Seq<char>, ProtocolError>(error),
        },
{
    let value: &[u8] = match decode_value(payload) {
        Ok(value) => value,
        Err(error) => return Err(error),
    };
    match from_utf8(slice_to_vec(value)) {
        Some(text) => Ok(text),
        None => Err(ProtocolError::InvalidPayload("message is not valid UTF-8")),
    }
}

fn put_name(payload: &mut Vec<u8>, name: &String) -> (put: Result<(), ProtocolError>)
    ensures
        match put {
            Ok(_) => encode_utf8(name@).len() <= u16::MAX && final(payload)@ == old(payload)@
                + sized16(encode_utf8(name@)),
            Err(error) => encode_utf8(name@).len() > u16::MAX && error
                == ProtocolError::IntegerOverflow,
        },
{
    let bytes: &[u8] = name.as_str().as_bytes();
    if bytes.len() > u16::MAX as usize {
        return Err(ProtocolError::IntegerOverflow);
    }
    put_u16(payload, bytes.len() as u16);
    put_bytes(payload, bytes);
    assert(payload@ =~= old(payload)@ + sized16(encode_utf8(name@)));
    Ok(())
}

fn encode_string_fields(fields: &Vec<(String, String)>) -> (payload: Result<
    Vec<u8>,
    ProtocolError,
>)
    ensures
        ({
            let view = ResponseView::Info(info_view(fields@));
            match payload {
                Ok(payload) => view.encodable() && payload@ == view.payload(),
                Err(error) => !view.encodable() && error == ProtocolError::IntegerOverflow,
            }
        }),
{
    let ghost view = info_view(fields@);
    if fields.len() > u16::MAX as usize {
        return Err(ProtocolError::IntegerOverflow);
    }
    let mut payload: Vec<u8> = Vec::new();
    put_u16(&mut payload, fields.len() as u16);
    assert(view.skip(0) =~= view);
    for index in 0..fields.len()
        invariant
            view == info_view(fields@),
            payload@ + info_run(view.skip(index as int)) == be16(fields@.len() as u16) + info_run(
                view,
            ),
            forall|i: int|
                #![trigger view[i]]
                0 <= i < index ==> encode_utf8(view[i].0).len() <= u16::MAX && encode_utf8(
                    view[i].1,
                ).len() <= u32::MAX,
    {
        let (name, value) = &fields[index];
        let ghost field = view[index as int];
        let ghost before = payload@;
        assert(field == (name@, value@));
        match put_name(&mut payload, name) {
            Ok(_) => {},
            Err(error) => return Err(error),
        }
        let bytes: &[u8] = value.as_str().as_bytes();
        if bytes.len() > u32::MAX as usize {
            return Err(ProtocolError::IntegerOverflow);
        }
        put_u32(&mut payload, bytes.len() as u32);
        put_bytes(&mut payload, bytes);
        proof {
            let rest = view.skip(index as int);
            assert(rest.skip(1) =~= view.skip(index + 1));
            assert(payload@ =~= before + info_field(field));
            assert(payload@ + info_run(rest.skip(1)) =~= before + info_run(rest));
        }
    }
    assert(view.skip(fields@.len() as int) =~= seq![]);
    assert(payload@ =~= payload@ + info_run(seq![]));
    Ok(payload)
}

fn encode_metric_fields(fields: &Vec<(String, u64)>) -> (payload: Result<Vec<u8>, ProtocolError>)
    ensures
        ({
            let view = ResponseView::Stats(stats_view(fields@));
            match payload {
                Ok(payload) => view.encodable() && payload@ == view.payload(),
                Err(error) => !view.encodable() && error == ProtocolError::IntegerOverflow,
            }
        }),
{
    let ghost view = stats_view(fields@);
    if fields.len() > u16::MAX as usize {
        return Err(ProtocolError::IntegerOverflow);
    }
    let mut payload: Vec<u8> = Vec::new();
    put_u16(&mut payload, fields.len() as u16);
    assert(view.skip(0) =~= view);
    for index in 0..fields.len()
        invariant
            view == stats_view(fields@),
            payload@ + stats_run(view.skip(index as int)) == be16(fields@.len() as u16) + stats_run(
                view,
            ),
            forall|i: int|
                #![trigger view[i]]
                0 <= i < index ==> encode_utf8(view[i].0).len() <= u16::MAX,
    {
        let (name, value) = &fields[index];
        let ghost field = view[index as int];
        let ghost before = payload@;
        assert(field == (name@, *value));
        match put_name(&mut payload, name) {
            Ok(_) => {},
            Err(error) => return Err(error),
        }
        put_u64(&mut payload, *value);
        proof {
            let rest = view.skip(index as int);
            assert(rest.skip(1) =~= view.skip(index + 1));
            assert(payload@ =~= before + stats_field(field));
            assert(payload@ + stats_run(rest.skip(1)) =~= before + stats_run(rest));
        }
    }
    assert(view.skip(fields@.len() as int) =~= seq![]);
    assert(payload@ =~= payload@ + stats_run(seq![]));
    Ok(payload)
}

fn decode_string_fields(payload: &[u8]) -> (fields: Result<Vec<(String, String)>, ProtocolError>)
    ensures
        match fields {
            Ok(fields) => info_of(payload@) == Ok::<
                Seq<(Seq<char>, Seq<char>)>,
                ProtocolError,
            >(info_view(fields@)),
            Err(error) => info_of(payload@) == Err::<
                Seq<(Seq<char>, Seq<char>)>,
                ProtocolError,
            >(error),
        },
{
    let mut cursor: Cursor = Cursor::new(payload);
    let count: usize = match cursor.u16() {
        Ok(count) => count as usize,
        Err(error) => return Err(error),
    };
    let mut fields: Vec<(String, String)> = Vec::with_capacity(count);
    assert(info_view(fields@) =~= seq![]);
    proof {
        if let Ok((found, end)) = info_at(payload@, 2, count as nat) {
            assert(seq![] + found =~= found);
        }
    }
    for index in 0..count
        invariant
            cursor.valid(),
            cursor.payload@ == payload@,
            u16_field(payload@, 0) == Ok::<u16, ProtocolError>(count as u16),
            count <= u16::MAX,
            info_at(payload@, 2, count as nat) == (match info_at(
                payload@,
                cursor.position as int,
                (count - index) as nat,
            ) {
                Err(error) => Err(error),
                Ok((rest, end)) => Ok((info_view(fields@) + rest, end)),
            }),
    {
        let ghost position = cursor.position as int;
        let ghost before = info_view(fields@);
        let name: String = match cursor.string_u16() {
            Ok(name) => name,
            Err(error) => return Err(error),
        };
        let value: String = match cursor.string_u32() {
            Ok(value) => value,
            Err(error) => return Err(error),
        };
        let ghost pair = (name@, value@);
        fields.push((name, value));
        proof {
            assert(info_view(fields@) =~= before.push(pair));
            if let Ok((rest, end)) = info_at(
                payload@,
                cursor.position as int,
                (count - index - 1) as nat,
            ) {
                assert(before + (seq![pair] + rest) =~= info_view(fields@) + rest);
            }
        }
    }
    assert(info_view(fields@) + seq![] =~= info_view(fields@));
    match cursor.finish() {
        Ok(_) => Ok(fields),
        Err(error) => Err(error),
    }
}

fn decode_metric_fields(payload: &[u8]) -> (fields: Result<Vec<(String, u64)>, ProtocolError>)
    ensures
        match fields {
            Ok(fields) => stats_of(payload@) == Ok::<Seq<(Seq<char>, u64)>, ProtocolError>(
                stats_view(fields@),
            ),
            Err(error) => stats_of(payload@) == Err::<Seq<(Seq<char>, u64)>, ProtocolError>(error),
        },
{
    let mut cursor: Cursor = Cursor::new(payload);
    let count: usize = match cursor.u16() {
        Ok(count) => count as usize,
        Err(error) => return Err(error),
    };
    let mut fields: Vec<(String, u64)> = Vec::with_capacity(count);
    assert(stats_view(fields@) =~= seq![]);
    proof {
        if let Ok((found, end)) = stats_at(payload@, 2, count as nat) {
            assert(seq![] + found =~= found);
        }
    }
    for index in 0..count
        invariant
            cursor.valid(),
            cursor.payload@ == payload@,
            u16_field(payload@, 0) == Ok::<u16, ProtocolError>(count as u16),
            count <= u16::MAX,
            stats_at(payload@, 2, count as nat) == (match stats_at(
                payload@,
                cursor.position as int,
                (count - index) as nat,
            ) {
                Err(error) => Err(error),
                Ok((rest, end)) => Ok((stats_view(fields@) + rest, end)),
            }),
    {
        let ghost before = stats_view(fields@);
        let name: String = match cursor.string_u16() {
            Ok(name) => name,
            Err(error) => return Err(error),
        };
        let value: u64 = match cursor.u64() {
            Ok(value) => value,
            Err(error) => return Err(error),
        };
        let ghost pair = (name@, value);
        fields.push((name, value));
        proof {
            assert(stats_view(fields@) =~= before.push(pair));
            if let Ok((rest, end)) = stats_at(
                payload@,
                cursor.position as int,
                (count - index - 1) as nat,
            ) {
                assert(before + (seq![pair] + rest) =~= stats_view(fields@) + rest);
            }
        }
    }
    assert(stats_view(fields@) + seq![] =~= stats_view(fields@));
    match cursor.finish() {
        Ok(_) => Ok(fields),
        Err(error) => Err(error),
    }
}

proof fn lemma_name_field(payload: Seq<u8>, position: int, name: Seq<char>, rest: Seq<u8>)
    requires
        0 <= position,
        payload.len() <= usize::MAX,
        encode_utf8(name).len() <= u16::MAX,
        payload.skip(position) == sized16(encode_utf8(name)) + rest,
        position <= payload.len(),
    ensures
        name_field(payload, position) == Ok::<(Seq<char>, int), ProtocolError>(
            (name, position + 2 + encode_utf8(name).len()),
        ),
        payload.skip(position + 2 + encode_utf8(name).len() as int) == rest,
        position + 2 + encode_utf8(name).len() <= payload.len(),
{
    broadcast use crate::wire::group_wire;
    broadcast use vstd::utf8::encode_utf8_valid_utf8;
    broadcast use vstd::utf8::encode_utf8_decode_utf8;

    let bytes = encode_utf8(name);
    let tail = payload.skip(position);
    assert(tail.len() == 2 + bytes.len() + rest.len());
    assert(payload.subrange(position, position + 2) =~= tail.take(2));
    assert(tail.take(2) =~= be16(bytes.len() as u16));
    assert(payload.subrange(position + 2, position + 2 + bytes.len()) =~= tail.subrange(
        2,
        2 + bytes.len() as int,
    ));
    assert(tail.subrange(2, 2 + bytes.len() as int) =~= bytes);
    assert(payload.skip(position + 2 + bytes.len() as int) =~= tail.skip(2 + bytes.len() as int));
    assert(tail.skip(2 + bytes.len() as int) =~= rest);
}

proof fn lemma_text_field(payload: Seq<u8>, position: int, text: Seq<char>, rest: Seq<u8>)
    requires
        0 <= position,
        payload.len() <= usize::MAX,
        encode_utf8(text).len() <= u32::MAX,
        payload.skip(position) == sized32(encode_utf8(text)) + rest,
        position <= payload.len(),
    ensures
        text_field(payload, position) == Ok::<(Seq<char>, int), ProtocolError>(
            (text, position + 4 + encode_utf8(text).len()),
        ),
        payload.skip(position + 4 + encode_utf8(text).len() as int) == rest,
        position + 4 + encode_utf8(text).len() <= payload.len(),
{
    broadcast use crate::wire::group_wire;
    broadcast use vstd::utf8::encode_utf8_valid_utf8;
    broadcast use vstd::utf8::encode_utf8_decode_utf8;

    let bytes = encode_utf8(text);
    let tail = payload.skip(position);
    assert(tail.len() == 4 + bytes.len() + rest.len());
    assert(payload.subrange(position, position + 4) =~= tail.take(4));
    assert(tail.take(4) =~= be32(bytes.len() as u32));
    assert(payload.subrange(position + 4, position + 4 + bytes.len()) =~= tail.subrange(
        4,
        4 + bytes.len() as int,
    ));
    assert(tail.subrange(4, 4 + bytes.len() as int) =~= bytes);
    assert(payload.skip(position + 4 + bytes.len() as int) =~= tail.skip(4 + bytes.len() as int));
    assert(tail.skip(4 + bytes.len() as int) =~= rest);
}

proof fn lemma_info_at(payload: Seq<u8>, position: int, fields: Seq<(Seq<char>, Seq<char>)>)
    requires
        0 <= position <= payload.len(),
        payload.len() <= usize::MAX,
        ResponseView::Info(fields).encodable(),
        payload.skip(position) == info_run(fields),
    ensures
        info_at(payload, position, fields.len()) == Ok::<
            (Seq<(Seq<char>, Seq<char>)>, int),
            ProtocolError,
        >((fields, payload.len() as int)),
    decreases fields.len(),
{
    if fields.len() == 0 {
        assert(payload.skip(position).len() == 0);
        assert(fields =~= seq![]);
    } else {
        let (name, value) = fields[0];
        let rest = fields.skip(1);
        assert(payload.skip(position) =~= sized16(encode_utf8(name)) + (sized32(encode_utf8(value))
            + info_run(rest)));
        lemma_name_field(
            payload,
            position,
            name,
            sized32(encode_utf8(value)) + info_run(rest),
        );
        let middle = position + 2 + encode_utf8(name).len() as int;
        lemma_text_field(payload, middle, value, info_run(rest));
        assert forall|i: int| #![trigger rest[i]] 0 <= i < rest.len() implies encode_utf8(
            rest[i].0,
        ).len() <= u16::MAX && encode_utf8(rest[i].1).len() <= u32::MAX by {
            assert(rest[i] == fields[i + 1]);
        }
        lemma_info_at(payload, middle + 4 + encode_utf8(value).len() as int, rest);
        assert(seq![(name, value)] + rest =~= fields);
    }
}

proof fn lemma_stats_at(payload: Seq<u8>, position: int, fields: Seq<(Seq<char>, u64)>)
    requires
        0 <= position <= payload.len(),
        payload.len() <= usize::MAX,
        ResponseView::Stats(fields).encodable(),
        payload.skip(position) == stats_run(fields),
    ensures
        stats_at(payload, position, fields.len()) == Ok::<
            (Seq<(Seq<char>, u64)>, int),
            ProtocolError,
        >((fields, payload.len() as int)),
    decreases fields.len(),
{
    broadcast use crate::wire::group_wire;

    if fields.len() == 0 {
        assert(payload.skip(position).len() == 0);
        assert(fields =~= seq![]);
    } else {
        let (name, value) = fields[0];
        let rest = fields.skip(1);
        assert(payload.skip(position) =~= sized16(encode_utf8(name)) + (be64(value) + stats_run(
            rest,
        )));
        lemma_name_field(payload, position, name, be64(value) + stats_run(rest));
        let middle = position + 2 + encode_utf8(name).len() as int;
        let tail = payload.skip(middle);
        assert(tail.len() == 8 + stats_run(rest).len());
        assert(payload.subrange(middle, middle + 8) =~= tail.take(8));
        assert(tail.take(8) =~= be64(value));
        assert(payload.skip(middle + 8) =~= tail.skip(8));
        assert(tail.skip(8) =~= stats_run(rest));
        assert forall|i: int| #![trigger rest[i]] 0 <= i < rest.len() implies encode_utf8(
            rest[i].0,
        ).len() <= u16::MAX by {
            assert(rest[i] == fields[i + 1]);
        }
        lemma_stats_at(payload, middle + 8, rest);
        assert(seq![(name, value)] + rest =~= fields);
    }
}

proof fn lemma_value_of(value: Seq<u8>)
    requires
        fits32(value.len()),
    ensures
        value_of(sized32(value)) == Ok::<Seq<u8>, ProtocolError>(value),
{
    broadcast use crate::wire::group_wire;

    assert(sized32(value).take(4) =~= be32(value.len() as u32));
    assert(sized32(value).skip(4) =~= value);
}

proof fn lemma_text_of(text: Seq<char>)
    requires
        fits32(encode_utf8(text).len()),
    ensures
        text_of(sized32(encode_utf8(text))) == Ok::<Seq<char>, ProtocolError>(text),
{
    broadcast use vstd::utf8::encode_utf8_valid_utf8;
    broadcast use vstd::utf8::encode_utf8_decode_utf8;

    lemma_value_of(encode_utf8(text));
}

/// Every answer that can be framed is read back from its frame.
pub proof fn law_response_round_trip(response: ResponseView)
    requires
        response.encodable(),
        response.payload().len() <= usize::MAX,
    ensures
        response_of(response.frame()) == Ok::<ResponseView, ProtocolError>(response),
{
    broadcast use crate::wire::group_wire;

    let payload = response.payload();
    match response {
        ResponseView::InvalidRequest(text) => lemma_text_of(text),
        ResponseView::ServerError(text) => lemma_text_of(text),
        ResponseView::Redirect(text) => lemma_text_of(text),
        ResponseView::Value(value) => lemma_value_of(value),
        ResponseView::Integer(value) => {
            assert(value as u64 as i64 == value) by (bit_vector);
        },
        ResponseView::Info(fields) => {
            assert(payload.subrange(0, 2) =~= be16(fields.len() as u16));
            assert(payload.skip(2) =~= info_run(fields));
            lemma_info_at(payload, 2, fields);
        },
        ResponseView::Stats(fields) => {
            assert(payload.subrange(0, 2) =~= be16(fields.len() as u16));
            assert(payload.skip(2) =~= stats_run(fields));
            lemma_stats_at(payload, 2, fields);
        },
        _ => {},
    }
}

proof fn lemma_read_name(payload: Seq<u8>, position: int)
    requires
        0 <= position <= payload.len(),
        name_field(payload, position) is Ok,
    ensures
        ({
            let (name, end) = name_field(payload, position)->Ok_0;
            &&& position <= end <= payload.len()
            &&& encode_utf8(name).len() <= u16::MAX
            &&& payload.subrange(position, end) == sized16(encode_utf8(name))
        }),
{
    broadcast use vstd::utf8::decode_utf8_encode_utf8;

    let (name, end) = name_field(payload, position)->Ok_0;
    let bytes = payload.subrange(position + 2, end);
    crate::wire::lemma_un16(payload.subrange(position, position + 2));
    assert(encode_utf8(name) == bytes);
    assert(payload.subrange(position, end) =~= payload.subrange(position, position + 2) + bytes);
}

proof fn lemma_read_text(payload: Seq<u8>, position: int)
    requires
        0 <= position <= payload.len(),
        text_field(payload, position) is Ok,
    ensures
        ({
            let (text, end) = text_field(payload, position)->Ok_0;
            &&& position <= end <= payload.len()
            &&& encode_utf8(text).len() <= u32::MAX
            &&& payload.subrange(position, end) == sized32(encode_utf8(text))
        }),
{
    broadcast use vstd::utf8::decode_utf8_encode_utf8;

    let (text, end) = text_field(payload, position)->Ok_0;
    let bytes = payload.subrange(position + 4, end);
    crate::wire::lemma_un32(payload.subrange(position, position + 4));
    assert(encode_utf8(text) == bytes);
    assert(payload.subrange(position, end) =~= payload.subrange(position, position + 4) + bytes);
}

proof fn lemma_read_info(payload: Seq<u8>, position: int, count: nat)
    requires
        0 <= position <= payload.len(),
        info_at(payload, position, count) is Ok,
    ensures
        ({
            let (fields, end) = info_at(payload, position, count)->Ok_0;
            &&& fields.len() == count
            &&& position <= end <= payload.len()
            &&& payload.subrange(position, end) == info_run(fields)
            &&& forall|i: int|
                #![trigger fields[i]]
                0 <= i < fields.len() ==> encode_utf8(fields[i].0).len() <= u16::MAX && encode_utf8(
                    fields[i].1,
                ).len() <= u32::MAX
        }),
    decreases count,
{
    let (fields, end) = info_at(payload, position, count)->Ok_0;
    if count == 0 {
        assert(payload.subrange(position, end) =~= info_run(fields));
    } else {
        let (name, middle) = name_field(payload, position)->Ok_0;
        lemma_read_name(payload, position);
        let (value, after) = text_field(payload, middle)->Ok_0;
        lemma_read_text(payload, middle);
        lemma_read_info(payload, after, (count - 1) as nat);
        let rest = info_at(payload, after, (count - 1) as nat)->Ok_0.0;
        assert(fields.skip(1) =~= rest);
        assert(payload.subrange(position, end) =~= payload.subrange(position, middle)
            + payload.subrange(middle, after) + payload.subrange(after, end));
        assert forall|i: int| #![trigger fields[i]] 0 <= i < fields.len() implies encode_utf8(
            fields[i].0,
        ).len() <= u16::MAX && encode_utf8(fields[i].1).len() <= u32::MAX by {
            if i > 0 {
                assert(fields[i] == rest[i - 1]);
            }
        }
    }
}

proof fn lemma_read_stats(payload: Seq<u8>, position: int, count: nat)
    requires
        0 <= position <= payload.len(),
        stats_at(payload, position, count) is Ok,
    ensures
        ({
            let (fields, end) = stats_at(payload, position, count)->Ok_0;
            &&& fields.len() == count
            &&& position <= end <= payload.len()
            &&& payload.subrange(position, end) == stats_run(fields)
            &&& forall|i: int|
                #![trigger fields[i]]
                0 <= i < fields.len() ==> encode_utf8(fields[i].0).len() <= u16::MAX
        }),
    decreases count,
{
    let (fields, end) = stats_at(payload, position, count)->Ok_0;
    if count == 0 {
        assert(payload.subrange(position, end) =~= stats_run(fields));
    } else {
        let (name, middle) = name_field(payload, position)->Ok_0;
        lemma_read_name(payload, position);
        let after = middle + 8;
        crate::wire::lemma_un64(payload.subrange(middle, after));
        lemma_read_stats(payload, after, (count - 1) as nat);
        let rest = stats_at(payload, after, (count - 1) as nat)->Ok_0.0;
        assert(fields.skip(1) =~= rest);
        assert(payload.subrange(position, end) =~= payload.subrange(position, middle)
            + payload.subrange(middle, after) + payload.subrange(after, end));
        assert forall|i: int| #![trigger fields[i]] 0 <= i < fields.len() implies encode_utf8(
            fields[i].0,
        ).len() <= u16::MAX by {
            if i > 0 {
                assert(fields[i] == rest[i - 1]);
            }
        }
    }
}

proof fn lemma_read_value(payload: Seq<u8>)
    requires
        value_of(payload) is Ok,
    ensures
        fits32(value_of(payload)->Ok_0.len()),
        sized32(value_of(payload)->Ok_0) == payload,
{
    crate::wire::lemma_un32(payload.take(4));
    assert(sized32(payload.skip(4)) =~= payload);
}

proof fn lemma_read_message(payload: Seq<u8>)
    requires
        text_of(payload) is Ok,
    ensures
        fits32(encode_utf8(text_of(payload)->Ok_0).len()),
        sized32(encode_utf8(text_of(payload)->Ok_0)) == payload,
{
    broadcast use vstd::utf8::decode_utf8_encode_utf8;

    lemma_read_value(payload);
}

/// Every frame that is read as an answer is the frame of that answer: no two frames carry the same
/// answer.
pub proof fn law_response_frames_are_canonical(frame: FrameView)
    requires
        response_of(frame) is Ok,
    ensures
        response_of(frame)->Ok_0.encodable(),
        response_of(frame)->Ok_0.frame() == frame,
{
    let response = response_of(frame)->Ok_0;
    let payload = frame.payload;
    match response {
        ResponseView::InvalidRequest(_) => lemma_read_message(payload),
        ResponseView::ServerError(_) => lemma_read_message(payload),
        ResponseView::Redirect(_) => lemma_read_message(payload),
        ResponseView::Value(_) => lemma_read_value(payload),
        ResponseView::Integer(_) => {
            let value = un64(payload);
            assert(value as i64 as u64 == value) by (bit_vector);
            crate::wire::lemma_un64(payload);
        },
        ResponseView::Info(fields) => {
            let count = payload.subrange(0, 2);
            crate::wire::lemma_un16(count);
            lemma_read_info(payload, 2, un16(count) as nat);
            assert(payload =~= count + payload.subrange(2, payload.len() as int));
        },
        ResponseView::Stats(fields) => {
            let count = payload.subrange(0, 2);
            crate::wire::lemma_un16(count);
            lemma_read_stats(payload, 2, un16(count) as nat);
            assert(payload =~= count + payload.subrange(2, payload.len() as int));
        },
        _ => {},
    }
    assert(response.frame().payload =~= payload);
}

/// How answers are laid out: the code of the status, then a text or a value behind its length in
/// four bytes, a number in eight bytes, or fields behind their count in two bytes. The name of a
/// field stands behind its length in two bytes.
pub proof fn law_responses_have_their_layout(
    text: Seq<char>,
    value: Seq<u8>,
    number: i64,
    fields: Seq<(Seq<char>, Seq<char>)>,
    counters: Seq<(Seq<char>, u64)>,
)
    ensures
        ({
            let message = be32(encode_utf8(text).len() as u32) + encode_utf8(text);
            let is = |response: ResponseView, code: u8, payload: Seq<u8>|
                response.frame().version == 1 && response.frame().code == code
                    && response.frame().payload == payload;
            &&& is(ResponseView::Success, 0, seq![])
            &&& is(ResponseView::NotFound, 1, seq![])
            &&& is(ResponseView::InvalidRequest(text), 2, message)
            &&& is(ResponseView::ServerError(text), 3, message)
            &&& is(ResponseView::Pong, 4, seq![])
            &&& is(ResponseView::Value(value), 5, be32(value.len() as u32) + value)
            &&& is(ResponseView::Integer(number), 6, be64(number as u64))
            &&& is(ResponseView::Redirect(text), 9, message)
            &&& is(
                ResponseView::Info(fields),
                7,
                be16(fields.len() as u16) + info_run(fields),
            )
            &&& is(
                ResponseView::Stats(counters),
                8,
                be16(counters.len() as u16) + stats_run(counters),
            )
        }),
        fields.len() > 0 ==> info_run(fields) == be16(encode_utf8(fields[0].0).len() as u16)
            + encode_utf8(fields[0].0) + (be32(encode_utf8(fields[0].1).len() as u32) + encode_utf8(
            fields[0].1,
        )) + info_run(fields.skip(1)),
        counters.len() > 0 ==> stats_run(counters) == be16(encode_utf8(counters[0].0).len() as u16)
            + encode_utf8(counters[0].0) + be64(counters[0].1) + stats_run(counters.skip(1)),
{
}

} // verus!
