//! Reading a payload from front to back, never past its end.

use vstd::prelude::*;
use vstd::slice::{slice_subrange, slice_to_vec};
use vstd::utf8::{decode_utf8, valid_utf8};

use crate::error::ProtocolError;
use crate::text::from_utf8;
use crate::wire::{u16_at, u32_at, u64_at, un16, un32, un64};

verus! {

/// The `length` bytes of the payload from `position` on.
pub open spec fn run(payload: Seq<u8>, position: int, length: int) -> Result<
    Seq<u8>,
    ProtocolError,
> {
    if position + length > usize::MAX {
        Err(ProtocolError::IntegerOverflow)
    } else if position + length > payload.len() {
        Err(ProtocolError::Truncated)
    } else {
        Ok(payload.subrange(position, position + length))
    }
}

/// The two-byte integer at `position`.
pub open spec fn u16_field(payload: Seq<u8>, position: int) -> Result<u16, ProtocolError> {
    match run(payload, position, 2) {
        Ok(bytes) => Ok(un16(bytes)),
        Err(error) => Err(error),
    }
}

/// The four-byte integer at `position`.
pub open spec fn u32_field(payload: Seq<u8>, position: int) -> Result<u32, ProtocolError> {
    match run(payload, position, 4) {
        Ok(bytes) => Ok(un32(bytes)),
        Err(error) => Err(error),
    }
}

/// The eight-byte integer at `position`.
pub open spec fn u64_field(payload: Seq<u8>, position: int) -> Result<u64, ProtocolError> {
    match run(payload, position, 8) {
        Ok(bytes) => Ok(un64(bytes)),
        Err(error) => Err(error),
    }
}

/// The text that bytes spell, or the error `reason` where they are not UTF-8.
pub open spec fn spelled(bytes: Seq<u8>, reason: &'static str) -> Result<
    Seq<char>,
    ProtocolError,
> {
    if valid_utf8(bytes) {
        Ok(decode_utf8(bytes))
    } else {
        Err(ProtocolError::InvalidPayload(reason))
    }
}

/// The text at `position` behind a two-byte length, and the position after it.
pub open spec fn name_field(payload: Seq<u8>, position: int) -> Result<
    (Seq<char>, int),
    ProtocolError,
> {
    match u16_field(payload, position) {
        Err(error) => Err(error),
        Ok(length) => match run(payload, position + 2, length as int) {
            Err(error) => Err(error),
            Ok(bytes) => match spelled(bytes, "field name is not valid UTF-8") {
                Err(error) => Err(error),
                Ok(text) => Ok((text, position + 2 + length)),
            },
        },
    }
}

/// The text at `position` behind a four-byte length, and the position after it.
pub open spec fn text_field(payload: Seq<u8>, position: int) -> Result<
    (Seq<char>, int),
    ProtocolError,
> {
    match u32_field(payload, position) {
        Err(error) => Err(error),
        Ok(length) => match run(payload, position + 4, length as int) {
            Err(error) => Err(error),
            Ok(bytes) => match spelled(bytes, "field value is not valid UTF-8") {
                Err(error) => Err(error),
                Ok(text) => Ok((text, position + 4 + length)),
            },
        },
    }
}

/// A payload and how far it was read.
pub struct Cursor<'a> {
    pub payload: &'a [u8],
    pub position: usize,
}

impl<'a> Cursor<'a> {
    /// The cursor never stands behind the payload's end.
    pub open spec fn valid(self) -> bool {
        self.position <= self.payload@.len()
    }

    /// A cursor at the start of a payload.
    pub fn new(payload: &'a [u8]) -> (cursor: Self)
        ensures
            cursor.valid(),
            cursor.payload@ == payload@,
            cursor.position == 0,
    {
        Self { payload, position: 0 }
    }

    /// Takes the next `length` bytes. The cursor stays where it is when they are not there.
    pub fn take(&mut self, length: usize) -> (bytes: Result<&'a [u8], ProtocolError>)
        requires
            old(self).valid(),
        ensures
            final(self).valid(),
            final(self).payload@ == old(self).payload@,
            match run(old(self).payload@, old(self).position as int, length as int) {
                Ok(expected) => bytes is Ok && bytes->Ok_0@ == expected && final(self).position
                    == old(self).position + length,
                Err(error) => bytes == Err::<&'a [u8], ProtocolError>(error)
                    && final(self).position == old(self).position,
            },
    {
        let end: usize = match self.position.checked_add(length) {
            Some(end) => end,
            None => return Err(ProtocolError::IntegerOverflow),
        };
        if end > self.payload.len() {
            return Err(ProtocolError::Truncated);
        }
        let bytes: &'a [u8] = slice_subrange(self.payload, self.position, end);
        self.position = end;
        Ok(bytes)
    }

    /// Takes a two-byte integer.
    pub fn u16(&mut self) -> (value: Result<u16, ProtocolError>)
        requires
            old(self).valid(),
        ensures
            final(self).valid(),
            final(self).payload@ == old(self).payload@,
            value == u16_field(old(self).payload@, old(self).position as int),
            value is Ok ==> final(self).position == old(self).position + 2,
    {
        match self.take(2) {
            Ok(bytes) => {
                assert(bytes@.subrange(0, 2) =~= bytes@);
                Ok(u16_at(bytes, 0))
            },
            Err(error) => Err(error),
        }
    }

    /// Takes a four-byte integer.
    pub fn u32(&mut self) -> (value: Result<u32, ProtocolError>)
        requires
            old(self).valid(),
        ensures
            final(self).valid(),
            final(self).payload@ == old(self).payload@,
            value == u32_field(old(self).payload@, old(self).position as int),
            value is Ok ==> final(self).position == old(self).position + 4,
    {
        match self.take(4) {
            Ok(bytes) => {
                assert(bytes@.subrange(0, 4) =~= bytes@);
                Ok(u32_at(bytes, 0))
            },
            Err(error) => Err(error),
        }
    }

    /// Takes an eight-byte integer.
    pub fn u64(&mut self) -> (value: Result<u64, ProtocolError>)
        requires
            old(self).valid(),
        ensures
            final(self).valid(),
            final(self).payload@ == old(self).payload@,
            value == u64_field(old(self).payload@, old(self).position as int),
            value is Ok ==> final(self).position == old(self).position + 8,
    {
        match self.take(8) {
            Ok(bytes) => {
                assert(bytes@.subrange(0, 8) =~= bytes@);
                Ok(u64_at(bytes, 0))
            },
            Err(error) => Err(error),
        }
    }

    /// Takes a text behind a two-byte length.
    pub fn string_u16(&mut self) -> (text: Result<String, ProtocolError>)
        requires
            old(self).valid(),
        ensures
            final(self).valid(),
            final(self).payload@ == old(self).payload@,
            match name_field(old(self).payload@, old(self).position as int) {
                Ok((expected, end)) => text is Ok && text->Ok_0@ == expected && final(self).position
                    == end,
                Err(error) => text == Err::<String, ProtocolError>(error),
            },
    {
        let length: usize = match self.u16() {
            Ok(length) => length as usize,
            Err(error) => return Err(error),
        };
        let bytes: &[u8] = match self.take(length) {
            Ok(bytes) => bytes,
            Err(error) => return Err(error),
        };
        match from_utf8(slice_to_vec(bytes)) {
            Some(text) => Ok(text),
            None => Err(ProtocolError::InvalidPayload("field name is not valid UTF-8")),
        }
    }

    /// Takes a text behind a four-byte length.
    pub fn string_u32(&mut self) -> (text: Result<String, ProtocolError>)
        requires
            old(self).valid(),
        ensures
            final(self).valid(),
            final(self).payload@ == old(self).payload@,
            match text_field(old(self).payload@, old(self).position as int) {
                Ok((expected, end)) => text is Ok && text->Ok_0@ == expected && final(self).position
                    == end,
                Err(error) => text == Err::<String, ProtocolError>(error),
            },
    {
        let length: usize = match self.u32() {
            Ok(length) => length as usize,
            Err(error) => return Err(error),
        };
        let bytes: &[u8] = match self.take(length) {
            Ok(bytes) => bytes,
            Err(error) => return Err(error),
        };
        match from_utf8(slice_to_vec(bytes)) {
            Some(text) => Ok(text),
            None => Err(ProtocolError::InvalidPayload("field value is not valid UTF-8")),
        }
    }

    /// Succeeds when the whole payload was read.
    pub fn finish(&self) -> (finished: Result<(), ProtocolError>)
        ensures
            finished == (if self.position == self.payload@.len() {
                Ok(())
            } else {
                Err(ProtocolError::InvalidPayload("trailing payload bytes"))
            }),
    {
        if self.position == self.payload.len() {
            Ok(())
        } else {
            Err(ProtocolError::InvalidPayload("trailing payload bytes"))
        }
    }
}

} // verus!
