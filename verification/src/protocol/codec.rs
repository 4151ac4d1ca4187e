//! Frames on a byte stream.

use vstd::prelude::*;

use crate::buffer::from_slice;
use crate::error::ProtocolError;
use crate::protocol::frame::{encode_error, Frame, FrameView, ProtocolLimits, PROTOCOL_VERSION};
use crate::wire::{u32_at, un32};

verus! {

/// The size of a frame's length field.
pub const LENGTH_SIZE: usize = 4;

/// The body length that a length field announces, if a receiver with these limits accepts it.
pub open spec fn announced_length(field: Seq<u8>, limits: ProtocolLimits) -> Result<
    usize,
    ProtocolError,
> {
    let length = un32(field) as usize;
    if length < 2 {
        Err(ProtocolError::FrameTooSmall { actual: length, minimum: 2 })
    } else if length > limits.max_frame_size {
        Err(ProtocolError::FrameTooLarge { actual: length, maximum: limits.max_frame_size })
    } else {
        Ok(length)
    }
}

/// The body length that a length field announces. A receiver asks this before it makes room for
/// the body.
pub fn frame_length(field: &[u8], limits: ProtocolLimits) -> (length: Result<usize, ProtocolError>)
    requires
        field@.len() == LENGTH_SIZE,
    ensures
        length == announced_length(field@, limits),
        length is Ok ==> 2 <= length->Ok_0 <= limits.max_frame_size,
{
    let length: usize = u32_at(field, 0) as usize;
    assert(field@.subrange(0, 4) =~= field@);
    if length < 2 {
        return Err(ProtocolError::FrameTooSmall { actual: length, minimum: 2 });
    }
    if length > limits.max_frame_size {
        return Err(
            ProtocolError::FrameTooLarge { actual: length, maximum: limits.max_frame_size },
        );
    }
    Ok(length)
}

/// The message that a body holds, if its version is the one that this crate speaks.
pub open spec fn framed(body: Seq<u8>) -> Result<FrameView, ProtocolError> {
    if body[0] != PROTOCOL_VERSION {
        Err(ProtocolError::UnsupportedVersion(body[0]))
    } else {
        Ok(FrameView { version: body[0], code: body[1], payload: body.skip(2) })
    }
}

/// Reads the message that a body holds.
pub fn frame_from_body(body: &[u8]) -> (frame: Result<Frame, ProtocolError>)
    requires
        body@.len() >= 2,
    ensures
        match frame {
            Ok(frame) => framed(body@) == Ok::<FrameView, ProtocolError>(frame@),
            Err(error) => framed(body@) == Err::<FrameView, ProtocolError>(error),
        },
{
    let version: u8 = body[0];
    if version != PROTOCOL_VERSION {
        return Err(ProtocolError::UnsupportedVersion(version));
    }
    let payload: &[u8] = vstd::slice::slice_subrange(body, 2, body.len());
    assert(payload@ =~= body@.skip(2));
    Ok(Frame { version, code: body[1], payload: from_slice(payload) })
}

/// What a stream that ends after `bytes` gives to a reader: nothing when it ended before a frame,
/// or the first frame and the bytes that it took.
pub open spec fn first_frame(bytes: Seq<u8>, limits: ProtocolLimits) -> Result<
    Option<(FrameView, nat)>,
    ProtocolError,
> {
    if bytes.len() == 0 {
        Ok(None)
    } else if bytes.len() < 4 {
        Err(ProtocolError::Truncated)
    } else {
        match announced_length(bytes.take(4), limits) {
            Err(error) => Err(error),
            Ok(length) => if bytes.len() < 4 + length {
                Err(ProtocolError::Truncated)
            } else {
                match framed(bytes.subrange(4, 4 + length)) {
                    Err(error) => Err(error),
                    Ok(frame) => Ok(Some((frame, (4 + length) as nat))),
                }
            },
        }
    }
}

/// Reads the first frame of a stream that ends after `bytes`, and says how many bytes it took.
pub fn read_frame(bytes: &[u8], limits: ProtocolLimits) -> (frame: Result<
    Option<(Frame, usize)>,
    ProtocolError,
>)
    ensures
        match frame {
            Ok(None) => first_frame(bytes@, limits) == Ok::<
                Option<(FrameView, nat)>,
                ProtocolError,
            >(None),
            Ok(Some((frame, used))) => first_frame(bytes@, limits) == Ok::<
                Option<(FrameView, nat)>,
                ProtocolError,
            >(Some((frame@, used as nat))),
            Err(error) => first_frame(bytes@, limits) == Err::<
                Option<(FrameView, nat)>,
                ProtocolError,
            >(error),
        },
{
    if bytes.len() == 0 {
        return Ok(None);
    }
    if bytes.len() < LENGTH_SIZE {
        return Err(ProtocolError::Truncated);
    }
    let field: &[u8] = vstd::slice::slice_subrange(bytes, 0, LENGTH_SIZE);
    assert(field@ =~= bytes@.take(4));
    let length: usize = match frame_length(field, limits) {
        Ok(length) => length,
        Err(error) => return Err(error),
    };
    if bytes.len() - LENGTH_SIZE < length {
        return Err(ProtocolError::Truncated);
    }
    let body: &[u8] = vstd::slice::slice_subrange(bytes, LENGTH_SIZE, LENGTH_SIZE + length);
    match frame_from_body(body) {
        Ok(frame) => Ok(Some((frame, LENGTH_SIZE + length))),
        Err(error) => Err(error),
    }
}

/// A message that a peer accepts is read back from the start of any stream that begins with its
/// bytes, and reading stops exactly at its end.
pub proof fn law_frame_round_trip(frame: FrameView, limits: ProtocolLimits, rest: Seq<u8>)
    requires
        frame.version == PROTOCOL_VERSION,
        encode_error(frame.body().len(), limits) is None,
    ensures
        first_frame(frame.encoded() + rest, limits) == Ok::<Option<(FrameView, nat)>, ProtocolError>(
            Some((frame, frame.encoded().len())),
        ),
{
    broadcast use crate::wire::group_wire;

    let bytes = frame.encoded() + rest;
    let length = frame.body().len() as int;
    assert(bytes.take(4) =~= crate::wire::be32(length as u32));
    assert(bytes.subrange(4, 4 + length) =~= frame.body());
    assert(frame.body().skip(2) =~= frame.payload);
}

/// A message that was cut short, anywhere inside its bytes, is refused as truncated.
pub proof fn law_cut_frame_is_truncated(frame: FrameView, limits: ProtocolLimits, kept: int)
    requires
        encode_error(frame.body().len(), limits) is None,
        0 < kept < frame.encoded().len(),
    ensures
        first_frame(frame.encoded().take(kept), limits) == Err::<
            Option<(FrameView, nat)>,
            ProtocolError,
        >(ProtocolError::Truncated),
{
    broadcast use crate::wire::group_wire;

    let bytes = frame.encoded().take(kept);
    if kept >= 4 {
        assert(bytes.take(4) =~= crate::wire::be32(frame.body().len() as u32));
    }
}

/// The frames of a stream up to its end, or to the first thing that is no frame.
pub open spec fn frames_in(bytes: Seq<u8>, limits: ProtocolLimits) -> Seq<FrameView>
    decreases bytes.len(),
{
    match first_frame(bytes, limits) {
        Ok(Some((frame, used))) => if 0 < used <= bytes.len() {
            seq![frame] + frames_in(bytes.skip(used as int), limits)
        } else {
            seq![]
        },
        _ => seq![],
    }
}

/// The bytes of frames, one after another.
pub open spec fn stream_of(frames: Seq<FrameView>) -> Seq<u8>
    decreases frames.len(),
{
    if frames.len() == 0 {
        seq![]
    } else {
        frames[0].encoded() + stream_of(frames.skip(1))
    }
}

/// Messages that are written one after another, without waiting, are read in the same order, each
/// one whole.
pub proof fn law_streams_keep_their_order(frames: Seq<FrameView>, limits: ProtocolLimits)
    requires
        forall|i: int|
            #![trigger frames[i]]
            0 <= i < frames.len() ==> frames[i].version == PROTOCOL_VERSION && encode_error(
                frames[i].body().len(),
                limits,
            ) is None,
    ensures
        frames_in(stream_of(frames), limits) == frames,
    decreases frames.len(),
{
    if frames.len() > 0 {
        let rest = frames.skip(1);
        let bytes = stream_of(frames);
        let used = frames[0].encoded().len() as int;
        law_frame_round_trip(frames[0], limits, stream_of(rest));
        assert(bytes.skip(used) =~= stream_of(rest));
        assert forall|i: int| #![trigger rest[i]] 0 <= i < rest.len() implies rest[i].version
            == PROTOCOL_VERSION && encode_error(rest[i].body().len(), limits) is None by {
            assert(rest[i] == frames[i + 1]);
        }
        law_streams_keep_their_order(rest, limits);
        assert(seq![frames[0]] + rest =~= frames);
        assert(used > 0) by {
            broadcast use crate::wire::group_wire;

        }
    }
}

/// A frame is its length in four bytes, its version, its code and its payload. The length counts
/// what follows it.
pub proof fn law_frames_have_their_layout(frame: FrameView)
    requires
        frame.payload.len() + 2 <= u32::MAX,
    ensures
        frame.encoded() == crate::wire::be32((frame.payload.len() + 2) as u32) + seq![
            frame.version,
            frame.code,
        ] + frame.payload,
{
    assert(frame.body().len() == frame.payload.len() + 2);
    assert(frame.encoded() =~= crate::wire::be32((frame.payload.len() + 2) as u32) + seq![
        frame.version,
        frame.code,
    ] + frame.payload);
}

/// A frame is written, and a length is accepted, exactly where the body is not longer than the
/// limit. No frame is shorter than its version and its code.
pub proof fn law_frames_are_bounded(length: u32, limits: ProtocolLimits)
    requires
        length + 4 <= usize::MAX,
    ensures
        encode_error(length as nat, limits) is None <==> length <= limits.max_frame_size,
        length > limits.max_frame_size ==> encode_error(length as nat, limits) == Some(
            (ProtocolError::FrameTooLarge {
                actual: length as usize,
                maximum: limits.max_frame_size,
            }),
        ),
        announced_length(crate::wire::be32(length), limits) is Ok <==> 2 <= length
            <= limits.max_frame_size,
        announced_length(crate::wire::be32(length), limits) is Ok ==> announced_length(
            crate::wire::be32(length),
            limits,
        )->Ok_0 == length,
        length < 2 ==> announced_length(crate::wire::be32(length), limits) == Err::<
            usize,
            ProtocolError,
        >((ProtocolError::FrameTooSmall { actual: length as usize, minimum: 2 })),
        length >= 2 && length > limits.max_frame_size ==> announced_length(
            crate::wire::be32(length),
            limits,
        ) == Err::<usize, ProtocolError>(
            (ProtocolError::FrameTooLarge {
                actual: length as usize,
                maximum: limits.max_frame_size,
            }),
        ),
{
    broadcast use crate::wire::group_wire;
}

/// A stream that ends before a frame has none, and a body of another version is refused.
pub proof fn law_other_versions_are_refused(
    version: u8,
    code: u8,
    payload: Seq<u8>,
    limits: ProtocolLimits,
)
    ensures
        first_frame(seq![], limits) == Ok::<Option<(FrameView, nat)>, ProtocolError>(None),
        framed(seq![version, code] + payload) == (if version == 1 {
            Ok::<FrameView, ProtocolError>((FrameView { version, code, payload }))
        } else {
            Err(ProtocolError::UnsupportedVersion(version))
        }),
{
    assert((seq![version, code] + payload).skip(2) =~= payload);
}

} // verus!
