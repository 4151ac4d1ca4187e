//! Byte buffers of the `bytes` crate, and what the library relies on about them.

use bytes::Bytes;
use vstd::prelude::*;

verus! {

#[verifier::external_type_specification]
#[verifier::external_body]
pub struct ExBytes(bytes::Bytes);

/// The bytes that a buffer holds, in order.
pub uninterp spec fn contents(buffer: Bytes) -> Seq<u8>;

/// Calls `<Bytes as From<Vec<u8>>>::from`: the buffer takes over the vector and holds exactly
/// its bytes.
#[verifier::external_body]
pub(crate) fn from_vec(bytes: Vec<u8>) -> (buffer: Bytes)
    ensures
        contents(buffer) == bytes@,
{
    Bytes::from(bytes)
}

/// Calls `Bytes::copy_from_slice`: the buffer holds a copy of the slice.
#[verifier::external_body]
pub(crate) fn from_slice(bytes: &[u8]) -> (buffer: Bytes)
    ensures
        contents(buffer) == bytes@,
{
    Bytes::copy_from_slice(bytes)
}

/// Calls `<Bytes as AsRef<[u8]>>::as_ref`: the slice shows the bytes that the buffer holds.
#[verifier::external_body]
pub(crate) fn as_slice(buffer: &Bytes) -> (bytes: &[u8])
    ensures
        bytes@ == contents(*buffer),
{
    buffer.as_ref()
}

/// `<Bytes as Clone>::clone`: the new handle holds the same bytes.
pub assume_specification[ <bytes::Bytes as Clone>::clone ](buffer: &bytes::Bytes) -> (copy:
    bytes::Bytes)
    ensures
        contents(copy) == contents(*buffer),
;

} // verus!
