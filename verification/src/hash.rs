//! The FNV-1a hash.

use vstd::prelude::*;

verus! {

/// The hash of no bytes.
pub const FNV_OFFSET_BASIS: u64 = 0xcbf2_9ce4_8422_2325;

/// The factor of each step.
pub const FNV_PRIME: u64 = 0x0000_0100_0000_01b3;

/// The 64-bit FNV-1a hash of bytes: each byte is mixed in with an exclusive or and a
/// multiplication.
pub open spec fn fnv1a_of(bytes: Seq<u8>) -> u64
    decreases bytes.len(),
{
    if bytes.len() == 0 {
        FNV_OFFSET_BASIS
    } else {
        (fnv1a_of(bytes.drop_last()) ^ (bytes.last() as u64)).wrapping_mul(FNV_PRIME)
    }
}

/// The 64-bit FNV-1a hash of bytes.
pub fn fnv1a(bytes: &[u8]) -> (hash: u64)
    ensures
        hash == fnv1a_of(bytes@),
{
    let mut hash: u64 = FNV_OFFSET_BASIS;
    for index in 0..bytes.len()
        invariant
            hash == fnv1a_of(bytes@.take(index as int)),
    {
        assert(bytes@.take(index + 1).drop_last() =~= bytes@.take(index as int));
        hash = (hash ^ (bytes[index] as u64)).wrapping_mul(FNV_PRIME);
    }
    assert(bytes@.take(bytes@.len() as int) =~= bytes@);
    hash
}

/// A byte more multiplies the exclusive or of the hash and the byte by the FNV prime, modulo the
/// sixty-fourth power of two. The hash of no bytes is the offset basis.
pub proof fn law_hash_takes_byte_by_byte(bytes: Seq<u8>, byte: u8)
    ensures
        fnv1a_of(seq![]) == 14_695_981_039_346_656_037,
        fnv1a_of(bytes.push(byte)) == (((fnv1a_of(bytes) ^ byte as u64) * 1_099_511_628_211)
            % 0x1_0000_0000_0000_0000) as u64,
{
    assert(bytes.push(byte).drop_last() =~= bytes);
}

} // verus!
