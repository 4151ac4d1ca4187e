//! Checksums of byte runs.

use vstd::prelude::*;

verus! {

/// The polynomial of the IEEE checksum, lowest bit first.
pub const POLYNOMIAL: u32 = 0xedb8_8320;

/// A remainder after one more bit.
pub open spec fn shifted(state: u32) -> u32 {
    if state & 1 == 1 {
        (state >> 1) ^ POLYNOMIAL
    } else {
        state >> 1
    }
}

/// A remainder after one more byte, lowest bit first.
pub open spec fn with_byte(state: u32, byte: u8) -> u32 {
    let state = shifted(shifted(shifted(shifted(state ^ byte as u32))));
    shifted(shifted(shifted(shifted(state))))
}

/// The remainder of a byte run.
pub open spec fn remainder(bytes: Seq<u8>) -> u32
    decreases bytes.len(),
{
    if bytes.len() == 0 {
        0xffff_ffff
    } else {
        with_byte(remainder(bytes.drop_last()), bytes.last())
    }
}

/// The IEEE CRC-32 of a byte run.
#[verifier::opaque]
pub open spec fn crc32(bytes: Seq<u8>) -> u32 {
    remainder(bytes) ^ 0xffff_ffff
}

/// Calls `crc32fast::hash`, which computes the IEEE CRC-32: bits are taken lowest first, the
/// remainder starts with all bits set, and all its bits are turned over at the end.
#[verifier::external_body]
pub(crate) fn checksum(bytes: &[u8]) -> (sum: u32)
    ensures
        sum == crc32(bytes@),
{
    crc32fast::hash(bytes)
}

proof fn lemma_shifted(left: u32, right: u32)
    requires
        shifted(left) == shifted(right),
    ensures
        left == right,
{
    assert((if left & 1 == 1 {
        (left >> 1) ^ 0xedb8_8320
    } else {
        left >> 1
    }) == (if right & 1 == 1 {
        (right >> 1) ^ 0xedb8_8320
    } else {
        right >> 1
    }) ==> left == right) by (bit_vector);
}

proof fn lemma_with_byte(left: u32, first: u8, right: u32, second: u8)
    requires
        with_byte(left, first) == with_byte(right, second),
    ensures
        left ^ first as u32 == right ^ second as u32,
{
    let (a0, b0) = (left ^ first as u32, right ^ second as u32);
    let (a1, b1) = (shifted(a0), shifted(b0));
    let (a2, b2) = (shifted(a1), shifted(b1));
    let (a3, b3) = (shifted(a2), shifted(b2));
    let (a4, b4) = (shifted(a3), shifted(b3));
    let (a5, b5) = (shifted(a4), shifted(b4));
    let (a6, b6) = (shifted(a5), shifted(b5));
    let (a7, b7) = (shifted(a6), shifted(b6));
    lemma_shifted(a7, b7);
    lemma_shifted(a6, b6);
    lemma_shifted(a5, b5);
    lemma_shifted(a4, b4);
    lemma_shifted(a3, b3);
    lemma_shifted(a2, b2);
    lemma_shifted(a1, b1);
    lemma_shifted(a0, b0);
}

proof fn lemma_changed_remainder(bytes: Seq<u8>, index: int, byte: u8)
    requires
        0 <= index < bytes.len(),
        byte != bytes[index],
    ensures
        remainder(bytes.update(index, byte)) != remainder(bytes),
    decreases bytes.len(),
{
    let changed = bytes.update(index, byte);
    let (shorter, last) = (bytes.drop_last(), bytes.last());
    let before = remainder(shorter);
    if remainder(changed) == remainder(bytes) {
        lemma_with_byte(remainder(changed.drop_last()), changed.last(), before, last);
        if index == bytes.len() - 1 {
            assert(changed.drop_last() =~= shorter);
            assert(before ^ byte as u32 == before ^ last as u32 ==> byte == last) by (bit_vector);
        } else {
            assert(changed.drop_last() =~= shorter.update(index, byte));
            lemma_changed_remainder(shorter, index, byte);
            let after = remainder(changed.drop_last());
            assert(after ^ last as u32 == before ^ last as u32 ==> after == before)
                by (bit_vector);
        }
    }
}

/// Whatever one byte of a run is changed to, the checksum changes with it. A flipped bit is such a
/// change.
pub proof fn law_changed_bytes_change_the_checksum(bytes: Seq<u8>, index: int, byte: u8)
    requires
        0 <= index < bytes.len(),
        byte != bytes[index],
    ensures
        crc32(bytes.update(index, byte)) != crc32(bytes),
{
    reveal(crc32);
    lemma_changed_remainder(bytes, index, byte);
    let (left, right) = (remainder(bytes.update(index, byte)), remainder(bytes));
    assert(left ^ 0xffff_ffff == right ^ 0xffff_ffff ==> left == right) by (bit_vector);
}

} // verus!
