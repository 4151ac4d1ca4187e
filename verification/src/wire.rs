//! Big-endian integers and byte runs, as every format of this crate lays them out.

use vstd::prelude::*;

verus! {

/// The two bytes of `value`, most significant first.
#[verifier::opaque]
pub open spec fn be16(value: u16) -> Seq<u8> {
    seq![(value / 0x100) as u8, (value % 0x100) as u8]
}

/// The four bytes of `value`, most significant first.
#[verifier::opaque]
pub open spec fn be32(value: u32) -> Seq<u8> {
    seq![
        (value / 0x100_0000) as u8,
        (value / 0x1_0000 % 0x100) as u8,
        (value / 0x100 % 0x100) as u8,
        (value % 0x100) as u8,
    ]
}

/// The eight bytes of `value`, most significant first.
#[verifier::opaque]
pub open spec fn be64(value: u64) -> Seq<u8> {
    be32((value / 0x1_0000_0000) as u32) + be32((value % 0x1_0000_0000) as u32)
}

/// The integer that the first two bytes spell.
#[verifier::opaque]
pub open spec fn un16(bytes: Seq<u8>) -> u16 {
    (bytes[0] * 0x100 + bytes[1]) as u16
}

/// The integer that the first four bytes spell.
#[verifier::opaque]
pub open spec fn un32(bytes: Seq<u8>) -> u32 {
    (bytes[0] * 0x100_0000 + bytes[1] * 0x1_0000 + bytes[2] * 0x100 + bytes[3]) as u32
}

/// The integer that the first eight bytes spell.
#[verifier::opaque]
pub open spec fn un64(bytes: Seq<u8>) -> u64 {
    (un32(bytes) * 0x1_0000_0000 + un32(bytes.skip(4))) as u64
}

/// Reading two bytes gives back the integer that was written.
pub broadcast proof fn lemma_be16(value: u16)
    ensures
        #![trigger be16(value)]
        be16(value).len() == 2,
        un16(be16(value)) == value,
{
    reveal(be16);
    reveal(un16);
}

/// Reading four bytes gives back the integer that was written.
pub broadcast proof fn lemma_be32(value: u32)
    ensures
        #![trigger be32(value)]
        be32(value).len() == 4,
        un32(be32(value)) == value,
{
    reveal(be32);
    reveal(un32);
}

/// Reading eight bytes gives back the integer that was written.
pub broadcast proof fn lemma_be64(value: u64)
    ensures
        #![trigger be64(value)]
        be64(value).len() == 8,
        un64(be64(value)) == value,
{
    reveal(be64);
    reveal(un64);
    reveal(un32);
    let high = (value / 0x1_0000_0000) as u32;
    let low = (value % 0x1_0000_0000) as u32;
    lemma_be32(high);
    lemma_be32(low);
    assert(be64(value).skip(4) =~= be32(low));
    assert(un32(be64(value)) == un32(be32(high)));
}

pub broadcast group group_wire {
    lemma_be16,
    lemma_be32,
    lemma_be64,
}

/// Writing the integer that two bytes spell gives back the bytes.
pub proof fn lemma_un16(bytes: Seq<u8>)
    requires
        bytes.len() == 2,
    ensures
        be16(un16(bytes)) == bytes,
{
    reveal(be16);
    reveal(un16);
    assert(be16(un16(bytes)) =~= bytes);
}

/// Writing the integer that four bytes spell gives back the bytes.
pub proof fn lemma_un32(bytes: Seq<u8>)
    requires
        bytes.len() == 4,
    ensures
        be32(un32(bytes)) == bytes,
{
    reveal(be32);
    reveal(un32);
    let (a, b, c, d) = (bytes[0] as int, bytes[1] as int, bytes[2] as int, bytes[3] as int);
    let value = a * 0x100_0000 + b * 0x1_0000 + c * 0x100 + d;
    assert(un32(bytes) == value);
    assert(value / 0x100_0000 == a);
    assert(value / 0x1_0000 == a * 0x100 + b);
    assert(value / 0x100 == a * 0x1_0000 + b * 0x100 + c);
    assert(be32(un32(bytes)) =~= bytes);
}

/// Writing the integer that eight bytes spell gives back the bytes.
pub proof fn lemma_un64(bytes: Seq<u8>)
    requires
        bytes.len() == 8,
    ensures
        be64(un64(bytes)) == bytes,
{
    reveal(be64);
    reveal(un64);
    reveal(un32);
    let (high, low) = (un32(bytes.take(4)), un32(bytes.skip(4)));
    assert(un32(bytes) == high);
    let value = un64(bytes);
    assert(value == high * 0x1_0000_0000 + low);
    assert(value / 0x1_0000_0000 == high && value % 0x1_0000_0000 == low);
    lemma_un32(bytes.take(4));
    lemma_un32(bytes.skip(4));
    assert(be64(value) == bytes.take(4) + bytes.skip(4));
    assert(bytes.take(4) + bytes.skip(4) =~= bytes);
}

/// Appends the bytes of `value`.
pub fn put_u16(output: &mut Vec<u8>, value: u16)
    ensures
        final(output)@ == old(output)@ + be16(value),
{
    proof {
        reveal(be16);
    }
    output.push((value / 0x100) as u8);
    output.push((value % 0x100) as u8);
    assert(output@ =~= old(output)@ + be16(value));
}

/// Appends the bytes of `value`.
pub fn put_u32(output: &mut Vec<u8>, value: u32)
    ensures
        final(output)@ == old(output)@ + be32(value),
{
    proof {
        reveal(be32);
    }
    output.push((value / 0x100_0000) as u8);
    output.push((value / 0x1_0000 % 0x100) as u8);
    output.push((value / 0x100 % 0x100) as u8);
    output.push((value % 0x100) as u8);
    assert(output@ =~= old(output)@ + be32(value));
}

/// Appends the bytes of `value`.
pub fn put_u64(output: &mut Vec<u8>, value: u64)
    ensures
        final(output)@ == old(output)@ + be64(value),
{
    proof {
        reveal(be64);
    }
    put_u32(output, (value / 0x1_0000_0000) as u32);
    put_u32(output, (value % 0x1_0000_0000) as u32);
    assert(output@ =~= old(output)@ + be64(value));
}

/// Appends a run of bytes.
pub fn put_bytes(output: &mut Vec<u8>, bytes: &[u8])
    ensures
        final(output)@ == old(output)@ + bytes@,
{
    output.extend_from_slice(bytes);
    assert(output@ =~= old(output)@ + bytes@);
}

/// The integer that the two bytes at `start` spell.
pub fn u16_at(bytes: &[u8], start: usize) -> (value: u16)
    requires
        start + 2 <= bytes@.len(),
    ensures
        value == un16(bytes@.subrange(start as int, start + 2)),
{
    proof {
        reveal(un16);
    }
    bytes[start] as u16 * 0x100 + bytes[start + 1] as u16
}

/// The integer that the four bytes at `start` spell.
pub fn u32_at(bytes: &[u8], start: usize) -> (value: u32)
    requires
        start + 4 <= bytes@.len(),
    ensures
        value == un32(bytes@.subrange(start as int, start + 4)),
{
    proof {
        reveal(un32);
    }
    bytes[start] as u32 * 0x100_0000 + bytes[start + 1] as u32 * 0x1_0000 + bytes[start + 2] as u32
        * 0x100 + bytes[start + 3] as u32
}

/// The integer that the eight bytes at `start` spell.
pub fn u64_at(bytes: &[u8], start: usize) -> (value: u64)
    requires
        start + 8 <= bytes@.len(),
    ensures
        value == un64(bytes@.subrange(start as int, start + 8)),
{
    proof {
        reveal(un64);
        reveal(un32);
    }
    assert(start + 4 <= bytes.len());
    let high: u32 = u32_at(bytes, start);
    let low: u32 = u32_at(bytes, start + 4);
    assert(bytes@.subrange(start as int, start + 8).skip(4) =~= bytes@.subrange(
        start + 4,
        start + 8,
    ));
    assert(un32(bytes@.subrange(start as int, start + 8)) == high);
    high as u64 * 0x1_0000_0000 + low as u64
}

/// Whether two runs of bytes are equal.
pub fn same_bytes(left: &[u8], right: &[u8]) -> (same: bool)
    ensures
        same == (left@ == right@),
{
    if left.len() != right.len() {
        return false;
    }
    let mut index: usize = 0;
    while index < left.len()
        invariant
            left@.len() == right@.len(),
            index <= left@.len(),
            left@.take(index as int) == right@.take(index as int),
        decreases left@.len() - index,
    {
        if left[index] != right[index] {
            return false;
        }
        assert(left@.take(index + 1) =~= left@.take(index as int).push(left@[index as int]));
        assert(right@.take(index + 1) =~= right@.take(index as int).push(right@[index as int]));
        index += 1;
    }
    assert(left@.take(index as int) =~= left@);
    assert(right@.take(index as int) =~= right@);
    true
}

/// Integers are laid out with their most significant byte first.
pub proof fn law_integers_are_big_endian(small: u16, middle: u32, large: u64)
    ensures
        be16(small).len() == 2,
        be16(small)[0] * 0x100 + be16(small)[1] == small,
        be32(middle).len() == 4,
        be32(middle)[0] * 0x100_0000 + be32(middle)[1] * 0x1_0000 + be32(middle)[2] * 0x100 + be32(
            middle,
        )[3] == middle,
        be64(large).len() == 8,
        be64(large).take(4) == be32((large / 0x1_0000_0000) as u32),
        be64(large).skip(4) == be32((large % 0x1_0000_0000) as u32),
{
    reveal(be16);
    reveal(be32);
    reveal(be64);
    lemma_be32((large / 0x1_0000_0000) as u32);
    lemma_be32((large % 0x1_0000_0000) as u32);
    assert(be64(large).take(4) =~= be32((large / 0x1_0000_0000) as u32));
    assert(be64(large).skip(4) =~= be32((large % 0x1_0000_0000) as u32));
}

} // verus!
