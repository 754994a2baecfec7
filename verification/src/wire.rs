//! Big-endian integers, as both wire formats carry them.

use byteorder::{BigEndian, ByteOrder, WriteBytesExt};
use vstd::prelude::*;

verus! {

/// The two bytes of `n`, most significant first.
#[verifier::opaque]
pub open spec fn be16(n: u16) -> Seq<u8> {
    seq![(n / 0x100) as u8, (n % 0x100) as u8]
}

/// The four bytes of `n`, most significant first.
#[verifier::opaque]
pub open spec fn be32(n: u32) -> Seq<u8> {
    seq![
        (n / 0x100_0000) as u8,
        (n / 0x1_0000 % 0x100) as u8,
        (n / 0x100 % 0x100) as u8,
        (n % 0x100) as u8,
    ]
}

/// The eight bytes of `n`, most significant first.
#[verifier::opaque]
pub open spec fn be64(n: u64) -> Seq<u8> {
    seq![
        (n / 0x100_0000_0000_0000) as u8,
        (n / 0x1_0000_0000_0000 % 0x100) as u8,
        (n / 0x100_0000_0000 % 0x100) as u8,
        (n / 0x1_0000_0000 % 0x100) as u8,
        (n / 0x100_0000 % 0x100) as u8,
        (n / 0x1_0000 % 0x100) as u8,
        (n / 0x100 % 0x100) as u8,
        (n % 0x100) as u8,
    ]
}

/// The number that the first two bytes of `b` spell, most significant first.
#[verifier::opaque]
pub open spec fn be16_value(b: Seq<u8>) -> u16
    recommends
        b.len() >= 2,
{
    (b[0] as int * 0x100 + b[1] as int) as u16
}

/// The number that the first four bytes of `b` spell, most significant first.
#[verifier::opaque]
pub open spec fn be32_value(b: Seq<u8>) -> u32
    recommends
        b.len() >= 4,
{
    (b[0] as int * 0x100_0000 + b[1] as int * 0x1_0000 + b[2] as int * 0x100 + b[3] as int) as u32
}

/// The number that the first eight bytes of `b` spell, most significant first.
#[verifier::opaque]
pub open spec fn be64_value(b: Seq<u8>) -> u64
    recommends
        b.len() >= 8,
{
    (b[0] as int * 0x100_0000_0000_0000 + b[1] as int * 0x1_0000_0000_0000 + b[2] as int
        * 0x100_0000_0000 + b[3] as int * 0x1_0000_0000 + b[4] as int * 0x100_0000 + b[5] as int
        * 0x1_0000 + b[6] as int * 0x100 + b[7] as int) as u64
}

/// A 16-bit number takes two bytes.
pub broadcast proof fn lemma_be16_len(n: u16)
    ensures
        #[trigger] be16(n).len() == 2,
{
    reveal(be16);
}

/// A 32-bit number takes four bytes.
pub broadcast proof fn lemma_be32_len(n: u32)
    ensures
        #[trigger] be32(n).len() == 4,
{
    reveal(be32);
}

/// A 64-bit number takes eight bytes.
pub broadcast proof fn lemma_be64_len(n: u64)
    ensures
        #[trigger] be64(n).len() == 8,
{
    reveal(be64);
}

/// How many bytes each width takes.
pub broadcast group group_be_len {
    lemma_be16_len,
    lemma_be32_len,
    lemma_be64_len,
}

/// Reading back what was written gives the number that was written.
pub proof fn lemma_be16_round_trip(n: u16)
    ensures
        be16(n).len() == 2,
        be16_value(be16(n)) == n,
{
    reveal(be16);
    reveal(be16_value);
}

/// Reading back what was written gives the number that was written.
pub proof fn lemma_be32_round_trip(n: u32)
    ensures
        be32(n).len() == 4,
        be32_value(be32(n)) == n,
{
    reveal(be32);
    reveal(be32_value);
    let b0 = (n / 0x100_0000) as u8;
    let b1 = (n / 0x1_0000 % 0x100) as u8;
    let b2 = (n / 0x100 % 0x100) as u8;
    let b3 = (n % 0x100) as u8;
    assert(b0 as u32 * 0x100_0000 + b1 as u32 * 0x1_0000 + b2 as u32 * 0x100 + b3 as u32 == n)
        by (bit_vector)
        requires
            b0 as u32 == n / 0x100_0000u32,
            b1 as u32 == n / 0x1_0000u32 % 0x100u32,
            b2 as u32 == n / 0x100u32 % 0x100u32,
            b3 as u32 == n % 0x100u32,
    ;
}

/// Reading back what was written gives the number that was written.
pub proof fn lemma_be64_round_trip(n: u64)
    ensures
        be64(n).len() == 8,
        be64_value(be64(n)) == n,
{
    reveal(be64);
    reveal(be64_value);
    let b0 = (n / 0x100_0000_0000_0000) as u8;
    let b1 = (n / 0x1_0000_0000_0000 % 0x100) as u8;
    let b2 = (n / 0x100_0000_0000 % 0x100) as u8;
    let b3 = (n / 0x1_0000_0000 % 0x100) as u8;
    let b4 = (n / 0x100_0000 % 0x100) as u8;
    let b5 = (n / 0x1_0000 % 0x100) as u8;
    let b6 = (n / 0x100 % 0x100) as u8;
    let b7 = (n % 0x100) as u8;
    assert(b0 as u64 * 0x100_0000_0000_0000 + b1 as u64 * 0x1_0000_0000_0000 + b2 as u64
        * 0x100_0000_0000 + b3 as u64 * 0x1_0000_0000 + b4 as u64 * 0x100_0000 + b5 as u64
        * 0x1_0000 + b6 as u64 * 0x100 + b7 as u64 == n) by (bit_vector)
        requires
            b0 as u64 == n / 0x100_0000_0000_0000u64,
            b1 as u64 == n / 0x1_0000_0000_0000u64 % 0x100u64,
            b2 as u64 == n / 0x100_0000_0000u64 % 0x100u64,
            b3 as u64 == n / 0x1_0000_0000u64 % 0x100u64,
            b4 as u64 == n / 0x100_0000u64 % 0x100u64,
            b5 as u64 == n / 0x1_0000u64 % 0x100u64,
            b6 as u64 == n / 0x100u64 % 0x100u64,
            b7 as u64 == n % 0x100u64,
    ;
}

/// Writing what was read gives back the bytes that were read.
pub proof fn lemma_be16_of_value(b: Seq<u8>)
    requires
        b.len() == 2,
    ensures
        be16(be16_value(b)) == b,
{
    reveal(be16);
    reveal(be16_value);
    assert(be16(be16_value(b)) =~= b);
}

/// Writing what was read gives back the bytes that were read.
pub proof fn lemma_be32_of_value(b: Seq<u8>)
    requires
        b.len() == 4,
    ensures
        be32(be32_value(b)) == b,
{
    reveal(be32);
    reveal(be32_value);
    let (b0, b1, b2, b3) = (b[0], b[1], b[2], b[3]);
    let n = be32_value(b);
    assert(n == b0 as u32 * 0x100_0000 + b1 as u32 * 0x1_0000 + b2 as u32 * 0x100 + b3 as u32);
    assert(b0 as u32 == n / 0x100_0000u32 && b1 as u32 == n / 0x1_0000u32 % 0x100u32 && b2 as u32
        == n / 0x100u32 % 0x100u32 && b3 as u32 == n % 0x100u32) by (bit_vector)
        requires
            n == b0 as u32 * 0x100_0000 + b1 as u32 * 0x1_0000 + b2 as u32 * 0x100 + b3 as u32,
    ;
    assert(be32(n) =~= b);
}

/// Writing what was read gives back the bytes that were read.
pub proof fn lemma_be64_of_value(b: Seq<u8>)
    requires
        b.len() == 8,
    ensures
        be64(be64_value(b)) == b,
{
    reveal(be64);
    reveal(be64_value);
    let (b0, b1, b2, b3) = (b[0], b[1], b[2], b[3]);
    let (b4, b5, b6, b7) = (b[4], b[5], b[6], b[7]);
    let n = be64_value(b);
    assert(n == b0 as u64 * 0x100_0000_0000_0000 + b1 as u64 * 0x1_0000_0000_0000 + b2 as u64
        * 0x100_0000_0000 + b3 as u64 * 0x1_0000_0000 + b4 as u64 * 0x100_0000 + b5 as u64
        * 0x1_0000 + b6 as u64 * 0x100 + b7 as u64);
    assert(b0 as u64 == n / 0x100_0000_0000_0000u64 && b1 as u64 == n / 0x1_0000_0000_0000u64
        % 0x100u64 && b2 as u64 == n / 0x100_0000_0000u64 % 0x100u64 && b3 as u64 == n
        / 0x1_0000_0000u64 % 0x100u64 && b4 as u64 == n / 0x100_0000u64 % 0x100u64 && b5 as u64
        == n / 0x1_0000u64 % 0x100u64 && b6 as u64 == n / 0x100u64 % 0x100u64 && b7 as u64 == n
        % 0x100u64) by (bit_vector)
        requires
            n == b0 as u64 * 0x100_0000_0000_0000 + b1 as u64 * 0x1_0000_0000_0000 + b2 as u64
                * 0x100_0000_0000 + b3 as u64 * 0x1_0000_0000 + b4 as u64 * 0x100_0000 + b5 as u64
                * 0x1_0000 + b6 as u64 * 0x100 + b7 as u64,
    ;
    assert(be64(n) =~= b);
}

/// `byteorder::ByteOrder::read_u16` for `BigEndian`: the number spelled by the
/// first two bytes of `buf`. It panics on a shorter slice, which the
/// precondition rules out.
#[verifier::external_body]
pub(crate) fn read_u16(buf: &[u8]) -> (n: u16)
    requires
        buf@.len() >= 2,
    ensures
        n == be16_value(buf@),
{
    BigEndian::read_u16(buf)
}

/// `byteorder::ByteOrder::read_u32` for `BigEndian`: the number spelled by the
/// first four bytes of `buf`. It panics on a shorter slice, which the
/// precondition rules out.
#[verifier::external_body]
pub(crate) fn read_u32(buf: &[u8]) -> (n: u32)
    requires
        buf@.len() >= 4,
    ensures
        n == be32_value(buf@),
{
    BigEndian::read_u32(buf)
}

/// `byteorder::ByteOrder::read_u64` for `BigEndian`: the number spelled by the
/// first eight bytes of `buf`. It panics on a shorter slice, which the
/// precondition rules out.
#[verifier::external_body]
pub(crate) fn read_u64(buf: &[u8]) -> (n: u64)
    requires
        buf@.len() >= 8,
    ensures
        n == be64_value(buf@),
{
    BigEndian::read_u64(buf)
}

/// `byteorder::WriteBytesExt::write_u16` with `BigEndian`, on a `Vec<u8>`:
/// the two bytes of `n` are appended. Writing to a vector cannot fail.
#[verifier::external_body]
pub(crate) fn write_u16(out: &mut Vec<u8>, n: u16)
    ensures
        final(out)@ == old(out)@ + be16(n),
{
    let _ = out.write_u16::<BigEndian>(n);
}

/// `byteorder::WriteBytesExt::write_u32` with `BigEndian`, on a `Vec<u8>`:
/// the four bytes of `n` are appended. Writing to a vector cannot fail.
#[verifier::external_body]
pub(crate) fn write_u32(out: &mut Vec<u8>, n: u32)
    ensures
        final(out)@ == old(out)@ + be32(n),
{
    let _ = out.write_u32::<BigEndian>(n);
}

/// `byteorder::WriteBytesExt::write_u64` with `BigEndian`, on a `Vec<u8>`:
/// the eight bytes of `n` are appended. Writing to a vector cannot fail.
#[verifier::external_body]
pub(crate) fn write_u64(out: &mut Vec<u8>, n: u64)
    ensures
        final(out)@ == old(out)@ + be64(n),
{
    let _ = out.write_u64::<BigEndian>(n);
}

/// Appends a copy of `data` to `out`.
pub fn write_all(out: &mut Vec<u8>, data: &[u8])
    ensures
        final(out)@ == old(out)@ + data@,
{
    let mut i: usize = 0;
    while i < data.len()
        invariant
            i <= data@.len(),
            out@ == old(out)@ + data@.subrange(0, i as int),
        decreases data@.len() - i,
    {
        out.push(data[i]);
        i = i + 1;
    }
    assert(data@.subrange(0, data@.len() as int) =~= data@);
}

} // verus!
