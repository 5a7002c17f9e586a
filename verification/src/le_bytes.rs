//! Little-endian integer fields: the byte layout of every number in the
//! package format, read and written through the `byteorder` crate.

use byteorder::{ByteOrder, LittleEndian};
use vstd::bytes::*;
use vstd::prelude::*;

verus! {

/// The two bytes of `v`, least significant first.
pub open spec fn le16(v: u16) -> Seq<u8> {
    spec_u16_to_le_bytes(v)
}

/// The four bytes of `v`, least significant first.
pub open spec fn le32(v: u32) -> Seq<u8> {
    spec_u32_to_le_bytes(v)
}

/// The eight bytes of `v`, least significant first.
pub open spec fn le64(v: u64) -> Seq<u8> {
    spec_u64_to_le_bytes(v)
}

/// The `u16` stored little-endian at `buf[pos..pos + 2]`.
pub open spec fn get16(buf: Seq<u8>, pos: int) -> u16 {
    spec_u16_from_le_bytes(buf.subrange(pos, pos + 2))
}

/// The `u32` stored little-endian at `buf[pos..pos + 4]`.
pub open spec fn get32(buf: Seq<u8>, pos: int) -> u32 {
    spec_u32_from_le_bytes(buf.subrange(pos, pos + 4))
}

/// The `u64` stored little-endian at `buf[pos..pos + 8]`.
pub open spec fn get64(buf: Seq<u8>, pos: int) -> u64 {
    spec_u64_from_le_bytes(buf.subrange(pos, pos + 8))
}

/// `byteorder::LittleEndian::read_u16` on `buf[pos..pos + 2]`: the crate
/// assembles the two bytes least significant first.
#[verifier::external_body]
pub(crate) fn read_u16_at(buf: &[u8], pos: usize) -> (v: u16)
    requires
        pos + 2 <= buf@.len(),
    ensures
        v == get16(buf@, pos as int),
{
    LittleEndian::read_u16(&buf[pos..pos + 2])
}

/// `byteorder::LittleEndian::read_u32` on `buf[pos..pos + 4]`: the crate
/// assembles the four bytes least significant first.
#[verifier::external_body]
pub(crate) fn read_u32_at(buf: &[u8], pos: usize) -> (v: u32)
    requires
        pos + 4 <= buf@.len(),
    ensures
        v == get32(buf@, pos as int),
{
    LittleEndian::read_u32(&buf[pos..pos + 4])
}

/// `byteorder::LittleEndian::read_u64` on `buf[pos..pos + 8]`: the crate
/// assembles the eight bytes least significant first.
#[verifier::external_body]
pub(crate) fn read_u64_at(buf: &[u8], pos: usize) -> (v: u64)
    requires
        pos + 8 <= buf@.len(),
    ensures
        v == get64(buf@, pos as int),
{
    LittleEndian::read_u64(&buf[pos..pos + 8])
}

/// `byteorder::LittleEndian::write_u16` into a fresh two-byte buffer: the
/// crate stores `v` least significant byte first.
#[verifier::external_body]
pub(crate) fn bytes_of_u16(v: u16) -> (b: [u8; 2])
    ensures
        b@ == le16(v),
{
    let mut b = [0u8; 2];
    LittleEndian::write_u16(&mut b, v);
    b
}

/// `byteorder::LittleEndian::write_u32` into a fresh four-byte buffer: the
/// crate stores `v` least significant byte first.
#[verifier::external_body]
pub(crate) fn bytes_of_u32(v: u32) -> (b: [u8; 4])
    ensures
        b@ == le32(v),
{
    let mut b = [0u8; 4];
    LittleEndian::write_u32(&mut b, v);
    b
}

/// `byteorder::LittleEndian::write_u64` into a fresh eight-byte buffer: the
/// crate stores `v` least significant byte first.
#[verifier::external_body]
pub(crate) fn bytes_of_u64(v: u64) -> (b: [u8; 8])
    ensures
        b@ == le64(v),
{
    let mut b = [0u8; 8];
    LittleEndian::write_u64(&mut b, v);
    b
}

/// Appends every byte of `src` to `out`.
pub(crate) fn push_all(out: &mut Vec<u8>, src: &[u8])
    ensures
        final(out)@ == old(out)@ + src@,
{
    let ghost start = out@;
    let n = src.len();
    for i in 0..n
        invariant
            n == src@.len(),
            out@ == start + src@.subrange(0, i as int),
    {
        out.push(src[i]);
        assert(src@.subrange(0, i + 1) == src@.subrange(0, i as int).push(src@[i as int]));
    }
    assert(src@.subrange(0, n as int) == src@);
}

/// Appends `v` as two little-endian bytes.
pub(crate) fn push_u16(out: &mut Vec<u8>, v: u16)
    ensures
        final(out)@ == old(out)@ + le16(v),
{
    let b = bytes_of_u16(v);
    push_all(out, &b);
}

/// Appends `v` as four little-endian bytes.
pub(crate) fn push_u32(out: &mut Vec<u8>, v: u32)
    ensures
        final(out)@ == old(out)@ + le32(v),
{
    let b = bytes_of_u32(v);
    push_all(out, &b);
}

/// Appends `v` as eight little-endian bytes.
pub(crate) fn push_u64(out: &mut Vec<u8>, v: u64)
    ensures
        final(out)@ == old(out)@ + le64(v),
{
    let b = bytes_of_u64(v);
    push_all(out, &b);
}

/// Every encoding has its width, and reading back what was written gives
/// the value, for each width.
pub proof fn lemma_le()
    ensures
        forall|a: u16| #![trigger le16(a)] le16(a).len() == 2 && spec_u16_from_le_bytes(le16(a)) == a,
        forall|b: u32| #![trigger le32(b)] le32(b).len() == 4 && spec_u32_from_le_bytes(le32(b)) == b,
        forall|c: u64| #![trigger le64(c)] le64(c).len() == 8 && spec_u64_from_le_bytes(le64(c)) == c,
{
    lemma_auto_spec_u16_to_from_le_bytes();
    lemma_auto_spec_u32_to_from_le_bytes();
    lemma_auto_spec_u64_to_from_le_bytes();
}

} // verus!
