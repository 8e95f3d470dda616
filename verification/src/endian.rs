//! Big-endian integers, as the wire format writes them.

use byteorder::{BigEndian, ByteOrder};
use vstd::prelude::*;

verus! {

/// The two bytes of `n`, most significant first.
pub open spec fn be16(n: u16) -> Seq<u8> {
    seq![(n / 0x100) as u8, (n % 0x100) as u8]
}

/// The four bytes of `n`, most significant first.
pub open spec fn be32(n: u32) -> Seq<u8> {
    seq![
        (n / 0x100_0000) as u8,
        (n / 0x1_0000 % 0x100) as u8,
        (n / 0x100 % 0x100) as u8,
        (n % 0x100) as u8,
    ]
}

/// The eight bytes of `n`, most significant first.
pub open spec fn be64(n: u64) -> Seq<u8> {
    be32((n / 0x1_0000_0000) as u32) + be32((n % 0x1_0000_0000) as u32)
}

/// The 32-bit pattern that stands for `v` in two's complement.
pub open spec fn unsigned32(v: i32) -> u32 {
    if v >= 0 {
        v as u32
    } else {
        (v + 0x1_0000_0000) as u32
    }
}

/// The signed integer that the 32-bit pattern `u` stands for in two's complement.
pub open spec fn signed32(u: u32) -> i32 {
    if u < 0x8000_0000 {
        u as i32
    } else {
        (u - 0x1_0000_0000) as i32
    }
}

/// The integer written in the two bytes of `s` that start at `at`.
pub open spec fn be16_at(s: Seq<u8>, at: int) -> u16 {
    (s[at] * 0x100 + s[at + 1]) as u16
}

/// The integer written in the four bytes of `s` that start at `at`.
pub open spec fn be32_at(s: Seq<u8>, at: int) -> u32 {
    (s[at] * 0x100_0000 + s[at + 1] * 0x1_0000 + s[at + 2] * 0x100 + s[at + 3]) as u32
}

/// The integer written in the eight bytes of `s` that start at `at`.
pub open spec fn be64_at(s: Seq<u8>, at: int) -> u64 {
    (be32_at(s, at) * 0x1_0000_0000 + be32_at(s, at + 4)) as u64
}

/// Reading back the bytes of `n` gives `n`.
pub proof fn lemma_be16_at(s: Seq<u8>, at: int, n: u16)
    requires
        0 <= at,
        at + 2 <= s.len(),
        s.subrange(at, at + 2) == be16(n),
    ensures
        be16_at(s, at) == n,
{
    let w = s.subrange(at, at + 2);
    assert(s[at] == w[0]);
    assert(s[at + 1] == w[1]);
}

/// Reading back the bytes of `n` gives `n`.
pub proof fn lemma_be32_at(s: Seq<u8>, at: int, n: u32)
    requires
        0 <= at,
        at + 4 <= s.len(),
        s.subrange(at, at + 4) == be32(n),
    ensures
        be32_at(s, at) == n,
{
    let w = s.subrange(at, at + 4);
    assert(s[at] == w[0]);
    assert(s[at + 1] == w[1]);
    assert(s[at + 2] == w[2]);
    assert(s[at + 3] == w[3]);
}

/// Reading back the bytes of `n` gives `n`.
pub proof fn lemma_be64_at(s: Seq<u8>, at: int, n: u64)
    requires
        0 <= at,
        at + 8 <= s.len(),
        s.subrange(at, at + 8) == be64(n),
    ensures
        be64_at(s, at) == n,
{
    let hi = (n / 0x1_0000_0000) as u32;
    let lo = (n % 0x1_0000_0000) as u32;
    let w = s.subrange(at, at + 8);
    assert(s.subrange(at, at + 4) =~= w.subrange(0, 4));
    assert(w.subrange(0, 4) =~= be32(hi));
    assert(s.subrange(at + 4, at + 8) =~= w.subrange(4, 8));
    assert(w.subrange(4, 8) =~= be32(lo));
    lemma_be32_at(s, at, hi);
    lemma_be32_at(s, at + 4, lo);
}

/// The two conversions between a signed integer and its bit pattern undo each other.
pub proof fn lemma_signed32(v: i32)
    ensures
        signed32(unsigned32(v)) == v,
{
}

/// Calls `byteorder::BigEndian::read_u16` on the bytes of `buf` from `at` on.
/// Not proved here: that it gives the big-endian value of the first two of
/// them.
#[verifier::external_body]
pub(crate) fn read_u16(buf: &[u8], at: usize) -> (r: u16)
    requires
        at + 2 <= buf@.len(),
    ensures
        r == be16_at(buf@, at as int),
{
    BigEndian::read_u16(&buf[at..])
}

/// Calls `byteorder::BigEndian::read_u32` on the bytes of `buf` from `at` on.
/// Not proved here: that it gives the big-endian value of the first four of
/// them.
#[verifier::external_body]
pub(crate) fn read_u32(buf: &[u8], at: usize) -> (r: u32)
    requires
        at + 4 <= buf@.len(),
    ensures
        r == be32_at(buf@, at as int),
{
    BigEndian::read_u32(&buf[at..])
}

/// Calls `byteorder::BigEndian::read_i32` on the bytes of `buf` from `at` on.
/// Not proved here: that it gives the big-endian value of the first four of
/// them, read in two's complement.
#[verifier::external_body]
pub(crate) fn read_i32(buf: &[u8], at: usize) -> (r: i32)
    requires
        at + 4 <= buf@.len(),
    ensures
        r == signed32(be32_at(buf@, at as int)),
{
    BigEndian::read_i32(&buf[at..])
}

/// Calls `byteorder::BigEndian::read_u64` on the bytes of `buf` from `at` on.
/// Not proved here: that it gives the big-endian value of the first eight of
/// them.
#[verifier::external_body]
pub(crate) fn read_u64(buf: &[u8], at: usize) -> (r: u64)
    requires
        at + 8 <= buf@.len(),
    ensures
        r == be64_at(buf@, at as int),
{
    BigEndian::read_u64(&buf[at..])
}

/// Calls `byteorder::BigEndian::write_u16` on a buffer of two bytes. Not
/// proved here: that it fills the buffer with the bytes of `n`, most
/// significant first.
#[verifier::external_body]
pub(crate) fn u16_bytes(n: u16) -> (r: [u8; 2])
    ensures
        r@ == be16(n),
{
    let mut buf: [u8; 2] = [0; 2];
    BigEndian::write_u16(&mut buf, n);
    buf
}

/// Calls `byteorder::BigEndian::write_u32` on a buffer of four bytes. Not
/// proved here: that it fills the buffer with the bytes of `n`, most
/// significant first.
#[verifier::external_body]
pub(crate) fn u32_bytes(n: u32) -> (r: [u8; 4])
    ensures
        r@ == be32(n),
{
    let mut buf: [u8; 4] = [0; 4];
    BigEndian::write_u32(&mut buf, n);
    buf
}

/// Calls `byteorder::BigEndian::write_i32` on a buffer of four bytes. Not
/// proved here: that it fills the buffer with the bytes of the two's
/// complement pattern of `v`, most significant first.
#[verifier::external_body]
pub(crate) fn i32_bytes(v: i32) -> (r: [u8; 4])
    ensures
        r@ == be32(unsigned32(v)),
{
    let mut buf: [u8; 4] = [0; 4];
    BigEndian::write_i32(&mut buf, v);
    buf
}

/// Calls `byteorder::BigEndian::write_u64` on a buffer of eight bytes. Not
/// proved here: that it fills the buffer with the bytes of `n`, most
/// significant first.
#[verifier::external_body]
pub(crate) fn u64_bytes(n: u64) -> (r: [u8; 8])
    ensures
        r@ == be64(n),
{
    let mut buf: [u8; 8] = [0; 8];
    BigEndian::write_u64(&mut buf, n);
    buf
}

/// Appends `bytes` to `out`.
pub fn append(out: &mut Vec<u8>, bytes: &[u8])
    ensures
        final(out)@ == old(out)@ + bytes@,
{
    let mut i: usize = 0;
    while i < bytes.len()
        invariant
            i <= bytes@.len(),
            out@ == old(out)@ + bytes@.subrange(0, i as int),
        decreases bytes@.len() - i,
    {
        out.push(bytes[i]);
        i += 1;
    }
    assert(bytes@.subrange(0, i as int) == bytes@);
}

} // verus!
