//! Big-endian integers, the byte order of every multi-byte field.

use vstd::prelude::*;

verus! {

/// The two bytes of `v`, high byte first.
pub open spec fn be16(v: u16) -> Seq<u8> {
    seq![(v / 0x100) as u8, (v % 0x100) as u8]
}

/// The four bytes of `v`: its high half, then its low half.
pub open spec fn be32(v: u32) -> Seq<u8> {
    be16((v / 0x1_0000) as u16) + be16((v % 0x1_0000) as u16)
}

/// The eight bytes of `v`: its high half, then its low half.
pub open spec fn be64(v: u64) -> Seq<u8> {
    be32((v / 0x1_0000_0000) as u32) + be32((v % 0x1_0000_0000) as u32)
}

/// The sixteen bytes of `v`: its high half, then its low half.
pub open spec fn be128(v: u128) -> Seq<u8> {
    be64((v / 0x1_0000_0000_0000_0000) as u64) + be64((v % 0x1_0000_0000_0000_0000) as u64)
}

/// The number that two bytes spell, high byte first.
pub open spec fn from_be16(s: Seq<u8>) -> u16
    recommends
        s.len() == 2,
{
    (s[0] * 0x100 + s[1]) as u16
}

/// The number that four bytes spell, high half first.
pub open spec fn from_be32(s: Seq<u8>) -> u32
    recommends
        s.len() == 4,
{
    (from_be16(s.subrange(0, 2)) * 0x1_0000 + from_be16(s.subrange(2, 4))) as u32
}

/// The number that eight bytes spell, high half first.
pub open spec fn from_be64(s: Seq<u8>) -> u64
    recommends
        s.len() == 8,
{
    (from_be32(s.subrange(0, 4)) * 0x1_0000_0000 + from_be32(s.subrange(4, 8))) as u64
}

/// Two bytes written and read back give the number.
pub proof fn lemma_be16_round_trip(v: u16)
    ensures
        be16(v).len() == 2,
        from_be16(be16(v)) == v,
{
}

/// Four bytes written and read back give the number.
pub proof fn lemma_be32_round_trip(v: u32)
    ensures
        be32(v).len() == 4,
        from_be32(be32(v)) == v,
{
    let hi = (v / 0x1_0000) as u16;
    let lo = (v % 0x1_0000) as u16;
    assert(be32(v).subrange(0, 2) =~= be16(hi));
    assert(be32(v).subrange(2, 4) =~= be16(lo));
    lemma_be16_round_trip(hi);
    lemma_be16_round_trip(lo);
}

/// Eight bytes written and read back give the number.
pub proof fn lemma_be64_round_trip(v: u64)
    ensures
        be64(v).len() == 8,
        from_be64(be64(v)) == v,
{
    let hi = (v / 0x1_0000_0000) as u32;
    let lo = (v % 0x1_0000_0000) as u32;
    lemma_be32_round_trip(hi);
    lemma_be32_round_trip(lo);
    assert(be64(v).subrange(0, 4) =~= be32(hi));
    assert(be64(v).subrange(4, 8) =~= be32(lo));
}

/// The bytes of a 16-bit number.
pub fn u16_be(v: u16) -> (b: [u8; 2])
    ensures
        b@ == be16(v),
{
    let b = [(v / 0x100) as u8, (v % 0x100) as u8];
    assert(b@ =~= be16(v));
    b
}

/// The bytes of a 32-bit number.
pub fn u32_be(v: u32) -> (b: [u8; 4])
    ensures
        b@ == be32(v),
{
    let hi = u16_be((v / 0x1_0000) as u16);
    let lo = u16_be((v % 0x1_0000) as u16);
    let b = [hi[0], hi[1], lo[0], lo[1]];
    assert(b@ =~= be32(v));
    b
}

/// The bytes of a 64-bit number.
pub fn u64_be(v: u64) -> (b: [u8; 8])
    ensures
        b@ == be64(v),
{
    let hi = u32_be((v / 0x1_0000_0000) as u32);
    let lo = u32_be((v % 0x1_0000_0000) as u32);
    let b = [hi[0], hi[1], hi[2], hi[3], lo[0], lo[1], lo[2], lo[3]];
    assert(b@ =~= be64(v));
    b
}

/// The bytes of a 128-bit number.
pub fn u128_be(v: u128) -> (b: [u8; 16])
    ensures
        b@ == be128(v),
{
    let hi = u64_be((v / 0x1_0000_0000_0000_0000) as u64);
    let lo = u64_be((v % 0x1_0000_0000_0000_0000) as u64);
    let b = [
        hi[0],
        hi[1],
        hi[2],
        hi[3],
        hi[4],
        hi[5],
        hi[6],
        hi[7],
        lo[0],
        lo[1],
        lo[2],
        lo[3],
        lo[4],
        lo[5],
        lo[6],
        lo[7],
    ];
    assert(b@ =~= be128(v));
    b
}

/// A signed 128-bit number in two's complement.
pub open spec fn twos_complement_128(v: i128) -> u128 {
    if v < 0 {
        (v + 0x1_0000_0000_0000_0000_0000_0000_0000_0000) as u128
    } else {
        v as u128
    }
}

/// The signed number that a byte is in two's complement.
pub open spec fn as_i8(b: u8) -> i8 {
    if b >= 0x80 {
        (b - 0x100) as i8
    } else {
        b as i8
    }
}

/// The signed number that sixteen bits are in two's complement.
pub open spec fn as_i16(v: u16) -> i16 {
    if v >= 0x8000 {
        (v - 0x1_0000) as i16
    } else {
        v as i16
    }
}

/// The signed number that thirty-two bits are in two's complement.
pub open spec fn as_i32(v: u32) -> i32 {
    if v >= 0x8000_0000 {
        (v - 0x1_0000_0000) as i32
    } else {
        v as i32
    }
}

/// The signed number that sixty-four bits are in two's complement.
pub open spec fn as_i64(v: u64) -> i64 {
    if v >= 0x8000_0000_0000_0000 {
        (v - 0x1_0000_0000_0000_0000) as i64
    } else {
        v as i64
    }
}

/// The signed number that a byte is in two's complement.
pub fn to_i8(b: u8) -> (v: i8)
    ensures
        v == as_i8(b),
{
    if b >= 0x80 {
        (b as i16 - 0x100) as i8
    } else {
        b as i8
    }
}

/// The signed number that sixteen bits are in two's complement.
pub fn to_i16(b: u16) -> (v: i16)
    ensures
        v == as_i16(b),
{
    if b >= 0x8000 {
        (b as i32 - 0x1_0000) as i16
    } else {
        b as i16
    }
}

/// The signed number that thirty-two bits are in two's complement.
pub fn to_i32(b: u32) -> (v: i32)
    ensures
        v == as_i32(b),
{
    if b >= 0x8000_0000 {
        (b as i64 - 0x1_0000_0000) as i32
    } else {
        b as i32
    }
}

/// The signed number that sixty-four bits are in two's complement.
pub fn to_i64(b: u64) -> (v: i64)
    ensures
        v == as_i64(b),
{
    if b >= 0x8000_0000_0000_0000 {
        ((b - 0x8000_0000_0000_0000) as i64) + i64::MIN
    } else {
        b as i64
    }
}

} // verus!
