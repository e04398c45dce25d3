//! Integer tokens: the shortest form that holds the value.

use crate::io::{appended, lemma_concat_1, lemma_concat_2, slices_view, WriteError, WriteSlices};
use crate::msgpack::endian::{be16, be32, be64, u16_be, u32_be, u64_be};
use crate::msgpack::marker::Marker;
use vstd::prelude::*;

verus! {

/// The token of an unsigned integer.
pub open spec fn u64_bytes(value: u64) -> Seq<u8> {
    if value < 0x80 {
        seq![value as u8]
    } else if value < 0x100 {
        seq![0xccu8, value as u8]
    } else if value < 0x1_0000 {
        seq![0xcdu8] + be16(value as u16)
    } else if value <= 0xffff_ffff {
        seq![0xceu8] + be32(value as u32)
    } else {
        seq![0xcfu8] + be64(value)
    }
}

/// The token of a signed integer. One that is not negative is written as
/// the unsigned integer that it is; a negative one in two's complement.
pub open spec fn i64_bytes(value: i64) -> Seq<u8> {
    if value >= 0 {
        u64_bytes(value as u64)
    } else if value >= -32 {
        seq![(value + 0x100) as u8]
    } else if value >= -0x80 {
        seq![0xd0u8, (value + 0x100) as u8]
    } else if value >= -0x8000 {
        seq![0xd1u8] + be16((value + 0x1_0000) as u16)
    } else if value >= -0x8000_0000 {
        seq![0xd2u8] + be32((value + 0x1_0000_0000) as u32)
    } else {
        seq![0xd3u8] + be64((value + 0x1_0000_0000_0000_0000) as u64)
    }
}

/// Writes an unsigned integer.
pub fn write_u64<W>(writer: &mut W, value: u64) -> (r: Result<(), WriteError>) where
    W: WriteSlices,

    ensures
        appended(old(writer).sink(), final(writer).sink(), r, u64_bytes(value)),
{
    if value < 128 {
        let head = [Marker::FixPos(value as u8).to_u8()];
        let bufs = [head.as_slice()];
        proof {
            lemma_concat_1(slices_view(bufs));
            assert(head@ =~= u64_bytes(value));
        }
        writer.write_slices(bufs)
    } else if value < 256 {
        let head = [Marker::U8.to_u8(), value as u8];
        let bufs = [head.as_slice()];
        proof {
            lemma_concat_1(slices_view(bufs));
            assert(head@ =~= u64_bytes(value));
        }
        writer.write_slices(bufs)
    } else if value < 65536 {
        let head = [Marker::U16.to_u8()];
        let body = u16_be(value as u16);
        let bufs = [head.as_slice(), body.as_slice()];
        proof {
            lemma_concat_2(slices_view(bufs));
            assert(head@ + body@ =~= u64_bytes(value));
        }
        writer.write_slices(bufs)
    } else if value <= 4294967295 {
        let head = [Marker::U32.to_u8()];
        let body = u32_be(value as u32);
        let bufs = [head.as_slice(), body.as_slice()];
        proof {
            lemma_concat_2(slices_view(bufs));
            assert(head@ + body@ =~= u64_bytes(value));
        }
        writer.write_slices(bufs)
    } else {
        let head = [Marker::U64.to_u8()];
        let body = u64_be(value);
        let bufs = [head.as_slice(), body.as_slice()];
        proof {
            lemma_concat_2(slices_view(bufs));
            assert(head@ + body@ =~= u64_bytes(value));
        }
        writer.write_slices(bufs)
    }
}

/// Writes a signed integer.
pub fn write_i64<W>(writer: &mut W, value: i64) -> (r: Result<(), WriteError>) where
    W: WriteSlices,

    ensures
        appended(old(writer).sink(), final(writer).sink(), r, i64_bytes(value)),
{
    if value < 0 {
        if value >= -32 {
            let head = [Marker::FixNeg(value as i8).to_u8()];
            let bufs = [head.as_slice()];
            proof {
                lemma_concat_1(slices_view(bufs));
                assert(head@ =~= i64_bytes(value));
            }
            writer.write_slices(bufs)
        } else if value >= -128 {
            let head = [Marker::I8.to_u8(), (value + 256) as u8];
            let bufs = [head.as_slice()];
            proof {
                lemma_concat_1(slices_view(bufs));
                assert(head@ =~= i64_bytes(value));
            }
            writer.write_slices(bufs)
        } else if value >= -32768 {
            let head = [Marker::I16.to_u8()];
            let body = u16_be((value + 65536) as u16);
            let bufs = [head.as_slice(), body.as_slice()];
            proof {
                lemma_concat_2(slices_view(bufs));
                assert(head@ + body@ =~= i64_bytes(value));
            }
            writer.write_slices(bufs)
        } else if value >= -2147483648 {
            let head = [Marker::I32.to_u8()];
            let body = u32_be((value + 4294967296) as u32);
            let bufs = [head.as_slice(), body.as_slice()];
            proof {
                lemma_concat_2(slices_view(bufs));
                assert(head@ + body@ =~= i64_bytes(value));
            }
            writer.write_slices(bufs)
        } else {
            let head = [Marker::I64.to_u8()];
            let low: u64 = (value - i64::MIN) as u64;
            let body = u64_be(low + 0x8000_0000_0000_0000u64);
            let bufs = [head.as_slice(), body.as_slice()];
            proof {
                lemma_concat_2(slices_view(bufs));
                assert(head@ + body@ =~= i64_bytes(value));
            }
            writer.write_slices(bufs)
        }
    } else {
        write_u64(writer, value as u64)
    }
}

} // verus!
