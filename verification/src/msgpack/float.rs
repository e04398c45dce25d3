//! Floating-point tokens. A number travels as its IEEE 754 bit pattern.

use crate::io::{appended, lemma_concat_2, slices_view, WriteError, WriteSlices};
use crate::msgpack::endian::{be32, be64, u32_be, u64_be};
use crate::msgpack::marker::Marker;
use vstd::prelude::*;

verus! {

/// The token of the single-precision number with the bit pattern `bits`.
pub open spec fn f32_bytes(bits: u32) -> Seq<u8> {
    seq![0xcau8] + be32(bits)
}

/// The token of the double-precision number with the bit pattern `bits`.
pub open spec fn f64_bytes(bits: u64) -> Seq<u8> {
    seq![0xcbu8] + be64(bits)
}

/// Writes a single-precision number, given by its bit pattern.
pub fn write_f32<W>(writer: &mut W, bits: u32) -> (r: Result<(), WriteError>) where
    W: WriteSlices,

    ensures
        appended(old(writer).sink(), final(writer).sink(), r, f32_bytes(bits)),
{
    let head = [Marker::F32.to_u8()];
    let body = u32_be(bits);
    let bufs = [head.as_slice(), body.as_slice()];
    proof {
        lemma_concat_2(slices_view(bufs));
        assert(head@ + body@ =~= f32_bytes(bits));
    }
    writer.write_slices(bufs)
}

/// Writes a double-precision number, given by its bit pattern.
pub fn write_f64<W>(writer: &mut W, bits: u64) -> (r: Result<(), WriteError>) where
    W: WriteSlices,

    ensures
        appended(old(writer).sink(), final(writer).sink(), r, f64_bytes(bits)),
{
    let head = [Marker::F64.to_u8()];
    let body = u64_be(bits);
    let bufs = [head.as_slice(), body.as_slice()];
    proof {
        lemma_concat_2(slices_view(bufs));
        assert(head@ + body@ =~= f64_bytes(bits));
    }
    writer.write_slices(bufs)
}

} // verus!
