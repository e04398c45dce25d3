//! Binary tokens: a length prefix, then the bytes.

use crate::io::{
    emitted, lemma_concat_2, lemma_concat_3, slices_view, WriteError, WriteSlices,
};
use crate::msgpack::endian::{be16, be32, u16_be, u32_be};
use crate::msgpack::marker::Marker;
use vstd::prelude::*;

verus! {

/// The length prefix of a payload of `len` bytes, where the format has one.
pub open spec fn bin_header(len: nat) -> Option<Seq<u8>> {
    if len < 0x100 {
        Some(seq![0xc4u8, len as u8])
    } else if len < 0x1_0000 {
        Some(seq![0xc5u8] + be16(len as u16))
    } else if len <= 0xffff_ffff {
        Some(seq![0xc6u8] + be32(len as u32))
    } else {
        None
    }
}

/// The token of the payload `bytes`.
pub open spec fn bin_token(bytes: Seq<u8>) -> Option<Seq<u8>> {
    match bin_header(bytes.len()) {
        Some(header) => Some(header + bytes),
        None => None,
    }
}

/// Writes a binary payload.
pub fn write_bin<W>(writer: &mut W, value: &[u8]) -> (r: Result<(), WriteError>) where
    W: WriteSlices,

    ensures
        emitted(old(writer).sink(), final(writer).sink(), r, bin_token(value@)),
{
    let len = value.len();
    if len < 256 {
        let head = [Marker::Bin8.to_u8(), len as u8];
        let bufs = [head.as_slice(), value];
        proof {
            lemma_concat_2(slices_view(bufs));
            assert(head@ =~= bin_header(len as nat).unwrap());
        }
        writer.write_slices(bufs)
    } else if len < 65536 {
        let head = [Marker::Bin16.to_u8()];
        let size = u16_be(len as u16);
        let bufs = [head.as_slice(), size.as_slice(), value];
        proof {
            lemma_concat_3(slices_view(bufs));
            assert(head@ + size@ =~= bin_header(len as nat).unwrap());
        }
        writer.write_slices(bufs)
    } else if len <= 4294967295 {
        let head = [Marker::Bin32.to_u8()];
        let size = u32_be(len as u32);
        let bufs = [head.as_slice(), size.as_slice(), value];
        proof {
            lemma_concat_3(slices_view(bufs));
            assert(head@ + size@ =~= bin_header(len as nat).unwrap());
        }
        writer.write_slices(bufs)
    } else {
        Err(WriteError::InvalidInput)
    }
}

} // verus!
