//! The head of an array: its element count. The elements follow as tokens
//! of their own.

use crate::io::{emitted, lemma_concat_1, lemma_concat_2, slices_view, WriteError, WriteSlices};
use crate::msgpack::endian::{be16, be32, u16_be, u32_be};
use crate::msgpack::marker::Marker;
use vstd::prelude::*;

verus! {

/// The head of an array of `len` elements, where the format has one.
pub open spec fn array_header(len: nat) -> Option<Seq<u8>> {
    if len < 16 {
        Some(seq![(0x90 + len) as u8])
    } else if len < 0x1_0000 {
        Some(seq![0xdcu8] + be16(len as u16))
    } else if len <= 0xffff_ffff {
        Some(seq![0xddu8] + be32(len as u32))
    } else {
        None
    }
}

/// Writes the head of an array of `len` elements.
pub fn write_array_len<W>(writer: &mut W, len: usize) -> (r: Result<(), WriteError>) where
    W: WriteSlices,

    ensures
        emitted(old(writer).sink(), final(writer).sink(), r, array_header(len as nat)),
{
    if len < 16 {
        let head = [Marker::FixArray(len as u8).to_u8()];
        let bufs = [head.as_slice()];
        proof {
            lemma_concat_1(slices_view(bufs));
            assert(head@ =~= array_header(len as nat).unwrap());
        }
        writer.write_slices(bufs)
    } else if len < 65536 {
        let head = [Marker::Array16.to_u8()];
        let size = u16_be(len as u16);
        let bufs = [head.as_slice(), size.as_slice()];
        proof {
            lemma_concat_2(slices_view(bufs));
            assert(head@ + size@ =~= array_header(len as nat).unwrap());
        }
        writer.write_slices(bufs)
    } else if len <= 4294967295 {
        let head = [Marker::Array32.to_u8()];
        let size = u32_be(len as u32);
        let bufs = [head.as_slice(), size.as_slice()];
        proof {
            lemma_concat_2(slices_view(bufs));
            assert(head@ + size@ =~= array_header(len as nat).unwrap());
        }
        writer.write_slices(bufs)
    } else {
        Err(WriteError::InvalidInput)
    }
}

} // verus!
