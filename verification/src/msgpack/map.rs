//! The head of a map: its entry count. Keys and values follow in turn as
//! tokens of their own.

use crate::io::{emitted, lemma_concat_1, lemma_concat_2, slices_view, WriteError, WriteSlices};
use crate::msgpack::endian::{be16, be32, u16_be, u32_be};
use crate::msgpack::marker::Marker;
use vstd::prelude::*;

verus! {

/// The head of a map of `len` entries, where the format has one.
pub open spec fn map_header(len: nat) -> Option<Seq<u8>> {
    if len < 16 {
        Some(seq![(0x80 + len) as u8])
    } else if len < 0x1_0000 {
        Some(seq![0xdeu8] + be16(len as u16))
    } else if len <= 0xffff_ffff {
        Some(seq![0xdfu8] + be32(len as u32))
    } else {
        None
    }
}

/// Writes the head of a map of `len` entries.
pub fn write_map_len<W>(writer: &mut W, len: usize) -> (r: Result<(), WriteError>) where
    W: WriteSlices,

    ensures
        emitted(old(writer).sink(), final(writer).sink(), r, map_header(len as nat)),
{
    if len < 16 {
        let head = [Marker::FixMap(len as u8).to_u8()];
        let bufs = [head.as_slice()];
        proof {
            lemma_concat_1(slices_view(bufs));
            assert(head@ =~= map_header(len as nat).unwrap());
        }
        writer.write_slices(bufs)
    } else if len < 65536 {
        let head = [Marker::Map16.to_u8()];
        let size = u16_be(len as u16);
        let bufs = [head.as_slice(), size.as_slice()];
        proof {
            lemma_concat_2(slices_view(bufs));
            assert(head@ + size@ =~= map_header(len as nat).unwrap());
        }
        writer.write_slices(bufs)
    } else if len <= 4294967295 {
        let head = [Marker::Map32.to_u8()];
        let size = u32_be(len as u32);
        let bufs = [head.as_slice(), size.as_slice()];
        proof {
            lemma_concat_2(slices_view(bufs));
            assert(head@ + size@ =~= map_header(len as nat).unwrap());
        }
        writer.write_slices(bufs)
    } else {
        Err(WriteError::InvalidInput)
    }
}

} // verus!
