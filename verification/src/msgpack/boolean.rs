//! The two boolean tokens.

use crate::io::{appended, lemma_concat_1, slices_view, WriteError, WriteSlices};
use crate::msgpack::marker::Marker;
use vstd::prelude::*;

verus! {

/// The one byte of a boolean.
pub open spec fn bool_bytes(value: bool) -> Seq<u8> {
    if value {
        seq![0xc3u8]
    } else {
        seq![0xc2u8]
    }
}

/// Writes a boolean.
pub fn write_bool<W>(writer: &mut W, value: bool) -> (r: Result<(), WriteError>) where
    W: WriteSlices,

    ensures
        appended(old(writer).sink(), final(writer).sink(), r, bool_bytes(value)),
{
    let marker = if value {
        Marker::True
    } else {
        Marker::False
    };
    let head = [marker.to_u8()];
    let bufs = [head.as_slice()];
    proof {
        lemma_concat_1(slices_view(bufs));
        assert(head@ =~= bool_bytes(value));
    }
    writer.write_slices(bufs)
}

} // verus!
