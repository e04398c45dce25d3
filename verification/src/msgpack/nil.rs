//! The nil token.

use crate::io::{appended, lemma_concat_1, slices_view, WriteError, WriteSlices};
use crate::msgpack::marker::Marker;
use vstd::prelude::*;

verus! {

/// The one byte of nil.
pub open spec fn nil_bytes() -> Seq<u8> {
    seq![0xc0u8]
}

/// Writes nil.
pub fn write_nil<W>(writer: &mut W) -> (r: Result<(), WriteError>) where W: WriteSlices
    ensures
        appended(old(writer).sink(), final(writer).sink(), r, nil_bytes()),
{
    let head = [Marker::Null.to_u8()];
    let bufs = [head.as_slice()];
    proof {
        lemma_concat_1(slices_view(bufs));
        assert(head@ =~= nil_bytes());
    }
    writer.write_slices(bufs)
}

} // verus!
