//! String tokens: a length prefix, then the UTF-8 bytes.

use crate::io::{
    emitted, lemma_concat_2, lemma_concat_3, slices_view, WriteError, WriteSlices,
};
use crate::msgpack::endian::{be16, be32, u16_be, u32_be};
use crate::msgpack::marker::Marker;
use vstd::prelude::*;
use vstd::string::StringSliceAdditionalSpecFns;

verus! {

/// The length prefix of a string of `len` bytes, where the format has one.
pub open spec fn str_header(len: nat) -> Option<Seq<u8>> {
    if len < 32 {
        Some(seq![(0xa0 + len) as u8])
    } else if len < 0x100 {
        Some(seq![0xd9u8, len as u8])
    } else if len < 0x1_0000 {
        Some(seq![0xdau8] + be16(len as u16))
    } else if len <= 0xffff_ffff {
        Some(seq![0xdbu8] + be32(len as u32))
    } else {
        None
    }
}

/// The token of the string whose UTF-8 bytes are `bytes`.
pub open spec fn str_token(bytes: Seq<u8>) -> Option<Seq<u8>> {
    match str_header(bytes.len()) {
        Some(header) => Some(header + bytes),
        None => None,
    }
}

/// Writes a string.
pub fn write_str<W>(writer: &mut W, value: &str) -> (r: Result<(), WriteError>) where
    W: WriteSlices,

    ensures
        emitted(old(writer).sink(), final(writer).sink(), r, str_token(value.spec_bytes())),
{
    write_str_bytes(writer, value.as_bytes())
}

/// Writes a string that is given by its UTF-8 bytes.
pub fn write_str_bytes<W>(writer: &mut W, body: &[u8]) -> (r: Result<(), WriteError>) where
    W: WriteSlices,

    ensures
        emitted(old(writer).sink(), final(writer).sink(), r, str_token(body@)),
{
    let len = body.len();
    if len < 32 {
        let head = [Marker::FixStr(len as u8).to_u8()];
        let bufs = [head.as_slice(), body];
        proof {
            lemma_concat_2(slices_view(bufs));
            assert(head@ =~= str_header(len as nat).unwrap());
        }
        writer.write_slices(bufs)
    } else if len < 256 {
        let head = [Marker::Str8.to_u8(), len as u8];
        let bufs = [head.as_slice(), body];
        proof {
            lemma_concat_2(slices_view(bufs));
            assert(head@ =~= str_header(len as nat).unwrap());
        }
        writer.write_slices(bufs)
    } else if len < 65536 {
        let head = [Marker::Str16.to_u8()];
        let size = u16_be(len as u16);
        let bufs = [head.as_slice(), size.as_slice(), body];
        proof {
            lemma_concat_3(slices_view(bufs));
            assert(head@ + size@ =~= str_header(len as nat).unwrap());
        }
        writer.write_slices(bufs)
    } else if len <= 4294967295 {
        let head = [Marker::Str32.to_u8()];
        let size = u32_be(len as u32);
        let bufs = [head.as_slice(), size.as_slice(), body];
        proof {
            lemma_concat_3(slices_view(bufs));
            assert(head@ + size@ =~= str_header(len as nat).unwrap());
        }
        writer.write_slices(bufs)
    } else {
        Err(WriteError::InvalidInput)
    }
}

} // verus!
