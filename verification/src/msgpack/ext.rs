//! Extension tokens: a length, a signed tag, then the payload.

use crate::io::{
    emitted, lemma_concat_2, lemma_concat_4, slices_view, WriteError, WriteSlices,
};
use crate::msgpack::endian::{be16, be32, u16_be, u32_be};
use crate::msgpack::marker::Marker;
use vstd::prelude::*;

verus! {

/// The byte of a tag: the tag in two's complement.
pub open spec fn tag_byte(tag: i8) -> u8 {
    if tag < 0 {
        (tag + 0x100) as u8
    } else {
        tag as u8
    }
}

/// What stands before a payload of `len` bytes with the tag `tag`, where
/// the format has a form for that length. Five lengths have a form without
/// a length field.
pub open spec fn ext_header(len: nat, tag: i8) -> Option<Seq<u8>> {
    if len == 1 {
        Some(seq![0xd4u8, tag_byte(tag)])
    } else if len == 2 {
        Some(seq![0xd5u8, tag_byte(tag)])
    } else if len == 4 {
        Some(seq![0xd6u8, tag_byte(tag)])
    } else if len == 8 {
        Some(seq![0xd7u8, tag_byte(tag)])
    } else if len == 16 {
        Some(seq![0xd8u8, tag_byte(tag)])
    } else if len < 0x100 {
        Some(seq![0xc7u8, len as u8, tag_byte(tag)])
    } else if len < 0x1_0000 {
        Some(seq![0xc8u8] + be16(len as u16) + seq![tag_byte(tag)])
    } else if len <= 0xffff_ffff {
        Some(seq![0xc9u8] + be32(len as u32) + seq![tag_byte(tag)])
    } else {
        None
    }
}

/// The token of the payload `bytes` under the tag `tag`.
pub open spec fn ext_token(bytes: Seq<u8>, tag: i8) -> Option<Seq<u8>> {
    match ext_header(bytes.len(), tag) {
        Some(header) => Some(header + bytes),
        None => None,
    }
}

/// The byte of a tag.
pub fn tag_to_u8(tag: i8) -> (b: u8)
    ensures
        b == tag_byte(tag),
{
    if tag < 0 {
        let up: i16 = tag as i16 + 256;
        up as u8
    } else {
        tag as u8
    }
}

/// Writes an extension value.
pub fn write_ext<W>(writer: &mut W, value: &[u8], tag: i8) -> (r: Result<(), WriteError>) where
    W: WriteSlices,

    ensures
        emitted(old(writer).sink(), final(writer).sink(), r, ext_token(value@, tag)),
{
    let len = value.len();
    let tag_u8 = tag_to_u8(tag);
    if len == 1 || len == 2 || len == 4 || len == 8 || len == 16 {
        let marker = if len == 1 {
            Marker::FixExt1
        } else if len == 2 {
            Marker::FixExt2
        } else if len == 4 {
            Marker::FixExt4
        } else if len == 8 {
            Marker::FixExt8
        } else {
            Marker::FixExt16
        };
        let head = [marker.to_u8(), tag_u8];
        let bufs = [head.as_slice(), value];
        proof {
            lemma_concat_2(slices_view(bufs));
            assert(head@ =~= ext_header(len as nat, tag).unwrap());
        }
        writer.write_slices(bufs)
    } else if len < 256 {
        let head = [Marker::Ext8.to_u8(), len as u8, tag_u8];
        let bufs = [head.as_slice(), value];
        proof {
            lemma_concat_2(slices_view(bufs));
            assert(head@ =~= ext_header(len as nat, tag).unwrap());
        }
        writer.write_slices(bufs)
    } else if len < 65536 {
        let head = [Marker::Ext16.to_u8()];
        let size = u16_be(len as u16);
        let tail = [tag_u8];
        let bufs = [head.as_slice(), size.as_slice(), tail.as_slice(), value];
        proof {
            lemma_concat_4(slices_view(bufs));
            assert(head@ + size@ + tail@ =~= ext_header(len as nat, tag).unwrap());
        }
        writer.write_slices(bufs)
    } else if len <= 4294967295 {
        let head = [Marker::Ext32.to_u8()];
        let size = u32_be(len as u32);
        let tail = [tag_u8];
        let bufs = [head.as_slice(), size.as_slice(), tail.as_slice(), value];
        proof {
            lemma_concat_4(slices_view(bufs));
            assert(head@ + size@ + tail@ =~= ext_header(len as nat, tag).unwrap());
        }
        writer.write_slices(bufs)
    } else {
        Err(WriteError::InvalidInput)
    }
}

} // verus!
