//! The serializer: the writers of the wire format behind one value that
//! owns the sink, with the encoder's own error.

use crate::io::{appended, emitted, Sink, WriteError, WriteSlices};
use crate::msgpack::array::array_header;
use crate::msgpack::bin::bin_token;
use crate::msgpack::boolean::bool_bytes;
use crate::msgpack::ext::ext_token;
use crate::msgpack::float::{f32_bytes, f64_bytes};
use crate::msgpack::integer::{i64_bytes, u64_bytes};
use crate::msgpack::map::map_header;
use crate::msgpack::nil::nil_bytes;
use crate::msgpack::string::str_token;
use crate::msgpack::{
    write_array_len, write_bin, write_bool, write_ext, write_f32, write_f64, write_i64,
    write_map_len, write_nil, write_str, write_str_bytes, write_u64,
};
use crate::serialize::error::{encoded, Emitted, EncodeError};
use vstd::prelude::*;
use vstd::string::StringSliceAdditionalSpecFns;

verus! {

/// The deepest nesting of containers that is encoded.
pub const RECURSION_LIMIT: u8 = 255;

/// The result of a write, as the encoder's result.
pub fn lift(r: Result<(), WriteError>) -> (out: Result<(), EncodeError>)
    ensures
        out == match r {
            Ok(()) => Ok::<(), EncodeError>(()),
            Err(_) => Err::<(), EncodeError>(EncodeError::Write),
        },
{
    match r {
        Ok(()) => Ok(()),
        Err(e) => Err(EncodeError::from_write(e)),
    }
}

/// A write of bytes that always have a token is an encoding of them.
pub proof fn lemma_appended_encoded(pre: Sink, post: Sink, r: Result<(), WriteError>, bytes: Seq<u8>)
    requires
        appended(pre, post, r, bytes),
    ensures
        encoded(
            pre,
            post,
            match r {
                Ok(()) => Ok::<(), EncodeError>(()),
                Err(_) => Err::<(), EncodeError>(EncodeError::Write),
            },
            Emitted::ok(bytes),
        ),
{
}

/// A write of a token, or its refusal, is an encoding of it.
pub proof fn lemma_emitted_encoded(
    pre: Sink,
    post: Sink,
    r: Result<(), WriteError>,
    token: Option<Seq<u8>>,
)
    requires
        emitted(pre, post, r, token),
    ensures
        encoded(
            pre,
            post,
            match r {
                Ok(()) => Ok::<(), EncodeError>(()),
                Err(_) => Err::<(), EncodeError>(EncodeError::Write),
            },
            Emitted::token(token),
        ),
{
    if token is None {
        assert(pre.written + Seq::<u8>::empty() =~= pre.written);
    }
}

/// Writes one extension value under a tag that is fixed beforehand.
pub struct ExtSerializer<'a, W> {
    pub tag: i8,
    pub writer: &'a mut W,
}

impl<'a, W> ExtSerializer<'a, W> where W: WriteSlices {
    /// A serializer that writes to `writer` under the tag `tag`.
    #[inline]
    pub fn new(tag: i8, writer: &'a mut W) -> (se: Self)
        ensures
            se.tag == tag,
            se.writer.sink() == old(writer).sink(),
            final(se.writer).sink() == final(writer).sink(),
    {
        Self { tag: tag, writer: writer }
    }

    /// Writes the payload of the extension value.
    pub fn serialize_bytes(self, value: &[u8]) -> (r: Result<(), EncodeError>)
        ensures
            encoded(
                old(self.writer).sink(),
                final(self.writer).sink(),
                r,
                Emitted::token(ext_token(value@, self.tag)),
            ),
    {
        let ghost pre = self.writer.sink();
        let r = write_ext(self.writer, value, self.tag);
        proof {
            lemma_emitted_encoded(pre, self.writer.sink(), r, ext_token(value@, self.tag));
        }
        lift(r)
    }
}

/// Writes MessagePack tokens to the sink that it owns.
pub struct MessagePackSerializer<W> {
    writer: W,
}

impl<W> MessagePackSerializer<W> where W: WriteSlices {
    /// A serializer that writes to `writer`.
    #[inline]
    pub fn new(writer: W) -> (se: Self)
        ensures
            se.sink() == writer.sink(),
            se.writer() == writer,
    {
        MessagePackSerializer { writer }
    }

    /// The sink, as a value.
    pub closed spec fn writer(&self) -> W {
        self.writer
    }

    /// What the sink holds and how much more it takes.
    pub open spec fn sink(&self) -> Sink {
        self.writer().sink()
    }

    /// Hands the sink back.
    pub fn into_inner(self) -> (writer: W)
        ensures
            writer == self.writer(),
    {
        self.writer
    }

    /// Writes a boolean.
    pub fn serialize_bool(&mut self, value: bool) -> (r: Result<(), EncodeError>)
        ensures
            encoded(old(self).sink(), final(self).sink(), r, Emitted::ok(bool_bytes(value))),
    {
        let ghost pre = self.sink();
        let r = write_bool(&mut self.writer, value);
        proof {
            lemma_appended_encoded(pre, self.sink(), r, bool_bytes(value));
        }
        lift(r)
    }

    /// Writes a signed integer.
    pub fn serialize_i64(&mut self, value: i64) -> (r: Result<(), EncodeError>)
        ensures
            encoded(old(self).sink(), final(self).sink(), r, Emitted::ok(i64_bytes(value))),
    {
        let ghost pre = self.sink();
        let r = write_i64(&mut self.writer, value);
        proof {
            lemma_appended_encoded(pre, self.sink(), r, i64_bytes(value));
        }
        lift(r)
    }

    /// Writes an unsigned integer.
    pub fn serialize_u64(&mut self, value: u64) -> (r: Result<(), EncodeError>)
        ensures
            encoded(old(self).sink(), final(self).sink(), r, Emitted::ok(u64_bytes(value))),
    {
        let ghost pre = self.sink();
        let r = write_u64(&mut self.writer, value);
        proof {
            lemma_appended_encoded(pre, self.sink(), r, u64_bytes(value));
        }
        lift(r)
    }

    /// Writes a single-precision number, given by its bit pattern.
    pub fn serialize_f32(&mut self, bits: u32) -> (r: Result<(), EncodeError>)
        ensures
            encoded(old(self).sink(), final(self).sink(), r, Emitted::ok(f32_bytes(bits))),
    {
        let ghost pre = self.sink();
        let r = write_f32(&mut self.writer, bits);
        proof {
            lemma_appended_encoded(pre, self.sink(), r, f32_bytes(bits));
        }
        lift(r)
    }

    /// Writes a double-precision number, given by its bit pattern.
    pub fn serialize_f64(&mut self, bits: u64) -> (r: Result<(), EncodeError>)
        ensures
            encoded(old(self).sink(), final(self).sink(), r, Emitted::ok(f64_bytes(bits))),
    {
        let ghost pre = self.sink();
        let r = write_f64(&mut self.writer, bits);
        proof {
            lemma_appended_encoded(pre, self.sink(), r, f64_bytes(bits));
        }
        lift(r)
    }

    /// Writes a string.
    pub fn serialize_str(&mut self, value: &str) -> (r: Result<(), EncodeError>)
        ensures
            encoded(
                old(self).sink(),
                final(self).sink(),
                r,
                Emitted::token(str_token(value.spec_bytes())),
            ),
    {
        let ghost pre = self.sink();
        let r = write_str(&mut self.writer, value);
        proof {
            lemma_emitted_encoded(pre, self.sink(), r, str_token(value.spec_bytes()));
        }
        lift(r)
    }

    /// Writes a string that is given by its UTF-8 bytes.
    pub fn serialize_text(&mut self, value: &[u8]) -> (r: Result<(), EncodeError>)
        ensures
            encoded(old(self).sink(), final(self).sink(), r, Emitted::token(str_token(value@))),
    {
        let ghost pre = self.sink();
        let r = write_str_bytes(&mut self.writer, value);
        proof {
            lemma_emitted_encoded(pre, self.sink(), r, str_token(value@));
        }
        lift(r)
    }

    /// Writes a binary payload.
    pub fn serialize_bytes(&mut self, value: &[u8]) -> (r: Result<(), EncodeError>)
        ensures
            encoded(old(self).sink(), final(self).sink(), r, Emitted::token(bin_token(value@))),
    {
        let ghost pre = self.sink();
        let r = write_bin(&mut self.writer, value);
        proof {
            lemma_emitted_encoded(pre, self.sink(), r, bin_token(value@));
        }
        lift(r)
    }

    /// Writes nil.
    pub fn serialize_unit(&mut self) -> (r: Result<(), EncodeError>)
        ensures
            encoded(old(self).sink(), final(self).sink(), r, Emitted::ok(nil_bytes())),
    {
        let ghost pre = self.sink();
        let r = write_nil(&mut self.writer);
        proof {
            lemma_appended_encoded(pre, self.sink(), r, nil_bytes());
        }
        lift(r)
    }

    /// Writes nil, for a value that is absent.
    pub fn serialize_none(&mut self) -> (r: Result<(), EncodeError>)
        ensures
            encoded(old(self).sink(), final(self).sink(), r, Emitted::ok(nil_bytes())),
    {
        self.serialize_unit()
    }

    /// Writes an extension value. The index 128 stands for the tag -1, the
    /// timestamp; any other index is the tag itself.
    pub fn serialize_newtype_variant(&mut self, variant_index: u32, value: &[u8]) -> (r: Result<
        (),
        EncodeError,
    >)
        requires
            variant_index <= 128,
        ensures
            encoded(
                old(self).sink(),
                final(self).sink(),
                r,
                Emitted::token(ext_token(value@, variant_tag(variant_index))),
            ),
    {
        let tag: i8 = if variant_index == 128 {
            -1
        } else {
            variant_index as i8
        };
        let ext_se = ExtSerializer::new(tag, &mut self.writer);
        ext_se.serialize_bytes(value)
    }

    /// Writes a signed integer of eight bits.
    pub fn serialize_i8(&mut self, value: i8) -> (r: Result<(), EncodeError>)
        ensures
            encoded(old(self).sink(), final(self).sink(), r, Emitted::ok(i64_bytes(value as i64))),
    {
        self.serialize_i64(value as i64)
    }

    /// Writes a signed integer of sixteen bits.
    pub fn serialize_i16(&mut self, value: i16) -> (r: Result<(), EncodeError>)
        ensures
            encoded(old(self).sink(), final(self).sink(), r, Emitted::ok(i64_bytes(value as i64))),
    {
        self.serialize_i64(value as i64)
    }

    /// Writes a signed integer of thirty-two bits.
    pub fn serialize_i32(&mut self, value: i32) -> (r: Result<(), EncodeError>)
        ensures
            encoded(old(self).sink(), final(self).sink(), r, Emitted::ok(i64_bytes(value as i64))),
    {
        self.serialize_i64(value as i64)
    }

    /// Writes an unsigned integer of eight bits.
    pub fn serialize_u8(&mut self, value: u8) -> (r: Result<(), EncodeError>)
        ensures
            encoded(old(self).sink(), final(self).sink(), r, Emitted::ok(u64_bytes(value as u64))),
    {
        self.serialize_u64(value as u64)
    }

    /// Writes an unsigned integer of sixteen bits.
    pub fn serialize_u16(&mut self, value: u16) -> (r: Result<(), EncodeError>)
        ensures
            encoded(old(self).sink(), final(self).sink(), r, Emitted::ok(u64_bytes(value as u64))),
    {
        self.serialize_u64(value as u64)
    }

    /// Writes an unsigned integer of thirty-two bits.
    pub fn serialize_u32(&mut self, value: u32) -> (r: Result<(), EncodeError>)
        ensures
            encoded(old(self).sink(), final(self).sink(), r, Emitted::ok(u64_bytes(value as u64))),
    {
        self.serialize_u64(value as u64)
    }

    /// Writes an unsigned integer of 128 bits: as a payload of its sixteen
    /// bytes, high byte first.
    pub fn serialize_u128(&mut self, value: u128) -> (r: Result<(), EncodeError>)
        ensures
            encoded(
                old(self).sink(),
                final(self).sink(),
                r,
                Emitted::token(bin_token(crate::msgpack::endian::be128(value))),
            ),
    {
        let bytes = crate::msgpack::endian::u128_be(value);
        self.serialize_bytes(bytes.as_slice())
    }

    /// Writes a signed integer of 128 bits: as a payload of its sixteen
    /// bytes in two's complement, high byte first.
    pub fn serialize_i128(&mut self, value: i128) -> (r: Result<(), EncodeError>)
        ensures
            encoded(
                old(self).sink(),
                final(self).sink(),
                r,
                Emitted::token(
                    bin_token(
                        crate::msgpack::endian::be128(
                            crate::msgpack::endian::twos_complement_128(value),
                        ),
                    ),
                ),
            ),
    {
        let wide: u128 = if value < 0 {
            (value - i128::MIN) as u128 + 0x8000_0000_0000_0000_0000_0000_0000_0000u128
        } else {
            value as u128
        };
        self.serialize_u128(wide)
    }

    /// Writes the head of an array of `len` elements; the elements are
    /// written after it.
    pub fn serialize_seq(&mut self, len: usize) -> (r: Result<(), EncodeError>)
        ensures
            encoded(
                old(self).sink(),
                final(self).sink(),
                r,
                Emitted::token(array_header(len as nat)),
            ),
    {
        let ghost pre = self.sink();
        let r = write_array_len(&mut self.writer, len);
        proof {
            lemma_emitted_encoded(pre, self.sink(), r, array_header(len as nat));
        }
        lift(r)
    }

    /// Writes the head of a map of `len` entries; keys and values are
    /// written after it, in turn.
    pub fn serialize_map(&mut self, len: usize) -> (r: Result<(), EncodeError>)
        ensures
            encoded(
                old(self).sink(),
                final(self).sink(),
                r,
                Emitted::token(map_header(len as nat)),
            ),
    {
        let ghost pre = self.sink();
        let r = write_map_len(&mut self.writer, len);
        proof {
            lemma_emitted_encoded(pre, self.sink(), r, map_header(len as nat));
        }
        lift(r)
    }
}

/// The elements of an array or the entries of a map, as they are being
/// written: each one goes to the serializer that the head went to.
pub struct Compound<'a, W> {
    pub se: &'a mut MessagePackSerializer<W>,
}

impl<'a, W> Compound<'a, W> where W: WriteSlices {
    /// Goes on after the head of a container was written to `se`.
    pub fn new(se: &'a mut MessagePackSerializer<W>) -> (c: Self)
        ensures
            *c.se == *old(se),
            *final(c.se) == *final(se),
    {
        Compound { se }
    }

    /// Ends the container: nothing follows its last child.
    pub fn end(self) -> (r: Result<(), EncodeError>)
        ensures
            r is Ok,
            *final(self.se) == *old(self.se),
    {
        Ok(())
    }
}

/// The tag that a variant index stands for.
pub open spec fn variant_tag(variant_index: u32) -> i8 {
    if variant_index == 128 {
        -1i8
    } else {
        variant_index as i8
    }
}

} // verus!
