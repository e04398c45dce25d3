//! The values that are encoded as one token.

use crate::io::WriteSlices;
use crate::opt::{is_set, Opt, REPLACE_SURROGATES};
use crate::serialize::datetime::{Date, DateTime, Rendered, Time};
use crate::serialize::encoding::{
    datetime_key_emit, ext_emit, int_emit, int_in_range, leaf_emit, memoryview_emit, text_emit,
};
use crate::serialize::error::{encoded, lemma_encoded_unchanged, EncodeError};
use crate::serialize::serializer::MessagePackSerializer;
use crate::serialize::uuid::UUID;
use crate::value::{DateTimeValue, DateValue, Text, TimeValue, Value};
use vstd::prelude::*;

verus! {

/// Why an integer is not encoded.
#[derive(Clone, Copy, Debug, PartialEq, Eq, Structural)]
pub enum IntError {
    /// The integer lies outside the 64-bit range.
    Overflow,
}

/// An integer of the format: one that 64 bits hold.
#[derive(Clone, Copy, Debug, PartialEq, Eq, Structural)]
pub enum Int {
    Signed(i64),
    Unsigned(u64),
}

impl Int {
    /// The number.
    pub open spec fn view(&self) -> int {
        match *self {
            Int::Signed(v) => v as int,
            Int::Unsigned(v) => v as int,
        }
    }

    /// The integer `n` of the host, as an unsigned number where it is
    /// positive and as a signed one where it is not, unless 64 bits do not
    /// hold it.
    pub fn new(n: i128) -> (r: Result<Int, IntError>)
        ensures
            match r {
                Ok(Int::Unsigned(v)) => n > 0 && v == n,
                Ok(Int::Signed(v)) => n <= 0 && v == n,
                Err(_) => !int_in_range(n as int),
            },
            int_in_range(n as int) ==> r is Ok,
    {
        if n > 0 {
            if n <= 0xffff_ffff_ffff_ffff {
                Ok(Int::Unsigned(n as u64))
            } else {
                Err(IntError::Overflow)
            }
        } else if n >= -0x8000_0000_0000_0000 {
            Ok(Int::Signed(n as i64))
        } else {
            Err(IntError::Overflow)
        }
    }

    /// Writes the integer.
    pub fn serialize<W: WriteSlices>(&self, se: &mut MessagePackSerializer<W>) -> (r: Result<
        (),
        EncodeError,
    >)
        ensures
            encoded(old(se).sink(), final(se).sink(), r, int_emit(self@)),
    {
        match self {
            Int::Signed(value) => se.serialize_i64(*value),
            Int::Unsigned(value) => se.serialize_u64(*value),
        }
    }
}

/// Writes an integer of the host.
pub fn serialize_int<W: WriteSlices>(n: i128, se: &mut MessagePackSerializer<W>) -> (r: Result<
    (),
    EncodeError,
>)
    ensures
        encoded(old(se).sink(), final(se).sink(), r, int_emit(n as int)),
{
    match Int::new(n) {
        Ok(val) => val.serialize(se),
        Err(_) => {
            proof {
                lemma_encoded_unchanged(se.sink(), Err(EncodeError::IntegerOutOfRange));
            }
            Err(EncodeError::IntegerOutOfRange)
        },
    }
}

/// Writes a string of the host.
pub fn serialize_text<W: WriteSlices>(
    text: &Text,
    se: &mut MessagePackSerializer<W>,
    opts: Opt,
) -> (r: Result<(), EncodeError>)
    ensures
        encoded(old(se).sink(), final(se).sink(), r, text_emit(text@, opts)),
{
    match text {
        Text::Utf8(s) => se.serialize_str(s.as_str()),
        Text::Surrogates { lossy } => {
            if is_set(opts, REPLACE_SURROGATES) {
                match lossy {
                    Some(s) => {
                        return se.serialize_str(s.as_str());
                    },
                    None => {},
                }
            }
            proof {
                lemma_encoded_unchanged(se.sink(), Err(EncodeError::InvalidStr));
            }
            Err(EncodeError::InvalidStr)
        },
    }
}

/// Writes an extension value.
pub fn serialize_ext<W: WriteSlices>(
    tag: i64,
    data: &[u8],
    se: &mut MessagePackSerializer<W>,
) -> (r: Result<(), EncodeError>)
    ensures
        encoded(old(se).sink(), final(se).sink(), r, ext_emit(tag, data@)),
{
    if !(0 <= tag && tag <= 127) {
        proof {
            lemma_encoded_unchanged(se.sink(), Err(EncodeError::ExtTagOutOfRange));
        }
        return Err(EncodeError::ExtTagOutOfRange);
    }
    se.serialize_newtype_variant(tag as u32, data)
}

/// Writes the bytes of a view of memory.
pub fn serialize_memoryview<W: WriteSlices>(
    bytes: &Option<Vec<u8>>,
    se: &mut MessagePackSerializer<W>,
) -> (r: Result<(), EncodeError>)
    ensures
        encoded(
            old(se).sink(),
            final(se).sink(),
            r,
            memoryview_emit(
                match *bytes {
                    Some(b) => Some(b@),
                    None => None,
                },
            ),
        ),
{
    match bytes {
        Some(contents) => se.serialize_bytes(contents.as_slice()),
        None => {
            proof {
                lemma_encoded_unchanged(se.sink(), Err(EncodeError::MemoryViewNotContiguous));
            }
            Err(EncodeError::MemoryViewNotContiguous)
        },
    }
}

/// Writes a date.
pub fn serialize_date<W: WriteSlices>(value: DateValue, se: &mut MessagePackSerializer<W>) -> (r:
    Result<(), EncodeError>)
    ensures
        encoded(
            old(se).sink(),
            final(se).sink(),
            r,
            crate::serialize::datetime::date_emit(value),
        ),
{
    let text = Date::new(value).render();
    se.serialize_text(text.as_slice())
}

/// Writes a time of day.
pub fn serialize_time<W: WriteSlices>(
    value: TimeValue,
    se: &mut MessagePackSerializer<W>,
    opts: Opt,
) -> (r: Result<(), EncodeError>)
    ensures
        encoded(
            old(se).sink(),
            final(se).sink(),
            r,
            crate::serialize::datetime::time_emit(value, opts),
        ),
{
    match Time::new(value, opts) {
        Ok(time) => {
            let text = time.render();
            se.serialize_text(text.as_slice())
        },
        Err(_) => {
            proof {
                lemma_encoded_unchanged(se.sink(), Err(EncodeError::TimeHasTimezone));
            }
            Err(EncodeError::TimeHasTimezone)
        },
    }
}

/// Writes a date and time.
pub fn serialize_datetime<W: WriteSlices>(
    value: DateTimeValue,
    se: &mut MessagePackSerializer<W>,
    opts: Opt,
) -> (r: Result<(), EncodeError>)
    ensures
        encoded(
            old(se).sink(),
            final(se).sink(),
            r,
            crate::serialize::datetime::datetime_emit(value, opts),
        ),
{
    match DateTime::new(value, opts) {
        Ok(datetime) => match datetime.render() {
            Ok(Rendered::Text(text)) => se.serialize_text(text.as_slice()),
            Ok(Rendered::Timestamp(payload)) => se.serialize_newtype_variant(
                128,
                payload.as_slice(),
            ),
            Err(e) => {
                proof {
                    lemma_encoded_unchanged(se.sink(), Err(e));
                }
                Err(e)
            },
        },
        Err(_) => {
            proof {
                lemma_encoded_unchanged(se.sink(), Err(EncodeError::TzLibraryUnsupported));
            }
            Err(EncodeError::TzLibraryUnsupported)
        },
    }
}

/// Writes a date and time as a key: as its text.
pub fn serialize_datetime_key<W: WriteSlices>(
    value: DateTimeValue,
    se: &mut MessagePackSerializer<W>,
    opts: Opt,
) -> (r: Result<(), EncodeError>)
    ensures
        encoded(old(se).sink(), final(se).sink(), r, datetime_key_emit(value, opts)),
{
    match DateTime::new(value, opts) {
        Ok(datetime) => {
            let text = datetime.render_text();
            se.serialize_text(text.as_slice())
        },
        Err(_) => {
            proof {
                lemma_encoded_unchanged(se.sink(), Err(EncodeError::TzLibraryUnsupported));
            }
            Err(EncodeError::TzLibraryUnsupported)
        },
    }
}

/// Writes a UUID.
pub fn serialize_uuid<W: WriteSlices>(value: u128, se: &mut MessagePackSerializer<W>) -> (r:
    Result<(), EncodeError>)
    ensures
        encoded(
            old(se).sink(),
            final(se).sink(),
            r,
            crate::serialize::error::Emitted::token(
                crate::msgpack::string::str_token(crate::serialize::uuid::uuid_text(value)),
            ),
        ),
{
    let mut buf: Vec<u8> = Vec::new();
    UUID::new(value).write_buf(&mut buf);
    assert(buf@ =~= crate::serialize::uuid::uuid_text(value));
    se.serialize_text(buf.as_slice())
}

/// Writes a value that is encoded as one token. A value of another kind
/// is left alone.
pub fn serialize_leaf<W: WriteSlices>(
    value: &Value,
    se: &mut MessagePackSerializer<W>,
    opts: Opt,
) -> (r: Result<(), EncodeError>)
    ensures
        encoded(old(se).sink(), final(se).sink(), r, leaf_emit(value@, opts)),
{
    proof {
        crate::value::lemma_view(*value);
        reveal(leaf_emit);
    }
    match value {
        Value::Str(text) => serialize_text(text, se, opts),
        Value::Bytes(contents) => se.serialize_bytes(contents.as_slice()),
        Value::Int(n) => serialize_int(*n, se),
        Value::Bool(b) => se.serialize_bool(*b),
        Value::Null => se.serialize_unit(),
        Value::Float(bits) => se.serialize_f64(*bits),
        Value::DateTime(d) => serialize_datetime(*d, se, opts),
        Value::Date(d) => serialize_date(*d, se),
        Value::Time(t) => serialize_time(*t, se, opts),
        Value::Uuid(n) => serialize_uuid(*n, se),
        Value::StrSubclass(text) => serialize_text(text, se, opts),
        Value::IntSubclass(n) => serialize_int(*n, se),
        Value::Ext { tag, data } => serialize_ext(*tag, data.as_slice(), se),
        Value::Scalar(s) => crate::serialize::numpy::serialize_scalar(*s, se, opts),
        Value::Array(a) => match crate::serialize::numpy::NumpyArray::new(a, opts) {
            Ok(array) => array.serialize(se),
            Err(crate::serialize::numpy::PyArrayError::Malformed) => {
                proof {
                    lemma_encoded_unchanged(se.sink(), Err(EncodeError::ArrayMalformed));
                }
                Err(EncodeError::ArrayMalformed)
            },
            Err(_) => {
                proof {
                    lemma_encoded_unchanged(se.sink(), Err(EncodeError::ArrayNotContiguous));
                }
                Err(EncodeError::ArrayNotContiguous)
            },
        },
        Value::ByteArray(contents) => se.serialize_bytes(contents.as_slice()),
        Value::MemoryView(bytes) => serialize_memoryview(bytes, se),
        _ => {
            proof {
                lemma_encoded_unchanged(se.sink(), Ok(()));
            }
            Ok(())
        },
    }
}

} // verus!
