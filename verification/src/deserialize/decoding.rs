//! What decoding reads from bytes: the contract of the decoder.

use crate::msgpack::endian::{as_i16, as_i32, as_i64, as_i8, from_be16, from_be32, from_be64};
use crate::msgpack::marker::Marker;
use crate::opt::{holds, Opt, NON_STR_KEYS};
use crate::value::{TextView, ValueView};
use vstd::prelude::*;
use vstd::utf8::{decode_utf8, valid_utf8};

verus! {

/// The deepest nesting of containers that is decoded.
pub const RECURSION_LIMIT: u16 = 1024;

/// Why bytes could not be decoded.
#[derive(Clone, Copy, Debug, PartialEq, Eq, Structural)]
pub enum Error {
    /// The extension hook failed on an extension value.
    ExtHookFailed,
    /// There is an extension value and no extension hook.
    ExtHookMissing,
    /// The decoder lost its place. No bytes lead to this.
    Internal,
    /// A string is not UTF-8.
    InvalidStr,
    /// A token of a kind that cannot stand where it was found.
    InvalidType(Marker),
    /// Containers are nested deeper than the ceiling.
    RecursionLimitReached,
    /// The bytes end inside a token.
    UnexpectedEof,
}

impl Error {
    /// The text that a caller is shown. A token of the wrong kind is named
    /// by its marker.
    pub open spec fn text(self) -> Seq<char> {
        match self {
            Error::ExtHookFailed => "ext_hook failed"@,
            Error::ExtHookMissing => "ext_hook missing"@,
            Error::Internal => "internal error"@,
            Error::InvalidStr => "str is not valid UTF-8: surrogates not allowed"@,
            Error::InvalidType(marker) => "invalid type "@ + marker.description(),
            Error::RecursionLimitReached => "Recursion limit reached"@,
            Error::UnexpectedEof => "unexpected end of file"@,
        }
    }

    /// The text that a caller is shown.
    pub fn message(&self) -> (s: String)
        ensures
            s@ == self.text(),
    {
        match self {
            Error::ExtHookFailed => "ext_hook failed".to_owned(),
            Error::ExtHookMissing => "ext_hook missing".to_owned(),
            Error::Internal => "internal error".to_owned(),
            Error::InvalidStr => "str is not valid UTF-8: surrogates not allowed".to_owned(),
            Error::InvalidType(marker) => {
                let mut s = "invalid type ".to_owned();
                let words = marker.describe();
                vstd::string::StringExecFns::append(&mut s, words.as_str());
                s
            },
            Error::RecursionLimitReached => "Recursion limit reached".to_owned(),
            Error::UnexpectedEof => "unexpected end of file".to_owned(),
        }
    }
}

/// What the extension hook does, as a contract sees it: for a tag and a
/// payload the value that it hands back, or nothing where it fails.
pub type ExtModel = spec_fn(i8, Seq<u8>) -> Option<ValueView>;

/// What a decoding call is made with, besides the bytes.
pub struct Context {
    pub opts: Opt,
    /// The extension hook, where there is one.
    pub hook: Option<ExtModel>,
}

/// What was read: a value and the bytes that are left, or an error.
pub type Decoded<T> = Result<(T, Seq<u8>), Error>;

/// A significand below 2^23 that is not zero, doubled until it is 2^23 or
/// more, and an exponent that is lowered by one with each doubling.
pub open spec fn normalize(frac: int, exp: int) -> (int, int)
    decreases
            if frac < 0x80_0000 {
                0x80_0000 - frac
            } else {
                0
            },
{
    if frac <= 0 || frac >= 0x80_0000 {
        (frac, exp)
    } else {
        normalize(frac * 2, exp - 1)
    }
}

/// The bit pattern of the double-precision number that has the value of
/// the single-precision number with the bit pattern `bits`: the sign, the
/// exponent under the wider bias, and the significand in the high bits of
/// the wider one. A number too small for a leading one gets its leading
/// one; one that is no number becomes a quiet one with the same payload.
#[verifier::opaque]
pub open spec fn widen(bits: u32) -> u64 {
    let sign: int = bits as int / 0x8000_0000;
    let exp: int = bits as int / 0x80_0000 % 0x100;
    let frac: int = bits as int % 0x80_0000;
    let high: int = sign * 0x8000_0000_0000_0000;
    if exp == 0xff {
        (high + 0x7ff0_0000_0000_0000 + frac * 0x2000_0000 + (if frac != 0 && frac < 0x40_0000 {
            0x8_0000_0000_0000int
        } else {
            0
        })) as u64
    } else if exp == 0 {
        if frac == 0 {
            high as u64
        } else {
            let (m, e) = normalize(frac, 897);
            (high + e * 0x10_0000_0000_0000 + (m - 0x80_0000) * 0x2000_0000) as u64
        }
    } else {
        (high + (exp + 896) * 0x10_0000_0000_0000 + frac * 0x2000_0000) as u64
    }
}

/// The first `n` bytes and the bytes after them, where there are `n`.
pub open spec fn take(data: Seq<u8>, n: nat) -> Decoded<Seq<u8>> {
    if n > data.len() {
        Err(Error::UnexpectedEof)
    } else {
        Ok((data.take(n as int), data.skip(n as int)))
    }
}

/// A length field of `width` bytes, and the bytes after it.
pub open spec fn read_len(data: Seq<u8>, width: nat) -> Decoded<nat> {
    match take(data, width) {
        Err(e) => Err(e),
        Ok((field, rest)) => Ok(
            (
                if width == 1 {
                    field[0] as nat
                } else if width == 2 {
                    from_be16(field) as nat
                } else if width == 4 {
                    from_be32(field) as nat
                } else {
                    0
                },
                rest,
            ),
        ),
    }
}

/// A string of `len` bytes.
pub open spec fn decode_str(data: Seq<u8>, len: nat) -> Decoded<ValueView> {
    match take(data, len) {
        Err(e) => Err(e),
        Ok((bytes, rest)) => if valid_utf8(bytes) {
            Ok((ValueView::Str(TextView::Utf8(decode_utf8(bytes))), rest))
        } else {
            Err(Error::InvalidStr)
        },
    }
}

/// A binary payload of `len` bytes.
pub open spec fn decode_bin(data: Seq<u8>, len: nat) -> Decoded<ValueView> {
    match take(data, len) {
        Err(e) => Err(e),
        Ok((bytes, rest)) => Ok((ValueView::Bytes(bytes), rest)),
    }
}

/// An extension value with a payload of `len` bytes: the tag, the payload,
/// and what the hook makes of them.
pub open spec fn decode_ext(data: Seq<u8>, len: nat, cx: Context) -> Decoded<ValueView> {
    match take(data, 1) {
        Err(e) => Err(e),
        Ok((tag, after)) => match take(after, len) {
            Err(e) => Err(e),
            Ok((payload, rest)) => match cx.hook {
                None => Err(Error::ExtHookMissing),
                Some(hook) => match hook(as_i8(tag[0]), payload) {
                    Some(v) => Ok((v, rest)),
                    None => Err(Error::ExtHookFailed),
                },
            },
        },
    }
}

/// The width of the length field that follows a marker, and the length
/// that a marker without such a field fixes.
pub open spec fn length_of(marker: Marker) -> (nat, nat) {
    match marker {
        Marker::FixStr(n) => (0, n as nat),
        Marker::FixArray(n) => (0, n as nat),
        Marker::FixMap(n) => (0, n as nat),
        Marker::FixExt1 => (0, 1),
        Marker::FixExt2 => (0, 2),
        Marker::FixExt4 => (0, 4),
        Marker::FixExt8 => (0, 8),
        Marker::FixExt16 => (0, 16),
        Marker::Str8 | Marker::Bin8 | Marker::Ext8 => (1, 0),
        Marker::Str16 | Marker::Bin16 | Marker::Array16 | Marker::Map16 | Marker::Ext16 => (2, 0),
        Marker::Str32 | Marker::Bin32 | Marker::Array32 | Marker::Map32 | Marker::Ext32 => (4, 0),
        _ => (0, 0),
    }
}

/// The length that belongs to a marker, and the bytes after its field.
pub open spec fn marker_len(marker: Marker, data: Seq<u8>) -> Decoded<nat> {
    let (width, fixed) = length_of(marker);
    if width == 0 {
        Ok((fixed, data))
    } else {
        read_len(data, width)
    }
}

/// What family of token a marker starts.
#[derive(Clone, Copy, Debug, PartialEq, Eq, Structural)]
pub enum Family {
    Scalar,
    Str,
    Bin,
    Array,
    Mapping,
    Ext,
    Reserved,
}

/// The family of a marker.
pub open spec fn family_of(marker: Marker) -> Family {
    match marker {
        Marker::FixStr(_) | Marker::Str8 | Marker::Str16 | Marker::Str32 => Family::Str,
        Marker::Bin8 | Marker::Bin16 | Marker::Bin32 => Family::Bin,
        Marker::FixArray(_) | Marker::Array16 | Marker::Array32 => Family::Array,
        Marker::FixMap(_) | Marker::Map16 | Marker::Map32 => Family::Mapping,
        Marker::FixExt1 | Marker::FixExt2 | Marker::FixExt4 | Marker::FixExt8 | Marker::FixExt16
        | Marker::Ext8 | Marker::Ext16 | Marker::Ext32 => Family::Ext,
        Marker::Reserved => Family::Reserved,
        _ => Family::Scalar,
    }
}

/// A scalar: nil, a boolean, an integer or a floating-point number, after
/// its marker.
#[verifier::opaque]
pub open spec fn decode_scalar(marker: Marker, data: Seq<u8>) -> Decoded<ValueView> {
    match marker {
        Marker::Null => Ok((ValueView::Null, data)),
        Marker::True => Ok((ValueView::Bool(true), data)),
        Marker::False => Ok((ValueView::Bool(false), data)),
        Marker::FixPos(v) => Ok((ValueView::Int(v as int), data)),
        Marker::FixNeg(v) => Ok((ValueView::Int(v as int), data)),
        Marker::U8 => match take(data, 1) {
            Err(e) => Err(e),
            Ok((b, rest)) => Ok((ValueView::Int(b[0] as int), rest)),
        },
        Marker::U16 => match take(data, 2) {
            Err(e) => Err(e),
            Ok((b, rest)) => Ok((ValueView::Int(from_be16(b) as int), rest)),
        },
        Marker::U32 => match take(data, 4) {
            Err(e) => Err(e),
            Ok((b, rest)) => Ok((ValueView::Int(from_be32(b) as int), rest)),
        },
        Marker::U64 => match take(data, 8) {
            Err(e) => Err(e),
            Ok((b, rest)) => Ok((ValueView::Int(from_be64(b) as int), rest)),
        },
        Marker::I8 => match take(data, 1) {
            Err(e) => Err(e),
            Ok((b, rest)) => Ok((ValueView::Int(as_i8(b[0]) as int), rest)),
        },
        Marker::I16 => match take(data, 2) {
            Err(e) => Err(e),
            Ok((b, rest)) => Ok((ValueView::Int(as_i16(from_be16(b)) as int), rest)),
        },
        Marker::I32 => match take(data, 4) {
            Err(e) => Err(e),
            Ok((b, rest)) => Ok((ValueView::Int(as_i32(from_be32(b)) as int), rest)),
        },
        Marker::I64 => match take(data, 8) {
            Err(e) => Err(e),
            Ok((b, rest)) => Ok((ValueView::Int(as_i64(from_be64(b)) as int), rest)),
        },
        Marker::F32 => match take(data, 4) {
            Err(e) => Err(e),
            Ok((b, rest)) => Ok((ValueView::Float(widen(from_be32(b))), rest)),
        },
        Marker::F64 => match take(data, 8) {
            Err(e) => Err(e),
            Ok((b, rest)) => Ok((ValueView::Float(from_be64(b)), rest)),
        },
        _ => Err(Error::InvalidType(marker)),
    }
}

/// The key of a map entry where keys must be strings.
pub open spec fn decode_str_key(data: Seq<u8>) -> Decoded<ValueView> {
    if data.len() == 0 {
        Err(Error::UnexpectedEof)
    } else {
        let marker = Marker::of_byte(data[0]);
        match family_of(marker) {
            Family::Str => match marker_len(marker, data.skip(1)) {
                Err(e) => Err(e),
                Ok((len, rest)) => decode_str(rest, len),
            },
            _ => Err(Error::InvalidType(marker)),
        }
    }
}

/// One value, read from the start of `data` inside `rc` containers.
///
/// The first byte is the marker. A scalar is read after it; a string or a
/// payload after its length; an array or a map as that many values or
/// entries, one level deeper, unless the ceiling of nesting is reached; an
/// extension value as what the hook makes of it.
pub open spec fn decode_value(data: Seq<u8>, cx: Context, rc: nat) -> Decoded<ValueView>
    decreases data.len(), 0nat,
{
    if data.len() == 0 {
        Err(Error::UnexpectedEof)
    } else {
        let marker = Marker::of_byte(data[0]);
        let after = data.skip(1);
        match family_of(marker) {
            Family::Scalar => decode_scalar(marker, after),
            Family::Reserved => Err(Error::InvalidType(marker)),
            family => match marker_len(marker, after) {
                Err(e) => Err(e),
                Ok((len, rest)) => match family {
                    Family::Str => decode_str(rest, len),
                    Family::Bin => decode_bin(rest, len),
                    Family::Ext => decode_ext(rest, len, cx),
                    Family::Array => if rc >= RECURSION_LIMIT {
                        Err(Error::RecursionLimitReached)
                    } else if rest.len() < data.len() {
                        match decode_items(rest, len, cx, rc + 1, false) {
                            Err(e) => Err(e),
                            Ok((items, left)) => Ok((ValueView::List(items), left)),
                        }
                    } else {
                        Err(Error::Internal)
                    },
                    _ => if rc >= RECURSION_LIMIT {
                        Err(Error::RecursionLimitReached)
                    } else if rest.len() < data.len() {
                        match decode_entries(rest, len, cx, rc + 1) {
                            Err(e) => Err(e),
                            Ok((entries, left)) => Ok((ValueView::Dict(entries), left)),
                        }
                    } else {
                        Err(Error::Internal)
                    },
                },
            },
        }
    }
}

/// A key of any kind that a key can be of: a scalar, a string, a payload,
/// or an array of keys, which is read as a tuple.
pub open spec fn decode_key(data: Seq<u8>, cx: Context, rc: nat) -> Decoded<ValueView>
    decreases data.len(), 0nat,
{
    if data.len() == 0 {
        Err(Error::UnexpectedEof)
    } else {
        let marker = Marker::of_byte(data[0]);
        let after = data.skip(1);
        match family_of(marker) {
            Family::Scalar => decode_scalar(marker, after),
            Family::Str | Family::Bin | Family::Array => match marker_len(marker, after) {
                Err(e) => Err(e),
                Ok((len, rest)) => match family_of(marker) {
                    Family::Str => decode_str(rest, len),
                    Family::Bin => decode_bin(rest, len),
                    _ => if rc >= RECURSION_LIMIT {
                        Err(Error::RecursionLimitReached)
                    } else if rest.len() < data.len() {
                        match decode_items(rest, len, cx, rc + 1, true) {
                            Err(e) => Err(e),
                            Ok((items, left)) => Ok((ValueView::Tuple(items), left)),
                        }
                    } else {
                        Err(Error::Internal)
                    },
                },
            },
            _ => Err(Error::InvalidType(marker)),
        }
    }
}

/// `n` values in a row, or `n` keys where `keys` says so.
pub open spec fn decode_items(data: Seq<u8>, n: nat, cx: Context, rc: nat, keys: bool) -> Decoded<
    Seq<ValueView>,
>
    decreases data.len(), n + 1,
{
    if n == 0 {
        Ok((Seq::empty(), data))
    } else {
        let first = if keys {
            decode_key(data, cx, rc)
        } else {
            decode_value(data, cx, rc)
        };
        match first {
            Err(e) => Err(e),
            Ok((item, rest)) => if rest.len() < data.len() {
                match decode_items(rest, (n - 1) as nat, cx, rc, keys) {
                    Err(e) => Err(e),
                    Ok((items, left)) => Ok((seq![item] + items, left)),
                }
            } else {
                Err(Error::Internal)
            },
        }
    }
}

/// The key of a map entry, under the options.
pub open spec fn decode_entry_key(data: Seq<u8>, cx: Context, rc: nat) -> Decoded<ValueView>
    decreases data.len(), 1nat,
{
    if holds(cx.opts, NON_STR_KEYS) {
        decode_key(data, cx, rc)
    } else {
        decode_str_key(data)
    }
}

/// `n` entries in a row: each a key and then a value.
pub open spec fn decode_entries(data: Seq<u8>, n: nat, cx: Context, rc: nat) -> Decoded<
    Seq<(ValueView, ValueView)>,
>
    decreases data.len(), n + 2,
{
    if n == 0 {
        Ok((Seq::empty(), data))
    } else {
        match decode_entry_key(data, cx, rc) {
            Err(e) => Err(e),
            Ok((key, after_key)) => if after_key.len() < data.len() {
                match decode_value(after_key, cx, rc) {
                    Err(e) => Err(e),
                    Ok((value, rest)) => if rest.len() < data.len() {
                        match decode_entries(rest, (n - 1) as nat, cx, rc) {
                            Err(e) => Err(e),
                            Ok((entries, left)) => Ok((seq![(key, value)] + entries, left)),
                        }
                    } else {
                        Err(Error::Internal)
                    },
                }
            } else {
                Err(Error::Internal)
            },
        }
    }
}

/// What was read, with `acc` before the items that were read.
pub open spec fn prepend<T>(acc: Seq<T>, d: Decoded<Seq<T>>) -> Decoded<Seq<T>> {
    match d {
        Ok((items, left)) => Ok((acc + items, left)),
        Err(e) => Err(e),
    }
}

/// Reading `n` items is reading one and then the others.
pub proof fn lemma_items_step(
    data: Seq<u8>,
    n: nat,
    cx: Context,
    rc: nat,
    keys: bool,
    acc: Seq<ValueView>,
)
    requires
        n > 0,
    ensures
        match (if keys {
            decode_key(data, cx, rc)
        } else {
            decode_value(data, cx, rc)
        }) {
            Err(e) => prepend(acc, decode_items(data, n, cx, rc, keys)) == Err::<
                (Seq<ValueView>, Seq<u8>),
                Error,
            >(e),
            Ok((item, rest)) => rest.len() < data.len() ==> prepend(
                acc,
                decode_items(data, n, cx, rc, keys),
            ) == prepend(acc.push(item), decode_items(rest, (n - 1) as nat, cx, rc, keys)),
        },
        prepend(acc, decode_items(data, 0, cx, rc, keys)) == Ok::<
            (Seq<ValueView>, Seq<u8>),
            Error,
        >((acc, data)),
{
    assert(acc + Seq::<ValueView>::empty() =~= acc);
    let first = if keys {
        decode_key(data, cx, rc)
    } else {
        decode_value(data, cx, rc)
    };
    match first {
        Err(e) => {},
        Ok((item, rest)) => {
            if rest.len() < data.len() {
                match decode_items(rest, (n - 1) as nat, cx, rc, keys) {
                    Ok((items, left)) => {
                        assert(acc + (seq![item] + items) =~= acc.push(item) + items);
                    },
                    Err(e) => {},
                }
            }
        },
    }
}

/// Reading `n` entries is reading a key, a value, and then the others.
pub proof fn lemma_entries_step(
    data: Seq<u8>,
    n: nat,
    cx: Context,
    rc: nat,
    acc: Seq<(ValueView, ValueView)>,
)
    requires
        n > 0,
    ensures
        match decode_entry_key(data, cx, rc) {
            Err(e) => prepend(acc, decode_entries(data, n, cx, rc)) == Err::<
                (Seq<(ValueView, ValueView)>, Seq<u8>),
                Error,
            >(e),
            Ok((key, after)) => after.len() < data.len() ==> match decode_value(after, cx, rc) {
                Err(e) => prepend(acc, decode_entries(data, n, cx, rc)) == Err::<
                    (Seq<(ValueView, ValueView)>, Seq<u8>),
                    Error,
                >(e),
                Ok((value, rest)) => rest.len() < data.len() ==> prepend(
                    acc,
                    decode_entries(data, n, cx, rc),
                ) == prepend(
                    acc.push((key, value)),
                    decode_entries(rest, (n - 1) as nat, cx, rc),
                ),
            },
        },
        prepend(acc, decode_entries(data, 0, cx, rc)) == Ok::<
            (Seq<(ValueView, ValueView)>, Seq<u8>),
            Error,
        >((acc, data)),
{
    assert(acc + Seq::<(ValueView, ValueView)>::empty() =~= acc);
    match decode_entry_key(data, cx, rc) {
        Err(e) => {},
        Ok((key, after)) => {
            if after.len() < data.len() {
                match decode_value(after, cx, rc) {
                    Err(e) => {},
                    Ok((value, rest)) => {
                        if rest.len() < data.len() {
                            match decode_entries(rest, (n - 1) as nat, cx, rc) {
                                Ok((entries, left)) => {
                                    assert(acc + (seq![(key, value)] + entries) =~= acc.push(
                                        (key, value),
                                    ) + entries);
                                },
                                Err(e) => {},
                            }
                        }
                    },
                }
            }
        },
    }
}

/// What reading a scalar, a string, a payload or an extension value
/// leaves is no more than what there was, and no such reading ends in an
/// internal error.
proof fn lemma_token_shrinks(marker: Marker, data: Seq<u8>, len: nat, cx: Context)
    ensures
        match decode_scalar(marker, data) {
            Ok((_, rest)) => rest.len() <= data.len(),
            Err(e) => e != Error::Internal,
        },
        match decode_str(data, len) {
            Ok((_, rest)) => rest.len() <= data.len(),
            Err(e) => e != Error::Internal,
        },
        match decode_bin(data, len) {
            Ok((_, rest)) => rest.len() <= data.len(),
            Err(e) => e != Error::Internal,
        },
        match decode_ext(data, len, cx) {
            Ok((_, rest)) => rest.len() <= data.len(),
            Err(e) => e != Error::Internal,
        },
        match marker_len(marker, data) {
            Ok((_, rest)) => rest.len() <= data.len(),
            Err(e) => e != Error::Internal,
        },
        match decode_str_key(data) {
            Ok((_, rest)) => rest.len() < data.len(),
            Err(e) => e != Error::Internal,
        },
{
    reveal(decode_scalar);
}

/// Reading a value takes at least one byte, and never ends in an internal
/// error.
pub proof fn lemma_value_shrinks(data: Seq<u8>, cx: Context, rc: nat)
    ensures
        match decode_value(data, cx, rc) {
            Ok((_, rest)) => rest.len() < data.len(),
            Err(e) => e != Error::Internal,
        },
    decreases data.len(), 0nat,
{
    if data.len() > 0 {
        let marker = Marker::of_byte(data[0]);
        let after = data.skip(1);
        lemma_token_shrinks(marker, after, 0, cx);
        match marker_len(marker, after) {
            Ok((len, rest)) => {
                lemma_token_shrinks(marker, rest, len, cx);
                if rest.len() < data.len() && rc < RECURSION_LIMIT {
                    lemma_items_shrinks(rest, len, cx, rc + 1, false);
                    lemma_entries_shrinks(rest, len, cx, rc + 1);
                }
            },
            Err(e) => {},
        }
    }
}

/// Reading a key takes at least one byte, and never ends in an internal
/// error.
pub proof fn lemma_key_shrinks(data: Seq<u8>, cx: Context, rc: nat)
    ensures
        match decode_key(data, cx, rc) {
            Ok((_, rest)) => rest.len() < data.len(),
            Err(e) => e != Error::Internal,
        },
    decreases data.len(), 0nat,
{
    if data.len() > 0 {
        let marker = Marker::of_byte(data[0]);
        let after = data.skip(1);
        lemma_token_shrinks(marker, after, 0, cx);
        match marker_len(marker, after) {
            Ok((len, rest)) => {
                lemma_token_shrinks(marker, rest, len, cx);
                if rest.len() < data.len() && rc < RECURSION_LIMIT {
                    lemma_items_shrinks(rest, len, cx, rc + 1, true);
                }
            },
            Err(e) => {},
        }
    }
}

/// Reading values in a row leaves no more than there was, gives as many
/// values as were asked for, and never ends in an internal error.
pub proof fn lemma_items_shrinks(data: Seq<u8>, n: nat, cx: Context, rc: nat, keys: bool)
    ensures
        match decode_items(data, n, cx, rc, keys) {
            Ok((items, rest)) => rest.len() <= data.len() && items.len() == n,
            Err(e) => e != Error::Internal,
        },
    decreases data.len(), n + 1,
{
    if n > 0 {
        if keys {
            lemma_key_shrinks(data, cx, rc);
        } else {
            lemma_value_shrinks(data, cx, rc);
        }
        let first = if keys {
            decode_key(data, cx, rc)
        } else {
            decode_value(data, cx, rc)
        };
        match first {
            Ok((item, rest)) => {
                lemma_items_shrinks(rest, (n - 1) as nat, cx, rc, keys);
            },
            Err(e) => {},
        }
    }
}

/// Reading entries in a row leaves no more than there was, gives as many
/// entries as were asked for, and never ends in an internal error.
pub proof fn lemma_entries_shrinks(data: Seq<u8>, n: nat, cx: Context, rc: nat)
    ensures
        match decode_entries(data, n, cx, rc) {
            Ok((entries, rest)) => rest.len() <= data.len() && entries.len() == n,
            Err(e) => e != Error::Internal,
        },
    decreases data.len(), n + 2,
{
    if n > 0 {
        lemma_token_shrinks(Marker::Null, data, 0, cx);
        if holds(cx.opts, NON_STR_KEYS) {
            lemma_key_shrinks(data, cx, rc);
        }
        match decode_entry_key(data, cx, rc) {
            Ok((key, after)) => {
                lemma_value_shrinks(after, cx, rc);
                match decode_value(after, cx, rc) {
                    Ok((value, rest)) => {
                        lemma_entries_shrinks(rest, (n - 1) as nat, cx, rc);
                    },
                    Err(e) => {},
                }
            },
            Err(e) => {},
        }
    }
}

/// What a decoding call hands back: the first value in the bytes. Bytes
/// after it are not looked at.
pub open spec fn unpack_spec(data: Seq<u8>, cx: Context) -> Result<ValueView, Error> {
    match decode_value(data, cx, 0) {
        Ok((v, _)) => Ok(v),
        Err(e) => Err(e),
    }
}

} // verus!
