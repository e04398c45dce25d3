//! The decoder: a cursor over the bytes, and a reader for each family of
//! token.

use crate::deserialize::cache::{from_utf8, lemma_decode_of_bytes, KeyMap};
use crate::deserialize::decoding::{
    decode_bin, decode_entries, decode_entry_key, decode_ext, decode_items, decode_key,
    decode_scalar, decode_str, decode_str_key, decode_value, family_of, lemma_entries_step,
    lemma_items_step, marker_len, normalize, prepend, take, widen, Context, Error, ExtModel,
    Family, RECURSION_LIMIT,
};
use crate::msgpack::endian::{
    as_i8, from_be16, from_be32, from_be64, to_i16, to_i32, to_i64, to_i8,
};
use crate::msgpack::marker::Marker;
use crate::opt::{is_set, Opt, NON_STR_KEYS};
use crate::value::{lemma_view, Text, Value, ValueView};
use vstd::prelude::*;
use vstd::slice::slice_subrange;

verus! {

/// The number of slots of the key cache.
pub const KEY_MAP_SIZE: usize = 512;

/// The longest key, in bytes, that goes through the key cache.
pub const KEY_MAP_MAX_LEN: u32 = 64;

/// Two bytes as a number, from `byteorder::ReadBytesExt::read_u16` with
/// `BigEndian`: the number that the first two bytes spell, high byte first,
/// or nothing where there are fewer than two.
#[verifier::external_body]
fn be_u16(data: &[u8]) -> (r: Option<u16>)
    ensures
        match r {
            Some(v) => data@.len() >= 2 && v == from_be16(data@.take(2)),
            None => data@.len() < 2,
        },
{
    let mut reader = data;
    byteorder::ReadBytesExt::read_u16::<byteorder::BigEndian>(&mut reader).ok()
}

/// Four bytes as a number, from `byteorder::ReadBytesExt::read_u32` with
/// `BigEndian`: the number that the first four bytes spell, high byte
/// first, or nothing where there are fewer than four.
#[verifier::external_body]
fn be_u32(data: &[u8]) -> (r: Option<u32>)
    ensures
        match r {
            Some(v) => data@.len() >= 4 && v == from_be32(data@.take(4)),
            None => data@.len() < 4,
        },
{
    let mut reader = data;
    byteorder::ReadBytesExt::read_u32::<byteorder::BigEndian>(&mut reader).ok()
}

/// Eight bytes as a number, from `byteorder::ReadBytesExt::read_u64` with
/// `BigEndian`: the number that the first eight bytes spell, high byte
/// first, or nothing where there are fewer than eight.
#[verifier::external_body]
fn be_u64(data: &[u8]) -> (r: Option<u64>)
    ensures
        match r {
            Some(v) => data@.len() >= 8 && v == from_be64(data@.take(8)),
            None => data@.len() < 8,
        },
{
    let mut reader = data;
    byteorder::ReadBytesExt::read_u64::<byteorder::BigEndian>(&mut reader).ok()
}

/// The bit pattern of the double-precision number with the value of a
/// single-precision number.
pub fn single_to_double(bits: u32) -> (wide: u64)
    ensures
        wide == widen(bits),
{
    reveal(widen);
    let sign: u64 = (bits / 0x8000_0000) as u64;
    let exp: u64 = (bits / 0x80_0000 % 0x100) as u64;
    let frac: u64 = (bits % 0x80_0000) as u64;
    let high: u64 = sign * 0x8000_0000_0000_0000;
    if exp == 0xff {
        let quiet: u64 = if frac != 0 && frac < 0x40_0000 {
            0x8_0000_0000_0000
        } else {
            0
        };
        high + 0x7ff0_0000_0000_0000 + frac * 0x2000_0000 + quiet
    } else if exp == 0 {
        if frac == 0 {
            high
        } else {
            let mut m: u64 = frac;
            let mut e: u64 = 897;
            while m < 0x80_0000
                invariant
                    0 < m < 0x100_0000,
                    m >= pow2_shift(e),
                    874 <= e <= 897,
                    normalize(m as int, e as int) == normalize(frac as int, 897),
                decreases e,
            {
                proof {
                    reveal_with_fuel(pow2_shift, 25);
                    assert(pow2_shift(874) == 0x80_0000);
                }
                m = m * 2;
                e = e - 1;
            }
            high + e * 0x10_0000_0000_0000 + (m - 0x80_0000) * 0x2000_0000
        }
    } else {
        high + (exp + 896) * 0x10_0000_0000_0000 + frac * 0x2000_0000
    }
}

/// A bound that falls by half with each step below 897, so that a
/// significand that was doubled `897 - e` times is known to have grown.
pub open spec fn pow2_shift(e: u64) -> int
    decreases 897 - e,
{
    if e >= 897 {
        1
    } else {
        2 * pow2_shift((e + 1) as u64)
    }
}

/// The extension hook of a decoding call, where there is one.
pub struct ExtHook<F> {
    pub inner: Option<F>,
}

impl<F: Fn(i8, &[u8]) -> Option<Value>> ExtHook<F> {
    /// The hook `hook`, or no hook.
    pub fn new(hook: Option<F>) -> (h: Self)
        ensures
            h == Self::new_spec(hook),
    {
        ExtHook { inner: hook }
    }

    /// The hook `hook`, or no hook.
    pub open spec fn new_spec(hook: Option<F>) -> Self {
        ExtHook { inner: hook }
    }

    /// Whether the hook may be called with any tag and payload.
    pub open spec fn callable(&self) -> bool {
        match self.inner {
            Some(f) => forall|tag: i8, data: &[u8]| call_requires(f, (tag, data)),
            None => true,
        }
    }

    /// Whether `model` says what the hook hands back: whether every value
    /// that a call can hand back has the view that `model` gives for the
    /// tag and the bytes of the payload.
    pub open spec fn described_by(&self, model: ExtModel) -> bool {
        match self.inner {
            Some(f) => forall|tag: i8, data: &[u8], r: Option<Value>| #[trigger]
                call_ensures(f, (tag, data), r) ==> crate::serialize::default::outcome_view(r)
                    == model(tag, data@),
            None => true,
        }
    }

    /// The hook as a contract sees it, where `model` says what it hands
    /// back: `model` where there is a hook, nothing where there is none.
    pub open spec fn hook(&self, model: ExtModel) -> Option<ExtModel> {
        match self.inner {
            Some(_) => Some(model),
            None => None,
        }
    }

    /// What the hook makes of an extension value.
    pub open spec fn called(hook: Option<ExtModel>, tag: i8, payload: Seq<u8>) -> Result<
        ValueView,
        Error,
    > {
        match hook {
            None => Err(Error::ExtHookMissing),
            Some(h) => match h(tag, payload) {
                Some(v) => Ok(v),
                None => Err(Error::ExtHookFailed),
            },
        }
    }

    /// Calls the hook with a tag and a payload.
    pub fn call(&self, tag: i8, data: &[u8]) -> (r: Result<Value, Error>)
        requires
            self.callable(),
        ensures
            self.inner is None ==> r == Err::<Value, Error>(Error::ExtHookMissing),
            forall|model: ExtModel| #[trigger]
                self.described_by(model) ==> match r {
                    Ok(v) => Self::called(self.hook(model), tag, data@) == Ok::<ValueView, Error>(
                        v@,
                    ),
                    Err(e) => Self::called(self.hook(model), tag, data@) == Err::<
                        ValueView,
                        Error,
                    >(e),
                },
    {
        match &self.inner {
            Some(callable) => {
                let out = callable(tag, data);
                proof {
                    let f = self.inner.unwrap();
                    assert(call_ensures(f, (tag, data), out));
                }
                match out {
                    Some(v) => Ok(v),
                    None => Err(Error::ExtHookFailed),
                }
            },
            None => Err(Error::ExtHookMissing),
        }
    }
}

/// What a decoding call is made with, for a contract, where `model` says
/// what the hook hands back.
pub open spec fn context<F: Fn(i8, &[u8]) -> Option<Value>>(
    opts: Opt,
    hook: &ExtHook<F>,
    model: ExtModel,
) -> Context {
    Context { opts, hook: hook.hook(model) }
}

/// A cursor over the bytes of one decoding call.
pub struct Deserializer<'de> {
    data: &'de [u8],
    pos: usize,
    opts: Opt,
    recursion: u16,
}

impl<'de> Deserializer<'de> {
    /// Whether the cursor stands inside its bytes and below the ceiling of
    /// nesting.
    pub closed spec fn wf(&self) -> bool {
        self.pos <= self.data@.len() && self.recursion <= RECURSION_LIMIT
    }

    /// The bytes that are not yet read.
    pub closed spec fn remaining(&self) -> Seq<u8> {
        self.data@.skip(self.pos as int)
    }

    /// The number of containers that the cursor stands inside.
    pub closed spec fn depth(&self) -> nat {
        self.recursion as nat
    }

    /// The options of the call.
    pub closed spec fn opts(&self) -> Opt {
        self.opts
    }

    /// Whether this is the cursor `pre`, moved forward to where `rest` is
    /// left.
    pub closed spec fn moved(&self, pre: &Deserializer<'de>, rest: Seq<u8>) -> bool {
        &&& self.data == pre.data
        &&& self.opts == pre.opts
        &&& self.recursion == pre.recursion
        &&& self.pos >= pre.pos
        &&& self.pos <= self.data@.len()
        &&& self.data@.skip(self.pos as int) == rest
    }

    /// Moving forward keeps the cursor well-formed, takes bytes away from
    /// those that are left, and goes on from where the move before it ended.
    pub proof fn lemma_moved(&self, pre: &Deserializer<'de>, rest: Seq<u8>)
        requires
            pre.wf(),
            self.moved(pre, rest),
        ensures
            self.wf(),
            self.remaining() == rest,
            self.depth() == pre.depth(),
            self.opts() == pre.opts(),
            rest.len() <= pre.remaining().len(),
            forall|before: &Deserializer<'de>, mid: Seq<u8>| #[trigger]
                pre.moved(before, mid) ==> self.moved(before, rest),
    {
    }

    /// A cursor at the start of `data`.
    pub fn new(data: &'de [u8], opts: Opt) -> (de: Self)
        ensures
            de.wf(),
            de.remaining() == data@,
            de.depth() == 0,
            de.opts() == opts,
    {
        assert(data@.skip(0) =~= data@);
        Deserializer { data: data, pos: 0, opts: opts, recursion: 0 }
    }

    /// The bytes that are left, as a slice.
    fn rest(&self) -> (r: &'de [u8])
        requires
            self.wf(),
        ensures
            r@ == self.remaining(),
    {
        let r = slice_subrange(self.data, self.pos, self.data.len());
        assert(r@ =~= self.remaining());
        r
    }

    /// Takes `len` bytes.
    fn read_slice(&mut self, len: usize) -> (r: Result<&'de [u8], Error>)
        requires
            old(self).wf(),
        ensures
            match r {
                Ok(bytes) => take(old(self).remaining(), len as nat) == Ok::<
                    (Seq<u8>, Seq<u8>),
                    Error,
                >((bytes@, final(self).remaining())) && final(self).moved(
                    old(self),
                    final(self).remaining(),
                ),
                Err(e) => take(old(self).remaining(), len as nat) == Err::<
                    (Seq<u8>, Seq<u8>),
                    Error,
                >(e) && *final(self) == *old(self),
            },
    {
        if len > self.data.len() - self.pos {
            return Err(Error::UnexpectedEof);
        }
        let a = slice_subrange(self.data, self.pos, self.pos + len);
        proof {
            assert(a@ =~= self.remaining().take(len as int));
            assert(self.data@.skip(self.pos + len) =~= self.remaining().skip(len as int));
        }
        self.pos = self.pos + len;
        Ok(a)
    }

    /// Takes one byte.
    #[inline(always)]
    fn read_u8(&mut self) -> (r: Result<u8, Error>)
        requires
            old(self).wf(),
        ensures
            match r {
                Ok(v) => take(old(self).remaining(), 1) == Ok::<(Seq<u8>, Seq<u8>), Error>(
                    (seq![v], final(self).remaining()),
                ) && final(self).moved(old(self), final(self).remaining()),
                Err(e) => take(old(self).remaining(), 1) == Err::<(Seq<u8>, Seq<u8>), Error>(e)
                    && *final(self) == *old(self),
            },
    {
        match self.read_slice(1) {
            Ok(b) => {
                assert(b@ =~= seq![b@[0]]);
                Ok(b[0])
            },
            Err(e) => Err(e),
        }
    }

    /// Takes one byte as a signed number.
    #[inline(always)]
    fn read_i8(&mut self) -> (r: Result<i8, Error>)
        requires
            old(self).wf(),
        ensures
            match r {
                Ok(v) => take(old(self).remaining(), 1) matches Ok((b, rest)) && v == as_i8(b[0])
                    && rest == final(self).remaining() && final(self).moved(old(self), rest),
                Err(e) => take(old(self).remaining(), 1) == Err::<(Seq<u8>, Seq<u8>), Error>(e)
                    && *final(self) == *old(self),
            },
    {
        match self.read_u8() {
            Ok(b) => Ok(to_i8(b)),
            Err(e) => Err(e),
        }
    }

    /// Takes two bytes as a number.
    #[inline(always)]
    fn read_u16(&mut self) -> (r: Result<u16, Error>)
        requires
            old(self).wf(),
        ensures
            match r {
                Ok(v) => take(old(self).remaining(), 2) matches Ok((b, rest)) && v == from_be16(b)
                    && rest == final(self).remaining() && final(self).moved(old(self), rest),
                Err(e) => take(old(self).remaining(), 2) == Err::<(Seq<u8>, Seq<u8>), Error>(e)
                    && *final(self) == *old(self),
            },
    {
        match be_u16(self.rest()) {
            Some(v) => {
                let total = self.data.len();
                proof {
                    assert(self.remaining().len() == total - self.pos);
                    assert(self.data@.skip(self.pos + 2) =~= self.remaining().skip(2));
                }
                self.pos = self.pos + 2;
                Ok(v)
            },
            None => Err(Error::UnexpectedEof),
        }
    }

    /// Takes four bytes as a number.
    #[inline(always)]
    fn read_u32(&mut self) -> (r: Result<u32, Error>)
        requires
            old(self).wf(),
        ensures
            match r {
                Ok(v) => take(old(self).remaining(), 4) matches Ok((b, rest)) && v == from_be32(b)
                    && rest == final(self).remaining() && final(self).moved(old(self), rest),
                Err(e) => take(old(self).remaining(), 4) == Err::<(Seq<u8>, Seq<u8>), Error>(e)
                    && *final(self) == *old(self),
            },
    {
        match be_u32(self.rest()) {
            Some(v) => {
                let total = self.data.len();
                proof {
                    assert(self.remaining().len() == total - self.pos);
                    assert(self.data@.skip(self.pos + 4) =~= self.remaining().skip(4));
                }
                self.pos = self.pos + 4;
                Ok(v)
            },
            None => Err(Error::UnexpectedEof),
        }
    }

    /// Takes eight bytes as a number.
    #[inline(always)]
    fn read_u64(&mut self) -> (r: Result<u64, Error>)
        requires
            old(self).wf(),
        ensures
            match r {
                Ok(v) => take(old(self).remaining(), 8) matches Ok((b, rest)) && v == from_be64(b)
                    && rest == final(self).remaining() && final(self).moved(old(self), rest),
                Err(e) => take(old(self).remaining(), 8) == Err::<(Seq<u8>, Seq<u8>), Error>(e)
                    && *final(self) == *old(self),
            },
    {
        match be_u64(self.rest()) {
            Some(v) => {
                let total = self.data.len();
                proof {
                    assert(self.remaining().len() == total - self.pos);
                    assert(self.data@.skip(self.pos + 8) =~= self.remaining().skip(8));
                }
                self.pos = self.pos + 8;
                Ok(v)
            },
            None => Err(Error::UnexpectedEof),
        }
    }

    /// Takes one byte as a marker.
    #[inline(always)]
    fn read_marker(&mut self) -> (r: Result<Marker, Error>)
        requires
            old(self).wf(),
        ensures
            match r {
                Ok(m) => old(self).remaining().len() > 0 && m == Marker::of_byte(
                    old(self).remaining()[0],
                ) && final(self).remaining() == old(self).remaining().skip(1) && final(self).moved(old(self), final(self).remaining()),
                Err(e) => old(self).remaining().len() == 0 && e == Error::UnexpectedEof && *final(self) == *old(self),
            },
    {
        let ghost rem = self.remaining();
        match self.read_u8() {
            Ok(n) => {
                assert(rem.take(1)[0] == rem[0]);
                Ok(Marker::from_u8(n))
            },
            Err(e) => Err(e),
        }
    }

    /// Takes the length that belongs to a marker: the one that the marker
    /// fixes, or a field of one, two or four bytes.
    fn marker_length(&mut self, marker: Marker) -> (r: Result<u32, Error>)
        requires
            old(self).wf(),
        ensures
            match r {
                Ok(n) => marker_len(marker, old(self).remaining()) == Ok::<(nat, Seq<u8>), Error>(
                    (n as nat, final(self).remaining()),
                ) && final(self).moved(old(self), final(self).remaining()),
                Err(e) => marker_len(marker, old(self).remaining()) == Err::<
                    (nat, Seq<u8>),
                    Error,
                >(e),
            },
    {
        match marker {
            Marker::FixStr(n) => Ok(n as u32),
            Marker::FixArray(n) => Ok(n as u32),
            Marker::FixMap(n) => Ok(n as u32),
            Marker::FixExt1 => Ok(1),
            Marker::FixExt2 => Ok(2),
            Marker::FixExt4 => Ok(4),
            Marker::FixExt8 => Ok(8),
            Marker::FixExt16 => Ok(16),
            Marker::Str8 | Marker::Bin8 | Marker::Ext8 => {
                match self.read_u8() {
                    Ok(n) => {
                        assert(seq![n][0] == n);
                        Ok(n as u32)
                    },
                    Err(e) => Err(e),
                }
            },
            Marker::Str16 | Marker::Bin16 | Marker::Array16 | Marker::Map16 | Marker::Ext16 => {
                match self.read_u16() {
                    Ok(n) => Ok(n as u32),
                    Err(e) => Err(e),
                }
            },
            Marker::Str32 | Marker::Bin32 | Marker::Array32 | Marker::Map32 | Marker::Ext32 => {
                self.read_u32()
            },
            _ => Ok(0),
        }
    }

    /// Reads a scalar after its marker.
    fn deserialize_scalar(&mut self, marker: Marker) -> (r: Result<Value, Error>)
        requires
            old(self).wf(),
        ensures
            read_as(old(self), final(self), r, decode_scalar(marker, old(self).remaining())),
    {
        proof {
            reveal(decode_scalar);
        }
        let out = match marker {
            Marker::Null => Value::Null,
            Marker::True => Value::Bool(true),
            Marker::False => Value::Bool(false),
            Marker::FixPos(value) => Value::Int(value as i128),
            Marker::FixNeg(value) => Value::Int(value as i128),
            Marker::U8 => match self.read_u8() {
                Ok(value) => {
                    assert(seq![value][0] == value);
                    Value::Int(value as i128)
                },
                Err(e) => {
                    return Err(e);
                },
            },
            Marker::U16 => match self.read_u16() {
                Ok(value) => Value::Int(value as i128),
                Err(e) => {
                    return Err(e);
                },
            },
            Marker::U32 => match self.read_u32() {
                Ok(value) => Value::Int(value as i128),
                Err(e) => {
                    return Err(e);
                },
            },
            Marker::U64 => match self.read_u64() {
                Ok(value) => Value::Int(value as i128),
                Err(e) => {
                    return Err(e);
                },
            },
            Marker::I8 => match self.read_i8() {
                Ok(value) => Value::Int(value as i128),
                Err(e) => {
                    return Err(e);
                },
            },
            Marker::I16 => match self.read_u16() {
                Ok(value) => Value::Int(to_i16(value) as i128),
                Err(e) => {
                    return Err(e);
                },
            },
            Marker::I32 => match self.read_u32() {
                Ok(value) => Value::Int(to_i32(value) as i128),
                Err(e) => {
                    return Err(e);
                },
            },
            Marker::I64 => match self.read_u64() {
                Ok(value) => Value::Int(to_i64(value) as i128),
                Err(e) => {
                    return Err(e);
                },
            },
            Marker::F32 => match self.read_u32() {
                Ok(bits) => Value::Float(single_to_double(bits)),
                Err(e) => {
                    return Err(e);
                },
            },
            Marker::F64 => match self.read_u64() {
                Ok(bits) => Value::Float(bits),
                Err(e) => {
                    return Err(e);
                },
            },
            _ => {
                return Err(Error::InvalidType(marker));
            },
        };
        proof {
            lemma_view(out);
        }
        Ok(out)
    }

    /// Reads a string of `len` bytes.
    fn deserialize_str(&mut self, len: u32) -> (r: Result<Value, Error>)
        requires
            old(self).wf(),
        ensures
            read_as(old(self), final(self), r, decode_str(old(self).remaining(), len as nat)),
    {
        let data = match self.read_slice(len as usize) {
            Ok(data) => data,
            Err(e) => {
                return Err(e);
            },
        };
        match from_utf8(data) {
            Ok(value) => {
                proof {
                    lemma_decode_of_bytes(value@, data@);
                }
                let out = Value::Str(Text::Utf8(value.to_owned()));
                proof {
                    lemma_view(out);
                }
                Ok(out)
            },
            Err(_) => Err(Error::InvalidStr),
        }
    }

    /// Reads a binary payload of `len` bytes.
    fn deserialize_bin(&mut self, len: u32) -> (r: Result<Value, Error>)
        requires
            old(self).wf(),
        ensures
            read_as(old(self), final(self), r, decode_bin(old(self).remaining(), len as nat)),
    {
        match self.read_slice(len as usize) {
            Ok(data) => {
                let out = Value::Bytes(vstd::slice::slice_to_vec(data));
                proof {
                    lemma_view(out);
                }
                Ok(out)
            },
            Err(e) => Err(e),
        }
    }

    /// Reads an extension value with a payload of `len` bytes, and hands it
    /// to the hook.
    fn deserialize_ext<F: Fn(i8, &[u8]) -> Option<Value>>(
        &mut self,
        len: u32,
        ext_hook: &ExtHook<F>,
    ) -> (r: Result<Value, Error>)
        requires
            old(self).wf(),
            ext_hook.callable(),
        ensures
            r is Ok ==> final(self).moved(old(self), final(self).remaining()),
            forall|model: ExtModel| #[trigger] ext_hook.described_by(model) ==> read_as(
                old(self),
                final(self),
                r,
                decode_ext(old(self).remaining(), len as nat, context(old(self).opts(), ext_hook, model)),
            ),
    {
        let ghost pre = *self;
        let tag = match self.read_i8() {
            Ok(tag) => tag,
            Err(e) => {
                return Err(e);
            },
        };
        let ghost mid = *self;
        let data = match self.read_slice(len as usize) {
            Ok(data) => data,
            Err(e) => {
                return Err(e);
            },
        };
        proof {
            mid.lemma_moved(&pre, mid.remaining());
            self.lemma_moved(&mid, self.remaining());
        }
        ext_hook.call(tag, data)
    }

    /// Reads the key of a map entry where it is a string of `len` bytes:
    /// through the key cache where it is short.
    fn deserialize_map_str_key(&mut self, len: u32, cache: &mut KeyMap<KEY_MAP_SIZE>) -> (r:
        Result<Value, Error>)
        requires
            old(self).wf(),
            old(cache).wf(),
        ensures
            final(cache).wf(),
            read_as(old(self), final(self), r, decode_str(old(self).remaining(), len as nat)),
    {
        if len > KEY_MAP_MAX_LEN {
            self.deserialize_str(len)
        } else {
            let data = match self.read_slice(len as usize) {
                Ok(data) => data,
                Err(e) => {
                    return Err(e);
                },
            };
            match cache.get(data) {
                Ok(key) => {
                    let out = Value::Str(Text::Utf8(key));
                    proof {
                        lemma_view(out);
                    }
                    Ok(out)
                },
                Err(_) => Err(Error::InvalidStr),
            }
        }
    }

    /// Reads the key of a map entry where keys must be strings.
    fn deserialize_str_key(&mut self, cache: &mut KeyMap<KEY_MAP_SIZE>) -> (r: Result<
        Value,
        Error,
    >)
        requires
            old(self).wf(),
            old(cache).wf(),
        ensures
            final(cache).wf(),
            read_as(old(self), final(self), r, decode_str_key(old(self).remaining())),
            r is Ok ==> final(self).remaining().len() < old(self).remaining().len(),
    {
        let ghost pre = *self;
        let marker = match self.read_marker() {
            Ok(marker) => marker,
            Err(e) => {
                return Err(e);
            },
        };
        let ghost mid = *self;
        match marker {
            Marker::FixStr(_) | Marker::Str8 | Marker::Str16 | Marker::Str32 => {
                let len = match self.marker_length(marker) {
                    Ok(len) => len,
                    Err(e) => {
                        return Err(e);
                    },
                };
                let ghost mid2 = *self;
                let r = self.deserialize_map_str_key(len, cache);
                proof {
                    mid.lemma_moved(&pre, mid.remaining());
                    mid2.lemma_moved(&mid, mid2.remaining());
                    if r is Ok {
                        self.lemma_moved(&mid2, self.remaining());
                    }
                }
                r
            },
            marker => Err(Error::InvalidType(marker)),
        }
    }

    /// Reads `len` values, or `len` keys where `keys` says so, as the
    /// members of an array one level deeper.
    fn deserialize_items<F: Fn(i8, &[u8]) -> Option<Value>>(
        &mut self,
        len: u32,
        keys: bool,
        ext_hook: &ExtHook<F>,
        cache: &mut KeyMap<KEY_MAP_SIZE>,
    ) -> (r: Result<Vec<Value>, Error>)
        requires
            old(self).wf(),
            old(cache).wf(),
            ext_hook.callable(),
        ensures
            final(cache).wf(),
            r is Ok ==> final(self).moved(old(self), final(self).remaining()),
            forall|model: ExtModel| #[trigger]
                ext_hook.described_by(model) ==> match r {
                    Ok(items) => array_of(
                        old(self),
                        context(old(self).opts(), ext_hook, model),
                        len as nat,
                        keys,
                    ) == Ok::<(Seq<ValueView>, Seq<u8>), Error>(
                        (crate::value::values_view(items), final(self).remaining()),
                    ),
                    Err(e) => array_of(
                        old(self),
                        context(old(self).opts(), ext_hook, model),
                        len as nat,
                        keys,
                    ) == Err::<(Seq<ValueView>, Seq<u8>), Error>(e),
                },
        decreases old(self).remaining().len(), 1nat,
    {
        let ghost pre = *self;
        let ghost rc = (self.recursion + 1) as nat;
        if self.recursion >= RECURSION_LIMIT {
            return Err(Error::RecursionLimitReached);
        }
        self.recursion = self.recursion + 1;
        let ghost entered = *self;
        let mut items: Vec<Value> = Vec::new();
        let mut i: u32 = 0;
        proof {
            assert(crate::value::values_view(items) =~= Seq::<ValueView>::empty());
            assert forall|model: ExtModel| #[trigger] ext_hook.described_by(model) implies array_of(
                &pre,
                context(pre.opts(), ext_hook, model),
                len as nat,
                keys,
            ) == prepend(
                crate::value::values_view(items),
                decode_items(
                    self.remaining(),
                    len as nat,
                    context(pre.opts(), ext_hook, model),
                    rc,
                    keys,
                ),
            ) by {
                let cx = context(pre.opts(), ext_hook, model);
                let d = decode_items(pre.remaining(), len as nat, cx, rc, keys);
                match d {
                    Ok((x, left)) => {
                        assert(Seq::<ValueView>::empty() + x =~= x);
                    },
                    Err(e) => {},
                }
            }
        }
        while i < len
            invariant
                i <= len,
                cache.wf(),
                ext_hook.callable(),
                pre.wf(),
                pre == *old(self),
                entered.wf(),
                self.wf(),
                self.moved(&entered, self.remaining()),
                self.remaining().len() <= pre.remaining().len(),
                entered.depth() == pre.depth() + 1,
                entered.remaining() == pre.remaining(),
                entered.opts() == pre.opts(),
                pre.depth() < RECURSION_LIMIT,
                rc == pre.depth() + 1,
                forall|model: ExtModel| #[trigger]
                    ext_hook.described_by(model) ==> array_of(
                        &pre,
                        context(pre.opts(), ext_hook, model),
                        len as nat,
                        keys,
                    ) == prepend(
                        crate::value::values_view(items),
                        decode_items(
                            self.remaining(),
                            (len - i) as nat,
                            context(pre.opts(), ext_hook, model),
                            rc,
                            keys,
                        ),
                    ),
            decreases len - i,
        {
            let ghost before = *self;
            let ghost acc = crate::value::values_view(items);
            proof {
                before.lemma_moved(&entered, before.remaining());
            }
            let elem = if keys {
                self.deserialize_map_key(ext_hook, cache)
            } else {
                self.deserialize(ext_hook, cache)
            };
            match elem {
                Ok(elem) => {
                    let ghost item = elem@;
                    proof {
                        self.lemma_moved(&before, self.remaining());
                    }
                    items.push(elem);
                    proof {
                        assert(crate::value::values_view(items) =~= acc.push(item));
                        assert forall|model: ExtModel| #[trigger]
                            ext_hook.described_by(model) implies array_of(
                            &pre,
                            context(pre.opts(), ext_hook, model),
                            len as nat,
                            keys,
                        ) == prepend(
                            crate::value::values_view(items),
                            decode_items(
                                self.remaining(),
                                (len - i - 1) as nat,
                                context(pre.opts(), ext_hook, model),
                                rc,
                                keys,
                            ),
                        ) by {
                            lemma_items_step(
                                before.remaining(),
                                (len - i) as nat,
                                context(pre.opts(), ext_hook, model),
                                rc,
                                keys,
                                acc,
                            );
                        }
                    }
                },
                Err(e) => {
                    proof {
                        assert forall|model: ExtModel| #[trigger]
                            ext_hook.described_by(model) implies array_of(
                            &pre,
                            context(pre.opts(), ext_hook, model),
                            len as nat,
                            keys,
                        ) == Err::<(Seq<ValueView>, Seq<u8>), Error>(e) by {
                            lemma_items_step(
                                before.remaining(),
                                (len - i) as nat,
                                context(pre.opts(), ext_hook, model),
                                rc,
                                keys,
                                acc,
                            );
                        }
                    }
                    return Err(e);
                },
            }
            i = i + 1;
        }
        proof {
            assert forall|model: ExtModel| #[trigger] ext_hook.described_by(model) implies array_of(
                &pre,
                context(pre.opts(), ext_hook, model),
                len as nat,
                keys,
            ) == Ok::<(Seq<ValueView>, Seq<u8>), Error>(
                (crate::value::values_view(items), self.remaining()),
            ) by {
                lemma_items_step(
                    self.remaining(),
                    1,
                    context(pre.opts(), ext_hook, model),
                    rc,
                    keys,
                    crate::value::values_view(items),
                );
            }
            self.lemma_moved(&entered, self.remaining());
        }
        self.recursion = self.recursion - 1;
        Ok(items)
    }

    /// Reads an array of `len` members.
    fn deserialize_array<F: Fn(i8, &[u8]) -> Option<Value>>(
        &mut self,
        len: u32,
        ext_hook: &ExtHook<F>,
        cache: &mut KeyMap<KEY_MAP_SIZE>,
    ) -> (r: Result<Value, Error>)
        requires
            old(self).wf(),
            old(cache).wf(),
            ext_hook.callable(),
        ensures
            final(cache).wf(),
            r is Ok ==> final(self).moved(old(self), final(self).remaining()),
            forall|model: ExtModel| #[trigger] ext_hook.described_by(model) ==> read_as(
                old(self),
                final(self),
                r,
                match array_of(
                    old(self),
                    context(old(self).opts(), ext_hook, model),
                    len as nat,
                    false,
                ) {
                    Ok((items, left)) => Ok((ValueView::List(items), left)),
                    Err(e) => Err(e),
                },
            ),
        decreases old(self).remaining().len(), 2nat,
    {
        match self.deserialize_items(len, false, ext_hook, cache) {
            Ok(items) => {
                let out = Value::List(items);
                proof {
                    lemma_view(out);
                }
                Ok(out)
            },
            Err(e) => Err(e),
        }
    }

    /// Reads an array of `len` keys: a key that is a tuple.
    fn deserialize_map_array_key<F: Fn(i8, &[u8]) -> Option<Value>>(
        &mut self,
        len: u32,
        ext_hook: &ExtHook<F>,
        cache: &mut KeyMap<KEY_MAP_SIZE>,
    ) -> (r: Result<Value, Error>)
        requires
            old(self).wf(),
            old(cache).wf(),
            ext_hook.callable(),
        ensures
            final(cache).wf(),
            r is Ok ==> final(self).moved(old(self), final(self).remaining()),
            forall|model: ExtModel| #[trigger] ext_hook.described_by(model) ==> read_as(
                old(self),
                final(self),
                r,
                match array_of(
                    old(self),
                    context(old(self).opts(), ext_hook, model),
                    len as nat,
                    true,
                ) {
                    Ok((items, left)) => Ok((ValueView::Tuple(items), left)),
                    Err(e) => Err(e),
                },
            ),
        decreases old(self).remaining().len(), 2nat,
    {
        match self.deserialize_items(len, true, ext_hook, cache) {
            Ok(items) => {
                let out = Value::Tuple(items);
                proof {
                    lemma_view(out);
                }
                Ok(out)
            },
            Err(e) => Err(e),
        }
    }

    /// Reads the key of a map entry, under the options.
    fn deserialize_entry_key<F: Fn(i8, &[u8]) -> Option<Value>>(
        &mut self,
        ext_hook: &ExtHook<F>,
        cache: &mut KeyMap<KEY_MAP_SIZE>,
    ) -> (r: Result<Value, Error>)
        requires
            old(self).wf(),
            old(cache).wf(),
            ext_hook.callable(),
        ensures
            final(cache).wf(),
            r is Ok ==> final(self).moved(old(self), final(self).remaining()) && final(self).remaining().len() < old(self).remaining().len(),
            forall|model: ExtModel| #[trigger] ext_hook.described_by(model) ==> read_as(
                old(self),
                final(self),
                r,
                decode_entry_key(
                    old(self).remaining(),
                    context(old(self).opts(), ext_hook, model),
                    old(self).depth(),
                ),
            ),
        decreases old(self).remaining().len(), 4nat,
    {
        if is_set(self.opts, NON_STR_KEYS) {
            self.deserialize_map_key(ext_hook, cache)
        } else {
            self.deserialize_str_key(cache)
        }
    }

    /// Reads a map of `len` entries.
    fn deserialize_map<F: Fn(i8, &[u8]) -> Option<Value>>(
        &mut self,
        len: u32,
        ext_hook: &ExtHook<F>,
        cache: &mut KeyMap<KEY_MAP_SIZE>,
    ) -> (r: Result<Value, Error>)
        requires
            old(self).wf(),
            old(cache).wf(),
            ext_hook.callable(),
        ensures
            final(cache).wf(),
            r is Ok ==> final(self).moved(old(self), final(self).remaining()),
            forall|model: ExtModel| #[trigger]
                ext_hook.described_by(model) ==> read_as(
                    old(self),
                    final(self),
                    r,
                    match map_of(
                        old(self),
                        context(old(self).opts(), ext_hook, model),
                        len as nat,
                    ) {
                        Ok((entries, left)) => Ok((ValueView::Dict(entries), left)),
                        Err(e) => Err(e),
                    },
                ),
        decreases old(self).remaining().len(), 5nat,
    {
        let ghost pre = *self;
        let ghost rc = (self.recursion + 1) as nat;
        if self.recursion >= RECURSION_LIMIT {
            return Err(Error::RecursionLimitReached);
        }
        self.recursion = self.recursion + 1;
        let ghost entered = *self;
        let mut entries: Vec<(Value, Value)> = Vec::new();
        let mut i: u32 = 0;
        proof {
            assert(crate::value::entries_view(entries) =~= Seq::<(ValueView, ValueView)>::empty());
            assert forall|model: ExtModel| #[trigger] ext_hook.described_by(model) implies map_of(
                &pre,
                context(pre.opts(), ext_hook, model),
                len as nat,
            ) == prepend(
                crate::value::entries_view(entries),
                decode_entries(
                    self.remaining(),
                    len as nat,
                    context(pre.opts(), ext_hook, model),
                    rc,
                ),
            ) by {
                let cx = context(pre.opts(), ext_hook, model);
                let d = decode_entries(pre.remaining(), len as nat, cx, rc);
                match d {
                    Ok((x, left)) => {
                        assert(Seq::<(ValueView, ValueView)>::empty() + x =~= x);
                    },
                    Err(e) => {},
                }
            }
        }
        while i < len
            invariant
                i <= len,
                cache.wf(),
                ext_hook.callable(),
                pre.wf(),
                pre == *old(self),
                entered.wf(),
                self.wf(),
                self.moved(&entered, self.remaining()),
                self.remaining().len() <= pre.remaining().len(),
                entered.depth() == pre.depth() + 1,
                entered.remaining() == pre.remaining(),
                entered.opts() == pre.opts(),
                pre.depth() < RECURSION_LIMIT,
                rc == pre.depth() + 1,
                forall|model: ExtModel| #[trigger]
                    ext_hook.described_by(model) ==> map_of(
                        &pre,
                        context(pre.opts(), ext_hook, model),
                        len as nat,
                    ) == prepend(
                        crate::value::entries_view(entries),
                        decode_entries(
                            self.remaining(),
                            (len - i) as nat,
                            context(pre.opts(), ext_hook, model),
                            rc,
                        ),
                    ),
            decreases len - i,
        {
            let ghost before = *self;
            let ghost acc = crate::value::entries_view(entries);
            proof {
                before.lemma_moved(&entered, before.remaining());
            }
            let key = match self.deserialize_entry_key(ext_hook, cache) {
                Ok(key) => key,
                Err(e) => {
                    proof {
                        assert forall|model: ExtModel| #[trigger]
                            ext_hook.described_by(model) implies map_of(
                            &pre,
                            context(pre.opts(), ext_hook, model),
                            len as nat,
                        ) == Err::<(Seq<(ValueView, ValueView)>, Seq<u8>), Error>(e) by {
                            lemma_entries_step(
                                before.remaining(),
                                (len - i) as nat,
                                context(pre.opts(), ext_hook, model),
                                rc,
                                acc,
                            );
                        }
                    }
                    return Err(e);
                },
            };
            let ghost mid = *self;
            proof {
                mid.lemma_moved(&before, mid.remaining());
            }
            let value = match self.deserialize(ext_hook, cache) {
                Ok(value) => value,
                Err(e) => {
                    proof {
                        assert forall|model: ExtModel| #[trigger]
                            ext_hook.described_by(model) implies map_of(
                            &pre,
                            context(pre.opts(), ext_hook, model),
                            len as nat,
                        ) == Err::<(Seq<(ValueView, ValueView)>, Seq<u8>), Error>(e) by {
                            lemma_entries_step(
                                before.remaining(),
                                (len - i) as nat,
                                context(pre.opts(), ext_hook, model),
                                rc,
                                acc,
                            );
                        }
                    }
                    return Err(e);
                },
            };
            let ghost entry = (key@, value@);
            proof {
                self.lemma_moved(&mid, self.remaining());
            }
            entries.push((key, value));
            proof {
                assert(crate::value::entries_view(entries) =~= acc.push(entry));
                assert forall|model: ExtModel| #[trigger] ext_hook.described_by(model) implies map_of(
                    &pre,
                    context(pre.opts(), ext_hook, model),
                    len as nat,
                ) == prepend(
                    crate::value::entries_view(entries),
                    decode_entries(
                        self.remaining(),
                        (len - i - 1) as nat,
                        context(pre.opts(), ext_hook, model),
                        rc,
                    ),
                ) by {
                    lemma_entries_step(
                        before.remaining(),
                        (len - i) as nat,
                        context(pre.opts(), ext_hook, model),
                        rc,
                        acc,
                    );
                }
            }
            i = i + 1;
        }
        proof {
            assert forall|model: ExtModel| #[trigger] ext_hook.described_by(model) implies map_of(
                &pre,
                context(pre.opts(), ext_hook, model),
                len as nat,
            ) == Ok::<(Seq<(ValueView, ValueView)>, Seq<u8>), Error>(
                (crate::value::entries_view(entries), self.remaining()),
            ) by {
                lemma_entries_step(
                    self.remaining(),
                    1,
                    context(pre.opts(), ext_hook, model),
                    rc,
                    crate::value::entries_view(entries),
                );
            }
            self.lemma_moved(&entered, self.remaining());
        }
        self.recursion = self.recursion - 1;
        let out = Value::Dict(entries);
        proof {
            lemma_view(out);
        }
        Ok(out)
    }

    /// Reads one value.
    pub fn deserialize<F: Fn(i8, &[u8]) -> Option<Value>>(
        &mut self,
        ext_hook: &ExtHook<F>,
        cache: &mut KeyMap<KEY_MAP_SIZE>,
    ) -> (r: Result<Value, Error>)
        requires
            old(self).wf(),
            old(cache).wf(),
            ext_hook.callable(),
        ensures
            final(cache).wf(),
            r is Ok ==> final(self).moved(old(self), final(self).remaining()) && final(self).remaining().len() < old(self).remaining().len(),
            forall|model: ExtModel| #[trigger] ext_hook.described_by(model) ==> read_as(
                old(self),
                final(self),
                r,
                decode_value(
                    old(self).remaining(),
                    context(old(self).opts(), ext_hook, model),
                    old(self).depth(),
                ),
            ),
        decreases old(self).remaining().len(), 0nat,
    {
        let ghost pre = *self;
        let marker = match self.read_marker() {
            Ok(marker) => marker,
            Err(e) => {
                return Err(e);
            },
        };
        let ghost mid = *self;
        proof {
            mid.lemma_moved(&pre, mid.remaining());
        }
        let fam = family(marker);
        match fam {
            Family::Scalar => {
                let r = self.deserialize_scalar(marker);
                proof {
                    if r is Ok {
                        self.lemma_moved(&mid, self.remaining());
                    }
                }
                r
            },
            Family::Reserved => Err(Error::InvalidType(marker)),
            _ => {
                let len = match self.marker_length(marker) {
                    Ok(len) => len,
                    Err(e) => {
                        return Err(e);
                    },
                };
                let ghost mid2 = *self;
                proof {
                    mid2.lemma_moved(&mid, mid2.remaining());
                }
                let r = match fam {
                    Family::Str => self.deserialize_str(len),
                    Family::Bin => self.deserialize_bin(len),
                    Family::Ext => self.deserialize_ext(len, ext_hook),
                    Family::Array => self.deserialize_array(len, ext_hook, cache),
                    _ => self.deserialize_map(len, ext_hook, cache),
                };
                proof {
                    if r is Ok {
                        self.lemma_moved(&mid2, self.remaining());
                    }
                }
                r
            },
        }
    }

    /// Reads a key of any kind that a key can be of.
    fn deserialize_map_key<F: Fn(i8, &[u8]) -> Option<Value>>(
        &mut self,
        ext_hook: &ExtHook<F>,
        cache: &mut KeyMap<KEY_MAP_SIZE>,
    ) -> (r: Result<Value, Error>)
        requires
            old(self).wf(),
            old(cache).wf(),
            ext_hook.callable(),
        ensures
            final(cache).wf(),
            r is Ok ==> final(self).moved(old(self), final(self).remaining()) && final(self).remaining().len() < old(self).remaining().len(),
            forall|model: ExtModel| #[trigger] ext_hook.described_by(model) ==> read_as(
                old(self),
                final(self),
                r,
                decode_key(
                    old(self).remaining(),
                    context(old(self).opts(), ext_hook, model),
                    old(self).depth(),
                ),
            ),
        decreases old(self).remaining().len(), 0nat,
    {
        let ghost pre = *self;
        let marker = match self.read_marker() {
            Ok(marker) => marker,
            Err(e) => {
                return Err(e);
            },
        };
        let ghost mid = *self;
        proof {
            mid.lemma_moved(&pre, mid.remaining());
        }
        let fam = family(marker);
        match fam {
            Family::Scalar => {
                let r = self.deserialize_scalar(marker);
                proof {
                    if r is Ok {
                        self.lemma_moved(&mid, self.remaining());
                    }
                }
                r
            },
            Family::Str | Family::Bin | Family::Array => {
                let len = match self.marker_length(marker) {
                    Ok(len) => len,
                    Err(e) => {
                        return Err(e);
                    },
                };
                let ghost mid2 = *self;
                proof {
                    mid2.lemma_moved(&mid, mid2.remaining());
                }
                let r = match fam {
                    Family::Str => self.deserialize_map_str_key(len, cache),
                    Family::Bin => self.deserialize_bin(len),
                    _ => self.deserialize_map_array_key(len, ext_hook, cache),
                };
                proof {
                    if r is Ok {
                        self.lemma_moved(&mid2, self.remaining());
                    }
                }
                r
            },
            _ => Err(Error::InvalidType(marker)),
        }
    }
}

/// The members of an array that starts where the cursor stands: read one
/// level deeper, unless the ceiling of nesting is reached.
pub open spec fn array_of<'de>(
    pre: &Deserializer<'de>,
    cx: Context,
    len: nat,
    keys: bool,
) -> Result<(Seq<ValueView>, Seq<u8>), Error> {
    if pre.depth() >= RECURSION_LIMIT {
        Err(Error::RecursionLimitReached)
    } else {
        decode_items(pre.remaining(), len, cx, pre.depth() + 1, keys)
    }
}

/// The entries of a map that starts where the cursor stands: read one
/// level deeper, unless the ceiling of nesting is reached.
pub open spec fn map_of<'de>(pre: &Deserializer<'de>, cx: Context, len: nat) -> Result<
    (Seq<(ValueView, ValueView)>, Seq<u8>),
    Error,
> {
    if pre.depth() >= RECURSION_LIMIT {
        Err(Error::RecursionLimitReached)
    } else {
        decode_entries(pre.remaining(), len, cx, pre.depth() + 1)
    }
}

/// Whether a reader handed back what `want` says, and left the cursor
/// where `want` says.
pub open spec fn read_as<'de>(
    pre: &Deserializer<'de>,
    post: &Deserializer<'de>,
    r: Result<Value, Error>,
    want: Result<(ValueView, Seq<u8>), Error>,
) -> bool {
    match r {
        Ok(v) => want == Ok::<(ValueView, Seq<u8>), Error>((v@, post.remaining())) && post.moved(
            pre,
            post.remaining(),
        ),
        Err(e) => want == Err::<(ValueView, Seq<u8>), Error>(e),
    }
}

/// The family of a marker.
pub fn family(marker: Marker) -> (f: Family)
    ensures
        f == family_of(marker),
{
    match marker {
        Marker::FixStr(_) | Marker::Str8 | Marker::Str16 | Marker::Str32 => Family::Str,
        Marker::Bin8 | Marker::Bin16 | Marker::Bin32 => Family::Bin,
        Marker::FixArray(_) | Marker::Array16 | Marker::Array32 => Family::Array,
        Marker::FixMap(_) | Marker::Map16 | Marker::Map32 => Family::Mapping,
        Marker::FixExt1 | Marker::FixExt2 | Marker::FixExt4 | Marker::FixExt8 | Marker::FixExt16
        | Marker::Ext8 | Marker::Ext16 | Marker::Ext32 => Family::Ext,
        Marker::Reserved => Family::Reserved,
        _ => Family::Scalar,
    }
}

/// Whether a decoding call handed back what `want` says.
pub open spec fn unpacked(r: Result<Value, Error>, want: Result<ValueView, Error>) -> bool {
    match r {
        Ok(v) => want == Ok::<ValueView, Error>(v@),
        Err(e) => want == Err::<ValueView, Error>(e),
    }
}

/// Decodes the first value in `data`, with an extension hook or without
/// one, and with the key cache `cache`.
pub fn unpack<F: Fn(i8, &[u8]) -> Option<Value>>(
    data: &[u8],
    ext_hook: Option<F>,
    opts: Opt,
    cache: &mut KeyMap<KEY_MAP_SIZE>,
) -> (r: Result<Value, Error>)
    requires
        old(cache).wf(),
        ExtHook::new_spec(ext_hook).callable(),
    ensures
        final(cache).wf(),
        forall|model: ExtModel| #[trigger]
            ExtHook::new_spec(ext_hook).described_by(model) ==> unpacked(
                r,
                crate::deserialize::decoding::unpack_spec(
                    data@,
                    context(opts, &ExtHook::new_spec(ext_hook), model),
                ),
            ),
{
    let hook = ExtHook::new(ext_hook);
    let mut deserializer = Deserializer::new(data, opts);
    deserializer.deserialize(&hook, cache)
}

/// No hook, of the type of the hook `_like`.
fn absent<F>(_like: F) -> (none: Option<F>)
    ensures
        none is None,
{
    None
}

/// Decodes the first value in `data` without an extension hook, with a
/// key cache of its own.
pub fn unpackb(data: &[u8], opts: Opt) -> (r: Result<Value, Error>)
    ensures
        unpacked(
            r,
            crate::deserialize::decoding::unpack_spec(data@, Context { opts, hook: None }),
        ),
{
    let never = |tag: i8, payload: &[u8]| -> (r: Option<Value>) { None };
    let none = absent(never);
    let mut cache = KeyMap::<KEY_MAP_SIZE>::new();
    proof {
        let model = |tag: i8, payload: Seq<u8>| None::<ValueView>;
        assert(ExtHook::new_spec(none).described_by(model));
    }
    unpack(data, none, opts, &mut cache)
}

/// What the caller of a decoding call is handed for a source of the host:
/// the value in its bytes, or the text of the error. Only bytes, a byte
/// array, and a view of memory without gaps are sources.
pub open spec fn deserialize_spec(source: ValueView, cx: Context) -> Result<ValueView, Seq<char>> {
    match source {
        ValueView::Bytes(b) | ValueView::ByteArray(b) | ValueView::MemoryView(Some(b)) => {
            match crate::deserialize::decoding::unpack_spec(b, cx) {
                Ok(v) => Ok(v),
                Err(e) => Err(e.text()),
            }
        },
        ValueView::MemoryView(None) => Err(
            "Input type memoryview must be a C contiguous buffer"@,
        ),
        _ => Err("Input must be bytes, bytearray, memoryview"@),
    }
}

/// Decodes the first value in the bytes of a source of the host.
pub fn deserialize<F: Fn(i8, &[u8]) -> Option<Value>>(
    source: &Value,
    ext_hook: Option<F>,
    opts: Opt,
    cache: &mut KeyMap<KEY_MAP_SIZE>,
) -> (r: Result<Value, crate::deserialize::error::DeserializeError>)
    requires
        old(cache).wf(),
        ExtHook::new_spec(ext_hook).callable(),
    ensures
        final(cache).wf(),
        forall|model: ExtModel| #[trigger]
            ExtHook::new_spec(ext_hook).described_by(model) ==> match r {
                Ok(v) => deserialize_spec(
                    source@,
                    context(opts, &ExtHook::new_spec(ext_hook), model),
                ) == Ok::<ValueView, Seq<char>>(v@),
                Err(e) => deserialize_spec(
                    source@,
                    context(opts, &ExtHook::new_spec(ext_hook), model),
                ) == Err::<ValueView, Seq<char>>(e.message@),
            },
{
    proof {
        lemma_view(*source);
    }
    let contents: &[u8] = match source {
        Value::Bytes(b) => b.as_slice(),
        Value::ByteArray(b) => b.as_slice(),
        Value::MemoryView(Some(b)) => b.as_slice(),
        Value::MemoryView(None) => {
            return Err(
                crate::deserialize::error::DeserializeError::new(
                    "Input type memoryview must be a C contiguous buffer".to_owned(),
                ),
            );
        },
        _ => {
            return Err(
                crate::deserialize::error::DeserializeError::new(
                    "Input must be bytes, bytearray, memoryview".to_owned(),
                ),
            );
        },
    };
    match unpack(contents, ext_hook, opts, cache) {
        Ok(v) => Ok(v),
        Err(e) => Err(crate::deserialize::error::DeserializeError::new(e.message())),
    }
}

} // verus!
