//! Decoding what was encoded gives the value back.

use crate::deserialize::decoding::{
    decode_entries, decode_entry_key, decode_items, decode_scalar, decode_str_key, decode_value,
    family_of, marker_len, take, unpack_spec, Context as DecodeContext, Error, Family,
};
use crate::msgpack::array::array_header;
use crate::msgpack::bin::{bin_header, bin_token};
use crate::msgpack::endian::{
    be16, be32, be64, lemma_be16_round_trip, lemma_be32_round_trip, lemma_be64_round_trip,
};
use crate::msgpack::integer::{i64_bytes, u64_bytes};
use crate::msgpack::map::map_header;
use crate::msgpack::marker::Marker;
use crate::msgpack::string::{str_header, str_token};
use crate::opt::{lemma_no_options, NON_STR_KEYS, PASSTHROUGH_BIG_INT, SORT_KEYS};
use crate::serialize::encoding::{
    child_count, child_key, child_value, classify_spec, dict_plan, encode_children, encode_value,
    int_emit, int_in_range, key_part, leaf_emit, Context as EncodeContext, Keys, Plan,
};
use crate::serialize::error::{Emitted, EncodeError};
use crate::serialize::order::identity_order;
use crate::value::{TextView, ValueView};
use vstd::prelude::*;
use vstd::utf8::encode_utf8;

verus! {

/// An encoding call with no options and no hook.
pub open spec fn plain_encode() -> EncodeContext {
    EncodeContext { opts: 0, hook: None }
}

/// A decoding call with no options and no hook.
pub open spec fn plain_decode() -> DecodeContext {
    DecodeContext { opts: 0, hook: None }
}

/// Whether a value is of the kinds that the format has as they are: nil, a
/// boolean, an integer that 64 bits hold, a double-precision number, a
/// well-formed string, a binary payload, a list of such values, and a
/// mapping from well-formed strings to such values.
pub open spec fn is_plain(v: ValueView) -> bool
    decreases v,
{
    match v {
        ValueView::Null => true,
        ValueView::Bool(_) => true,
        ValueView::Int(n) => int_in_range(n),
        ValueView::Float(_) => true,
        ValueView::Str(TextView::Utf8(_)) => true,
        ValueView::Bytes(_) => true,
        ValueView::List(items) => forall|i: int|
            0 <= i < items.len() ==> is_plain(#[trigger] items[i]),
        ValueView::Dict(entries) => forall|i: int|
            0 <= i < entries.len() ==> (#[trigger] entries[i]).0 is Str && (
            entries[i].0->Str_0 is Utf8) && is_plain(entries[i].1),
        _ => false,
    }
}

/// What is read from a token and the bytes that follow it: the first
/// bytes, and then the others.
proof fn lemma_take(head: Seq<u8>, tail: Seq<u8>)
    ensures
        take(head + tail, head.len()) == Ok::<(Seq<u8>, Seq<u8>), Error>((head, tail)),
{
    assert((head + tail).take(head.len() as int) =~= head);
    assert((head + tail).skip(head.len() as int) =~= tail);
}

/// A scalar that was encoded is read back, whatever follows it.
pub proof fn lemma_scalar_round_trip(v: ValueView, tail: Seq<u8>, rc: nat)
    requires
        v is Null || v is Bool || v is Float || (v is Int && int_in_range(v->Int_0)),
    ensures
        leaf_emit(v, 0).error is None,
        decode_value(leaf_emit(v, 0).bytes + tail, plain_decode(), rc) == Ok::<
            (ValueView, Seq<u8>),
            Error,
        >((v, tail)),
{
    reveal(leaf_emit);
    reveal(decode_scalar);
    let bytes = leaf_emit(v, 0).bytes;
    let data = bytes + tail;
    match v {
        ValueView::Null => {
            assert(data[0] == 0xc0);
            assert(data.skip(1) =~= tail);
        },
        ValueView::Bool(b) => {
            assert(data[0] == if b {
                0xc3u8
            } else {
                0xc2u8
            });
            assert(data.skip(1) =~= tail);
        },
        ValueView::Float(bits) => {
            lemma_be64_round_trip(bits);
            assert(data[0] == 0xcb);
            assert(data.skip(1) =~= be64(bits) + tail);
            lemma_take(be64(bits), tail);
        },
        ValueView::Int(n) => {
            lemma_int_round_trip(n, tail, rc);
        },
        _ => {},
    }
}

/// An integer that was encoded is read back, whatever follows it.
proof fn lemma_int_round_trip(n: int, tail: Seq<u8>, rc: nat)
    requires
        int_in_range(n),
    ensures
        int_emit(n).error is None,
        decode_value(int_emit(n).bytes + tail, plain_decode(), rc) == Ok::<
            (ValueView, Seq<u8>),
            Error,
        >((ValueView::Int(n), tail)),
{
    if n >= 0 {
        lemma_unsigned_round_trip(n as u64, tail, rc);
    } else {
        lemma_negative_round_trip(n as i64, tail, rc);
    }
}

/// What a scalar token is read as: the scalar of its marker.
proof fn lemma_scalar_token(data: Seq<u8>, rc: nat)
    requires
        data.len() > 0,
        family_of(Marker::of_byte(data[0])) == Family::Scalar,
    ensures
        decode_value(data, plain_decode(), rc) == decode_scalar(
            Marker::of_byte(data[0]),
            data.skip(1),
        ),
{
}

/// An unsigned integer that was encoded is read back.
proof fn lemma_unsigned_round_trip(v: u64, tail: Seq<u8>, rc: nat)
    ensures
        decode_value(u64_bytes(v) + tail, plain_decode(), rc) == Ok::<
            (ValueView, Seq<u8>),
            Error,
        >((ValueView::Int(v as int), tail)),
{
    reveal(decode_scalar);
    let data = u64_bytes(v) + tail;
    if v < 0x80 {
        assert(data[0] == v as u8);
        assert(data.skip(1) =~= tail);
        lemma_scalar_token(data, rc);
    } else if v < 0x100 {
        assert(data[0] == 0xcc);
        assert(data.skip(1) =~= seq![v as u8] + tail);
        lemma_take(seq![v as u8], tail);
        lemma_scalar_token(data, rc);
    } else if v < 0x1_0000 {
        lemma_be16_round_trip(v as u16);
        assert(data[0] == 0xcd);
        assert(data.skip(1) =~= be16(v as u16) + tail);
        lemma_take(be16(v as u16), tail);
        lemma_scalar_token(data, rc);
    } else if v <= 0xffff_ffff {
        lemma_be32_round_trip(v as u32);
        assert(data[0] == 0xce);
        assert(data.skip(1) =~= be32(v as u32) + tail);
        lemma_take(be32(v as u32), tail);
        lemma_scalar_token(data, rc);
    } else {
        lemma_be64_round_trip(v);
        assert(data[0] == 0xcf);
        assert(data.skip(1) =~= be64(v) + tail);
        lemma_take(be64(v), tail);
        lemma_scalar_token(data, rc);
    }
}

/// A negative integer that was encoded is read back.
proof fn lemma_negative_round_trip(v: i64, tail: Seq<u8>, rc: nat)
    requires
        v < 0,
    ensures
        decode_value(i64_bytes(v) + tail, plain_decode(), rc) == Ok::<
            (ValueView, Seq<u8>),
            Error,
        >((ValueView::Int(v as int), tail)),
{
    reveal(decode_scalar);
    let data = i64_bytes(v) + tail;
    if v >= -32 {
        assert(data[0] == (v + 0x100) as u8);
        assert(data.skip(1) =~= tail);
        lemma_scalar_token(data, rc);
    } else if v >= -0x80 {
        assert(data[0] == 0xd0);
        assert(data.skip(1) =~= seq![(v + 0x100) as u8] + tail);
        lemma_take(seq![(v + 0x100) as u8], tail);
        lemma_scalar_token(data, rc);
    } else if v >= -0x8000 {
        lemma_be16_round_trip((v + 0x1_0000) as u16);
        assert(data[0] == 0xd1);
        assert(data.skip(1) =~= be16((v + 0x1_0000) as u16) + tail);
        lemma_take(be16((v + 0x1_0000) as u16), tail);
        lemma_scalar_token(data, rc);
    } else if v >= -0x8000_0000 {
        lemma_be32_round_trip((v + 0x1_0000_0000) as u32);
        assert(data[0] == 0xd2);
        assert(data.skip(1) =~= be32((v + 0x1_0000_0000) as u32) + tail);
        lemma_take(be32((v + 0x1_0000_0000) as u32), tail);
        lemma_scalar_token(data, rc);
    } else {
        lemma_be64_round_trip((v + 0x1_0000_0000_0000_0000) as u64);
        assert(data[0] == 0xd3);
        assert(data.skip(1) =~= be64((v + 0x1_0000_0000_0000_0000) as u64) + tail);
        lemma_take(be64((v + 0x1_0000_0000_0000_0000) as u64), tail);
        lemma_scalar_token(data, rc);
    }
}

/// The head of an array is read as the head of an array of as many
/// members.
proof fn lemma_array_head(n: nat, rest: Seq<u8>)
    requires
        n <= 0xffff_ffff,
    ensures
        array_header(n) is Some,
        ({
            let data = array_header(n).unwrap() + rest;
            &&& data.len() > rest.len()
            &&& family_of(Marker::of_byte(data[0])) == Family::Array
            &&& marker_len(Marker::of_byte(data[0]), data.skip(1)) == Ok::<(nat, Seq<u8>), Error>(
                (n, rest),
            )
        }),
{
    let h = array_header(n).unwrap();
    let data = h + rest;
    if n < 16 {
        assert(data[0] == (0x90 + n) as u8);
        assert(data.skip(1) =~= rest);
    } else if n < 0x1_0000 {
        lemma_be16_round_trip(n as u16);
        assert(data[0] == 0xdc);
        assert(data.skip(1) =~= be16(n as u16) + rest);
        lemma_take(be16(n as u16), rest);
    } else {
        lemma_be32_round_trip(n as u32);
        assert(data[0] == 0xdd);
        assert(data.skip(1) =~= be32(n as u32) + rest);
        lemma_take(be32(n as u32), rest);
    }
}

/// The head of a map is read as the head of a map of as many entries.
proof fn lemma_map_head(n: nat, rest: Seq<u8>)
    requires
        n <= 0xffff_ffff,
    ensures
        map_header(n) is Some,
        ({
            let data = map_header(n).unwrap() + rest;
            &&& data.len() > rest.len()
            &&& family_of(Marker::of_byte(data[0])) == Family::Mapping
            &&& marker_len(Marker::of_byte(data[0]), data.skip(1)) == Ok::<(nat, Seq<u8>), Error>(
                (n, rest),
            )
        }),
{
    let h = map_header(n).unwrap();
    let data = h + rest;
    if n < 16 {
        assert(data[0] == (0x80 + n) as u8);
        assert(data.skip(1) =~= rest);
    } else if n < 0x1_0000 {
        lemma_be16_round_trip(n as u16);
        assert(data[0] == 0xde);
        assert(data.skip(1) =~= be16(n as u16) + rest);
        lemma_take(be16(n as u16), rest);
    } else {
        lemma_be32_round_trip(n as u32);
        assert(data[0] == 0xdf);
        assert(data.skip(1) =~= be32(n as u32) + rest);
        lemma_take(be32(n as u32), rest);
    }
}

/// The head of a string is read as the head of a string of as many bytes.
proof fn lemma_str_head(n: nat, rest: Seq<u8>)
    requires
        n <= 0xffff_ffff,
    ensures
        str_header(n) is Some,
        ({
            let data = str_header(n).unwrap() + rest;
            &&& data.len() > rest.len()
            &&& family_of(Marker::of_byte(data[0])) == Family::Str
            &&& marker_len(Marker::of_byte(data[0]), data.skip(1)) == Ok::<(nat, Seq<u8>), Error>(
                (n, rest),
            )
        }),
{
    let h = str_header(n).unwrap();
    let data = h + rest;
    if n < 32 {
        assert(data[0] == (0xa0 + n) as u8);
        assert(data.skip(1) =~= rest);
    } else if n < 0x100 {
        assert(data[0] == 0xd9);
        assert(data.skip(1) =~= seq![n as u8] + rest);
        lemma_take(seq![n as u8], rest);
    } else if n < 0x1_0000 {
        lemma_be16_round_trip(n as u16);
        assert(data[0] == 0xda);
        assert(data.skip(1) =~= be16(n as u16) + rest);
        lemma_take(be16(n as u16), rest);
    } else {
        lemma_be32_round_trip(n as u32);
        assert(data[0] == 0xdb);
        assert(data.skip(1) =~= be32(n as u32) + rest);
        lemma_take(be32(n as u32), rest);
    }
}

/// The head of a payload is read as the head of a payload of as many
/// bytes.
proof fn lemma_bin_head(n: nat, rest: Seq<u8>)
    requires
        n <= 0xffff_ffff,
    ensures
        bin_header(n) is Some,
        ({
            let data = bin_header(n).unwrap() + rest;
            &&& data.len() > rest.len()
            &&& family_of(Marker::of_byte(data[0])) == Family::Bin
            &&& marker_len(Marker::of_byte(data[0]), data.skip(1)) == Ok::<(nat, Seq<u8>), Error>(
                (n, rest),
            )
        }),
{
    let h = bin_header(n).unwrap();
    let data = h + rest;
    if n < 0x100 {
        assert(data[0] == 0xc4);
        assert(data.skip(1) =~= seq![n as u8] + rest);
        lemma_take(seq![n as u8], rest);
    } else if n < 0x1_0000 {
        lemma_be16_round_trip(n as u16);
        assert(data[0] == 0xc5);
        assert(data.skip(1) =~= be16(n as u16) + rest);
        lemma_take(be16(n as u16), rest);
    } else {
        lemma_be32_round_trip(n as u32);
        assert(data[0] == 0xc6);
        assert(data.skip(1) =~= be32(n as u32) + rest);
        lemma_take(be32(n as u32), rest);
    }
}

/// A string that was encoded is read back, as a value and as a key,
/// whatever follows it.
pub proof fn lemma_str_round_trip(chars: Seq<char>, tail: Seq<u8>, rc: nat)
    requires
        str_token(encode_utf8(chars)) is Some,
    ensures
        decode_value(str_token(encode_utf8(chars)).unwrap() + tail, plain_decode(), rc) == Ok::<
            (ValueView, Seq<u8>),
            Error,
        >((ValueView::Str(TextView::Utf8(chars)), tail)),
        decode_str_key(str_token(encode_utf8(chars)).unwrap() + tail) == Ok::<
            (ValueView, Seq<u8>),
            Error,
        >((ValueView::Str(TextView::Utf8(chars)), tail)),
{
    let bytes = encode_utf8(chars);
    vstd::utf8::encode_utf8_valid_utf8(chars);
    vstd::utf8::encode_utf8_decode_utf8(chars);
    lemma_str_head(bytes.len(), bytes + tail);
    lemma_take(bytes, tail);
    assert(str_header(bytes.len()).unwrap() + bytes + tail =~= str_header(bytes.len()).unwrap() + (
    bytes + tail));
}

/// A payload that was encoded is read back, whatever follows it.
pub proof fn lemma_bin_round_trip(bytes: Seq<u8>, tail: Seq<u8>, rc: nat)
    requires
        bin_token(bytes) is Some,
    ensures
        decode_value(bin_token(bytes).unwrap() + tail, plain_decode(), rc) == Ok::<
            (ValueView, Seq<u8>),
            Error,
        >((ValueView::Bytes(bytes), tail)),
{
    lemma_bin_head(bytes.len(), bytes + tail);
    lemma_take(bytes, tail);
    assert(bin_header(bytes.len()).unwrap() + bytes + tail =~= bin_header(bytes.len()).unwrap() + (
    bytes + tail));
}

/// What the child at the place `i` of the order is encoded as: its key,
/// where there are keys, and then its value.
pub open spec fn child_emit(
    v: ValueView,
    plan: Plan,
    i: int,
    cx: EncodeContext,
    dc: nat,
    rc: nat,
) -> Emitted {
    key_part(child_key(v, plan.order[i]), plan.keys, cx.opts, rc).followed_by(
        encode_value(child_value(v, plan.order[i]), cx, dc, rc),
    )
}

/// What the children from the place `from` of the order on are encoded as.
pub open spec fn emit_from(
    v: ValueView,
    plan: Plan,
    from: nat,
    cx: EncodeContext,
    dc: nat,
    rc: nat,
) -> Emitted
    decreases plan.order.len() - from,
{
    if from >= plan.order.len() {
        Emitted::nothing()
    } else {
        child_emit(v, plan, from as int, cx, dc, rc).followed_by(
            emit_from(v, plan, from + 1, cx, dc, rc),
        )
    }
}

/// The children of a container are the first of them and then the others.
pub proof fn lemma_children_as_from(
    v: ValueView,
    plan: Plan,
    upto: nat,
    cx: EncodeContext,
    dc: nat,
    rc: nat,
)
    requires
        upto <= plan.order.len(),
        forall|i: int| 0 <= i < plan.order.len() ==> 0 <= #[trigger] plan.order[i] < child_count(v),
    ensures
        encode_children(v, plan, plan.order.len(), cx, dc, rc) == encode_children(
            v,
            plan,
            upto,
            cx,
            dc,
            rc,
        ).followed_by(emit_from(v, plan, upto, cx, dc, rc)),
    decreases plan.order.len() - upto,
{
    let n = plan.order.len();
    let before = encode_children(v, plan, upto, cx, dc, rc);
    if upto == n {
        crate::serialize::error::lemma_nothing_first(before);
    } else {
        lemma_children_as_from(v, plan, upto + 1, cx, dc, rc);
        crate::serialize::encoding::lemma_children_step(v, plan, upto, cx, dc, rc);
        let key = key_part(child_key(v, plan.order[upto as int]), plan.keys, cx.opts, rc);
        let val = encode_value(child_value(v, plan.order[upto as int]), cx, dc, rc);
        let rest = emit_from(v, plan, upto + 1, cx, dc, rc);
        crate::serialize::error::lemma_followed_by_assoc(before, key, val);
        crate::serialize::error::lemma_followed_by_assoc(before, key.followed_by(val), rest);
    }
}

/// How a container without a choice among its children is written: all of
/// them, in their own order.
pub open spec fn whole_plan(v: ValueView, keys: Keys) -> Plan {
    Plan { keys, precheck: None, order: identity_order(child_count(v)) }
}

/// What a plain value is encoded as under no options: a container as its
/// head and all its children in their own order, any other value as its
/// token.
pub proof fn lemma_plain_encoding(v: ValueView, rc: nat)
    requires
        is_plain(v),
    ensures
        encode_value(v, plain_encode(), 0, rc) == (match v {
            ValueView::List(items) => if rc >= 255 {
                Emitted::fail(EncodeError::RecursionLimitReached)
            } else {
                Emitted::token(array_header(items.len())).followed_by(
                    encode_children(
                        v,
                        whole_plan(v, Keys::Absent),
                        items.len(),
                        plain_encode(),
                        0,
                        rc + 1,
                    ),
                )
            },
            ValueView::Dict(entries) => if rc >= 255 {
                Emitted::fail(EncodeError::RecursionLimitReached)
            } else {
                Emitted::token(map_header(entries.len())).followed_by(
                    encode_children(
                        v,
                        whole_plan(v, Keys::Str),
                        entries.len(),
                        plain_encode(),
                        0,
                        rc + 1,
                    ),
                )
            },
            _ => leaf_emit(v, 0),
        }),
{
    reveal(classify_spec);
    reveal(dict_plan);
    lemma_no_options(NON_STR_KEYS);
    lemma_no_options(SORT_KEYS);
    lemma_no_options(PASSTHROUGH_BIG_INT);
}

/// The members of a list that were encoded are read back, whatever follows
/// them.
proof fn lemma_items_round_trip(
    v: ValueView,
    from: nat,
    tail: Seq<u8>,
    rc_e: nat,
    rc_d: nat,
)
    requires
        v is List,
        is_plain(v),
        from <= v->List_0.len(),
        emit_from(v, whole_plan(v, Keys::Absent), from, plain_encode(), 0, rc_e).error is None,
        rc_d <= rc_e + 769,
    ensures
        decode_items(
            emit_from(v, whole_plan(v, Keys::Absent), from, plain_encode(), 0, rc_e).bytes + tail,
            (v->List_0.len() - from) as nat,
            plain_decode(),
            rc_d,
            false,
        ) == Ok::<(Seq<ValueView>, Seq<u8>), Error>((v->List_0.skip(from as int), tail)),
    decreases v, 0nat, v->List_0.len() - from,
{
    reveal(key_part);
    let items = v->List_0;
    let plan = whole_plan(v, Keys::Absent);
    let n = items.len();
    if from >= n {
        assert(items.skip(from as int) =~= Seq::<ValueView>::empty());
        assert(Seq::<u8>::empty() + tail =~= tail);
    } else {
        let first = encode_value(items[from as int], plain_encode(), 0, rc_e);
        let rest = emit_from(v, plan, from + 1, plain_encode(), 0, rc_e);
        crate::serialize::error::lemma_nothing_first(first);
        assert(child_emit(v, plan, from as int, plain_encode(), 0, rc_e) == first);
        assert(is_plain(items[from as int]));
        lemma_value_round_trip(items[from as int], rest.bytes + tail, rc_e, rc_d);
        lemma_items_round_trip(v, from + 1, tail, rc_e, rc_d);
        assert(first.bytes + rest.bytes + tail =~= first.bytes + (rest.bytes + tail));
        assert(seq![items[from as int]] + items.skip(from as int + 1) =~= items.skip(from as int));
        lemma_progress(items[from as int], rc_e);
    }
}

/// The entries of a mapping that were encoded are read back, whatever
/// follows them.
proof fn lemma_entries_round_trip(
    v: ValueView,
    from: nat,
    tail: Seq<u8>,
    rc_e: nat,
    rc_d: nat,
)
    requires
        v is Dict,
        is_plain(v),
        from <= v->Dict_0.len(),
        emit_from(v, whole_plan(v, Keys::Str), from, plain_encode(), 0, rc_e).error is None,
        rc_d <= rc_e + 769,
    ensures
        decode_entries(
            emit_from(v, whole_plan(v, Keys::Str), from, plain_encode(), 0, rc_e).bytes + tail,
            (v->Dict_0.len() - from) as nat,
            plain_decode(),
            rc_d,
        ) == Ok::<(Seq<(ValueView, ValueView)>, Seq<u8>), Error>(
            (v->Dict_0.skip(from as int), tail),
        ),
    decreases v, 0nat, v->Dict_0.len() - from,
{
    reveal(key_part);
    let entries = v->Dict_0;
    let plan = whole_plan(v, Keys::Str);
    let n = entries.len();
    if from >= n {
        assert(entries.skip(from as int) =~= Seq::<(ValueView, ValueView)>::empty());
        assert(Seq::<u8>::empty() + tail =~= tail);
    } else {
        let entry = entries[from as int];
        assert(entry.0 is Str && entry.0->Str_0 is Utf8 && is_plain(entry.1));
        let chars = entry.0->Str_0->Utf8_0;
        let key = key_part(entry.0, Keys::Str, 0, rc_e);
        let val = encode_value(entry.1, plain_encode(), 0, rc_e);
        let rest = emit_from(v, plan, from + 1, plain_encode(), 0, rc_e);
        assert(child_emit(v, plan, from as int, plain_encode(), 0, rc_e) == key.followed_by(val));
        assert(key == Emitted::token(str_token(encode_utf8(chars))));
        lemma_no_options(NON_STR_KEYS);
        lemma_str_round_trip(chars, val.bytes + rest.bytes + tail, rc_d);
        lemma_value_round_trip(entry.1, rest.bytes + tail, rc_e, rc_d);
        lemma_entries_round_trip(v, from + 1, tail, rc_e, rc_d);
        assert(key.bytes + val.bytes + rest.bytes + tail =~= key.bytes + (val.bytes + rest.bytes
            + tail));
        assert(val.bytes + rest.bytes + tail =~= val.bytes + (rest.bytes + tail));
        assert(seq![entry] + entries.skip(from as int + 1) =~= entries.skip(from as int));
        lemma_progress(entry.1, rc_e);
        assert(key.bytes.len() > 0);
        let data = emit_from(v, plan, from, plain_encode(), 0, rc_e).bytes + tail;
        let after_key = val.bytes + rest.bytes + tail;
        assert(data =~= key.bytes + after_key);
        assert(decode_entry_key(data, plain_decode(), rc_d) == Ok::<(ValueView, Seq<u8>), Error>(
            (entry.0, after_key),
        ));
        assert(decode_value(after_key, plain_decode(), rc_d) == Ok::<(ValueView, Seq<u8>), Error>(
            (entry.1, rest.bytes + tail),
        ));
        assert(decode_entries(rest.bytes + tail, (n - from - 1) as nat, plain_decode(), rc_d)
            == Ok::<(Seq<(ValueView, ValueView)>, Seq<u8>), Error>(
            (entries.skip(from as int + 1), tail),
        ));
        assert(entry == (entry.0, entry.1));
    }
}

/// A plain value that is encoded without error is encoded as one byte at
/// least.
proof fn lemma_progress(v: ValueView, rc: nat)
    requires
        is_plain(v),
        encode_value(v, plain_encode(), 0, rc).error is None,
    ensures
        encode_value(v, plain_encode(), 0, rc).bytes.len() > 0,
{
    lemma_plain_encoding(v, rc);
    let e = encode_value(v, plain_encode(), 0, rc);
    let none = Seq::<u8>::empty();
    assert(decode_value(none, plain_decode(), 0) is Err);
    assert(none + none =~= none);
    match v {
        ValueView::List(items) => {},
        ValueView::Dict(entries) => {},
        ValueView::Str(TextView::Utf8(chars)) => {
            lemma_leaf_text(chars);
            lemma_str_round_trip(chars, none, 0);
        },
        ValueView::Bytes(bytes) => {
            lemma_leaf_bytes(bytes);
            lemma_bin_round_trip(bytes, none, 0);
        },
        _ => {
            lemma_scalar_round_trip(v, none, 0);
        },
    }
}

/// What a well-formed string is encoded as.
proof fn lemma_leaf_text(chars: Seq<char>)
    ensures
        leaf_emit(ValueView::Str(TextView::Utf8(chars)), 0) == Emitted::token(
            str_token(encode_utf8(chars)),
        ),
{
    reveal(leaf_emit);
}

/// What a payload is encoded as.
proof fn lemma_leaf_bytes(bytes: Seq<u8>)
    ensures
        leaf_emit(ValueView::Bytes(bytes), 0) == Emitted::token(bin_token(bytes)),
{
    reveal(leaf_emit);
}

/// A plain value that was encoded without error is read back, whatever
/// follows it.
pub proof fn lemma_value_round_trip(v: ValueView, tail: Seq<u8>, rc_e: nat, rc_d: nat)
    requires
        is_plain(v),
        encode_value(v, plain_encode(), 0, rc_e).error is None,
        rc_d <= rc_e + 769,
    ensures
        decode_value(
            encode_value(v, plain_encode(), 0, rc_e).bytes + tail,
            plain_decode(),
            rc_d,
        ) == Ok::<(ValueView, Seq<u8>), Error>((v, tail)),
    decreases v, 1nat, 0nat,
{
    lemma_plain_encoding(v, rc_e);
    match v {
        ValueView::List(items) => {
            let plan = whole_plan(v, Keys::Absent);
            let n = items.len();
            let kids = encode_children(v, plan, n, plain_encode(), 0, rc_e + 1);
            lemma_children_as_from(v, plan, 0, plain_encode(), 0, rc_e + 1);
            let from0 = emit_from(v, plan, 0, plain_encode(), 0, rc_e + 1);
            crate::serialize::error::lemma_nothing_first(from0);
            assert(kids == from0);
            lemma_array_head(n, kids.bytes + tail);
            lemma_items_round_trip(v, 0, tail, rc_e + 1, rc_d + 1);
            assert(array_header(n).unwrap() + kids.bytes + tail =~= array_header(n).unwrap() + (
            kids.bytes + tail));
            assert(items.skip(0) =~= items);
        },
        ValueView::Dict(entries) => {
            let plan = whole_plan(v, Keys::Str);
            let n = entries.len();
            let kids = encode_children(v, plan, n, plain_encode(), 0, rc_e + 1);
            lemma_children_as_from(v, plan, 0, plain_encode(), 0, rc_e + 1);
            let from0 = emit_from(v, plan, 0, plain_encode(), 0, rc_e + 1);
            crate::serialize::error::lemma_nothing_first(from0);
            assert(kids == from0);
            lemma_map_head(n, kids.bytes + tail);
            lemma_entries_round_trip(v, 0, tail, rc_e + 1, rc_d + 1);
            assert(map_header(n).unwrap() + kids.bytes + tail =~= map_header(n).unwrap() + (
            kids.bytes + tail));
            assert(entries.skip(0) =~= entries);
        },
        ValueView::Str(TextView::Utf8(chars)) => {
            lemma_leaf_text(chars);
            lemma_str_round_trip(chars, tail, rc_d);
        },
        ValueView::Bytes(bytes) => {
            lemma_leaf_bytes(bytes);
            lemma_bin_round_trip(bytes, tail, rc_d);
        },
        _ => {
            lemma_scalar_round_trip(v, tail, rc_d);
        },
    }
}

/// Decoding what was encoded gives the value back: a plain value that is
/// encoded without options and without error is decoded, without options,
/// as the value that it is.
pub proof fn lemma_round_trip(v: ValueView)
    requires
        is_plain(v),
        crate::serialize::object::pack_spec(v, plain_encode()) is Ok,
    ensures
        unpack_spec(
            crate::serialize::object::pack_spec(v, plain_encode()).unwrap(),
            plain_decode(),
        ) == Ok::<ValueView, Error>(v),
{
    let e = encode_value(v, plain_encode(), 0, 0);
    lemma_value_round_trip(v, Seq::empty(), 0, 0);
    assert(e.bytes + Seq::<u8>::empty() =~= e.bytes);
}

/// What the extension hook of a decoding call makes of a tag and a
/// payload: the value that it hands back, or the error of a hook that is
/// missing or fails.
pub open spec fn hooked(cx: DecodeContext, tag: i8, payload: Seq<u8>) -> Result<ValueView, Error> {
    match cx.hook {
        None => Err(Error::ExtHookMissing),
        Some(hook) => match hook(tag, payload) {
            Some(v) => Ok(v),
            None => Err(Error::ExtHookFailed),
        },
    }
}

/// The head of an extension value is read as the head of an extension
/// value with as long a payload.
proof fn lemma_ext_head(n: nat, tag: i8, rest: Seq<u8>)
    requires
        n <= 0xffff_ffff,
    ensures
        crate::msgpack::ext::ext_header(n, tag) is Some,
        ({
            let tagged = seq![crate::msgpack::ext::tag_byte(tag)] + rest;
            let data = crate::msgpack::ext::ext_header(n, tag).unwrap() + rest;
            &&& data.len() > 0
            &&& family_of(Marker::of_byte(data[0])) == Family::Ext
            &&& marker_len(Marker::of_byte(data[0]), data.skip(1)) == Ok::<(nat, Seq<u8>), Error>(
                (n, tagged),
            )
        }),
{
    let t = crate::msgpack::ext::tag_byte(tag);
    let tagged = seq![t] + rest;
    let h = crate::msgpack::ext::ext_header(n, tag).unwrap();
    let data = h + rest;
    if n == 1 || n == 2 || n == 4 || n == 8 || n == 16 {
        assert(data.skip(1) =~= tagged);
    } else if n < 0x100 {
        assert(data[0] == 0xc7);
        assert(data.skip(1) =~= seq![n as u8] + tagged);
        lemma_take(seq![n as u8], tagged);
    } else if n < 0x1_0000 {
        lemma_be16_round_trip(n as u16);
        assert(data[0] == 0xc8);
        assert(data.skip(1) =~= be16(n as u16) + tagged);
        lemma_take(be16(n as u16), tagged);
    } else {
        lemma_be32_round_trip(n as u32);
        assert(data[0] == 0xc9);
        assert(data.skip(1) =~= be32(n as u32) + tagged);
        lemma_take(be32(n as u32), tagged);
    }
}

/// An extension value that was encoded reaches the extension hook as it
/// was: decoding hands the hook the tag and the payload, and hands back
/// what the hook makes of them.
pub proof fn lemma_ext_round_trip(
    tag: i64,
    payload: Seq<u8>,
    tail: Seq<u8>,
    cx: DecodeContext,
    rc: nat,
)
    requires
        0 <= tag <= 127,
        crate::serialize::encoding::ext_emit(tag, payload).error is None,
    ensures
        decode_value(crate::serialize::encoding::ext_emit(tag, payload).bytes + tail, cx, rc)
            == match hooked(cx, tag as i8, payload) {
            Ok(v) => Ok::<(ValueView, Seq<u8>), Error>((v, tail)),
            Err(e) => Err::<(ValueView, Seq<u8>), Error>(e),
        },
{
    let t = tag as i8;
    let n = payload.len();
    let h = crate::msgpack::ext::ext_header(n, t).unwrap();
    lemma_ext_head(n, t, payload + tail);
    let tb = crate::msgpack::ext::tag_byte(t);
    lemma_take(seq![tb], payload + tail);
    lemma_take(payload, tail);
    assert(h + payload + tail =~= h + (payload + tail));
    assert(crate::msgpack::endian::as_i8(tb) == t);
}

} // verus!
