//! The ceiling of nesting: arrays inside arrays are encoded down to the
//! ceiling and no deeper, and so they are decoded.

use crate::deserialize::decoding::{
    decode_items, decode_value, Context as DecodeContext, Error, RECURSION_LIMIT,
};
use crate::msgpack::array::array_header;
use crate::msgpack::marker::Marker;
use crate::serialize::encoding::{
    classify_spec, encode_value, lemma_children_step, plan_of, Context as EncodeContext,
};
use crate::serialize::error::{lemma_nothing_first, Emitted, EncodeError};
use crate::serialize::order::identity_order;
use crate::value::ValueView;
use vstd::prelude::*;

verus! {

/// `payload` inside `depth` arrays of one member each.
pub open spec fn nested(depth: nat, payload: ValueView) -> ValueView
    decreases depth,
{
    if depth == 0 {
        payload
    } else {
        ValueView::List(seq![nested((depth - 1) as nat, payload)])
    }
}

/// The bytes of `payload` after the heads of `depth` arrays of one member
/// each.
pub open spec fn nested_bytes(depth: nat, payload: Seq<u8>) -> Seq<u8>
    decreases depth,
{
    if depth == 0 {
        payload
    } else {
        seq![0x91u8] + nested_bytes((depth - 1) as nat, payload)
    }
}

/// A container at the ceiling of nesting is not encoded, whatever it holds.
pub proof fn lemma_container_at_ceiling(v: ValueView, cx: EncodeContext, dc: nat, rc: nat)
    requires
        plan_of(v, cx.opts) is Some,
        rc >= 255,
    ensures
        encode_value(v, cx, dc, rc) == Emitted::fail(EncodeError::RecursionLimitReached),
{
}

/// What an array of one member is encoded as: its head and its member one
/// level deeper, unless the ceiling is reached.
proof fn lemma_single(x: ValueView, cx: EncodeContext, dc: nat, rc: nat)
    ensures
        encode_value(ValueView::List(seq![x]), cx, dc, rc) == if rc >= 255 {
            Emitted::fail(EncodeError::RecursionLimitReached)
        } else {
            Emitted::ok(seq![0x91u8]).followed_by(encode_value(x, cx, dc, rc + 1))
        },
{
    reveal(classify_spec);
    reveal(crate::serialize::encoding::key_part);
    let v = ValueView::List(seq![x]);
    let plan = plan_of(v, cx.opts).unwrap();
    assert(plan.order == identity_order(1));
    assert(plan.order[0] == 0);
    lemma_children_step(v, plan, 0, cx, dc, rc + 1);
    lemma_nothing_first(encode_value(x, cx, dc, rc + 1));
    assert(array_header(1) == Some(seq![0x91u8]));
}

/// Arrays nested down to the ceiling are encoded, and arrays nested
/// deeper are not, whatever the innermost array holds: a payload that is
/// encoded the same at every depth is encoded inside `depth` arrays exactly
/// where there is no array at all, or `depth` and the depth at which the
/// outermost stands are 255 together at most.
pub proof fn lemma_encode_ceiling(
    depth: nat,
    payload: ValueView,
    out: Seq<u8>,
    cx: EncodeContext,
    dc: nat,
    rc: nat,
)
    requires
        forall|at: nat| #[trigger] encode_value(payload, cx, dc, at) == Emitted::ok(out),
    ensures
        depth == 0 || rc + depth <= 255 ==> encode_value(nested(depth, payload), cx, dc, rc)
            == Emitted::ok(nested_bytes(depth, out)),
        depth > 0 && rc + depth > 255 ==> encode_value(nested(depth, payload), cx, dc, rc).error
            == Some(EncodeError::RecursionLimitReached),
    decreases depth,
{
    if depth > 0 {
        let inner = nested((depth - 1) as nat, payload);
        lemma_single(inner, cx, dc, rc);
        lemma_encode_ceiling((depth - 1) as nat, payload, out, cx, dc, rc + 1);
    }
}

/// Arrays nested down to the ceiling are decoded, and arrays nested
/// deeper are not, whatever the innermost array holds: a payload that is
/// decoded the same at every depth is decoded inside `depth` arrays exactly
/// where there is no array at all, or `depth` and the depth at which the
/// outermost stands are 1024 together at most.
pub proof fn lemma_decode_ceiling(
    depth: nat,
    payload: ValueView,
    bytes: Seq<u8>,
    tail: Seq<u8>,
    cx: DecodeContext,
    rc: nat,
)
    requires
        forall|at: nat, after: Seq<u8>| #[trigger]
            decode_value(bytes + after, cx, at) == Ok::<(ValueView, Seq<u8>), Error>(
                (payload, after),
            ),
    ensures
        decode_value(nested_bytes(depth, bytes) + tail, cx, rc) == if depth == 0 || rc + depth
            <= 1024 {
            Ok::<(ValueView, Seq<u8>), Error>((nested(depth, payload), tail))
        } else {
            Err::<(ValueView, Seq<u8>), Error>(Error::RecursionLimitReached)
        },
    decreases depth,
{
    if depth > 0 {
        let inner = nested_bytes((depth - 1) as nat, bytes);
        let data = nested_bytes(depth, bytes) + tail;
        assert(data[0] == 0x91);
        assert(data.skip(1) =~= inner + tail);
        assert(Marker::of_byte(0x91) == Marker::FixArray(1));
        lemma_decode_ceiling((depth - 1) as nat, payload, bytes, tail, cx, rc + 1);
        if rc < RECURSION_LIMIT {
            if rc + depth <= 1024 {
                assert(decode_items(tail, 0, cx, rc + 1, false) == Ok::<
                    (Seq<ValueView>, Seq<u8>),
                    Error,
                >((Seq::empty(), tail)));
                assert(inner.len() > 0) by {
                    lemma_nested_bytes_len((depth - 1) as nat, bytes);
                    assert(decode_value(bytes + Seq::<u8>::empty(), cx, 0) is Ok);
                    assert(bytes + Seq::<u8>::empty() =~= bytes);
                }
                assert(seq![nested((depth - 1) as nat, payload)] + Seq::<ValueView>::empty()
                    =~= seq![nested((depth - 1) as nat, payload)]);
            }
        }
    }
}

/// The heads of arrays add bytes.
proof fn lemma_nested_bytes_len(depth: nat, payload: Seq<u8>)
    ensures
        nested_bytes(depth, payload).len() == depth + payload.len(),
    decreases depth,
{
    if depth > 0 {
        lemma_nested_bytes_len((depth - 1) as nat, payload);
    }
}

} // verus!
