//! What the options decide, whatever the value: which keys a map may
//! have, where integers beyond the format go, which tags an extension
//! value may have, what a time of day may carry, and how a date and time
//! ends.

use crate::opt::{
    holds, DATETIME_AS_TIMESTAMP_EXT, NAIVE_UTC, NON_STR_KEYS, PASSTHROUGH_BIG_INT,
    PASSTHROUGH_DATETIME, SORT_KEYS, UTC_Z,
};
use crate::msgpack::string::str_token;
use crate::serialize::datetime::{datetime_emit, utcoffset, value_text, DateTimeError};
use crate::serialize::datetimelike::{date_text, offset_text, padded, time_text, Offset};
use crate::serialize::encoding::{
    child_count, child_key, classify_spec, dict_plan, encode_children, encode_value,
    first_key_error, hook_emit, int_in_range, key_part, leaf_emit, lemma_children_step, plan_of,
    str_key_error, Context, Plan,
};
use crate::serialize::error::{Emitted, EncodeError};
use crate::serialize::order::identity_order;
use crate::value::{DateTimeValue, TimeValue, TzInfo, ValueView};
use vstd::prelude::*;

verus! {

/// Sorted keys together with keys of any kind are an error for every
/// mapping, whatever it holds, and for the empty one too.
pub proof fn lemma_options_incompatible(
    entries: Seq<(ValueView, ValueView)>,
    cx: Context,
    dc: nat,
    rc: nat,
)
    requires
        holds(cx.opts, NON_STR_KEYS),
        holds(cx.opts, SORT_KEYS),
        rc < 255,
    ensures
        encode_value(ValueView::Dict(entries), cx, dc, rc) == Emitted::fail(
            EncodeError::OptionsIncompatible,
        ),
{
    reveal(classify_spec);
    reveal(dict_plan);
}

/// A failure of the first child of a container is the failure of its
/// children.
proof fn lemma_first_child_fails(v: ValueView, plan: Plan, upto: nat, cx: Context, dc: nat, rc: nat)
    requires
        1 <= upto <= plan.order.len(),
        forall|i: int| 0 <= i < plan.order.len() ==> 0 <= #[trigger] plan.order[i] < child_count(v),
        key_part(child_key(v, plan.order[0]), plan.keys, cx.opts, rc).error is Some,
    ensures
        encode_children(v, plan, upto, cx, dc, rc) == key_part(
            child_key(v, plan.order[0]),
            plan.keys,
            cx.opts,
            rc,
        ),
    decreases upto,
{
    lemma_children_step(v, plan, (upto - 1) as nat, cx, dc, rc);
    let key = key_part(child_key(v, plan.order[0]), plan.keys, cx.opts, rc);
    if upto == 1 {
        crate::serialize::error::lemma_nothing_first(key);
    } else {
        lemma_first_child_fails(v, plan, (upto - 1) as nat, cx, dc, rc);
    }
}

/// Without the option for keys of any kind, and without sorting, a
/// mapping whose first key is no string is refused: after the head of the
/// map, encoding fails because the key must be a string.
pub proof fn lemma_key_must_be_str(
    entries: Seq<(ValueView, ValueView)>,
    cx: Context,
    dc: nat,
    rc: nat,
)
    requires
        !holds(cx.opts, NON_STR_KEYS),
        !holds(cx.opts, SORT_KEYS),
        rc < 255,
        entries.len() > 0,
        !(entries[0].0 is Str),
    ensures
        encode_value(ValueView::Dict(entries), cx, dc, rc).error == Some(
            if entries.len() <= 0xffff_ffff {
                EncodeError::KeyMustBeStr
            } else {
                EncodeError::Write
            },
        ),
{
    reveal(classify_spec);
    reveal(dict_plan);
    reveal(key_part);
    let v = ValueView::Dict(entries);
    let plan = plan_of(v, cx.opts).unwrap();
    assert(plan.order == identity_order(entries.len()));
    lemma_first_child_fails(v, plan, entries.len(), cx, dc, rc + 1);
}

/// Where no key among the first children is in error, none of them is.
proof fn lemma_keys_checked(v: ValueView, upto: nat, i: int)
    requires
        first_key_error(v, upto) is None,
        0 <= i < upto,
    ensures
        str_key_error(child_key(v, i)) is None,
    decreases upto,
{
    if i + 1 < upto {
        lemma_keys_checked(v, (upto - 1) as nat, i);
    }
}

/// Children that are encoded without error have keys that are written
/// without error.
proof fn lemma_children_keys(
    v: ValueView,
    plan: Plan,
    upto: nat,
    i: int,
    cx: Context,
    dc: nat,
    rc: nat,
)
    requires
        upto <= plan.order.len(),
        forall|j: int| 0 <= j < plan.order.len() ==> 0 <= #[trigger] plan.order[j] < child_count(v),
        encode_children(v, plan, upto, cx, dc, rc).error is None,
        0 <= i < upto,
    ensures
        key_part(child_key(v, plan.order[i]), plan.keys, cx.opts, rc).error is None,
    decreases upto,
{
    lemma_children_step(v, plan, (upto - 1) as nat, cx, dc, rc);
    if i + 1 < upto {
        lemma_children_keys(v, plan, (upto - 1) as nat, i, cx, dc, rc);
    }
}

/// Without the option for keys of any kind, a mapping is encoded without
/// error only where every one of its keys is a well-formed string.
pub proof fn lemma_keys_are_strings(
    entries: Seq<(ValueView, ValueView)>,
    cx: Context,
    dc: nat,
    rc: nat,
)
    requires
        !holds(cx.opts, NON_STR_KEYS),
        encode_value(ValueView::Dict(entries), cx, dc, rc).error is None,
    ensures
        forall|i: int|
            0 <= i < entries.len() ==> str_key_error(#[trigger] entries[i].0) is None,
{
    reveal(classify_spec);
    reveal(dict_plan);
    reveal(key_part);
    let v = ValueView::Dict(entries);
    let plan = plan_of(v, cx.opts).unwrap();
    assert forall|i: int| 0 <= i < entries.len() implies str_key_error(
        #[trigger] entries[i].0,
    ) is None by {
        if holds(cx.opts, SORT_KEYS) {
            lemma_keys_checked(v, entries.len(), i);
        } else {
            assert(plan.order == identity_order(entries.len()));
            assert(plan.order[i] == i);
            lemma_children_keys(v, plan, entries.len(), i, cx, dc, rc + 1);
        }
    }
}

/// An integer beyond the 64-bit range is an error, unless the options
/// pass such integers on: then it goes to the fallback hook.
pub proof fn lemma_big_int(n: int, cx: Context, dc: nat, rc: nat)
    requires
        !int_in_range(n),
    ensures
        encode_value(ValueView::Int(n), cx, dc, rc) == if holds(cx.opts, PASSTHROUGH_BIG_INT) {
            hook_emit(ValueView::Int(n), cx, dc, rc)
        } else {
            Emitted::fail(EncodeError::IntegerOutOfRange)
        },
{
    reveal(classify_spec);
    reveal(leaf_emit);
}

/// An extension value is encoded only under a tag from 0 to 127: under
/// any other tag encoding fails, whatever the payload and the options.
pub proof fn lemma_ext_tag_out_of_range(tag: i64, data: Seq<u8>, cx: Context, dc: nat, rc: nat)
    requires
        !(0 <= tag <= 127),
    ensures
        encode_value(ValueView::Ext { tag, data }, cx, dc, rc) == Emitted::fail(
            EncodeError::ExtTagOutOfRange,
        ),
{
    reveal(classify_spec);
    reveal(leaf_emit);
}

/// A time of day that carries a time zone is an error under every set of
/// options that does not pass times on to the fallback hook.
pub proof fn lemma_time_with_timezone(t: TimeValue, cx: Context, dc: nat, rc: nat)
    requires
        t.tzinfo,
        !holds(cx.opts, PASSTHROUGH_DATETIME),
    ensures
        encode_value(ValueView::Time(t), cx, dc, rc) == Emitted::fail(
            EncodeError::TimeHasTimezone,
        ),
{
    reveal(classify_spec);
    reveal(leaf_emit);
}

/// A date and time that the options do not pass on is encoded as a date
/// and time.
proof fn lemma_datetime_leaf(d: DateTimeValue, cx: Context, dc: nat, rc: nat)
    requires
        !holds(cx.opts, PASSTHROUGH_DATETIME),
    ensures
        encode_value(ValueView::DateTime(d), cx, dc, rc) == datetime_emit(d, cx.opts),
{
    reveal(classify_spec);
    reveal(leaf_emit);
}

/// The text of a time of day without its fraction of a second: hours,
/// minutes and seconds with colons between them.
pub open spec fn clock_text(hour: i32, minute: i32, second: i32) -> Seq<u8> {
    padded(hour, 2) + seq![0x3au8] + padded(minute, 2) + seq![0x3au8] + padded(second, 2)
}

/// A date and time without a time zone and without microseconds is
/// written without a fraction of a second, whatever the options say of
/// microseconds: as its date, a `T`, and its hours, minutes and seconds.
pub proof fn lemma_whole_seconds(d: DateTimeValue, cx: Context, dc: nat, rc: nat)
    requires
        d.tzinfo is Naive,
        d.microsecond == 0,
        !holds(cx.opts, PASSTHROUGH_DATETIME),
        !holds(cx.opts, NAIVE_UTC),
    ensures
        encode_value(ValueView::DateTime(d), cx, dc, rc) == Emitted::token(
            str_token(
                date_text(d.year, d.month, d.day) + seq![0x54u8] + clock_text(
                    d.hour,
                    d.minute,
                    d.second,
                ),
            ),
        ),
{
    lemma_datetime_leaf(d, cx, dc, rc);
    let time = time_text(d.hour, d.minute, d.second, d.microsecond, cx.opts);
    assert(time =~= clock_text(d.hour, d.minute, d.second));
    let text = date_text(d.year, d.month, d.day) + seq![0x54u8] + time;
    assert(text + Seq::<u8>::empty() =~= text);
    assert(utcoffset(d.tzinfo) == Ok::<Option<Offset>, DateTimeError>(None));
    assert(value_text(d, cx.opts) == text);
}

/// A date and time at the offset zero from UTC that is written as text
/// ends in `Z` where the options ask for that, and in `+00:00` where they
/// do not.
pub proof fn lemma_utc_suffix(d: DateTimeValue, cx: Context, dc: nat, rc: nat)
    requires
        d.tzinfo == (TzInfo::Delta { days: 0, seconds: 0 }),
        !holds(cx.opts, PASSTHROUGH_DATETIME),
        !holds(cx.opts, DATETIME_AS_TIMESTAMP_EXT),
    ensures
        encode_value(ValueView::DateTime(d), cx, dc, rc) == Emitted::token(
            str_token(
                date_text(d.year, d.month, d.day) + seq![0x54u8] + time_text(
                    d.hour,
                    d.minute,
                    d.second,
                    d.microsecond,
                    cx.opts,
                ) + (if holds(cx.opts, UTC_Z) {
                    seq![0x5au8]
                } else {
                    seq![0x2bu8, 0x30u8, 0x30u8, 0x3au8, 0x30u8, 0x30u8]
                }),
            ),
        ),
{
    lemma_datetime_leaf(d, cx, dc, rc);
    let zero = Offset { day: 0, second: 0 };
    assert(zero.wf());
    assert(utcoffset(d.tzinfo) == Ok::<Option<Offset>, DateTimeError>(Some(zero)));
    assert(offset_text(zero, cx.opts) == if holds(cx.opts, UTC_Z) {
        seq![0x5au8]
    } else {
        seq![0x2bu8, 0x30u8, 0x30u8, 0x3au8, 0x30u8, 0x30u8]
    });
}

} // verus!
