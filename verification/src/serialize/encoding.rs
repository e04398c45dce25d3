//! What encoding a value puts out: the contract of the encoder, as
//! functions of the value's view.

use crate::msgpack::array::array_header;
use crate::msgpack::bin::bin_token;
use crate::msgpack::boolean::bool_bytes;
use crate::msgpack::ext::ext_token;
use crate::msgpack::float::f64_bytes;
use crate::msgpack::integer::{i64_bytes, u64_bytes};
use crate::msgpack::map::map_header;
use crate::msgpack::nil::nil_bytes;
use crate::msgpack::string::str_token;
use crate::opt::{
    holds, Opt, NON_STR_KEYS, NOT_PASSTHROUGH, PASSTHROUGH_BIG_INT, PASSTHROUGH_DATACLASS,
    PASSTHROUGH_DATETIME, PASSTHROUGH_ENUM, PASSTHROUGH_SUBCLASS, PASSTHROUGH_TUPLE,
    PASSTHROUGH_UUID, REPLACE_SURROGATES, SERIALIZE_NUMPY, SERIALIZE_PYDANTIC, SORT_KEYS,
};
use crate::serialize::numpy::{array_check, array_emit, scalar_emit, PyArrayError};
use crate::serialize::datetime::{date_emit, datetime_emit, time_emit, utcoffset, value_text};
use crate::serialize::error::{Emitted, EncodeError};
use crate::serialize::order::{arranged, identity_order};
use crate::serialize::uuid::uuid_text;
use crate::value::{FieldView, TextView, ValueView};
use vstd::prelude::*;
use vstd::utf8::encode_utf8;

verus! {

/// What the fallback hook does, as a contract sees it: for each value the
/// value that it hands back, or nothing where it fails.
pub type HookModel = spec_fn(ValueView) -> Option<ValueView>;

/// What an encoding call is made with, besides the value.
pub struct Context {
    pub opts: Opt,
    /// The fallback hook, where there is one.
    pub hook: Option<HookModel>,
}

/// The kind that the encoder takes a value for.
#[derive(Clone, Copy, Debug, PartialEq, Eq, Structural)]
pub enum Kind {
    Str,
    Bytes,
    Int,
    Bool,
    Null,
    Float,
    List,
    Dict,
    DateTime,
    Date,
    Time,
    Tuple,
    Uuid,
    Enum,
    StrSubclass,
    IntSubclass,
    ListSubclass,
    DictSubclass,
    Ext,
    Record,
    Model,
    /// A scalar of a numeric array.
    Scalar,
    /// A numeric array.
    Array,
    ByteArray,
    MemoryView,
    /// Of no kind that is encoded as it is: the fallback hook decides.
    Unrepresentable,
}

/// Whether an integer lies in the range of the format: of a signed or of
/// an unsigned 64-bit number.
pub open spec fn int_in_range(n: int) -> bool {
    -0x8000_0000_0000_0000 <= n <= 0xffff_ffff_ffff_ffff
}

/// The kind of a value under the options. The kinds are tried in a fixed
/// order, and an option to pass a kind on makes its values unrepresentable.
#[verifier::opaque]
pub open spec fn classify_spec(v: ValueView, opts: Opt) -> Kind {
    match v {
        ValueView::Str(_) => Kind::Str,
        ValueView::Bytes(_) => Kind::Bytes,
        ValueView::Int(n) => if !int_in_range(n) && holds(opts, PASSTHROUGH_BIG_INT) {
            Kind::Unrepresentable
        } else {
            Kind::Int
        },
        ValueView::Bool(_) => Kind::Bool,
        ValueView::Null => Kind::Null,
        ValueView::Float(_) => Kind::Float,
        ValueView::List(_) => Kind::List,
        ValueView::Dict(_) => Kind::Dict,
        ValueView::DateTime(_) => if holds(opts, PASSTHROUGH_DATETIME) {
            Kind::Unrepresentable
        } else {
            Kind::DateTime
        },
        ValueView::Date(_) => if holds(opts, PASSTHROUGH_DATETIME) {
            Kind::Unrepresentable
        } else {
            Kind::Date
        },
        ValueView::Time(_) => if holds(opts, PASSTHROUGH_DATETIME) {
            Kind::Unrepresentable
        } else {
            Kind::Time
        },
        ValueView::Tuple(_) => if holds(opts, PASSTHROUGH_TUPLE) {
            Kind::Unrepresentable
        } else {
            Kind::Tuple
        },
        ValueView::Uuid(_) => if holds(opts, PASSTHROUGH_UUID) {
            Kind::Unrepresentable
        } else {
            Kind::Uuid
        },
        ValueView::Enum(_) => if holds(opts, PASSTHROUGH_ENUM) {
            Kind::Unrepresentable
        } else {
            Kind::Enum
        },
        ValueView::StrSubclass(_) => if holds(opts, PASSTHROUGH_SUBCLASS) {
            Kind::Unrepresentable
        } else {
            Kind::StrSubclass
        },
        ValueView::IntSubclass(n) => if holds(opts, PASSTHROUGH_SUBCLASS) || (!int_in_range(n)
            && holds(opts, PASSTHROUGH_BIG_INT)) {
            Kind::Unrepresentable
        } else {
            Kind::IntSubclass
        },
        ValueView::ListSubclass(_) => if holds(opts, PASSTHROUGH_SUBCLASS) {
            Kind::Unrepresentable
        } else {
            Kind::ListSubclass
        },
        ValueView::DictSubclass(_) => if holds(opts, PASSTHROUGH_SUBCLASS) {
            Kind::Unrepresentable
        } else {
            Kind::DictSubclass
        },
        ValueView::Ext { .. } => Kind::Ext,
        ValueView::Record { .. } => if holds(opts, PASSTHROUGH_DATACLASS) {
            Kind::Unrepresentable
        } else {
            Kind::Record
        },
        ValueView::Model { .. } => if holds(opts, SERIALIZE_PYDANTIC) {
            Kind::Model
        } else {
            Kind::Unrepresentable
        },
        ValueView::Scalar(_) => if holds(opts, SERIALIZE_NUMPY) {
            Kind::Scalar
        } else {
            Kind::Unrepresentable
        },
        ValueView::Array(_) => if holds(opts, SERIALIZE_NUMPY) {
            Kind::Array
        } else {
            Kind::Unrepresentable
        },
        ValueView::ByteArray(_) => Kind::ByteArray,
        ValueView::MemoryView(_) => Kind::MemoryView,
        ValueView::Other(_) => Kind::Unrepresentable,
    }
}

/// What a string is encoded as: its UTF-8 bytes; where it holds lone
/// surrogates, the bytes of its lossy form if the options ask for that.
pub open spec fn text_emit(t: TextView, opts: Opt) -> Emitted {
    match t {
        TextView::Utf8(s) => Emitted::token(str_token(encode_utf8(s))),
        TextView::Surrogates { lossy: Some(s) } => if holds(opts, REPLACE_SURROGATES) {
            Emitted::token(str_token(encode_utf8(s)))
        } else {
            Emitted::fail(EncodeError::InvalidStr)
        },
        TextView::Surrogates { lossy: None } => Emitted::fail(EncodeError::InvalidStr),
    }
}

/// What an integer is encoded as: the shortest token that holds it.
pub open spec fn int_emit(n: int) -> Emitted {
    if !int_in_range(n) {
        Emitted::fail(EncodeError::IntegerOutOfRange)
    } else if n >= 0 {
        Emitted::ok(u64_bytes(n as u64))
    } else {
        Emitted::ok(i64_bytes(n as i64))
    }
}

/// What an extension value is encoded as.
pub open spec fn ext_emit(tag: i64, data: Seq<u8>) -> Emitted {
    if 0 <= tag <= 127 {
        Emitted::token(ext_token(data, tag as i8))
    } else {
        Emitted::fail(EncodeError::ExtTagOutOfRange)
    }
}

/// What a view of memory is encoded as.
pub open spec fn memoryview_emit(bytes: Option<Seq<u8>>) -> Emitted {
    match bytes {
        Some(b) => Emitted::token(bin_token(b)),
        None => Emitted::fail(EncodeError::MemoryViewNotContiguous),
    }
}

/// What a date and time is written as where it is a key: always its text.
pub open spec fn datetime_key_emit(value: crate::value::DateTimeValue, opts: Opt) -> Emitted {
    match utcoffset(value.tzinfo) {
        Err(_) => Emitted::fail(EncodeError::TzLibraryUnsupported),
        Ok(_) => Emitted::token(str_token(value_text(value, opts))),
    }
}

/// What a key that is no tuple is encoded as: a scalar as its token, a
/// date, a time or a UUID as its text. A container is no key.
#[verifier::opaque]
pub open spec fn key_leaf_emit(k: ValueView, opts: Opt) -> Emitted {
    match k {
        ValueView::Str(t) => text_emit(t, opts),
        ValueView::Bytes(b) => Emitted::token(bin_token(b)),
        ValueView::Int(n) => int_emit(n),
        ValueView::Bool(b) => Emitted::ok(bool_bytes(b)),
        ValueView::Null => Emitted::ok(nil_bytes()),
        ValueView::Float(bits) => Emitted::ok(f64_bytes(bits)),
        ValueView::DateTime(d) => datetime_key_emit(d, opts),
        ValueView::Date(d) => date_emit(d),
        ValueView::Time(t) => time_emit(t, opts),
        ValueView::Uuid(n) => Emitted::token(str_token(uuid_text(n))),
        ValueView::StrSubclass(t) => text_emit(t, opts),
        ValueView::IntSubclass(n) => int_emit(n),
        ValueView::MemoryView(b) => memoryview_emit(b),
        _ => Emitted::fail(EncodeError::KeyTypeUnsupported),
    }
}

/// What a key of any kind is encoded as, at the nesting depth `rc`. A tuple
/// is an array of keys, and fails at the ceiling of nesting; a member of an
/// enumeration is the key that it stands for.
pub open spec fn key_emit(k: ValueView, opts: Opt, rc: nat) -> Emitted
    decreases k, 1nat, 0nat,
{
    match k {
        ValueView::Tuple(items) => if rc >= 255 {
            Emitted::fail(EncodeError::RecursionLimitReached)
        } else {
            Emitted::token(array_header(items.len())).followed_by(
                key_items(k, items.len(), opts, rc + 1),
            )
        },
        ValueView::Enum(inner) => key_emit(*inner, opts, rc),
        _ => key_leaf_emit(k, opts),
    }
}

/// What the first `upto` members of the tuple `k` are encoded as, as keys.
pub open spec fn key_items(k: ValueView, upto: nat, opts: Opt, rc: nat) -> Emitted
    decreases k, 0nat, upto,
{
    match k {
        ValueView::Tuple(items) => if upto == 0 || upto > items.len() {
            Emitted::nothing()
        } else {
            key_items(k, (upto - 1) as nat, opts, rc).followed_by(
                key_emit(items[upto - 1], opts, rc),
            )
        },
        _ => Emitted::nothing(),
    }
}

/// Which kinds of key a map is written with.
#[derive(Clone, Copy, Debug, PartialEq, Eq, Structural)]
pub enum Keys {
    /// There are no keys: the container is an array.
    Absent,
    /// Every key must be a string.
    Str,
    /// A key may be of any kind that a key can be of.
    Any,
}

/// The number of children of a container: the members of a list, the
/// entries of a mapping, the fields of a record, and for a model the
/// entries of its attribute table and then of its extra table.
pub open spec fn child_count(v: ValueView) -> nat {
    match v {
        ValueView::List(items) => items.len(),
        ValueView::Tuple(items) => items.len(),
        ValueView::ListSubclass(items) => items.len(),
        ValueView::Dict(entries) => entries.len(),
        ValueView::DictSubclass(entries) => entries.len(),
        ValueView::Record { fields, .. } => fields.len(),
        ValueView::Model { dict: Some(d), extra: Some(e) } => d.len() + e.len(),
        ValueView::Model { dict: Some(d), extra: None } => d.len(),
        _ => 0,
    }
}

/// The key of the child `j` of a container that has keys.
pub open spec fn child_key(v: ValueView, j: int) -> ValueView
    recommends
        0 <= j < child_count(v),
{
    match v {
        ValueView::Dict(entries) => entries[j].0,
        ValueView::DictSubclass(entries) => entries[j].0,
        ValueView::Record { fields, .. } => ValueView::Str(TextView::Utf8(fields[j].name)),
        ValueView::Model { dict: Some(d), extra: Some(e) } => if j < d.len() {
            d[j].0
        } else {
            e[j - d.len()].0
        },
        ValueView::Model { dict: Some(d), extra: None } => d[j].0,
        _ => ValueView::Null,
    }
}

/// The UTF-8 bytes of a key that is a well-formed string; no bytes for
/// another key.
pub open spec fn key_bytes(k: ValueView) -> Seq<u8> {
    match k {
        ValueView::Str(TextView::Utf8(s)) => encode_utf8(s),
        _ => Seq::empty(),
    }
}

/// Why a key cannot be written where keys must be strings, if it cannot.
pub open spec fn str_key_error(k: ValueView) -> Option<EncodeError> {
    match k {
        ValueView::Str(TextView::Utf8(_)) => None,
        ValueView::Str(TextView::Surrogates { .. }) => Some(EncodeError::InvalidStr),
        _ => Some(EncodeError::KeyMustBeStr),
    }
}

/// The error of the first of the first `upto` children whose key cannot be
/// written where keys must be strings.
pub open spec fn first_key_error(v: ValueView, upto: nat) -> Option<EncodeError>
    decreases upto,
{
    if upto == 0 {
        None
    } else {
        match first_key_error(v, (upto - 1) as nat) {
            Some(e) => Some(e),
            None => str_key_error(child_key(v, upto - 1)),
        }
    }
}

/// Whether the bytes of a name start with an underscore.
pub open spec fn is_private(name: Seq<u8>) -> bool {
    name.len() > 0 && name[0] == 0x5f
}

/// Whether a field of a record is written: not one with a private name,
/// and one that the instance holds or that is a field in more than name.
pub open spec fn kept_field(f: FieldView, slots: bool) -> bool {
    !is_private(encode_utf8(f.name)) && (if slots {
        !f.pseudo
    } else {
        f.stored || !f.pseudo
    })
}

/// The key bytes of each child of a container.
pub open spec fn key_fn(v: ValueView) -> spec_fn(int) -> Seq<u8> {
    |j: int| key_bytes(child_key(v, j))
}

/// Which children of a container with keys are written at all: of a
/// record its kept fields, of a model the entries whose key is not private,
/// of a mapping every entry.
pub open spec fn keep_of(v: ValueView) -> spec_fn(int) -> bool {
    |j: int|
        match v {
            ValueView::Record { slots, fields } => 0 <= j < fields.len() && kept_field(
                fields[j],
                slots,
            ),
            ValueView::Model { .. } => !is_private(key_bytes(child_key(v, j))),
            _ => true,
        }
}

/// How a container is written: what is checked before anything is put out,
/// which children are written and in which order, and with what keys.
pub struct Plan {
    pub keys: Keys,
    pub precheck: Option<EncodeError>,
    pub order: Seq<int>,
}

/// The plan of a mapping under the options.
#[verifier::opaque]
pub open spec fn dict_plan(v: ValueView, opts: Opt) -> Plan {
    let n = child_count(v);
    if holds(opts, NON_STR_KEYS) && holds(opts, SORT_KEYS) {
        Plan {
            keys: Keys::Any,
            precheck: Some(EncodeError::OptionsIncompatible),
            order: Seq::empty(),
        }
    } else if holds(opts, NON_STR_KEYS) {
        Plan { keys: Keys::Any, precheck: None, order: identity_order(n) }
    } else if holds(opts, SORT_KEYS) {
        Plan {
            keys: Keys::Str,
            precheck: first_key_error(v, n),
            order: arranged(n, keep_of(v), key_fn(v), true),
        }
    } else {
        Plan { keys: Keys::Str, precheck: None, order: identity_order(n) }
    }
}

/// The plan of a record.
#[verifier::opaque]
pub open spec fn record_plan(v: ValueView) -> Plan {
    Plan {
        keys: Keys::Str,
        precheck: None,
        order: arranged(child_count(v), keep_of(v), key_fn(v), false),
    }
}

/// The plan of a model under the options. The entries of both tables are
/// counted together; more of them than the machine counts are refused.
#[verifier::opaque]
pub open spec fn model_plan(v: ValueView, opts: Opt) -> Plan {
    let n = child_count(v);
    Plan {
        keys: Keys::Str,
        precheck: match v {
            ValueView::Model { dict: None, .. } => Some(EncodeError::ModelMustHaveDict),
            _ => if n > usize::MAX {
                Some(EncodeError::Write)
            } else {
                first_key_error(v, n)
            },
        },
        order: arranged(n, keep_of(v), key_fn(v), holds(opts, SORT_KEYS)),
    }
}

/// The plan of a value that is written as a container, under the options.
pub open spec fn plan_of(v: ValueView, opts: Opt) -> Option<Plan> {
    match classify_spec(v, opts) {
        Kind::List | Kind::Tuple | Kind::ListSubclass => Some(
            Plan { keys: Keys::Absent, precheck: None, order: identity_order(child_count(v)) },
        ),
        Kind::Dict | Kind::DictSubclass => Some(dict_plan(v, opts)),
        Kind::Record => Some(record_plan(v)),
        Kind::Model => Some(model_plan(v, opts)),
        _ => None,
    }
}

/// What a value that is no container is encoded as, where it is encoded
/// as it is.
#[verifier::opaque]
pub open spec fn leaf_emit(v: ValueView, opts: Opt) -> Emitted {
    match v {
        ValueView::Str(t) => text_emit(t, opts),
        ValueView::Bytes(b) => Emitted::token(bin_token(b)),
        ValueView::Int(n) => int_emit(n),
        ValueView::Bool(b) => Emitted::ok(bool_bytes(b)),
        ValueView::Null => Emitted::ok(nil_bytes()),
        ValueView::Float(bits) => Emitted::ok(f64_bytes(bits)),
        ValueView::DateTime(d) => datetime_emit(d, opts),
        ValueView::Date(d) => date_emit(d),
        ValueView::Time(t) => time_emit(t, opts),
        ValueView::Uuid(n) => Emitted::token(str_token(uuid_text(n))),
        ValueView::StrSubclass(t) => text_emit(t, opts),
        ValueView::IntSubclass(n) => int_emit(n),
        ValueView::Ext { tag, data } => ext_emit(tag, data),
        ValueView::Scalar(s) => scalar_emit(s, opts),
        ValueView::Array(a) => match array_check(a) {
            Ok(_) => array_emit(a, opts),
            Err(PyArrayError::Malformed) => Emitted::fail(EncodeError::ArrayMalformed),
            Err(_) => Emitted::fail(EncodeError::ArrayNotContiguous),
        },
        ValueView::ByteArray(b) => Emitted::token(bin_token(b)),
        ValueView::MemoryView(b) => memoryview_emit(b),
        _ => Emitted::nothing(),
    }
}

/// Whether a value goes to the fallback hook: one that is unrepresentable,
/// and a numeric array with gaps or with elements of a kind that is not
/// encoded, where there is a hook.
pub open spec fn goes_to_hook(v: ValueView, cx: Context) -> bool {
    match classify_spec(v, cx.opts) {
        Kind::Unrepresentable => true,
        Kind::Array => match v {
            ValueView::Array(a) => cx.hook is Some && (array_check(a) == Err::<
                crate::serialize::numpy::ItemType,
                PyArrayError,
            >(PyArrayError::NotContiguous) || array_check(a) == Err::<
                crate::serialize::numpy::ItemType,
                PyArrayError,
            >(PyArrayError::UnsupportedDataType)),
            _ => false,
        },
        _ => false,
    }
}

/// The key of a child, as it is written under `keys`: a string as its
/// bytes, another key as a key of its kind where keys of any kind may be.
#[verifier::opaque]
pub open spec fn key_part(k: ValueView, keys: Keys, opts: Opt, rc: nat) -> Emitted {
    match keys {
        Keys::Absent => Emitted::nothing(),
        Keys::Str => match str_key_error(k) {
            Some(e) => Emitted::fail(e),
            None => Emitted::token(str_token(key_bytes(k))),
        },
        Keys::Any => match k {
            ValueView::Str(_) => match str_key_error(k) {
                Some(e) => Emitted::fail(e),
                None => Emitted::token(str_token(key_bytes(k))),
            },
            _ => key_emit(k, opts & NOT_PASSTHROUGH, rc),
        },
    }
}

/// The head of a container with `n` children.
pub open spec fn header(keys: Keys, n: nat) -> Emitted {
    match keys {
        Keys::Absent => Emitted::token(array_header(n)),
        _ => Emitted::token(map_header(n)),
    }
}

/// The number of hook calls or of nested containers that are left below
/// the ceiling.
pub open spec fn left(n: nat) -> nat {
    if n <= 255 {
        (255 - n) as nat
    } else {
        0
    }
}

/// What a value is encoded as, after `dc` calls of the fallback hook in a
/// row and inside `rc` containers.
///
/// A value of a kind that is encoded as it is gives its token. A container
/// gives its head and then its children, one level deeper; at the ceiling
/// it gives an error instead. A member of an enumeration is encoded as the
/// value that it stands for. Any other value goes to the fallback hook, and
/// what the hook hands back is encoded in its place.
pub open spec fn encode_value(v: ValueView, cx: Context, dc: nat, rc: nat) -> Emitted
    decreases left(dc), v, 1nat, 0nat,
{
    match plan_of(v, cx.opts) {
        Some(plan) => if rc >= 255 {
            Emitted::fail(EncodeError::RecursionLimitReached)
        } else {
            match plan.precheck {
                Some(e) => Emitted::fail(e),
                None => header(plan.keys, plan.order.len()).followed_by(
                    encode_children(v, plan, plan.order.len(), cx, dc, rc + 1),
                ),
            }
        },
        None => if goes_to_hook(v, cx) {
            match cx.hook {
                None => Emitted::fail(EncodeError::TypeNotSerializable),
                Some(hook) => if dc >= 255 {
                    Emitted::fail(EncodeError::DefaultRecursionLimitReached)
                } else {
                    match hook(v) {
                        None => Emitted::fail(EncodeError::TypeNotSerializable),
                        Some(next) => encode_value(next, cx, dc + 1, rc),
                    }
                },
            }
        } else {
            match v {
                ValueView::Enum(inner) => encode_value(*inner, cx, dc, rc),
                _ => leaf_emit(v, cx.opts),
            }
        },
    }
}

/// What a value that goes to the fallback hook is encoded as: what the
/// hook hands back for it, where there is a hook, it is below its ceiling,
/// and it does not fail.
pub open spec fn hook_emit(v: ValueView, cx: Context, dc: nat, rc: nat) -> Emitted {
    match cx.hook {
        None => Emitted::fail(EncodeError::TypeNotSerializable),
        Some(hook) => if dc >= 255 {
            Emitted::fail(EncodeError::DefaultRecursionLimitReached)
        } else {
            match hook(v) {
                None => Emitted::fail(EncodeError::TypeNotSerializable),
                Some(next) => encode_value(next, cx, dc + 1, rc),
            }
        },
    }
}

/// The value of the child `j` of a container.
pub open spec fn child_value(v: ValueView, j: int) -> ValueView
    recommends
        0 <= j < child_count(v),
{
    match v {
        ValueView::List(items) => items[j],
        ValueView::Tuple(items) => items[j],
        ValueView::ListSubclass(items) => items[j],
        ValueView::Dict(entries) => entries[j].1,
        ValueView::DictSubclass(entries) => entries[j].1,
        ValueView::Record { fields, .. } => fields[j].value,
        ValueView::Model { dict: Some(d), extra: Some(e) } => if j < d.len() {
            d[j].1
        } else {
            e[j - d.len()].1
        },
        ValueView::Model { dict: Some(d), extra: None } => d[j].1,
        _ => ValueView::Null,
    }
}

/// What the first `upto` children in the order of the plan are encoded as:
/// each its key and then its value.
pub open spec fn encode_children(
    v: ValueView,
    plan: Plan,
    upto: nat,
    cx: Context,
    dc: nat,
    rc: nat,
) -> Emitted
    decreases left(dc), v, 0nat, upto,
{
    if upto == 0 || upto > plan.order.len() {
        Emitted::nothing()
    } else {
        let j = plan.order[upto - 1];
        let before = encode_children(v, plan, (upto - 1) as nat, cx, dc, rc);
        if 0 <= j < child_count(v) {
            before.followed_by(key_part(child_key(v, j), plan.keys, cx.opts, rc)).followed_by(
                encode_value(child_value(v, j), cx, dc, rc),
            )
        } else {
            before
        }
    }
}

/// The members of a tuple key are written one after another.
pub proof fn lemma_key_items_step(k: ValueView, i: nat, opts: Opt, rc: nat)
    requires
        k is Tuple,
        i < k->Tuple_0.len(),
    ensures
        key_items(k, 0, opts, rc) == Emitted::nothing(),
        key_items(k, i + 1, opts, rc) == key_items(k, i, opts, rc).followed_by(
            key_emit(k->Tuple_0[i as int], opts, rc),
        ),
{
}

/// The children of a container are written one after another: each its
/// key and then its value.
pub proof fn lemma_children_step(v: ValueView, plan: Plan, i: nat, cx: Context, dc: nat, rc: nat)
    requires
        i < plan.order.len(),
        0 <= plan.order[i as int] < child_count(v),
    ensures
        encode_children(v, plan, 0, cx, dc, rc) == Emitted::nothing(),
        encode_children(v, plan, i + 1, cx, dc, rc) == encode_children(
            v,
            plan,
            i,
            cx,
            dc,
            rc,
        ).followed_by(
            key_part(child_key(v, plan.order[i as int]), plan.keys, cx.opts, rc),
        ).followed_by(encode_value(child_value(v, plan.order[i as int]), cx, dc, rc)),
{
}

} // verus!
