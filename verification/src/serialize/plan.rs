//! How a container is written: the kind of its keys, and which of its
//! children are written in which order.

use crate::opt::{
    is_set, Opt, NON_STR_KEYS, PASSTHROUGH_BIG_INT, PASSTHROUGH_DATACLASS, PASSTHROUGH_DATETIME,
    PASSTHROUGH_ENUM, PASSTHROUGH_SUBCLASS, PASSTHROUGH_TUPLE, PASSTHROUGH_UUID, SERIALIZE_NUMPY,
    SERIALIZE_PYDANTIC, SORT_KEYS,
};
use crate::serialize::encoding::{
    child_count, child_key, classify_spec, first_key_error, int_in_range, is_private, keep_of,
    key_bytes, key_fn, plan_of, str_key_error, Keys, Kind,
};
use crate::serialize::error::EncodeError;
use crate::serialize::order::{arranged, lemma_arranged_congruence, Order};
use crate::value::{lemma_view, Text, Value};
use vstd::prelude::*;

verus! {

/// Whether an integer of the host lies in the range of the format.
pub fn fits(n: i128) -> (b: bool)
    ensures
        b == int_in_range(n as int),
{
    -0x8000_0000_0000_0000 <= n && n <= 0xffff_ffff_ffff_ffff
}

/// The kind of a value under the options. The kinds are tried in this
/// order: the built-in scalars, the built-in containers, dates and times,
/// tuples, UUIDs, members of enumerations, subclasses of built-in types,
/// extension values, records, models, numeric arrays and their scalars,
/// and the byte containers that are left. A kind that the options pass on
/// makes the value unrepresentable, and so does a model or a numeric array
/// that the options do not ask for.
pub fn classify(value: &Value, opts: Opt) -> (kind: Kind)
    ensures
        kind == classify_spec(value@, opts),
{
    proof {
        lemma_view(*value);
        reveal(classify_spec);
    }
    match value {
        Value::Str(_) => Kind::Str,
        Value::Bytes(_) => Kind::Bytes,
        Value::Int(n) => if !fits(*n) && is_set(opts, PASSTHROUGH_BIG_INT) {
            Kind::Unrepresentable
        } else {
            Kind::Int
        },
        Value::Bool(_) => Kind::Bool,
        Value::Null => Kind::Null,
        Value::Float(_) => Kind::Float,
        Value::List(_) => Kind::List,
        Value::Dict(_) => Kind::Dict,
        Value::DateTime(_) => if is_set(opts, PASSTHROUGH_DATETIME) {
            Kind::Unrepresentable
        } else {
            Kind::DateTime
        },
        Value::Date(_) => if is_set(opts, PASSTHROUGH_DATETIME) {
            Kind::Unrepresentable
        } else {
            Kind::Date
        },
        Value::Time(_) => if is_set(opts, PASSTHROUGH_DATETIME) {
            Kind::Unrepresentable
        } else {
            Kind::Time
        },
        Value::Tuple(_) => if is_set(opts, PASSTHROUGH_TUPLE) {
            Kind::Unrepresentable
        } else {
            Kind::Tuple
        },
        Value::Uuid(_) => if is_set(opts, PASSTHROUGH_UUID) {
            Kind::Unrepresentable
        } else {
            Kind::Uuid
        },
        Value::Enum(_) => if is_set(opts, PASSTHROUGH_ENUM) {
            Kind::Unrepresentable
        } else {
            Kind::Enum
        },
        Value::StrSubclass(_) => if is_set(opts, PASSTHROUGH_SUBCLASS) {
            Kind::Unrepresentable
        } else {
            Kind::StrSubclass
        },
        Value::IntSubclass(n) => if is_set(opts, PASSTHROUGH_SUBCLASS) || (!fits(*n) && is_set(
            opts,
            PASSTHROUGH_BIG_INT,
        )) {
            Kind::Unrepresentable
        } else {
            Kind::IntSubclass
        },
        Value::ListSubclass(_) => if is_set(opts, PASSTHROUGH_SUBCLASS) {
            Kind::Unrepresentable
        } else {
            Kind::ListSubclass
        },
        Value::DictSubclass(_) => if is_set(opts, PASSTHROUGH_SUBCLASS) {
            Kind::Unrepresentable
        } else {
            Kind::DictSubclass
        },
        Value::Ext { .. } => Kind::Ext,
        Value::Record { .. } => if is_set(opts, PASSTHROUGH_DATACLASS) {
            Kind::Unrepresentable
        } else {
            Kind::Record
        },
        Value::Model { .. } => if is_set(opts, SERIALIZE_PYDANTIC) {
            Kind::Model
        } else {
            Kind::Unrepresentable
        },
        Value::Scalar(_) => if is_set(opts, SERIALIZE_NUMPY) {
            Kind::Scalar
        } else {
            Kind::Unrepresentable
        },
        Value::Array(_) => if is_set(opts, SERIALIZE_NUMPY) {
            Kind::Array
        } else {
            Kind::Unrepresentable
        },
        Value::ByteArray(_) => Kind::ByteArray,
        Value::MemoryView(_) => Kind::MemoryView,
        Value::Other(_) => Kind::Unrepresentable,
    }
}

/// The number of children of a container, where the machine counts them.
pub fn count_children(value: &Value) -> (n: Option<usize>)
    ensures
        match n {
            Some(n) => n == child_count(value@),
            None => child_count(value@) > usize::MAX,
        },
{
    proof {
        lemma_view(*value);
    }
    match value {
        Value::List(items) => Some(items.len()),
        Value::Tuple(items) => Some(items.len()),
        Value::ListSubclass(items) => Some(items.len()),
        Value::Dict(entries) => Some(entries.len()),
        Value::DictSubclass(entries) => Some(entries.len()),
        Value::Record { fields, .. } => Some(fields.len()),
        Value::Model { dict: Some(d), extra: Some(e) } => d.len().checked_add(e.len()),
        Value::Model { dict: Some(d), extra: None } => Some(d.len()),
        _ => Some(0),
    }
}

/// The bytes of a key that is a well-formed string, or why the key cannot
/// be written where keys must be strings.
pub fn str_key(key: &Value) -> (r: Result<&[u8], EncodeError>)
    ensures
        match r {
            Ok(bytes) => str_key_error(key@) is None && bytes@ == key_bytes(key@),
            Err(e) => str_key_error(key@) == Some(e),
        },
{
    proof {
        lemma_view(*key);
    }
    match key {
        Value::Str(Text::Utf8(s)) => Ok(s.as_str().as_bytes()),
        Value::Str(Text::Surrogates { .. }) => Err(EncodeError::InvalidStr),
        _ => Err(EncodeError::KeyMustBeStr),
    }
}

/// Whether a container has keys that stand in it as values.
pub open spec fn has_key_values(value: Value) -> bool {
    match value {
        Value::Dict(_) => true,
        Value::DictSubclass(_) => true,
        Value::Model { dict: Some(_), .. } => true,
        _ => false,
    }
}

/// The key of the child `j` of a mapping or a model.
pub(crate) fn key_value(value: &Value, j: usize) -> (key: &Value)
    requires
        has_key_values(*value),
        j < child_count(value@),
    ensures
        key@ == child_key(value@, j as int),
{
    proof {
        lemma_view(*value);
    }
    match value {
        Value::Dict(entries) => &entries[j].0,
        Value::DictSubclass(entries) => &entries[j].0,
        Value::Model { dict: Some(d), extra: Some(e) } => if j < d.len() {
            &d[j].0
        } else {
            &e[j - d.len()].0
        },
        Value::Model { dict: Some(d), extra: None } => &d[j].0,
        _ => value,
    }
}

/// The bytes of the key of the child `j` where keys must be strings, or
/// why the key cannot be written.
pub(crate) fn key_at(value: &Value, j: usize) -> (r: Result<&[u8], EncodeError>)
    requires
        has_key_values(*value) || value is Record,
        j < child_count(value@),
    ensures
        match r {
            Ok(bytes) => str_key_error(child_key(value@, j as int)) is None && bytes@ == key_fn(
                value@,
            )(j as int),
            Err(e) => str_key_error(child_key(value@, j as int)) == Some(e),
        },
{
    proof {
        lemma_view(*value);
    }
    match value {
        Value::Record { fields, .. } => Ok(fields[j].name.as_str().as_bytes()),
        _ => str_key(key_value(value, j)),
    }
}

/// Whether the bytes of a name start with an underscore.
pub fn starts_private(name: &[u8]) -> (b: bool)
    ensures
        b == is_private(name@),
{
    name.len() > 0 && name[0] == 0x5f
}

/// Whether the child `j` is written, given the bytes of its key.
pub(crate) fn is_kept(value: &Value, j: usize, key: &[u8]) -> (b: bool)
    requires
        j < child_count(value@),
        key@ == key_fn(value@)(j as int),
    ensures
        b == keep_of(value@)(j as int),
{
    proof {
        lemma_view(*value);
    }
    match value {
        Value::Record { slots, fields } => {
            let field = &fields[j];
            !starts_private(key) && (if *slots {
                !field.pseudo
            } else {
                field.stored || !field.pseudo
            })
        },
        Value::Model { .. } => !starts_private(key),
        _ => true,
    }
}

/// The arrangement of a container whose keys must be strings and are
/// looked at before anything is written: the first error among the keys,
/// or the children that are written, sorted where `sort` says so.
pub(crate) fn arrange_by_keys(value: &Value, n: usize, sort: bool) -> (r: Result<Order, EncodeError>)
    requires
        has_key_values(*value) || value is Record,
        n == child_count(value@),
    ensures
        match r {
            Ok(order) => first_key_error(value@, n as nat) is None && order@ == arranged(
                n as nat,
                keep_of(value@),
                key_fn(value@),
                sort,
            ) && order@.len() <= n && forall|i: int|
                0 <= i < order@.len() ==> 0 <= #[trigger] order@[i] < n,
            Err(e) => first_key_error(value@, n as nat) == Some(e),
        },
{
    let mut keys: Vec<&[u8]> = Vec::new();
    let mut keep: Vec<bool> = Vec::new();
    let mut j: usize = 0;
    while j < n
        invariant
            j <= n,
            n == child_count(value@),
            has_key_values(*value) || value is Record,
            first_key_error(value@, j as nat) is None,
            keys@.len() == j,
            keep@.len() == j,
            forall|k: int| 0 <= k < j ==> (#[trigger] keys@[k])@ == key_fn(value@)(k),
            forall|k: int| 0 <= k < j ==> #[trigger] keep@[k] == keep_of(value@)(k),
        decreases n - j,
    {
        match key_at(value, j) {
            Ok(bytes) => {
                let kept = is_kept(value, j, bytes);
                keys.push(bytes);
                keep.push(kept);
            },
            Err(e) => {
                proof {
                    lemma_first_key_error_stays(value@, (j + 1) as nat, n as nat);
                }
                return Err(e);
            },
        }
        j = j + 1;
    }
    let order = Order::arrange(n, &keep, &keys, sort);
    proof {
        lemma_arranged_congruence(
            n as nat,
            |j: int| keep@[j],
            keep_of(value@),
            |j: int| keys@[j]@,
            key_fn(value@),
            sort,
        );
    }
    Ok(order)
}

/// The first error among the keys of the first `upto` children is the first
/// among those of any more of them.
pub proof fn lemma_first_key_error_stays(v: crate::value::ValueView, upto: nat, n: nat)
    requires
        upto <= n,
        first_key_error(v, upto) is Some,
    ensures
        first_key_error(v, n) == first_key_error(v, upto),
    decreases n - upto,
{
    if upto < n {
        lemma_first_key_error_stays(v, upto, (n - 1) as nat);
    }
}

/// Whether a container has keys of the kind `keys`: a mapping of any
/// kind, a record or a model of strings, a list of none.
pub open spec fn keys_fit(value: Value, keys: Keys) -> bool {
    match keys {
        Keys::Absent => true,
        Keys::Str => has_key_values(value) || value is Record,
        Keys::Any => value is Dict || value is DictSubclass,
    }
}

/// How a container is written.
pub struct Layout {
    pub keys: Keys,
    pub order: Order,
}

/// The plan of a value that is written as a container: its layout, or the
/// error that is found before anything is written.
pub(crate) fn plan(value: &Value, opts: Opt) -> (r: Result<Layout, EncodeError>)
    requires
        plan_of(value@, opts) is Some,
    ensures
        match r {
            Ok(layout) => {
                let plan = plan_of(value@, opts).unwrap();
                &&& plan.precheck is None
                &&& layout.keys == plan.keys
                &&& layout.order@ == plan.order
                &&& forall|i: int|
                    0 <= i < layout.order@.len() ==> 0 <= #[trigger] layout.order@[i]
                        < child_count(value@)
                &&& keys_fit(*value, layout.keys)
            },
            Err(e) => plan_of(value@, opts).unwrap().precheck == Some(e),
        },
{
    proof {
        lemma_view(*value);
        reveal(classify_spec);
        reveal(crate::serialize::encoding::record_plan);
        reveal(crate::serialize::encoding::model_plan);
    }
    match value {
        Value::List(items) => Ok(Layout { keys: Keys::Absent, order: Order::natural(items.len()) }),
        Value::Tuple(items) => Ok(
            Layout { keys: Keys::Absent, order: Order::natural(items.len()) },
        ),
        Value::ListSubclass(items) => Ok(
            Layout { keys: Keys::Absent, order: Order::natural(items.len()) },
        ),
        Value::Dict(entries) => dict_plan(value, entries.len(), opts),
        Value::DictSubclass(entries) => dict_plan(value, entries.len(), opts),
        Value::Record { fields, .. } => {
            match arrange_by_keys(value, fields.len(), false) {
                Ok(order) => Ok(Layout { keys: Keys::Str, order }),
                Err(e) => {
                    proof {
                        lemma_record_keys(value@, fields@.len());
                    }
                    Err(e)
                },
            }
        },
        Value::Model { dict, .. } => {
            if dict.is_none() {
                return Err(EncodeError::ModelMustHaveDict);
            }
            match count_children(value) {
                None => Err(EncodeError::Write),
                Some(n) => match arrange_by_keys(value, n, is_set(opts, SORT_KEYS)) {
                    Ok(order) => Ok(Layout { keys: Keys::Str, order }),
                    Err(e) => Err(e),
                },
            }
        },
        _ => Ok(Layout { keys: Keys::Absent, order: Order::natural(0) }),
    }
}

/// The plan of a mapping with `n` entries.
fn dict_plan(value: &Value, n: usize, opts: Opt) -> (r: Result<Layout, EncodeError>)
    requires
        value is Dict || value is DictSubclass,
        n == child_count(value@),
    ensures
        match r {
            Ok(layout) => {
                let plan = crate::serialize::encoding::dict_plan(value@, opts);
                &&& plan.precheck is None
                &&& layout.keys == plan.keys
                &&& layout.order@ == plan.order
                &&& forall|i: int|
                    0 <= i < layout.order@.len() ==> 0 <= #[trigger] layout.order@[i] < n
                &&& keys_fit(*value, layout.keys)
            },
            Err(e) => crate::serialize::encoding::dict_plan(value@, opts).precheck == Some(e),
        },
{
    proof {
        lemma_view(*value);
        reveal(crate::serialize::encoding::dict_plan);
    }
    if is_set(opts, NON_STR_KEYS) && is_set(opts, SORT_KEYS) {
        Err(EncodeError::OptionsIncompatible)
    } else if is_set(opts, NON_STR_KEYS) {
        Ok(Layout { keys: Keys::Any, order: Order::natural(n) })
    } else if is_set(opts, SORT_KEYS) {
        match arrange_by_keys(value, n, true) {
            Ok(order) => Ok(Layout { keys: Keys::Str, order }),
            Err(e) => Err(e),
        }
    } else {
        Ok(Layout { keys: Keys::Str, order: Order::natural(n) })
    }
}

/// The names of the fields of a record are keys without error.
pub proof fn lemma_record_keys(v: crate::value::ValueView, upto: nat)
    requires
        v is Record,
    ensures
        first_key_error(v, upto) is None,
    decreases upto,
{
    if upto > 0 {
        lemma_record_keys(v, (upto - 1) as nat);
    }
}

} // verus!
