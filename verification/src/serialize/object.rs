//! The encoder of values: one token for a value of a simple kind, head and
//! children for a container, the fallback hook for the rest.

use crate::io::WriteSlices;
use crate::opt::{Opt, NOT_PASSTHROUGH};
use crate::serialize::default::{DefaultHook, Error};
use crate::serialize::encoding::{
    child_count, child_key, child_value, encode_children, encode_value, header, hook_emit,
    key_emit, key_items, key_part, left, lemma_children_step, lemma_key_items_step, plan_of,
    Context, HookModel, Keys, Kind, Plan,
};
use crate::serialize::error::{
    encoded, lemma_encoded_stop, lemma_encoded_then, lemma_encoded_unchanged,
    lemma_followed_by_assoc, lemma_nothing_first, Emitted, EncodeError,
};
use crate::serialize::leaf::{
    serialize_date, serialize_datetime_key, serialize_int, serialize_leaf, serialize_memoryview,
    serialize_text, serialize_time, serialize_uuid,
};
use crate::serialize::plan::{classify, key_at, key_value, keys_fit, plan, str_key, Layout};
use crate::serialize::serializer::{MessagePackSerializer, RECURSION_LIMIT};
use crate::value::{lemma_view, Value};
use vstd::prelude::*;

verus! {

/// A failure among the first members of a tuple key is the failure of the
/// whole key.
proof fn lemma_key_items_stop(
    k: crate::value::ValueView,
    m: nat,
    n: nat,
    opts: Opt,
    rc: nat,
    head: Emitted,
    s0: crate::io::Sink,
    s1: crate::io::Sink,
    e: EncodeError,
)
    requires
        k is Tuple,
        m <= n <= k->Tuple_0.len(),
        encoded(s0, s1, Err(e), head.followed_by(key_items(k, m, opts, rc))),
    ensures
        encoded(s0, s1, Err(e), head.followed_by(key_items(k, n, opts, rc))),
    decreases n - m,
{
    if m < n {
        lemma_key_items_stop(k, m, (n - 1) as nat, opts, rc, head, s0, s1, e);
        let before = key_items(k, (n - 1) as nat, opts, rc);
        let last = key_emit(k->Tuple_0[n - 1], opts, rc);
        lemma_key_items_step(k, (n - 1) as nat, opts, rc);
        lemma_followed_by_assoc(head, before, last);
        lemma_encoded_stop(s0, s1, e, head.followed_by(before), last);
    }
}

/// Writes a key of any kind that a key can be of.
pub fn serialize_key<W: WriteSlices>(
    key: &Value,
    se: &mut MessagePackSerializer<W>,
    opts: Opt,
    recursion: u8,
) -> (r: Result<(), EncodeError>)
    ensures
        encoded(old(se).sink(), final(se).sink(), r, key_emit(key@, opts, recursion as nat)),
    decreases key, 1nat,
{
    proof {
        lemma_view(*key);
    }
    match key {
        Value::Tuple(items) => {
            if recursion == RECURSION_LIMIT {
                proof {
                    lemma_encoded_unchanged(se.sink(), Err(EncodeError::RecursionLimitReached));
                }
                return Err(EncodeError::RecursionLimitReached);
            }
            let ghost s0 = se.sink();
            let len = items.len();
            let ghost head = Emitted::token(crate::msgpack::array::array_header(len as nat));
            let ghost rest = key_items(key@, len as nat, opts, (recursion + 1) as nat);
            match se.serialize_seq(len) {
                Ok(()) => {},
                Err(e) => {
                    proof {
                        lemma_encoded_stop(s0, se.sink(), e, head, rest);
                    }
                    return Err(e);
                },
            }
            let ghost s1 = se.sink();
            let r = serialize_key_items(key, se, opts, recursion + 1);
            proof {
                lemma_encoded_then(s0, s1, se.sink(), r, head, rest);
            }
            r
        },
        Value::Enum(inner) => serialize_key(inner, se, opts, recursion),
        _ => serialize_key_leaf(key, se, opts),
    }
}

/// Writes a key that is no tuple.
pub(crate) fn serialize_key_leaf<W: WriteSlices>(
    key: &Value,
    se: &mut MessagePackSerializer<W>,
    opts: Opt,
) -> (r: Result<(), EncodeError>)
    ensures
        encoded(
            old(se).sink(),
            final(se).sink(),
            r,
            crate::serialize::encoding::key_leaf_emit(key@, opts),
        ),
{
    proof {
        lemma_view(*key);
        reveal(crate::serialize::encoding::key_leaf_emit);
    }
    match key {
        Value::Str(text) => serialize_text(text, se, opts),
        Value::Bytes(contents) => se.serialize_bytes(contents.as_slice()),
        Value::Int(n) => serialize_int(*n, se),
        Value::Bool(b) => se.serialize_bool(*b),
        Value::Null => se.serialize_unit(),
        Value::Float(bits) => se.serialize_f64(*bits),
        Value::DateTime(d) => serialize_datetime_key(*d, se, opts),
        Value::Date(d) => serialize_date(*d, se),
        Value::Time(t) => serialize_time(*t, se, opts),
        Value::Uuid(n) => serialize_uuid(*n, se),
        Value::StrSubclass(text) => serialize_text(text, se, opts),
        Value::IntSubclass(n) => serialize_int(*n, se),
        Value::MemoryView(bytes) => serialize_memoryview(bytes, se),
        _ => {
            proof {
                lemma_encoded_unchanged(se.sink(), Err(EncodeError::KeyTypeUnsupported));
            }
            Err(EncodeError::KeyTypeUnsupported)
        },
    }
}

/// Writes the members of a tuple key, each as a key.
pub(crate) fn serialize_key_items<W: WriteSlices>(
    key: &Value,
    se: &mut MessagePackSerializer<W>,
    opts: Opt,
    recursion: u8,
) -> (r: Result<(), EncodeError>)
    requires
        key is Tuple,
    ensures
        encoded(
            old(se).sink(),
            final(se).sink(),
            r,
            key_items(key@, key->Tuple_0@.len() as nat, opts, recursion as nat),
        ),
    decreases key, 0nat,
{
    let ghost s0 = se.sink();
    let ghost k = key@;
    let ghost rc = recursion as nat;
    proof {
        lemma_view(*key);
        lemma_encoded_unchanged(s0, Ok(()));
        lemma_followed_by_assoc(Emitted::nothing(), Emitted::nothing(), Emitted::nothing());
    }
    match key {
        Value::Tuple(items) => {
            let len = items.len();
            proof {
                if len > 0 {
                    lemma_key_items_step(k, 0, opts, rc);
                }
            }
            let mut i: usize = 0;
            while i < len
                invariant
                    i <= len,
                    len == items@.len(),
                    k == key@,
                    k is Tuple,
                    *key == Value::Tuple(*items),
                    k->Tuple_0.len() == len,
                    forall|x: int| 0 <= x < len ==> #[trigger] k->Tuple_0[x] == items@[x]@,
                    rc == recursion,
                    s0 == old(se).sink(),
                    encoded(s0, se.sink(), Ok(()), key_items(k, i as nat, opts, rc)),
                decreases len - i,
            {
                let ghost s1 = se.sink();
                let ghost before = key_items(k, i as nat, opts, rc);
                let ghost item = key_emit(k->Tuple_0[i as int], opts, rc);
                let r = serialize_key(&items[i], se, opts, recursion);
                proof {
                    lemma_encoded_then(s0, s1, se.sink(), r, before, item);
                    lemma_key_items_step(k, i as nat, opts, rc);
                    lemma_nothing_first(key_items(k, (i + 1) as nat, opts, rc));
                }
                match r {
                    Ok(()) => {},
                    Err(e) => {
                        proof {
                            lemma_key_items_stop(
                                k,
                                (i + 1) as nat,
                                len as nat,
                                opts,
                                rc,
                                Emitted::nothing(),
                                s0,
                                se.sink(),
                                e,
                            );
                            lemma_nothing_first(key_items(k, len as nat, opts, rc));
                        }
                        return Err(e);
                    },
                }
                i = i + 1;
            }
            proof {
                lemma_nothing_first(key_items(k, len as nat, opts, rc));
            }
            Ok(())
        },
        _ => Ok(()),
    }
}

/// Writes the key of the child `j` of a container, as the layout has it.
pub(crate) fn serialize_key_part<W: WriteSlices>(
    value: &Value,
    j: usize,
    keys: Keys,
    se: &mut MessagePackSerializer<W>,
    opts: Opt,
    recursion: u8,
) -> (r: Result<(), EncodeError>)
    requires
        j < child_count(value@),
        keys_fit(*value, keys),
    ensures
        encoded(
            old(se).sink(),
            final(se).sink(),
            r,
            key_part(child_key(value@, j as int), keys, opts, recursion as nat),
        ),
{
    proof {
        reveal(key_part);
    }
    match keys {
        Keys::Absent => {
            proof {
                lemma_encoded_unchanged(se.sink(), Ok(()));
            }
            Ok(())
        },
        Keys::Str => match key_at(value, j) {
            Ok(bytes) => se.serialize_text(bytes),
            Err(e) => {
                proof {
                    lemma_encoded_unchanged(se.sink(), Err(e));
                }
                Err(e)
            },
        },
        Keys::Any => {
            let key = key_value(value, j);
            proof {
                lemma_view(*key);
            }
            match key {
                Value::Str(_) => match str_key(key) {
                    Ok(bytes) => se.serialize_text(bytes),
                    Err(e) => {
                        proof {
                            lemma_encoded_unchanged(se.sink(), Err(e));
                        }
                        Err(e)
                    },
                },
                _ => serialize_key(key, se, opts & NOT_PASSTHROUGH, recursion),
            }
        },
    }
}

/// What an encoding call is made with, for a contract, where `model` says
/// what the hook hands back.
pub open spec fn context<F: Fn(&Value) -> Option<Value>>(
    opts: Opt,
    default: &DefaultHook<F>,
    model: HookModel,
) -> Context {
    Context { opts, hook: default.hook(model) }
}

/// A failure among the first children of a container is the failure of
/// the whole container.
proof fn lemma_children_stop(
    v: crate::value::ValueView,
    plan: Plan,
    m: nat,
    n: nat,
    cx: Context,
    dc: nat,
    rc: nat,
    head: Emitted,
    s0: crate::io::Sink,
    s1: crate::io::Sink,
    e: EncodeError,
)
    requires
        m <= n <= plan.order.len(),
        forall|i: int| 0 <= i < plan.order.len() ==> 0 <= #[trigger] plan.order[i] < child_count(v),
        encoded(s0, s1, Err(e), head.followed_by(encode_children(v, plan, m, cx, dc, rc))),
    ensures
        encoded(s0, s1, Err(e), head.followed_by(encode_children(v, plan, n, cx, dc, rc))),
    decreases n - m,
{
    if m < n {
        lemma_children_stop(v, plan, m, (n - 1) as nat, cx, dc, rc, head, s0, s1, e);
        let before = encode_children(v, plan, (n - 1) as nat, cx, dc, rc);
        let j = plan.order[n - 1];
        let key = key_part(child_key(v, j), plan.keys, cx.opts, rc);
        let val = encode_value(child_value(v, j), cx, dc, rc);
        lemma_children_step(v, plan, (n - 1) as nat, cx, dc, rc);
        lemma_followed_by_assoc(head, before, key);
        lemma_followed_by_assoc(head, before.followed_by(key), val);
        lemma_encoded_stop(s0, s1, e, head.followed_by(before), key);
        lemma_encoded_stop(s0, s1, e, head.followed_by(before).followed_by(key), val);
    }
}

/// The child `j` of a container.
pub(crate) fn child<'a>(value: &'a Value, j: usize) -> (c: &'a Value)
    requires
        j < child_count(value@),
    ensures
        c@ == child_value(value@, j as int),
        decreases_to!(*value => *c),
{
    proof {
        lemma_view(*value);
    }
    match value {
        Value::List(items) => &items[j],
        Value::Tuple(items) => &items[j],
        Value::ListSubclass(items) => &items[j],
        Value::Dict(entries) => &entries[j].1,
        Value::DictSubclass(entries) => &entries[j].1,
        Value::Record { fields, .. } => &fields[j].value,
        Value::Model { dict: Some(d), extra: Some(e) } => if j < d.len() {
            &d[j].1
        } else {
            &e[j - d.len()].1
        },
        Value::Model { dict: Some(d), extra: None } => &d[j].1,
        _ => value,
    }
}

/// Writes a value.
///
/// Whatever function of views says what the fallback hook hands back, what
/// is written is what the contract of encoding says of the value's view
/// with that function for the hook.
pub fn serialize_value<W, F>(
    value: &Value,
    se: &mut MessagePackSerializer<W>,
    opts: Opt,
    default: &DefaultHook<F>,
    default_calls: u8,
    recursion: u8,
) -> (r: Result<(), EncodeError>) where W: WriteSlices, F: Fn(&Value) -> Option<Value>
    requires
        default.callable(),
    ensures
        forall|model: HookModel| #[trigger]
            default.described_by(model) ==> encoded(
                old(se).sink(),
                final(se).sink(),
                r,
                encode_value(
                    value@,
                    context(opts, default, model),
                    default_calls as nat,
                    recursion as nat,
                ),
            ),
    decreases left(default_calls as nat), value, 1nat,
{
    let ghost s0 = se.sink();
    let ghost dc = default_calls as nat;
    proof {
        lemma_view(*value);
        reveal(crate::serialize::encoding::classify_spec);
    }
    match classify(value, opts) {
        Kind::List | Kind::Tuple | Kind::ListSubclass | Kind::Dict | Kind::DictSubclass
        | Kind::Record | Kind::Model => {
            if recursion == RECURSION_LIMIT {
                proof {
                    lemma_encoded_unchanged(s0, Err(EncodeError::RecursionLimitReached));
                }
                return Err(EncodeError::RecursionLimitReached);
            }
            match plan(value, opts) {
                Err(e) => {
                    proof {
                        lemma_encoded_unchanged(s0, Err(e));
                    }
                    Err(e)
                },
                Ok(layout) => {
                    let ghost p = plan_of(value@, opts).unwrap();
                    let n = layout.order.len();
                    let ghost head = header(p.keys, n as nat);
                    let ghost rc = (recursion + 1) as nat;
                    let h = match layout.keys {
                        Keys::Absent => se.serialize_seq(n),
                        _ => se.serialize_map(n),
                    };
                    match h {
                        Ok(()) => {},
                        Err(e) => {
                            proof {
                                assert forall|model: HookModel| #[trigger]
                                    default.described_by(model) implies encoded(
                                    s0,
                                    se.sink(),
                                    Err(e),
                                    encode_value(
                                        value@,
                                        context(opts, default, model),
                                        dc,
                                        recursion as nat,
                                    ),
                                ) by {
                                    let cx = context(opts, default, model);
                                    lemma_encoded_stop(
                                        s0,
                                        se.sink(),
                                        e,
                                        head,
                                        encode_children(value@, p, n as nat, cx, dc, rc),
                                    );
                                }
                            }
                            return Err(e);
                        },
                    }
                    let ghost s1 = se.sink();
                    let r = serialize_children(
                        value,
                        &layout,
                        se,
                        opts,
                        default,
                        default_calls,
                        recursion + 1,
                    );
                    proof {
                        assert forall|model: HookModel| #[trigger]
                            default.described_by(model) implies encoded(
                            s0,
                            se.sink(),
                            r,
                            encode_value(
                                value@,
                                context(opts, default, model),
                                dc,
                                recursion as nat,
                            ),
                        ) by {
                            let cx = context(opts, default, model);
                            lemma_encoded_then(
                                s0,
                                s1,
                                se.sink(),
                                r,
                                head,
                                encode_children(value@, p, n as nat, cx, dc, rc),
                            );
                        }
                    }
                    r
                },
            }
        },
        Kind::Enum => match value {
            Value::Enum(inner) => serialize_value(
                inner,
                se,
                opts,
                default,
                default_calls,
                recursion,
            ),
            _ => Ok(()),
        },
        Kind::Unrepresentable => serialize_default(
            value,
            se,
            opts,
            default,
            default_calls,
            recursion,
        ),
        Kind::Array => {
            let to_hook = match value {
                Value::Array(a) => default.inner.is_some() && gaps_or_unsupported(a),
                _ => false,
            };
            if to_hook {
                serialize_default(value, se, opts, default, default_calls, recursion)
            } else {
                serialize_leaf(value, se, opts)
            }
        },
        _ => serialize_leaf(value, se, opts),
    }
}

/// Whether a numeric array has gaps, or elements of a kind that is not
/// encoded.
pub fn gaps_or_unsupported(a: &crate::value::ArrayInterface) -> (b: bool)
    ensures
        b == (crate::serialize::numpy::array_check(a@) == Err::<
            crate::serialize::numpy::ItemType,
            crate::serialize::numpy::PyArrayError,
        >(crate::serialize::numpy::PyArrayError::NotContiguous)
            || crate::serialize::numpy::array_check(a@) == Err::<
            crate::serialize::numpy::ItemType,
            crate::serialize::numpy::PyArrayError,
        >(crate::serialize::numpy::PyArrayError::UnsupportedDataType)),
{
    if a.two != 2 {
        false
    } else if a.flags & 0x1 != 0x1 {
        true
    } else if a.shape.len() == 0 {
        true
    } else {
        crate::serialize::numpy::ItemType::find(a.typekind, a.itemsize, a.unit).is_none()
    }
}

/// Hands a value to the fallback hook, and writes what the hook hands
/// back in its place.
pub(crate) fn serialize_default<W, F>(
    value: &Value,
    se: &mut MessagePackSerializer<W>,
    opts: Opt,
    default: &DefaultHook<F>,
    default_calls: u8,
    recursion: u8,
) -> (r: Result<(), EncodeError>) where W: WriteSlices, F: Fn(&Value) -> Option<Value>
    requires
        default.callable(),
    ensures
        forall|model: HookModel| #[trigger]
            default.described_by(model) ==> encoded(
                old(se).sink(),
                final(se).sink(),
                r,
                hook_emit(
                    value@,
                    context(opts, default, model),
                    default_calls as nat,
                    recursion as nat,
                ),
            ),
    decreases left(default_calls as nat), value, 0nat,
{
    let ghost s0 = se.sink();
    match default.enter_call(value, default_calls) {
        Ok(next) => serialize_value(&next, se, opts, default, default_calls + 1, recursion),
        Err(Error::InvalidType) => {
            proof {
                lemma_encoded_unchanged(s0, Err(EncodeError::TypeNotSerializable));
            }
            Err(EncodeError::TypeNotSerializable)
        },
        Err(Error::RecursionLimitReached) => {
            proof {
                lemma_encoded_unchanged(s0, Err(EncodeError::DefaultRecursionLimitReached));
            }
            Err(EncodeError::DefaultRecursionLimitReached)
        },
    }
}

/// Writes the children of a container, in the order of the layout: each
/// its key, where there are keys, and then its value.
pub(crate) fn serialize_children<W, F>(
    value: &Value,
    layout: &Layout,
    se: &mut MessagePackSerializer<W>,
    opts: Opt,
    default: &DefaultHook<F>,
    default_calls: u8,
    recursion: u8,
) -> (r: Result<(), EncodeError>) where W: WriteSlices, F: Fn(&Value) -> Option<Value>
    requires
        default.callable(),
        keys_fit(*value, layout.keys),
        forall|i: int|
            0 <= i < layout.order@.len() ==> 0 <= #[trigger] layout.order@[i] < child_count(value@),
    ensures
        forall|model: HookModel| #[trigger]
            default.described_by(model) ==> encoded(
                old(se).sink(),
                final(se).sink(),
                r,
                encode_children(
                    value@,
                    Plan { keys: layout.keys, precheck: None, order: layout.order@ },
                    layout.order@.len(),
                    context(opts, default, model),
                    default_calls as nat,
                    recursion as nat,
                ),
            ),
    decreases left(default_calls as nat), value, 0nat,
{
    let ghost p = Plan { keys: layout.keys, precheck: None, order: layout.order@ };
    let ghost s0 = se.sink();
    let ghost dc = default_calls as nat;
    let ghost rc = recursion as nat;
    let ghost v = value@;
    let n = layout.order.len();
    proof {
        lemma_encoded_unchanged(s0, Ok(()));
    }
    let mut i: usize = 0;
    while i < n
        invariant
            i <= n,
            n == layout.order@.len(),
            v == value@,
            p == (Plan { keys: layout.keys, precheck: None, order: layout.order@ }),
            dc == default_calls,
            rc == recursion,
            s0 == old(se).sink(),
            default.callable(),
            keys_fit(*value, layout.keys),
            forall|i: int|
                0 <= i < layout.order@.len() ==> 0 <= #[trigger] layout.order@[i] < child_count(
                    value@,
                ),
            forall|model: HookModel| #[trigger]
                default.described_by(model) ==> encoded(
                    s0,
                    se.sink(),
                    Ok(()),
                    encode_children(v, p, i as nat, context(opts, default, model), dc, rc),
                ),
        decreases n - i,
    {
        let j = layout.order.get(i);
        assert(0 <= layout.order@[i as int] < child_count(value@));
        let ghost s1 = se.sink();
        let ghost key = key_part(child_key(v, j as int), p.keys, opts, rc);
        let rk = serialize_key_part(value, j, layout.keys, se, opts, recursion);
        let ghost s2 = se.sink();
        proof {
            assert forall|model: HookModel| #[trigger] default.described_by(model) implies encoded(
                s0,
                s2,
                rk,
                encode_children(v, p, i as nat, context(opts, default, model), dc, rc).followed_by(
                    key,
                ),
            ) by {
                let cx = context(opts, default, model);
                lemma_encoded_then(s0, s1, s2, rk, encode_children(v, p, i as nat, cx, dc, rc), key);
            }
        }
        match rk {
            Ok(()) => {},
            Err(e) => {
                proof {
                    assert forall|model: HookModel| #[trigger]
                        default.described_by(model) implies encoded(
                        s0,
                        s2,
                        Err(e),
                        encode_children(v, p, n as nat, context(opts, default, model), dc, rc),
                    ) by {
                        let cx = context(opts, default, model);
                        let before = encode_children(v, p, i as nat, cx, dc, rc);
                        let val = encode_value(child_value(v, j as int), cx, dc, rc);
                        lemma_children_step(v, p, i as nat, cx, dc, rc);
                        lemma_encoded_stop(s0, s2, e, before.followed_by(key), val);
                        lemma_nothing_first(encode_children(v, p, (i + 1) as nat, cx, dc, rc));
                        lemma_children_stop(
                            v,
                            p,
                            (i + 1) as nat,
                            n as nat,
                            cx,
                            dc,
                            rc,
                            Emitted::nothing(),
                            s0,
                            s2,
                            e,
                        );
                        lemma_nothing_first(encode_children(v, p, n as nat, cx, dc, rc));
                    }
                }
                return Err(e);
            },
        }
        let c = child(value, j);
        let rv = serialize_value(c, se, opts, default, default_calls, recursion);
        let ghost s3 = se.sink();
        proof {
            assert forall|model: HookModel| #[trigger] default.described_by(model) implies encoded(
                s0,
                s3,
                rv,
                encode_children(v, p, (i + 1) as nat, context(opts, default, model), dc, rc),
            ) by {
                let cx = context(opts, default, model);
                let before = encode_children(v, p, i as nat, cx, dc, rc);
                let val = encode_value(child_value(v, j as int), cx, dc, rc);
                lemma_children_step(v, p, i as nat, cx, dc, rc);
                lemma_encoded_then(s0, s2, s3, rv, before.followed_by(key), val);
            }
        }
        match rv {
            Ok(()) => {},
            Err(e) => {
                proof {
                    assert forall|model: HookModel| #[trigger]
                        default.described_by(model) implies encoded(
                        s0,
                        s3,
                        Err(e),
                        encode_children(v, p, n as nat, context(opts, default, model), dc, rc),
                    ) by {
                        let cx = context(opts, default, model);
                        lemma_nothing_first(encode_children(v, p, (i + 1) as nat, cx, dc, rc));
                        lemma_children_stop(
                            v,
                            p,
                            (i + 1) as nat,
                            n as nat,
                            cx,
                            dc,
                            rc,
                            Emitted::nothing(),
                            s0,
                            s3,
                            e,
                        );
                        lemma_nothing_first(encode_children(v, p, n as nat, cx, dc, rc));
                    }
                }
                return Err(e);
            },
        }
        i = i + 1;
    }
    Ok(())
}

/// What an encoding call hands back: the bytes of the value, or the error
/// that encoding ends with. Bytes beyond what the output buffer holds are
/// a write error.
pub open spec fn pack_spec(v: crate::value::ValueView, cx: Context) -> Result<Seq<u8>, EncodeError> {
    let e = encode_value(v, cx, 0, 0);
    if e.bytes.len() > crate::serialize::writer::BytesWriter::limit() {
        Err(EncodeError::Write)
    } else {
        match e.error {
            Some(error) => Err(error),
            None => Ok(e.bytes),
        }
    }
}

/// Whether an encoding call handed back what `expected` says.
pub open spec fn packed(r: Result<Vec<u8>, EncodeError>, expected: Result<Seq<u8>, EncodeError>) -> bool {
    match r {
        Ok(bytes) => expected == Ok::<Seq<u8>, EncodeError>(bytes@),
        Err(e) => expected == Err::<Seq<u8>, EncodeError>(e),
    }
}

/// Encodes a value, with a fallback hook or without one. No bytes are
/// handed back where encoding fails.
pub fn serialize<F>(value: &Value, default: Option<F>, opts: Opt) -> (r: Result<
    Vec<u8>,
    EncodeError,
>) where F: Fn(&Value) -> Option<Value>
    requires
        DefaultHook::new_spec(default).callable(),
    ensures
        forall|model: HookModel| #[trigger]
            DefaultHook::new_spec(default).described_by(model) ==> packed(
                r,
                pack_spec(value@, context(opts, &DefaultHook::new_spec(default), model)),
            ),
{
    let buf = crate::serialize::writer::BytesWriter::default();
    let hook = DefaultHook::new(default);
    let mut ser = MessagePackSerializer::new(buf);
    let res = serialize_value(value, &mut ser, opts, &hook, 0, 0);
    match res {
        Ok(()) => {
            let out = ser.into_inner().finish();
            proof {
                assert(Seq::<u8>::empty() + out@ =~= out@);
            }
            Ok(out)
        },
        Err(err) => Err(err),
    }
}

/// No hook, of the type of the hook `_like`.
fn absent<F>(_like: F) -> (none: Option<F>)
    ensures
        none is None,
{
    None
}

/// Encodes a value without a fallback hook.
pub fn packb(value: &Value, opts: Opt) -> (r: Result<Vec<u8>, EncodeError>)
    ensures
        packed(r, pack_spec(value@, Context { opts, hook: None })),
{
    let never = |v: &Value| -> (r: Option<Value>) { None };
    let none = absent(never);
    proof {
        let model = |v: crate::value::ValueView| None::<crate::value::ValueView>;
        assert(DefaultHook::new_spec(none).described_by(model));
    }
    serialize(value, none, opts)
}

impl<'a, W> crate::serialize::serializer::Compound<'a, W> where W: WriteSlices {
    /// Writes one member of an array, or one value of a map.
    pub fn serialize_element<F>(
        &mut self,
        value: &Value,
        opts: Opt,
        default: &DefaultHook<F>,
        default_calls: u8,
        recursion: u8,
    ) -> (r: Result<(), EncodeError>) where F: Fn(&Value) -> Option<Value>
        requires
            default.callable(),
        ensures
            forall|model: HookModel| #[trigger]
                default.described_by(model) ==> encoded(
                    old(self).se.sink(),
                    final(self).se.sink(),
                    r,
                    encode_value(
                        value@,
                        context(opts, default, model),
                        default_calls as nat,
                        recursion as nat,
                    ),
                ),
    {
        serialize_value(value, self.se, opts, default, default_calls, recursion)
    }

    /// Writes one key of a map.
    pub fn serialize_key(&mut self, key: &Value, opts: Opt, recursion: u8) -> (r: Result<
        (),
        EncodeError,
    >)
        ensures
            encoded(
                old(self).se.sink(),
                final(self).se.sink(),
                r,
                key_emit(key@, opts, recursion as nat),
            ),
    {
        serialize_key(key, self.se, opts, recursion)
    }
}

} // verus!
