//! Sorted keys make the encoding of a mapping independent of the order of
//! its entries.

use crate::opt::{holds, NON_STR_KEYS, SORT_KEYS};
use crate::serialize::encoding::{
    classify_spec, dict_plan, encode_children, encode_value, first_key_error, keep_of, key_bytes,
    key_fn, key_part, lemma_children_step, plan_of, Context, Keys, Plan,
};
use crate::serialize::error::Emitted;
use crate::serialize::order::{
    arranged, bytes_le, filter_indices, identity_order, insert_by_key, sort_by_key,
};
use crate::value::ValueView;
use vstd::multiset::Multiset;
use vstd::prelude::*;
use vstd::relations::{sorted_by, total_ordering};

verus! {

/// Byte order as a relation.
pub open spec fn byte_order() -> spec_fn(Seq<u8>, Seq<u8>) -> bool {
    |a: Seq<u8>, b: Seq<u8>| bytes_le(a, b)
}

/// Every byte string comes before itself or is itself.
proof fn lemma_le_reflexive(a: Seq<u8>)
    ensures
        bytes_le(a, a),
    decreases a.len(),
{
    if a.len() > 0 {
        lemma_le_reflexive(a.drop_first());
    }
}

/// Two byte strings that come before each other are one.
proof fn lemma_le_antisymmetric(a: Seq<u8>, b: Seq<u8>)
    requires
        bytes_le(a, b),
        bytes_le(b, a),
    ensures
        a == b,
    decreases a.len(),
{
    if a.len() > 0 && b.len() > 0 {
        lemma_le_antisymmetric(a.drop_first(), b.drop_first());
        assert(a =~= seq![a[0]] + a.drop_first());
        assert(b =~= seq![b[0]] + b.drop_first());
    } else {
        assert(a =~= b);
    }
}

/// Byte order passes on.
proof fn lemma_le_transitive(a: Seq<u8>, b: Seq<u8>, c: Seq<u8>)
    requires
        bytes_le(a, b),
        bytes_le(b, c),
    ensures
        bytes_le(a, c),
    decreases a.len(),
{
    if a.len() > 0 && b.len() > 0 && c.len() > 0 {
        if a[0] == b[0] && b[0] == c[0] {
            lemma_le_transitive(a.drop_first(), b.drop_first(), c.drop_first());
        }
    }
}

/// Of two byte strings one comes before the other.
proof fn lemma_le_connected(a: Seq<u8>, b: Seq<u8>)
    ensures
        bytes_le(a, b) || bytes_le(b, a),
    decreases a.len(),
{
    if a.len() > 0 && b.len() > 0 && a[0] == b[0] {
        lemma_le_connected(a.drop_first(), b.drop_first());
    }
}

/// Byte order is a total order.
pub proof fn lemma_byte_order_total()
    ensures
        total_ordering(byte_order()),
{
    let r = byte_order();
    assert forall|x: Seq<u8>| #[trigger] r(x, x) by {
        lemma_le_reflexive(x);
    }
    assert forall|x: Seq<u8>, y: Seq<u8>| #[trigger] r(x, y) && #[trigger] r(y, x) implies x
        == y by {
        lemma_le_antisymmetric(x, y);
    }
    assert forall|x: Seq<u8>, y: Seq<u8>, z: Seq<u8>| #[trigger] r(x, y) && #[trigger] r(
        y,
        z,
    ) implies r(x, z) by {
        lemma_le_transitive(x, y, z);
    }
    assert forall|x: Seq<u8>, y: Seq<u8>| #[trigger] r(x, y) || #[trigger] r(y, x) by {
        lemma_le_connected(x, y);
    }
}

/// The keys of the members of an order, in order.
pub open spec fn keys_of(order: Seq<int>, key: spec_fn(int) -> Seq<u8>) -> Seq<Seq<u8>> {
    Seq::new(order.len(), |i: int| key(order[i]))
}

/// Putting a member in by its key keeps the keys in byte order, and adds
/// the member to those that are there.
proof fn lemma_insert_sorted(sorted: Seq<int>, x: int, key: spec_fn(int) -> Seq<u8>)
    requires
        sorted_by(keys_of(sorted, key), byte_order()),
    ensures
        sorted_by(keys_of(insert_by_key(sorted, x, key), key), byte_order()),
        insert_by_key(sorted, x, key).to_multiset() == sorted.to_multiset().insert(x),
        insert_by_key(sorted, x, key).len() == sorted.len() + 1,
    decreases sorted.len(),
{
    broadcast use vstd::seq_lib::group_to_multiset_ensures;
    broadcast use vstd::multiset::group_multiset_axioms;

    let out = insert_by_key(sorted, x, key);
    let ks = keys_of(sorted, key);
    if sorted.len() == 0 {
        assert(seq![x] =~= Seq::<int>::empty().push(x));
    } else if bytes_le(key(sorted.last()), key(x)) {
        assert forall|i: int, j: int| 0 <= i < j < out.len() implies #[trigger] byte_order()(
            keys_of(out, key)[i],
            keys_of(out, key)[j],
        ) by {
            if j < sorted.len() {
                assert(byte_order()(ks[i], ks[j]));
            } else {
                if i < sorted.len() - 1 {
                    assert(byte_order()(ks[i], ks[sorted.len() - 1]));
                    lemma_le_transitive(key(sorted[i]), key(sorted.last()), key(x));
                }
            }
        }
    } else {
        let rest = sorted.drop_last();
        let last = sorted.last();
        assert forall|i: int, j: int| 0 <= i < j < rest.len() implies #[trigger] byte_order()(
            keys_of(rest, key)[i],
            keys_of(rest, key)[j],
        ) by {
            assert(byte_order()(ks[i], ks[j]));
        }
        lemma_insert_sorted(rest, x, key);
        let inner = insert_by_key(rest, x, key);
        assert(out == inner.push(last));
        lemma_le_connected(key(last), key(x));
        assert forall|i: int, j: int| 0 <= i < j < out.len() implies #[trigger] byte_order()(
            keys_of(out, key)[i],
            keys_of(out, key)[j],
        ) by {
            if j < inner.len() {
                assert(byte_order()(keys_of(inner, key)[i], keys_of(inner, key)[j]));
            } else {
                // the member at `i` is `x` or a member of `rest`
                assert(inner.to_multiset().count(inner[i]) > 0);
                if inner[i] == x {
                } else {
                    assert(rest.to_multiset().count(inner[i]) > 0);
                    assert(rest.contains(inner[i]));
                    let k = choose|k: int| 0 <= k < rest.len() && rest[k] == inner[i];
                    assert(byte_order()(ks[k], ks[sorted.len() - 1]));
                }
            }
        }
        assert(sorted =~= rest.push(last));
        assert(out.to_multiset() =~= sorted.to_multiset().insert(x));
    }
}

/// Sorting gives the members in the byte order of their keys, and gives
/// each member as often as it was there.
pub proof fn lemma_sort_sorted(order: Seq<int>, key: spec_fn(int) -> Seq<u8>)
    ensures
        sorted_by(keys_of(sort_by_key(order, key), key), byte_order()),
        sort_by_key(order, key).to_multiset() == order.to_multiset(),
        sort_by_key(order, key).len() == order.len(),
    decreases order.len(),
{
    broadcast use vstd::seq_lib::group_to_multiset_ensures;
    broadcast use vstd::multiset::group_multiset_axioms;

    if order.len() > 0 {
        lemma_sort_sorted(order.drop_last(), key);
        lemma_insert_sorted(sort_by_key(order.drop_last(), key), order.last(), key);
        assert(order =~= order.drop_last().push(order.last()));
    } else {
        assert(order.to_multiset() =~= Multiset::<int>::empty());
    }
}

/// What stands in two sequences equally often stands equally often in
/// what a function makes of their members.
pub proof fn lemma_map_multiset<A, B>(a: Seq<A>, b: Seq<A>, f: spec_fn(A) -> B)
    requires
        a.to_multiset() == b.to_multiset(),
    ensures
        a.map_values(f).to_multiset() == b.map_values(f).to_multiset(),
    decreases a.len(),
{
    broadcast use vstd::seq_lib::group_to_multiset_ensures;
    broadcast use vstd::multiset::group_multiset_axioms;

    a.to_multiset_ensures();
    b.to_multiset_ensures();
    if a.len() == 0 {
        assert(b.len() == 0);
        assert(a.map_values(f) =~= b.map_values(f));
    } else {
        let last = a.last();
        let a1 = a.drop_last();
        assert(a =~= a1.push(last));
        assert(b.to_multiset().count(last) > 0);
        assert(b.contains(last));
        let i = choose|i: int| 0 <= i < b.len() && b[i] == last;
        let b1 = b.remove(i);
        assert(a1.to_multiset() =~= a.to_multiset().remove(last)) by {
            assert(a1 =~= a.remove(a.len() - 1));
        }
        assert(a1.to_multiset() == b1.to_multiset());
        lemma_map_multiset(a1, b1, f);
        assert(a.map_values(f) =~= a1.map_values(f).push(f(last)));
        assert(b.map_values(f) =~= b1.map_values(f).insert(i, f(last)));
    }
}

/// Where every number is kept, those that are kept are all in order.
proof fn lemma_filter_all(n: nat, keep: spec_fn(int) -> bool)
    requires
        forall|j: int| 0 <= j < n ==> #[trigger] keep(j),
    ensures
        filter_indices(n, keep) == identity_order(n),
    decreases n,
{
    if n > 0 {
        lemma_filter_all((n - 1) as nat, keep);
        assert(identity_order((n - 1) as nat).push(n - 1) =~= identity_order(n));
    } else {
        assert(filter_indices(n, keep) =~= identity_order(n));
    }
}

/// The order in which the entries of a mapping are written under sorted
/// keys.
pub open spec fn sorted_order(entries: Seq<(ValueView, ValueView)>) -> Seq<int> {
    arranged(
        entries.len(),
        keep_of(ValueView::Dict(entries)),
        key_fn(ValueView::Dict(entries)),
        true,
    )
}

/// The entries of a mapping in the order in which they are written under
/// sorted keys.
pub open spec fn sorted_entries(entries: Seq<(ValueView, ValueView)>) -> Seq<
    (ValueView, ValueView),
> {
    sorted_order(entries).map_values(|j: int| entries[j])
}

/// Whether no two entries of a mapping have keys of the same bytes.
pub open spec fn distinct_keys(entries: Seq<(ValueView, ValueView)>) -> bool {
    forall|a: int, b: int|
        0 <= a < entries.len() && 0 <= b < entries.len() && a != b ==> key_bytes(
            (#[trigger] entries[a]).0,
        ) != key_bytes((#[trigger] entries[b]).0)
}

/// Whether every key of a mapping is a well-formed string.
pub open spec fn string_keys(entries: Seq<(ValueView, ValueView)>) -> bool {
    forall|a: int|
        0 <= a < entries.len() ==> (#[trigger] entries[a]).0 is Str && entries[a].0->Str_0 is Utf8
}

/// The sorted entries of a mapping are its entries, each as often as it is
/// there, with their keys in byte order.
proof fn lemma_sorted_entries(entries: Seq<(ValueView, ValueView)>)
    ensures
        sorted_entries(entries).to_multiset() == entries.to_multiset(),
        sorted_entries(entries).len() == entries.len(),
        sorted_by(
            sorted_entries(entries).map_values(|e: (ValueView, ValueView)| key_bytes(e.0)),
            byte_order(),
        ),
        forall|i: int|
            0 <= i < entries.len() ==> 0 <= #[trigger] sorted_order(entries)[i] < entries.len(),
{
    broadcast use vstd::seq_lib::group_to_multiset_ensures;
    broadcast use vstd::multiset::group_multiset_axioms;

    let d = ValueView::Dict(entries);
    let n = entries.len();
    let key = key_fn(d);
    lemma_filter_all(n, keep_of(d));
    let order = sorted_order(entries);
    assert(order == sort_by_key(identity_order(n), key));
    lemma_sort_sorted(identity_order(n), key);
    crate::serialize::order::lemma_arranged_congruence(n, keep_of(d), keep_of(d), key, key, true);
    let f = |j: int| entries[j];
    lemma_map_multiset(order, identity_order(n), f);
    assert(identity_order(n).map_values(f) =~= entries);
    let keys = sorted_entries(entries).map_values(|e: (ValueView, ValueView)| key_bytes(e.0));
    assert(keys =~= keys_of(order, key));
}

/// Two mappings that hold the same entries, in whatever order, with keys
/// that differ from each other, have the same sorted entries.
proof fn lemma_sorted_entries_same(
    e1: Seq<(ValueView, ValueView)>,
    e2: Seq<(ValueView, ValueView)>,
)
    requires
        e1.to_multiset() == e2.to_multiset(),
        distinct_keys(e1),
    ensures
        sorted_entries(e1) == sorted_entries(e2),
{
    broadcast use vstd::seq_lib::group_to_multiset_ensures;
    broadcast use vstd::multiset::group_multiset_axioms;

    lemma_sorted_entries(e1);
    lemma_sorted_entries(e2);
    lemma_byte_order_total();
    let s1 = sorted_entries(e1);
    let s2 = sorted_entries(e2);
    let keyf = |e: (ValueView, ValueView)| key_bytes(e.0);
    lemma_map_multiset(s1, s2, keyf);
    let k1 = s1.map_values(keyf);
    let k2 = s2.map_values(keyf);
    vstd::seq_lib::lemma_sorted_unique(k1, k2, byte_order());
    e1.to_multiset_ensures();
    e2.to_multiset_ensures();
    s1.to_multiset_ensures();
    s2.to_multiset_ensures();
    assert(s1.len() == s2.len());
    assert forall|i: int| 0 <= i < s1.len() implies s1[i] == s2[i] by {
        assert(k1[i] == k2[i]);
        assert(s1.contains(s1[i]));
        assert(s2.contains(s2[i]));
        assert(e1.to_multiset().count(s1[i]) > 0);
        assert(e1.to_multiset().count(s2[i]) > 0);
        assert(e1.contains(s1[i]));
        assert(e1.contains(s2[i]));
        let a = choose|a: int| 0 <= a < e1.len() && e1[a] == s1[i];
        let b = choose|b: int| 0 <= b < e1.len() && e1[b] == s2[i];
        assert(keyf(s1[i]) == keyf(s2[i]));
        if a != b {
            assert(key_bytes(e1[a].0) != key_bytes(e1[b].0));
        }
    }
    assert(s1 =~= s2);
}

/// What the first `upto` of a sequence of entries are encoded as, each its
/// key as a string and then its value.
pub open spec fn emit_pairs(
    pairs: Seq<(ValueView, ValueView)>,
    upto: nat,
    cx: Context,
    dc: nat,
    rc: nat,
) -> Emitted
    decreases upto,
{
    if upto == 0 || upto > pairs.len() {
        Emitted::nothing()
    } else {
        emit_pairs(pairs, (upto - 1) as nat, cx, dc, rc).followed_by(
            key_part(pairs[upto - 1].0, Keys::Str, cx.opts, rc),
        ).followed_by(encode_value(pairs[upto - 1].1, cx, dc, rc))
    }
}

/// What the children of a mapping are encoded as under sorted keys goes by
/// its sorted entries alone.
proof fn lemma_children_as_pairs(
    entries: Seq<(ValueView, ValueView)>,
    plan: Plan,
    upto: nat,
    cx: Context,
    dc: nat,
    rc: nat,
)
    requires
        plan.keys == Keys::Str,
        plan.order == sorted_order(entries),
        upto <= entries.len(),
    ensures
        encode_children(ValueView::Dict(entries), plan, upto, cx, dc, rc) == emit_pairs(
            sorted_entries(entries),
            upto,
            cx,
            dc,
            rc,
        ),
    decreases upto,
{
    lemma_sorted_entries(entries);
    let d = ValueView::Dict(entries);
    if upto > 0 {
        lemma_children_as_pairs(entries, plan, (upto - 1) as nat, cx, dc, rc);
        lemma_children_step(d, plan, (upto - 1) as nat, cx, dc, rc);
        let j = plan.order[upto - 1];
        assert(sorted_entries(entries)[upto - 1] == entries[j]);
    }
}

/// No key of a mapping whose keys are well-formed strings is in error.
proof fn lemma_no_key_error(entries: Seq<(ValueView, ValueView)>, upto: nat)
    requires
        string_keys(entries),
        upto <= entries.len(),
    ensures
        first_key_error(ValueView::Dict(entries), upto) is None,
    decreases upto,
{
    if upto > 0 {
        lemma_no_key_error(entries, (upto - 1) as nat);
        assert(entries[upto - 1].0 is Str && entries[upto - 1].0->Str_0 is Utf8);
    }
}

/// Under sorted keys the encoding of a mapping does not depend on the
/// order of its entries: two mappings that hold the same entries, with
/// keys that are well-formed strings and differ from each other, are
/// encoded as the same bytes, or fail with the same error.
pub proof fn lemma_sorted_encoding(
    e1: Seq<(ValueView, ValueView)>,
    e2: Seq<(ValueView, ValueView)>,
    cx: Context,
    dc: nat,
    rc: nat,
)
    requires
        holds(cx.opts, SORT_KEYS),
        !holds(cx.opts, NON_STR_KEYS),
        e1.to_multiset() == e2.to_multiset(),
        distinct_keys(e1),
        string_keys(e1),
    ensures
        encode_value(ValueView::Dict(e1), cx, dc, rc) == encode_value(
            ValueView::Dict(e2),
            cx,
            dc,
            rc,
        ),
{
    broadcast use vstd::seq_lib::group_to_multiset_ensures;
    broadcast use vstd::multiset::group_multiset_axioms;

    reveal(classify_spec);
    reveal(dict_plan);
    e1.to_multiset_ensures();
    e2.to_multiset_ensures();
    assert(e1.len() == e2.len());
    assert forall|a: int| 0 <= a < e2.len() implies (#[trigger] e2[a]).0 is Str
        && e2[a].0->Str_0 is Utf8 by {
        assert(e2.contains(e2[a]));
        assert(e1.to_multiset().count(e2[a]) > 0);
        assert(e1.contains(e2[a]));
        let b = choose|b: int| 0 <= b < e1.len() && e1[b] == e2[a];
        assert(e1[b].0 is Str);
    }
    lemma_no_key_error(e1, e1.len());
    lemma_no_key_error(e2, e2.len());
    lemma_sorted_entries_same(e1, e2);
    lemma_sorted_entries(e1);
    lemma_sorted_entries(e2);
    if rc < 255 {
        let first = plan_of(ValueView::Dict(e1), cx.opts).unwrap();
        let second = plan_of(ValueView::Dict(e2), cx.opts).unwrap();
        lemma_children_as_pairs(e1, first, e1.len(), cx, dc, rc + 1);
        lemma_children_as_pairs(e2, second, e2.len(), cx, dc, rc + 1);
    }
}

} // verus!
