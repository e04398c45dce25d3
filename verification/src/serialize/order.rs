//! The order in which the entries of a map are written: byte order of
//! keys, and the choice of the entries that are written at all.

use vstd::prelude::*;

verus! {

/// Whether `a` comes before `b`, or is `b`, in byte order: the order of the
/// first byte in which they differ, a prefix before what it is a prefix of.
pub open spec fn bytes_le(a: Seq<u8>, b: Seq<u8>) -> bool
    decreases a.len(),
{
    if a.len() == 0 {
        true
    } else if b.len() == 0 {
        false
    } else if a[0] != b[0] {
        a[0] < b[0]
    } else {
        bytes_le(a.drop_first(), b.drop_first())
    }
}

/// Whether `a` comes before `b`, or is `b`, in byte order.
pub fn key_le(a: &[u8], b: &[u8]) -> (r: bool)
    ensures
        r == bytes_le(a@, b@),
{
    let mut i: usize = 0;
    assert(a@.skip(0) =~= a@ && b@.skip(0) =~= b@);
    while i < a.len() && i < b.len()
        invariant
            i <= a@.len(),
            i <= b@.len(),
            bytes_le(a@, b@) == bytes_le(a@.skip(i as int), b@.skip(i as int)),
        decreases a@.len() - i,
    {
        proof {
            let x = a@.skip(i as int);
            let y = b@.skip(i as int);
            assert(x[0] == a@[i as int]);
            assert(y[0] == b@[i as int]);
            assert(x.drop_first() =~= a@.skip(i + 1));
            assert(y.drop_first() =~= b@.skip(i + 1));
        }
        if a[i] != b[i] {
            return a[i] < b[i];
        }
        i = i + 1;
    }
    i == a.len()
}

/// The numbers below `n` for which `keep` holds, in rising order.
pub open spec fn filter_indices(n: nat, keep: spec_fn(int) -> bool) -> Seq<int>
    decreases n,
{
    if n == 0 {
        Seq::empty()
    } else if keep(n - 1) {
        filter_indices((n - 1) as nat, keep).push(n - 1)
    } else {
        filter_indices((n - 1) as nat, keep)
    }
}

/// `sorted`, with `x` put in after the last of its members whose key does
/// not come after the key of `x`.
pub open spec fn insert_by_key(sorted: Seq<int>, x: int, key: spec_fn(int) -> Seq<u8>) -> Seq<int>
    decreases sorted.len(),
{
    if sorted.len() == 0 {
        seq![x]
    } else if bytes_le(key(sorted.last()), key(x)) {
        sorted.push(x)
    } else {
        insert_by_key(sorted.drop_last(), x, key).push(sorted.last())
    }
}

/// The members of `order` by the byte order of their keys; members with
/// one key stay in the order in which they were.
pub open spec fn sort_by_key(order: Seq<int>, key: spec_fn(int) -> Seq<u8>) -> Seq<int>
    decreases order.len(),
{
    if order.len() == 0 {
        Seq::empty()
    } else {
        insert_by_key(sort_by_key(order.drop_last(), key), order.last(), key)
    }
}

/// Where keys are put in from the end: `x` goes in at `pos` if every member
/// from `pos` on has a key after that of `x`, and the member before `pos`,
/// if there is one, has not.
pub proof fn lemma_insert_position(
    sorted: Seq<int>,
    x: int,
    key: spec_fn(int) -> Seq<u8>,
    pos: int,
)
    requires
        0 <= pos <= sorted.len(),
        forall|k: int| pos <= k < sorted.len() ==> !bytes_le(key(#[trigger] sorted[k]), key(x)),
        pos > 0 ==> bytes_le(key(sorted[pos - 1]), key(x)),
    ensures
        insert_by_key(sorted, x, key) == sorted.insert(pos, x),
    decreases sorted.len() - pos,
{
    if sorted.len() == 0 {
        assert(sorted.insert(pos, x) =~= seq![x]);
    } else if pos == sorted.len() {
        assert(sorted.insert(pos, x) =~= sorted.push(x));
    } else {
        let rest = sorted.drop_last();
        assert(!bytes_le(key(sorted[sorted.len() - 1]), key(x)));
        assert forall|k: int| pos <= k < rest.len() implies !bytes_le(
            key(#[trigger] rest[k]),
            key(x),
        ) by {
            assert(rest[k] == sorted[k]);
        }
        lemma_insert_position(rest, x, key, pos);
        assert(rest.insert(pos, x).push(sorted.last()) =~= sorted.insert(pos, x));
    }
}

/// Sorting goes by the keys of the members alone: two ways of giving keys
/// that agree on the members give one order.
pub proof fn lemma_sort_congruence(
    order: Seq<int>,
    f: spec_fn(int) -> Seq<u8>,
    g: spec_fn(int) -> Seq<u8>,
)
    requires
        forall|i: int| 0 <= i < order.len() ==> f(#[trigger] order[i]) == g(order[i]),
    ensures
        sort_by_key(order, f) == sort_by_key(order, g),
        forall|i: int|
            0 <= i < order.len() ==> f(#[trigger] sort_by_key(order, f)[i]) == g(
                sort_by_key(order, f)[i],
            ),
        sort_by_key(order, f).len() == order.len(),
    decreases order.len(),
{
    if order.len() > 0 {
        let rest = order.drop_last();
        assert forall|i: int| 0 <= i < rest.len() implies f(#[trigger] rest[i]) == g(rest[i]) by {
            assert(rest[i] == order[i]);
        }
        lemma_sort_congruence(rest, f, g);
        lemma_insert_congruence(sort_by_key(rest, f), order.last(), f, g);
    }
}

/// Inserting goes by the keys of the members alone.
pub proof fn lemma_insert_congruence(
    sorted: Seq<int>,
    x: int,
    f: spec_fn(int) -> Seq<u8>,
    g: spec_fn(int) -> Seq<u8>,
)
    requires
        forall|i: int| 0 <= i < sorted.len() ==> f(#[trigger] sorted[i]) == g(sorted[i]),
        f(x) == g(x),
    ensures
        insert_by_key(sorted, x, f) == insert_by_key(sorted, x, g),
        forall|i: int|
            0 <= i < sorted.len() + 1 ==> f(#[trigger] insert_by_key(sorted, x, f)[i]) == g(
                insert_by_key(sorted, x, f)[i],
            ),
        insert_by_key(sorted, x, f).len() == sorted.len() + 1,
    decreases sorted.len(),
{
    if sorted.len() > 0 {
        assert(f(sorted[sorted.len() - 1]) == g(sorted[sorted.len() - 1]));
        if !bytes_le(f(sorted.last()), f(x)) {
            let rest = sorted.drop_last();
            assert forall|i: int| 0 <= i < rest.len() implies f(#[trigger] rest[i]) == g(
                rest[i],
            ) by {
                assert(rest[i] == sorted[i]);
            }
            lemma_insert_congruence(rest, x, f, g);
        }
    }
}

/// The numbers from 0 up to `n`, in order.
pub open spec fn identity_order(n: nat) -> Seq<int> {
    Seq::new(n, |i: int| i)
}

/// The numbers below `n` for which `keep` holds, in rising order or, where
/// `sort` says so, by the byte order of their keys.
pub open spec fn arranged(
    n: nat,
    keep: spec_fn(int) -> bool,
    key: spec_fn(int) -> Seq<u8>,
    sort: bool,
) -> Seq<int> {
    if sort {
        sort_by_key(filter_indices(n, keep), key)
    } else {
        filter_indices(n, keep)
    }
}

/// What `filter_indices` keeps are numbers below `n`.
pub proof fn lemma_filter_bounds(n: nat, keep: spec_fn(int) -> bool)
    ensures
        filter_indices(n, keep).len() <= n,
        forall|i: int|
            0 <= i < filter_indices(n, keep).len() ==> 0 <= #[trigger] filter_indices(n, keep)[i]
                < n,
    decreases n,
{
    if n > 0 {
        lemma_filter_bounds((n - 1) as nat, keep);
    }
}

/// Choosing goes by what `keep` says of the numbers below `n` alone.
pub proof fn lemma_filter_congruence(n: nat, k1: spec_fn(int) -> bool, k2: spec_fn(int) -> bool)
    requires
        forall|j: int| 0 <= j < n ==> #[trigger] k1(j) == k2(j),
    ensures
        filter_indices(n, k1) == filter_indices(n, k2),
    decreases n,
{
    if n > 0 {
        lemma_filter_congruence((n - 1) as nat, k1, k2);
    }
}

/// Sorting keeps the members: each member of the result is one of `order`.
pub proof fn lemma_sort_members(order: Seq<int>, key: spec_fn(int) -> Seq<u8>, bound: int)
    requires
        forall|i: int| 0 <= i < order.len() ==> 0 <= #[trigger] order[i] < bound,
    ensures
        sort_by_key(order, key).len() == order.len(),
        forall|i: int|
            0 <= i < order.len() ==> 0 <= #[trigger] sort_by_key(order, key)[i] < bound,
    decreases order.len(),
{
    if order.len() > 0 {
        let rest = order.drop_last();
        assert forall|i: int| 0 <= i < rest.len() implies 0 <= #[trigger] rest[i] < bound by {
            assert(rest[i] == order[i]);
        }
        lemma_sort_members(rest, key, bound);
        assert(0 <= order[order.len() - 1] < bound);
        lemma_insert_members(sort_by_key(rest, key), order.last(), key, bound);
    }
}

/// Inserting keeps the members and adds the one.
pub proof fn lemma_insert_members(
    sorted: Seq<int>,
    x: int,
    key: spec_fn(int) -> Seq<u8>,
    bound: int,
)
    requires
        forall|i: int| 0 <= i < sorted.len() ==> 0 <= #[trigger] sorted[i] < bound,
        0 <= x < bound,
    ensures
        insert_by_key(sorted, x, key).len() == sorted.len() + 1,
        forall|i: int|
            0 <= i < sorted.len() + 1 ==> 0 <= #[trigger] insert_by_key(sorted, x, key)[i] < bound,
    decreases sorted.len(),
{
    if sorted.len() > 0 {
        assert(0 <= sorted[sorted.len() - 1] < bound);
        if !bytes_le(key(sorted.last()), key(x)) {
            let rest = sorted.drop_last();
            assert forall|i: int| 0 <= i < rest.len() implies 0 <= #[trigger] rest[i] < bound by {
                assert(rest[i] == sorted[i]);
            }
            lemma_insert_members(rest, x, key, bound);
        }
    }
}

/// An arrangement goes by what `keep` and `key` say of the numbers below
/// `n` alone, and holds numbers below `n` only.
pub proof fn lemma_arranged_congruence(
    n: nat,
    k1: spec_fn(int) -> bool,
    k2: spec_fn(int) -> bool,
    f: spec_fn(int) -> Seq<u8>,
    g: spec_fn(int) -> Seq<u8>,
    sort: bool,
)
    requires
        forall|j: int| 0 <= j < n ==> #[trigger] k1(j) == k2(j),
        forall|j: int| 0 <= j < n ==> #[trigger] f(j) == g(j),
    ensures
        arranged(n, k1, f, sort) == arranged(n, k2, g, sort),
        arranged(n, k1, f, sort).len() <= n,
        forall|i: int|
            0 <= i < arranged(n, k1, f, sort).len() ==> 0 <= #[trigger] arranged(n, k1, f, sort)[i]
                < n,
{
    lemma_filter_congruence(n, k1, k2);
    lemma_filter_bounds(n, k1);
    let kept = filter_indices(n, k1);
    if sort {
        lemma_sort_congruence(kept, f, g);
        lemma_sort_members(kept, f, n as int);
    }
}

/// Numbers of children in a `smallvec::SmallVec`, which keeps up to eight
/// of them in place and more on the heap.
#[verifier::external_body]
pub struct Listed {
    items: smallvec::SmallVec<[usize; 8]>,
}

/// The numbers that a vector of child numbers holds, in order.
pub uninterp spec fn listed_items(v: Listed) -> Seq<usize>;

/// An empty vector with room for `n` numbers, from
/// `smallvec::SmallVec::with_capacity`. As with `Vec::with_capacity`,
/// nothing is said of a call that asks for more memory than can be had.
#[verifier::external_body]
fn listed_with_capacity(n: usize) -> (v: Listed)
    ensures
        listed_items(v) == Seq::<usize>::empty(),
{
    Listed { items: smallvec::SmallVec::with_capacity(n) }
}

/// The length, from `smallvec::SmallVec::len`.
#[verifier::external_body]
fn listed_len(v: &Listed) -> (n: usize)
    ensures
        n == listed_items(*v).len(),
{
    v.items.len()
}

/// The number at `i`, by the indexing of the slice that the vector is.
#[verifier::external_body]
fn listed_get(v: &Listed, i: usize) -> (x: usize)
    requires
        i < listed_items(*v).len(),
    ensures
        x == listed_items(*v)[i as int],
{
    v.items[i]
}

/// Adds a number at the end, by `smallvec::SmallVec::push`. As with
/// `Vec::push`, nothing is said of a call for which no memory can be had.
#[verifier::external_body]
fn listed_push(v: &mut Listed, x: usize)
    ensures
        listed_items(*final(v)) == listed_items(*old(v)).push(x),
{
    v.items.push(x)
}

/// Puts a number in at `index` and moves those from there on one place
/// up, by `smallvec::SmallVec::insert`, which takes an index up to the
/// length. As with `Vec::insert`, nothing is said of a call for which no
/// memory can be had.
#[verifier::external_body]
fn listed_insert(v: &mut Listed, index: usize, x: usize)
    requires
        index <= listed_items(*old(v)).len(),
    ensures
        listed_items(*final(v)) == listed_items(*old(v)).insert(index as int, x),
{
    v.items.insert(index, x)
}

/// The children that are written, in the order in which they are written.
pub struct Order {
    /// The number of children, where all are written in their own order.
    natural: usize,
    /// The children, where they are chosen or sorted.
    listed: Option<Listed>,
}

impl Order {
    /// The numbers of the children, in order.
    pub closed spec fn view(&self) -> Seq<int> {
        match self.listed {
            Some(listed) => Seq::new(
                listed_items(listed).len(),
                |i: int| listed_items(listed)[i] as int,
            ),
            None => identity_order(self.natural as nat),
        }
    }

    /// The first `n` children, in their own order.
    pub fn natural(n: usize) -> (order: Self)
        ensures
            order@ == identity_order(n as nat),
    {
        Order { natural: n, listed: None }
    }

    /// How many children are written.
    pub fn len(&self) -> (n: usize)
        ensures
            n == self@.len(),
    {
        match &self.listed {
            Some(listed) => listed_len(listed),
            None => self.natural,
        }
    }

    /// The number of the child that is written at `i`.
    pub fn get(&self, i: usize) -> (j: usize)
        requires
            i < self@.len(),
        ensures
            j == self@[i as int],
    {
        match &self.listed {
            Some(listed) => listed_get(listed, i),
            None => i,
        }
    }

    /// The children below `n` that `keep` marks, in rising order or, where
    /// `sort` says so, by the byte order of their keys in `keys`.
    pub fn arrange(n: usize, keep: &Vec<bool>, keys: &Vec<&[u8]>, sort: bool) -> (order: Self)
        requires
            keep@.len() == n,
            keys@.len() == n,
        ensures
            order@ == arranged(n as nat, |j: int| keep@[j], |j: int| keys@[j]@, sort),
    {
        let ghost keep_fn = |j: int| keep@[j];
        let ghost key_fn = |j: int| keys@[j]@;
        let mut listed = listed_with_capacity(n);
        let mut j: usize = 0;
        while j < n
            invariant
                j <= n,
                keep@.len() == n,
                keys@.len() == n,
                keep_fn == (|j: int| keep@[j]),
                key_fn == (|j: int| keys@[j]@),
                Seq::new(listed_items(listed).len(), |i: int| listed_items(listed)[i] as int)
                    == arranged(j as nat, keep_fn, key_fn, sort),
                forall|i: int|
                    0 <= i < listed_items(listed).len() ==> #[trigger] listed_items(listed)[i] < n,
            decreases n - j,
        {
            let ghost items = listed_items(listed);
            let ghost before = Seq::new(items.len(), |i: int| items[i] as int);
            let ghost kept = filter_indices(j as nat, keep_fn);
            if keep[j] {
                assert(filter_indices((j + 1) as nat, keep_fn) == kept.push(j as int));
                assert(kept.push(j as int).drop_last() =~= kept);
                if sort {
                    let pos = insert_position(&listed, j, keys);
                    proof {
                        lemma_insert_position(before, j as int, key_fn, pos as int);
                    }
                    listed_insert(&mut listed, pos, j);
                    assert(Seq::new(
                        listed_items(listed).len(),
                        |i: int| listed_items(listed)[i] as int,
                    ) =~= before.insert(pos as int, j as int));
                } else {
                    listed_push(&mut listed, j);
                    assert(Seq::new(
                        listed_items(listed).len(),
                        |i: int| listed_items(listed)[i] as int,
                    ) =~= before.push(j as int));
                }
            } else {
                assert(filter_indices((j + 1) as nat, keep_fn) == kept);
            }
            j = j + 1;
        }
        Order { natural: 0, listed: Some(listed) }
    }
}

/// Where the child `j` goes in by its key: after the last of `sorted` whose
/// key does not come after its own.
fn insert_position(sorted: &Listed, j: usize, keys: &Vec<&[u8]>) -> (pos: usize)
    requires
        j < keys@.len(),
        forall|i: int|
            0 <= i < listed_items(*sorted).len() ==> #[trigger] listed_items(*sorted)[i]
                < keys@.len(),
    ensures
        pos <= listed_items(*sorted).len(),
        forall|k: int|
            pos <= k < listed_items(*sorted).len() ==> !bytes_le(
                keys@[#[trigger] listed_items(*sorted)[k] as int]@,
                keys@[j as int]@,
            ),
        pos > 0 ==> bytes_le(keys@[listed_items(*sorted)[pos - 1] as int]@, keys@[j as int]@),
{
    let ghost items = listed_items(*sorted);
    let mut pos: usize = listed_len(sorted);
    let mut found = false;
    while pos > 0 && !found
        invariant
            pos <= items.len(),
            items == listed_items(*sorted),
            j < keys@.len(),
            forall|i: int| 0 <= i < items.len() ==> #[trigger] items[i] < keys@.len(),
            forall|k: int|
                pos <= k < items.len() ==> !bytes_le(
                    keys@[#[trigger] items[k] as int]@,
                    keys@[j as int]@,
                ),
            found ==> pos > 0 && bytes_le(keys@[items[pos - 1] as int]@, keys@[j as int]@),
        decreases
                if found {
                    0
                } else {
                    pos + 1
                },
    {
        let before = listed_get(sorted, pos - 1);
        if key_le(keys[before], keys[j]) {
            found = true;
        } else {
            pos = pos - 1;
        }
    }
    pos
}

} // verus!
