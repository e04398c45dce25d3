//! The key cache: short map keys that were decoded before, by a hash of
//! their bytes.

use vstd::prelude::*;
use vstd::string::StringSliceAdditionalSpecFns;
use vstd::utf8::{decode_utf8, encode_utf8, valid_utf8};

verus! {

/// A string is not UTF-8.
#[derive(Clone, Copy, Debug, PartialEq, Eq, Structural)]
pub struct Utf8Error;

/// The bytes as a string, from `simdutf8::basic::from_utf8`: the string
/// that the bytes are the UTF-8 form of, or an error where they are the
/// form of none.
#[verifier::external_body]
pub(crate) fn from_utf8(input: &[u8]) -> (r: Result<&str, Utf8Error>)
    ensures
        match r {
            Ok(s) => valid_utf8(input@) && s.spec_bytes() == input@,
            Err(_) => !valid_utf8(input@),
        },
{
    match simdutf8::basic::from_utf8(input) {
        Ok(s) => Ok(s),
        Err(_) => Err(Utf8Error),
    }
}

/// The keys of ahash's hasher: one value per cache, made from randomness.
#[verifier::external_type_specification]
#[verifier::external_body]
pub struct ExRandomState(ahash::RandomState);

/// New hasher keys, from `ahash::RandomState::new`. They differ from call
/// to call, so nothing is said of them.
#[verifier::external_body]
fn new_hash_builder() -> ahash::RandomState {
    ahash::RandomState::new()
}

/// The hash of `key` under the hasher keys `state`: the hasher from
/// `BuildHasher::build_hasher`, fed the bytes with `Hasher::write`, read
/// with `Hasher::finish`. The value depends on the random keys, so nothing
/// is said of it.
#[verifier::external_body]
fn hash_key(state: &ahash::RandomState, key: &[u8]) -> u64 {
    let mut hasher = std::hash::BuildHasher::build_hasher(state);
    std::hash::Hasher::write(&mut hasher, key);
    std::hash::Hasher::finish(&hasher)
}

/// Whether two slices hold the same bytes.
pub fn bytes_eq(a: &[u8], b: &[u8]) -> (r: bool)
    ensures
        r == (a@ == b@),
{
    if a.len() != b.len() {
        return false;
    }
    let mut i: usize = 0;
    while i < a.len()
        invariant
            i <= a@.len(),
            a@.len() == b@.len(),
            a@.take(i as int) == b@.take(i as int),
        decreases a@.len() - i,
    {
        if a[i] != b[i] {
            return false;
        }
        assert(a@.take(i + 1) =~= a@.take(i as int).push(a@[i as int]));
        assert(b@.take(i + 1) =~= b@.take(i as int).push(b@[i as int]));
        i = i + 1;
    }
    assert(a@.take(a@.len() as int) =~= a@);
    assert(b@.take(b@.len() as int) =~= b@);
    true
}

/// The string that bytes are the UTF-8 form of is the one whose form they
/// are.
pub proof fn lemma_decode_of_bytes(chars: Seq<char>, bytes: Seq<u8>)
    requires
        encode_utf8(chars) == bytes,
    ensures
        valid_utf8(bytes),
        decode_utf8(bytes) == chars,
{
    vstd::utf8::encode_utf8_valid_utf8(chars);
    vstd::utf8::encode_utf8_decode_utf8(chars);
}

/// A table of `C` slots. The slot of a key is found by the hash of its
/// bytes; a slot holds the key that was put there last.
pub struct KeyMap<const C: usize> {
    entries: Vec<Option<String>>,
    hash_builder: ahash::RandomState,
}

impl<const C: usize> KeyMap<C> {
    /// Whether the table has its `C` slots.
    pub closed spec fn wf(&self) -> bool {
        self.entries@.len() == C
    }

    /// What the slots hold, in their order: each a key, or nothing.
    pub closed spec fn slots(&self) -> Seq<Option<Seq<char>>> {
        Seq::new(self.entries@.len(), |i: int| slot_view(self.entries@[i]))
    }

    /// An empty table.
    pub fn new() -> (map: Self)
        ensures
            map.wf(),
            map.slots() == Seq::new(C as nat, |i: int| None::<Seq<char>>),
    {
        let mut entries: Vec<Option<String>> = Vec::with_capacity(C);
        let mut i: usize = 0;
        while i < C
            invariant
                i <= C,
                entries@.len() == i,
                forall|j: int| 0 <= j < i ==> entries@[j] is None,
            decreases C - i,
        {
            entries.push(None);
            i = i + 1;
        }
        let map = KeyMap { entries: entries, hash_builder: new_hash_builder() };
        assert(map.slots() =~= Seq::new(C as nat, |i: int| None::<Seq<char>>));
        map
    }

    /// The key with the bytes `key`, as a string: the one in the slot of
    /// the bytes where it has these bytes, else a new one, which takes the
    /// slot from whatever held it. The string is the same either way: the
    /// one that the bytes are the UTF-8 form of. Afterwards one slot holds
    /// the key, and the others hold what they held. Bytes that are the form
    /// of no string are an error, and leave the table as it was.
    pub fn get(&mut self, key: &[u8]) -> (r: Result<String, Utf8Error>)
        requires
            old(self).wf(),
            C > 0,
        ensures
            final(self).wf(),
            final(self).slots().len() == C,
            match r {
                Ok(s) => valid_utf8(key@) && s@ == decode_utf8(key@) && put(
                    old(self).slots(),
                    final(self).slots(),
                    s@,
                ),
                Err(_) => !valid_utf8(key@) && final(self).slots() == old(self).slots(),
            },
    {
        let hash = hash_key(&self.hash_builder, key);
        let index = (hash % (C as u64)) as usize;
        match &self.entries[index] {
            Some(v) => {
                if bytes_eq(v.as_str().as_bytes(), key) {
                    let hit = v.clone();
                    proof {
                        lemma_decode_of_bytes(v@, key@);
                        assert(hit@ == v@);
                        assert(slot_view(self.entries@[index as int]) == Some(hit@));
                        assert(self.slots() =~= old(self).slots().update(
                            index as int,
                            Some(hit@),
                        ));
                        assert(put(old(self).slots(), self.slots(), hit@));
                    }
                    return Ok(hit);
                }
            },
            None => {},
        }
        let fresh = from_utf8(key)?;
        proof {
            lemma_decode_of_bytes(fresh@, key@);
        }
        let stored = fresh.to_owned();
        let out = stored.clone();
        self.entries.set(index, Some(stored));
        proof {
            assert(out@ == fresh@);
            assert(slot_view(self.entries@[index as int]) == Some(out@));
            assert(self.slots() =~= old(self).slots().update(index as int, Some(out@)));
            assert(put(old(self).slots(), self.slots(), out@));
        }
        Ok(out)
    }
}

/// Whether the slots `after` are the slots `before` with the key `key` in
/// one of them.
pub open spec fn put(
    before: Seq<Option<Seq<char>>>,
    after: Seq<Option<Seq<char>>>,
    key: Seq<char>,
) -> bool {
    exists|i: int| 0 <= i < before.len() && after == #[trigger] before.update(i, Some(key))
}

/// What a slot holds: the characters of its key, or nothing.
pub open spec fn slot_view(slot: Option<String>) -> Option<Seq<char>> {
    match slot {
        Some(s) => Some(s@),
        None => None,
    }
}

} // verus!
