//! The output buffer: a byte sink that grows by a fixed policy.

use crate::io::{appended, concat, concat_from, slices_view, Sink, WriteError, WriteSlices};
use vstd::prelude::*;

verus! {

/// The capacity that a new buffer starts with.
pub const BUFFER_LENGTH: usize = 1024;

/// Below this length the capacity grows fourfold, from it on twofold.
pub const FAST_GROWTH_BELOW: usize = 262144;

/// The capacity after growing from `cap` until it exceeds `len`: times four
/// while `len` is short, times two from then on. A capacity of zero counts
/// as one.
pub open spec fn grown_capacity(cap: nat, len: nat) -> nat
    decreases
            if len < cap {
                0
            } else {
                len + 1 - cap
            },
{
    if len < cap {
        cap
    } else if cap == 0 {
        grown_capacity(1, len)
    } else if len < FAST_GROWTH_BELOW {
        grown_capacity(cap * 4, len)
    } else {
        grown_capacity(cap * 2, len)
    }
}

/// The capacity after growing exceeds the length, and is at most four times
/// the length unless it did not grow at all.
pub proof fn lemma_grown_capacity_bounds(cap: nat, len: nat)
    ensures
        grown_capacity(cap, len) > len,
        grown_capacity(cap, len) >= cap,
        len >= cap ==> grown_capacity(cap, len) <= 4 * len || grown_capacity(cap, len) == 1,
    decreases
            if len < cap {
                0
            } else {
                len + 1 - cap
            },
{
    if len < cap {
    } else if cap == 0 {
        lemma_grown_capacity_bounds(1, len);
    } else if len < FAST_GROWTH_BELOW {
        lemma_grown_capacity_bounds(cap * 4, len);
    } else {
        lemma_grown_capacity_bounds(cap * 2, len);
    }
}

/// The growable buffer that an encoding is written to.
pub struct BytesWriter {
    cap: usize,
    bytes: Vec<u8>,
}

impl BytesWriter {
    /// Whether the bytes fit the capacity, and the capacity's growth the
    /// machine's integers. A new buffer is so, and every write keeps it so.
    pub closed spec fn wf(&self) -> bool {
        self.bytes@.len() <= self.cap && self.bytes@.len() <= Self::limit()
    }

    /// The most bytes that a buffer holds: a quarter of the address space,
    /// so that a capacity can always grow past the length.
    pub open spec fn limit() -> nat {
        (usize::MAX / 4) as nat
    }

    /// The bytes in the buffer.
    pub closed spec fn view(&self) -> Seq<u8> {
        self.bytes@
    }

    /// The capacity: how many bytes the buffer has made room for.
    pub closed spec fn capacity(&self) -> nat {
        self.cap as nat
    }

    /// An empty buffer of the starting capacity.
    pub fn default() -> (w: Self)
        ensures
            w@ == Seq::<u8>::empty(),
            w.capacity() == BUFFER_LENGTH,
            w.wf(),
            w.sink() == (Sink { written: Seq::<u8>::empty(), room: Self::limit() }),
    {
        BytesWriter { cap: BUFFER_LENGTH, bytes: Vec::with_capacity(BUFFER_LENGTH) }
    }

    /// Hands out the bytes.
    pub fn finish(self) -> (bytes: Vec<u8>)
        ensures
            bytes@ == self@,
            bytes@ == self.sink().written,
    {
        self.bytes
    }

    /// The number of bytes in the buffer.
    pub fn len(&self) -> (n: usize)
        ensures
            n == self@.len(),
    {
        self.bytes.len()
    }

    /// Sets the capacity to `len`. Bytes beyond it are dropped.
    pub fn resize(&mut self, len: usize)
        ensures
            final(self).capacity() == len,
            final(self)@ == if len <= old(self)@.len() {
                old(self)@.subrange(0, len as int)
            } else {
                old(self)@
            },
    {
        let have = self.bytes.len();
        if len < have {
            self.bytes.truncate(len);
            self.cap = len;
        } else {
            self.cap = len;
            self.bytes.reserve(len - have);
        }
    }

    /// Grows the capacity until it exceeds `len`.
    fn grow(&mut self, len: usize)
        requires
            old(self)@.len() <= len <= Self::limit(),
        ensures
            final(self)@ == old(self)@,
            final(self).capacity() == grown_capacity(old(self).capacity(), len as nat),
            final(self).capacity() > len,
    {
        proof {
            lemma_grown_capacity_bounds(self.cap as nat, len as nat);
        }
        let mut cap = self.cap;
        while len >= cap
            invariant
                len <= Self::limit(),
                grown_capacity(cap as nat, len as nat) == grown_capacity(
                    old(self).capacity(),
                    len as nat,
                ),
            decreases
                    if len < cap {
                        0
                    } else {
                        len + 1 - cap
                    },
        {
            if cap == 0 {
                cap = 1;
            } else if len < FAST_GROWTH_BELOW {
                cap = cap * 4;
            } else {
                cap = cap * 2;
            }
        }
        self.resize(cap);
    }

    /// Appends the slices of `bufs`, growing the capacity where the bytes
    /// would not fit. Nothing is written where they exceed the limit.
    fn insert_slices<const N: usize>(&mut self, bufs: [&[u8]; N]) -> (r: Result<(), WriteError>)
        ensures
            appended(old(self).sink(), final(self).sink(), r, concat(slices_view(bufs))),
            old(self).wf() && r is Ok ==> final(self).capacity() == if final(self)@.len() > old(
                self,
            ).capacity() {
                grown_capacity(old(self).capacity(), final(self)@.len())
            } else {
                old(self).capacity()
            },
            r is Err ==> final(self).capacity() == old(self).capacity(),
            old(self).wf() ==> final(self).wf(),
    {
        let ghost all = slices_view(bufs);
        let have = self.bytes.len();
        let room = if have <= usize::MAX / 4 {
            usize::MAX / 4 - have
        } else {
            0
        };
        let mut total: usize = 0;
        let mut i: usize = N;
        while i > 0
            invariant
                i <= N,
                all == slices_view(bufs),
                total == concat_from(all, i as int).len(),
                total <= room,
                room == old(self).sink().room,
                have <= Self::limit() ==> room == Self::limit() - have,
                have == self.bytes@.len(),
                *self == *old(self),
            decreases i,
        {
            i = i - 1;
            let n = bufs[i].len();
            assert(all[i as int] == bufs@[i as int]@);
            if n > room - total {
                proof {
                    lemma_concat_from_len_grows(all, i as int);
                }
                return Err(WriteError::Full);
            }
            total = total + n;
        }
        if total == 0 {
            assert(concat(all) =~= Seq::<u8>::empty());
            assert(self.bytes@ + concat(all) =~= self.bytes@);
            return Ok(());
        }
        let new_len = have + total;
        if new_len > self.cap {
            self.grow(new_len);
        }
        let ghost before = self.bytes@;
        let mut j: usize = 0;
        while j < N
            invariant
                j <= N,
                all == slices_view(bufs),
                before == old(self)@,
                self.bytes@ + concat_from(all, j as int) == before + concat_from(all, 0),
                before.len() + concat_from(all, 0).len() == new_len,
                new_len <= Self::limit(),
                old(self).wf() ==> new_len <= self.cap,
                self.cap == if new_len > old(self).capacity() {
                    grown_capacity(old(self).capacity(), new_len as nat)
                } else {
                    old(self).capacity()
                },
            decreases N - j,
        {
            let ghost prev = self.bytes@;
            assert(all[j as int] == bufs@[j as int]@);
            self.bytes.extend_from_slice(bufs[j]);
            assert(self.bytes@ =~= prev + all[j as int]);
            assert(prev + all[j as int] + concat_from(all, j + 1) =~= prev + concat_from(
                all,
                j as int,
            ));
            j = j + 1;
        }
        assert(self.bytes@ =~= before + concat(all));
        Ok(())
    }
}

/// The slices from `from` on are no shorter than those from `from + 1` on.
proof fn lemma_concat_from_len_grows(bufs: Seq<Seq<u8>>, from: int)
    requires
        0 <= from < bufs.len(),
    ensures
        concat_from(bufs, from).len() == bufs[from].len() + concat_from(bufs, from + 1).len(),
        concat_from(bufs, 0).len() >= concat_from(bufs, from).len(),
    decreases from,
{
    if from > 0 {
        lemma_concat_from_len_grows(bufs, from - 1);
    }
}

impl WriteSlices for BytesWriter {
    closed spec fn sink(&self) -> Sink {
        Sink {
            written: self@,
            room: if self@.len() <= Self::limit() {
                (Self::limit() - self@.len()) as nat
            } else {
                0
            },
        }
    }

    /// Besides what every sink does: the capacity stays where the bytes
    /// fit it, and grows by the policy where they do not.
    fn write_slices<const N: usize>(&mut self, bufs: [&[u8]; N]) -> (r: Result<(), WriteError>)
        ensures
            old(self).wf() ==> final(self).wf(),
            old(self).wf() && r is Ok ==> final(self).capacity() == if final(self)@.len() > old(
                self,
            ).capacity() {
                grown_capacity(old(self).capacity(), final(self)@.len())
            } else {
                old(self).capacity()
            },
            r is Err ==> final(self).capacity() == old(self).capacity(),
    {
        self.insert_slices(bufs)
    }
}

} // verus!
