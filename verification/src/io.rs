//! Byte sinks that take several slices in one write.

use vstd::prelude::*;

verus! {

/// Why a write was refused.
#[derive(Clone, Copy, Debug, PartialEq, Eq, Structural)]
pub enum WriteError {
    /// A length does not fit the widest length prefix of the format.
    InvalidInput,
    /// The sink has no room for the bytes.
    Full,
}

/// The slices of `bufs` from index `from` on, laid end to end.
pub open spec fn concat_from(bufs: Seq<Seq<u8>>, from: int) -> Seq<u8>
    decreases bufs.len() - from,
{
    if from < 0 || from >= bufs.len() {
        Seq::empty()
    } else {
        bufs[from] + concat_from(bufs, from + 1)
    }
}

/// All slices of `bufs`, laid end to end.
pub open spec fn concat(bufs: Seq<Seq<u8>>) -> Seq<u8> {
    concat_from(bufs, 0)
}

/// The contents of an array of slices.
pub open spec fn slices_view<const N: usize>(bufs: [&[u8]; N]) -> Seq<Seq<u8>> {
    Seq::new(N as nat, |i: int| bufs@[i]@)
}

/// What a sink is to a contract: the bytes it holds, in the order in which
/// they were written, and the number of further bytes it has room for.
pub struct Sink {
    pub written: Seq<u8>,
    pub room: nat,
}

impl Sink {
    /// The sink after `bytes` more have landed in it.
    pub open spec fn after(self, bytes: Seq<u8>) -> Sink {
        Sink { written: self.written + bytes, room: (self.room - bytes.len()) as nat }
    }
}

/// What one write of `bytes` does to a sink: it lands whole where the sink
/// has room for it, and is refused, with the sink left as it was, where not.
pub open spec fn appended(pre: Sink, post: Sink, r: Result<(), WriteError>, bytes: Seq<u8>) -> bool {
    if bytes.len() <= pre.room {
        r is Ok && post == pre.after(bytes)
    } else {
        r == Err::<(), WriteError>(WriteError::Full) && post == pre
    }
}

/// What the writer of one token does to a sink. `token` is the token's
/// bytes, or `None` where the format has no length prefix wide enough: then
/// nothing is written and the input is refused.
pub open spec fn emitted(
    pre: Sink,
    post: Sink,
    r: Result<(), WriteError>,
    token: Option<Seq<u8>>,
) -> bool {
    match token {
        Some(bytes) => appended(pre, post, r, bytes),
        None => r == Err::<(), WriteError>(WriteError::InvalidInput) && post == pre,
    }
}

/// A sink for bytes. A write lands whole or not at all.
pub trait WriteSlices {
    /// What the sink holds and how much more it takes.
    spec fn sink(&self) -> Sink;

    /// Appends the slices of `bufs`, in order, as one write.
    fn write_slices<const N: usize>(&mut self, bufs: [&[u8]; N]) -> (r: Result<(), WriteError>)
        ensures
            appended(old(self).sink(), final(self).sink(), r, concat(slices_view(bufs))),
    ;
}

/// Appends one slice.
pub fn write_all<W: WriteSlices>(writer: &mut W, buf: &[u8]) -> (r: Result<(), WriteError>)
    ensures
        appended(old(writer).sink(), final(writer).sink(), r, buf@),
{
    let bufs = [buf];
    proof {
        lemma_concat_1(slices_view(bufs));
    }
    writer.write_slices(bufs)
}

/// One slice laid end to end is itself.
pub proof fn lemma_concat_1(bufs: Seq<Seq<u8>>)
    requires
        bufs.len() == 1,
    ensures
        concat(bufs) == bufs[0],
{
    reveal_with_fuel(concat_from, 2);
    assert(concat(bufs) =~= bufs[0]);
}

/// Two slices laid end to end.
pub proof fn lemma_concat_2(bufs: Seq<Seq<u8>>)
    requires
        bufs.len() == 2,
    ensures
        concat(bufs) == bufs[0] + bufs[1],
{
    reveal_with_fuel(concat_from, 3);
    assert(concat(bufs) =~= bufs[0] + bufs[1]);
}

/// Three slices laid end to end.
pub proof fn lemma_concat_3(bufs: Seq<Seq<u8>>)
    requires
        bufs.len() == 3,
    ensures
        concat(bufs) == bufs[0] + bufs[1] + bufs[2],
{
    reveal_with_fuel(concat_from, 4);
    assert(concat(bufs) =~= bufs[0] + bufs[1] + bufs[2]);
}

/// Four slices laid end to end.
pub proof fn lemma_concat_4(bufs: Seq<Seq<u8>>)
    requires
        bufs.len() == 4,
    ensures
        concat(bufs) == bufs[0] + bufs[1] + bufs[2] + bufs[3],
{
    reveal_with_fuel(concat_from, 5);
    assert(concat(bufs) =~= bufs[0] + bufs[1] + bufs[2] + bufs[3]);
}

} // verus!
