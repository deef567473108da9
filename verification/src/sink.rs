//! Where encoded bytes go.

use vstd::prelude::*;

verus! {

/// Bytes, in the ghost methods of a sink.
pub type GhostBytes = Seq<u8>;

/// Whether a sink that held `before` and was given `data` took all of `before`,
/// then a prefix of `data` and nothing else.
pub open spec fn took_part(before: Seq<u8>, data: Seq<u8>, after: Seq<u8>) -> bool {
    &&& before.is_prefix_of(after)
    &&& after.is_prefix_of(before + data)
}

/// A part of `first` is a part of `first + rest`, and so is all of `first` and
/// a part of `rest`.
pub proof fn lemma_parts(before: Seq<u8>, first: Seq<u8>, rest: Seq<u8>)
    ensures
        before + first + rest == before + (first + rest),
        took_part(before, first + rest, before + first + rest),
        forall|after: Seq<u8>| #[trigger]
            took_part(before, first, after) ==> took_part(before, first + rest, after),
        forall|after: Seq<u8>| #[trigger]
            took_part(before + first, rest, after) ==> took_part(before, first + rest, after),
{
    let all = before + first + rest;
    assert(all =~= before + (first + rest));
    assert(before =~= all.subrange(0, before.len() as int));
    assert(all =~= all.subrange(0, all.len() as int));
    assert forall|after: Seq<u8>| #[trigger] took_part(before, first, after) implies took_part(
        before,
        first + rest,
        after,
    ) by {
        assert(after =~= all.subrange(0, after.len() as int));
    }
    assert forall|after: Seq<u8>| #[trigger] took_part(before + first, rest, after) implies
        took_part(before, first + rest, after) by {
        assert(before =~= after.subrange(0, before.len() as int));
    }
}

/// A destination for bytes. `written`, `flushed` and `reliable` are there for
/// contracts alone and are never called.
pub trait ByteSink: Sized {
    /// What a write can fail with.
    type Error;

    /// The bytes that the sink has taken, in order.
    spec fn written(&self) -> GhostBytes;

    /// Whether everything that the sink has taken has been passed on.
    spec fn flushed(&self) -> bool;

    /// Whether the sink takes everything from here on.
    spec fn reliable(&self) -> bool;

    /// Take all of `data`. Where this fails, it has taken a prefix of it.
    fn write_all(&mut self, data: &[u8]) -> (r: Result<(), Self::Error>)
        ensures
            r is Ok ==> final(self).written() == old(self).written() + data@,
            r is Err ==> took_part(old(self).written(), data@, final(self).written()),
            old(self).reliable() ==> r is Ok && final(self).reliable(),
    ;

    /// Pass on what the sink holds back. Nothing new is taken.
    fn flush(&mut self) -> (r: Result<(), Self::Error>)
        ensures
            final(self).written() == old(self).written(),
            r is Ok ==> final(self).flushed(),
            old(self).reliable() ==> r is Ok && final(self).reliable(),
    ;
}

/// The error type of a sink that takes everything; no write gives one.
#[derive(Debug, Clone, Copy, PartialEq, Eq)]
pub struct NoError;

impl ByteSink for Vec<u8> {
    type Error = NoError;

    open spec fn written(&self) -> GhostBytes {
        self@
    }

    open spec fn flushed(&self) -> bool {
        true
    }

    open spec fn reliable(&self) -> bool {
        true
    }

    fn write_all(&mut self, data: &[u8]) -> (r: Result<(), NoError>) {
        self.extend_from_slice(data);
        proof {
            assert(self@ =~= old(self)@ + data@);
        }
        Ok(())
    }

    fn flush(&mut self) -> (r: Result<(), NoError>) {
        Ok(())
    }
}

/// A sink that took part of what it was given holds what it held and some first
/// bytes of that; it may have taken none or all.
pub proof fn part_is_some_first_bytes(before: Seq<u8>, data: Seq<u8>, n: int)
    requires
        0 <= n <= data.len(),
    ensures
        took_part(before, data, before + data.take(n)),
        forall|after: Seq<u8>| #[trigger]
            took_part(before, data, after) ==> before.len() <= after.len() <= before.len()
                + data.len() && after == before + data.take(after.len() - before.len()),
{
    let some = before + data.take(n);
    assert(before =~= some.subrange(0, before.len() as int));
    assert(some =~= (before + data).subrange(0, some.len() as int));
    assert forall|after: Seq<u8>| #[trigger] took_part(before, data, after) implies before.len()
        <= after.len() <= before.len() + data.len() && after == before + data.take(
        after.len() - before.len(),
    ) by {
        assert(after =~= before + data.take(after.len() - before.len())) by {
            assert forall|i: int| 0 <= i < after.len() implies after[i] == (before + data.take(
                after.len() - before.len(),
            ))[i] by {
                assert(after[i] == (before + data).subrange(0, after.len() as int)[i]);
            }
        }
    }
}

} // verus!
