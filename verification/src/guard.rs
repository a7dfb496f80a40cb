//! A latch around the base sequence.
//!
//! Some sequences go on producing after they have signalled their end, or do
//! work each time they are asked again. A [`Guard`] remembers the first end
//! signal and from then on answers for the base sequence without asking it,
//! so that an adapter built on it ends once and for good.

use vstd::prelude::*;
use vstd::std_specs::iter::IteratorSpec;

verus! {

/// A base sequence that is never pulled again once it has signalled its end.
#[derive(Debug, Clone)]
pub struct Guard<I: Iterator> {
    iter: I,
    done: bool,
}

/// `Iterator::size_hint` of the base sequence.
///
/// Nothing is claimed of the bounds: the standard library documents them as a
/// hint that an implementation is free to get wrong.
#[verifier::external_body]
fn base_size_hint<I: Iterator>(iter: &I) -> (bounds: (usize, Option<usize>)) {
    iter.size_hint()
}

impl<I: Iterator> Guard<I> {
    /// The base sequence in its current state.
    pub closed spec fn base(&self) -> I {
        self.iter
    }

    /// Whether the base sequence has signalled its end.
    pub closed spec fn is_done(&self) -> bool {
        self.done
    }

    /// What the guard will still yield, given what the base sequence would
    /// still yield (`rest`): nothing once the end has been seen.
    pub open spec fn ahead(&self, rest: Seq<I::Item>) -> Seq<I::Item> {
        if self.is_done() {
            Seq::empty()
        } else {
            rest
        }
    }

    /// Guards `iter`, which has not been pulled through this guard yet.
    pub fn new(iter: I) -> (guard: Self)
        ensures
            guard.base() == iter,
            !guard.is_done(),
    {
        Guard { iter, done: false }
    }

    /// Pulls the base sequence, unless it has signalled its end before.
    ///
    /// The end is signalled exactly when the guard is done afterwards, and a
    /// guard that is done stays as it is. Of a base sequence that keeps the
    /// iterator laws, the guard yields what the base sequence holds, in
    /// order.
    pub fn next(&mut self) -> (ret: Option<I::Item>)
        ensures
            old(self).is_done() ==> *final(self) == *old(self),
            final(self).is_done() <==> ret is None,
            final(self).base().obeys_prophetic_iter_laws() == old(
                self,
            ).base().obeys_prophetic_iter_laws(),
            old(self).base().obeys_prophetic_iter_laws() ==> ({
                let before = old(self).ahead(old(self).base().remaining());
                let after = final(self).ahead(final(self).base().remaining());
                &&& before.len() > 0 ==> ret == Some(before[0]) && after == before.drop_first()
                &&& before.len() == 0 ==> ret is None && after.len() == 0
                &&& old(self).base().decrease() is Some <==> final(self).base().decrease() is Some
                &&& ret is Some && final(self).base().decrease() is Some ==> decreases_to!(
                    old(self).base().decrease()->0 => final(self).base().decrease()->0
                )
            }),
    {
        if self.done {
            None
        } else {
            let ret = self.iter.next();
            if ret.is_none() {
                self.done = true;
            }
            ret
        }
    }

    /// Bounds on how many elements the guard will still yield: none once the
    /// end has been seen, else whatever the base sequence reports.
    pub fn size_hint(&self) -> (bounds: (usize, Option<usize>))
        ensures
            self.is_done() ==> bounds == (0usize, Some(0usize)),
    {
        if self.done {
            (0, Some(0))
        } else {
            base_size_hint(&self.iter)
        }
    }
}

} // verus!
