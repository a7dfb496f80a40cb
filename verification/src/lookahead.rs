//! The lookahead state machine shared by both adapters.
//!
//! To know whether a separator is due, an adapter pulls its base sequence one
//! element ahead of its consumer: the element found is buffered while the
//! separator goes out, and goes out itself on the next pull. A separator is
//! therefore only ever handed out with the element that follows it in hand.

use vstd::prelude::*;
use vstd::std_specs::iter::IteratorSpec;
use crate::guard::Guard;
use crate::separator::Separator;
use crate::slots::{lemma_separated_unfold, pulled, upcoming, Slot};

verus! {

/// The state of an adapter, apart from its separator, as the contracts speak
/// of it.
pub struct Lookahead<I: Iterator> {
    /// Whether the first pull has happened.
    pub started: bool,
    /// The buffered element, if there is one.
    pub pending: Option<I::Item>,
    /// The guarded base sequence.
    pub guard: Guard<I>,
}

impl<I: Iterator> Lookahead<I> {
    /// The base sequence in its current state.
    pub open spec fn base(self) -> I {
        self.guard.base()
    }

    /// Nothing is buffered before the first pull, and a base sequence that
    /// has signalled its end has been pulled with nothing left in the buffer.
    pub open spec fn wf(self) -> bool {
        &&& !self.started ==> self.pending is None
        &&& self.guard.is_done() ==> self.started && self.pending is None
    }

    /// Whether the end has been reached: every further pull signals it again.
    pub open spec fn is_exhausted(self) -> bool {
        self.started && self.pending is None && self.guard.is_done()
    }

    /// The slots still to be handed out, given what the base sequence would
    /// still yield (`rest`).
    pub open spec fn upcoming(self, rest: Seq<I::Item>) -> Seq<Slot<I::Item>> {
        upcoming(self.started, self.pending, self.guard.ahead(rest))
    }

    /// What one pull does, whatever the base sequence is like: `self` is the
    /// state before the pull, `after` the state after it, `ret` what the pull
    /// returned.
    ///
    /// - The first pull has happened afterwards.
    /// - A buffered element goes out first, and the base sequence is left
    ///   alone.
    /// - The buffer is filled exactly by a pull that hands out a separator.
    /// - A base sequence that has signalled its end is not pulled again, and
    ///   the pull in which it signals its end signals the end itself.
    /// - Once the end is reached it is signalled again and the state stays as
    ///   it is, and the end is only signalled by a state that has reached it.
    pub open spec fn steps_to(
        self,
        ret: Option<I::Item>,
        after: Self,
        is_separator: spec_fn(I::Item) -> bool,
    ) -> bool {
        &&& after.started
        &&& self.pending matches Some(x) ==> {
            &&& ret == Some(x)
            &&& after.pending is None
            &&& after.guard == self.guard
        }
        &&& after.pending is Some <==> self.started && self.pending is None && ret is Some
        &&& after.pending is Some ==> is_separator(ret->0)
        &&& self.guard.is_done() ==> after.guard == self.guard
        &&& !self.guard.is_done() && after.guard.is_done() ==> ret is None
        &&& self.is_exhausted() ==> ret is None && after == self
        &&& ret is None ==> after.is_exhausted()
    }
}

/// Hands out the next item of an adapter in the state `started`, `next_item`,
/// `iter`, or signals the end.
///
/// The first pull passes on whatever the base sequence yields. After that, a
/// buffered element goes out if there is one; else the base sequence is
/// pulled, and if it yields an element, that element is buffered and a
/// separator from `separator` goes out in its place.
///
/// Of a base sequence that keeps the iterator laws, this hands out the
/// upcoming slots one by one.
pub fn intersperse_next<I, S>(
    started: &mut bool,
    next_item: &mut Option<I::Item>,
    iter: &mut Guard<I>,
    separator: &mut S,
) -> (ret: Option<I::Item>) where I: Iterator, S: Separator<I::Item>
    requires
        (Lookahead { started: *old(started), pending: *old(next_item), guard: *old(iter) }).wf(),
        old(separator).ready(),
    ensures
        (Lookahead { started: *final(started), pending: *final(next_item), guard: *final(iter) }).wf(),
        *final(separator) == *old(separator),
        (Lookahead { started: *old(started), pending: *old(next_item), guard: *old(iter) }).steps_to(
            ret,
            (Lookahead {
                started: *final(started),
                pending: *final(next_item),
                guard: *final(iter),
            }),
            |item: I::Item| old(separator).yields(item),
        ),
        final(iter).base().obeys_prophetic_iter_laws() == old(
            iter,
        ).base().obeys_prophetic_iter_laws(),
        old(iter).base().obeys_prophetic_iter_laws() ==> (old(iter).base().decrease() is Some
            <==> final(iter).base().decrease() is Some),
        old(iter).base().obeys_prophetic_iter_laws() ==> pulled(
            upcoming(*old(started), *old(next_item), old(iter).ahead(old(iter).base().remaining())),
            ret,
            upcoming(
                *final(started),
                *final(next_item),
                final(iter).ahead(final(iter).base().remaining()),
            ),
            |item: I::Item| old(separator).yields(item),
        ),
{
    let ghost ahead = iter.ahead(iter.base().remaining());
    let ghost before = upcoming(*started, *next_item, ahead);
    if *started {
        if let Some(v) = next_item.take() {
            proof {
                assert(before.drop_first() =~= upcoming(true, None, ahead));
            }
            Some(v)
        } else {
            let found = iter.next();
            if found.is_some() {
                *next_item = found;
                let item = separator.produce();
                proof {
                    if iter.base().obeys_prophetic_iter_laws() {
                        lemma_separated_unfold(ahead);
                        assert(before.drop_first() =~= upcoming(
                            true,
                            found,
                            iter.ahead(iter.base().remaining()),
                        ));
                    }
                }
                Some(item)
            } else {
                None
            }
        }
    } else {
        *started = true;
        let first = iter.next();
        proof {
            if iter.base().obeys_prophetic_iter_laws() && first is Some {
                assert(before.drop_first() =~= upcoming(
                    true,
                    None,
                    iter.ahead(iter.base().remaining()),
                ));
            }
        }
        first
    }
}

/// Once the end has been signalled, every further pull signals it again and
/// changes nothing, whatever the base sequence would do if it were asked.
pub proof fn lemma_end_is_final<I: Iterator>(
    before: Lookahead<I>,
    ended: Lookahead<I>,
    ret: Option<I::Item>,
    after: Lookahead<I>,
    is_separator: spec_fn(I::Item) -> bool,
)
    requires
        before.steps_to(None, ended, is_separator),
        ended.steps_to(ret, after, is_separator),
    ensures
        ret is None,
        after == ended,
{
}

} // verus!
