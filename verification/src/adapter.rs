//! The two adapters: a base sequence with a separator between each two of its
//! elements, the separator being a fixed value or computed on demand.

use vstd::prelude::*;
use vstd::std_specs::iter::IteratorSpec;
use crate::bounds::{estimates, intersperse_size_hint};
use crate::fold::{accepts_reached, folds_to, intersperse_fold};
use crate::guard::Guard;
use crate::lookahead::{intersperse_next, Lookahead};
use crate::separator::{Computed, Fixed, Separator};
use crate::slots::{fills, pulled};

verus! {

/// A sequence that places a clone of one separator between each two elements
/// of a base sequence.
#[derive(Debug, Clone)]
pub struct Intersperse<I: Iterator> where I::Item: Clone {
    started: bool,
    separator: Fixed<I::Item>,
    next_item: Option<I::Item>,
    iter: Guard<I>,
}

impl<I: Iterator> Intersperse<I> where I::Item: Clone {
    /// The separator that is cloned.
    pub closed spec fn separator(&self) -> I::Item {
        self.separator.value()
    }

    /// The lookahead state: whether a pull has happened, the buffered
    /// element, and the guarded base sequence.
    pub closed spec fn lookahead(&self) -> Lookahead<I> {
        Lookahead { started: self.started, pending: self.next_item, guard: self.iter }
    }

    /// The lookahead state is well formed.
    pub open spec fn wf(&self) -> bool {
        self.lookahead().wf()
    }

    /// An adapter over `iter` that has not been pulled yet.
    pub fn new(iter: I, separator: I::Item) -> (adapter: Self)
        ensures
            adapter.wf(),
            adapter.separator() == separator,
            !adapter.lookahead().started,
            adapter.lookahead().pending is None,
            adapter.lookahead().base() == iter,
            !adapter.lookahead().guard.is_done(),
    {
        Self {
            started: false,
            separator: Fixed::new(separator),
            next_item: None,
            iter: Guard::new(iter),
        }
    }

    /// Hands out the next item, or signals the end.
    ///
    /// The state moves as [`Lookahead::steps_to`] says, a separator being a
    /// clone of the adapter's separator. Of a base sequence that keeps the
    /// iterator laws, the upcoming slots are handed out one by one.
    pub fn next(&mut self) -> (ret: Option<I::Item>)
        requires
            old(self).wf(),
        ensures
            final(self).wf(),
            final(self).separator() == old(self).separator(),
            old(self).lookahead().steps_to(
                ret,
                final(self).lookahead(),
                |item: I::Item| cloned(old(self).separator(), item),
            ),
            final(self).lookahead().base().obeys_prophetic_iter_laws() == old(
                self,
            ).lookahead().base().obeys_prophetic_iter_laws(),
            old(self).lookahead().base().obeys_prophetic_iter_laws() ==> (old(
                self,
            ).lookahead().base().decrease() is Some
                <==> final(self).lookahead().base().decrease() is Some),
            old(self).lookahead().base().obeys_prophetic_iter_laws() ==> pulled(
                old(self).lookahead().upcoming(old(self).lookahead().base().remaining()),
                ret,
                final(self).lookahead().upcoming(final(self).lookahead().base().remaining()),
                |item: I::Item| cloned(old(self).separator(), item),
            ),
    {
        intersperse_next(
            &mut self.started,
            &mut self.next_item,
            &mut self.iter,
            &mut self.separator,
        )
    }

    /// Bounds on how many items are still to come, made from the bounds that
    /// the base sequence reports for itself, whatever they are. Once the
    /// base sequence has signalled its end, the bounds are exact.
    pub fn size_hint(&self) -> (bounds: (usize, Option<usize>))
        ensures
            exists|lo: usize, hi: Option<usize>|
                bounds == #[trigger] estimates(
                    self.lookahead().started,
                    self.lookahead().pending is Some,
                    lo,
                    hi,
                ),
            self.lookahead().guard.is_done() ==> bounds == estimates(
                self.lookahead().started,
                self.lookahead().pending is Some,
                0,
                Some(0usize),
            ),
    {
        let (lo, hi) = self.iter.size_hint();
        let bounds = intersperse_size_hint(lo, hi, self.started, self.next_item.is_some());
        assert(bounds == estimates(
            self.lookahead().started,
            self.lookahead().pending is Some,
            lo,
            hi,
        ));
        bounds
    }

    /// Reduces everything that is still to come with `f`, starting from
    /// `init`.
    ///
    /// The result is what reducing item by item, as [`Self::next`] hands
    /// them out, may end in: a reduction of some output of the upcoming
    /// shape. The base sequence has to keep the iterator laws and to come to
    /// an end, and `f` has to accept what the reduction gets to.
    pub fn fold<B, F>(self, init: B, f: F) -> (result: B) where F: FnMut(B, I::Item) -> B
        requires
            self.wf(),
            self.lookahead().base().obeys_prophetic_iter_laws(),
            self.lookahead().base().decrease() is Some,
            accepts_reached(
                f,
                init,
                self.lookahead().upcoming(self.lookahead().base().remaining()),
                |item: I::Item| cloned(self.separator(), item),
            ),
        ensures
            exists|items: Seq<I::Item>|
                fills(
                    self.lookahead().upcoming(self.lookahead().base().remaining()),
                    items,
                    |item: I::Item| cloned(self.separator(), item),
                ) && #[trigger] folds_to(f, init, items, result),
    {
        let Intersperse { started, separator, next_item, iter } = self;
        assert((|item: I::Item| cloned(self.separator(), item)) =~= (|item: I::Item|
            separator.yields(item)));
        intersperse_fold(iter, init, f, separator, started, next_item)
    }
}

/// A sequence that places a freshly computed separator between each two
/// elements of a base sequence.
#[derive(Debug, Clone)]
pub struct IntersperseWith<I, G> where I: Iterator {
    started: bool,
    separator: Computed<G>,
    iter: Guard<I>,
    next_item: Option<I::Item>,
}

impl<I, G> IntersperseWith<I, G> where I: Iterator, G: FnMut() -> I::Item {
    /// The generator that computes the separators.
    pub closed spec fn generator(&self) -> G {
        self.separator.generator()
    }

    /// The lookahead state: whether a pull has happened, the buffered
    /// element, and the guarded base sequence.
    pub closed spec fn lookahead(&self) -> Lookahead<I> {
        Lookahead { started: self.started, pending: self.next_item, guard: self.iter }
    }

    /// The lookahead state is well formed.
    pub open spec fn wf(&self) -> bool {
        self.lookahead().wf()
    }

    /// An adapter over `iter` that has not been pulled yet. The generator is
    /// not called before a separator is due.
    pub fn new(iter: I, separator: G) -> (adapter: Self)
        ensures
            adapter.wf(),
            adapter.generator() == separator,
            !adapter.lookahead().started,
            adapter.lookahead().pending is None,
            adapter.lookahead().base() == iter,
            !adapter.lookahead().guard.is_done(),
    {
        Self {
            started: false,
            separator: Computed::new(separator),
            next_item: None,
            iter: Guard::new(iter),
        }
    }

    /// Hands out the next item, or signals the end.
    ///
    /// The state moves as [`Lookahead::steps_to`] says, a separator being
    /// what one call of the generator returned. Of a base sequence that keeps
    /// the iterator laws, the upcoming slots are handed out one by one.
    pub fn next(&mut self) -> (ret: Option<I::Item>)
        requires
            old(self).wf(),
            call_requires(old(self).generator(), ()),
        ensures
            final(self).wf(),
            final(self).generator() == old(self).generator(),
            old(self).lookahead().steps_to(
                ret,
                final(self).lookahead(),
                |item: I::Item| call_ensures(old(self).generator(), (), item),
            ),
            final(self).lookahead().base().obeys_prophetic_iter_laws() == old(
                self,
            ).lookahead().base().obeys_prophetic_iter_laws(),
            old(self).lookahead().base().obeys_prophetic_iter_laws() ==> (old(
                self,
            ).lookahead().base().decrease() is Some
                <==> final(self).lookahead().base().decrease() is Some),
            old(self).lookahead().base().obeys_prophetic_iter_laws() ==> pulled(
                old(self).lookahead().upcoming(old(self).lookahead().base().remaining()),
                ret,
                final(self).lookahead().upcoming(final(self).lookahead().base().remaining()),
                |item: I::Item| call_ensures(old(self).generator(), (), item),
            ),
    {
        intersperse_next(
            &mut self.started,
            &mut self.next_item,
            &mut self.iter,
            &mut self.separator,
        )
    }

    /// Bounds on how many items are still to come, made from the bounds that
    /// the base sequence reports for itself, whatever they are. Once the
    /// base sequence has signalled its end, the bounds are exact.
    pub fn size_hint(&self) -> (bounds: (usize, Option<usize>))
        ensures
            exists|lo: usize, hi: Option<usize>|
                bounds == #[trigger] estimates(
                    self.lookahead().started,
                    self.lookahead().pending is Some,
                    lo,
                    hi,
                ),
            self.lookahead().guard.is_done() ==> bounds == estimates(
                self.lookahead().started,
                self.lookahead().pending is Some,
                0,
                Some(0usize),
            ),
    {
        let (lo, hi) = self.iter.size_hint();
        let bounds = intersperse_size_hint(lo, hi, self.started, self.next_item.is_some());
        assert(bounds == estimates(
            self.lookahead().started,
            self.lookahead().pending is Some,
            lo,
            hi,
        ));
        bounds
    }

    /// Reduces everything that is still to come with `f`, starting from
    /// `init`.
    ///
    /// The result is what reducing item by item, as [`Self::next`] hands
    /// them out, may end in: a reduction of some output of the upcoming
    /// shape. The base sequence has to keep the iterator laws and to come to
    /// an end, and `f` has to accept what the reduction gets to.
    pub fn fold<B, F>(self, init: B, f: F) -> (result: B) where F: FnMut(B, I::Item) -> B
        requires
            self.wf(),
            self.lookahead().base().obeys_prophetic_iter_laws(),
            self.lookahead().base().decrease() is Some,
            call_requires(self.generator(), ()),
            accepts_reached(
                f,
                init,
                self.lookahead().upcoming(self.lookahead().base().remaining()),
                |item: I::Item| call_ensures(self.generator(), (), item),
            ),
        ensures
            exists|items: Seq<I::Item>|
                fills(
                    self.lookahead().upcoming(self.lookahead().base().remaining()),
                    items,
                    |item: I::Item| call_ensures(self.generator(), (), item),
                ) && #[trigger] folds_to(f, init, items, result),
    {
        let IntersperseWith { started, separator, next_item, iter } = self;
        assert((|item: I::Item| call_ensures(self.generator(), (), item)) =~= (|item: I::Item|
            separator.yields(item)));
        intersperse_fold(iter, init, f, separator, started, next_item)
    }
}

} // verus!
