//! Lazy interspersing: a sequence with a separator between each two elements
//! of a base sequence, made as it is pulled.

use vstd::prelude::*;

pub mod adapter;
pub mod bounds;
pub mod fold;
pub mod guard;
pub mod lookahead;
pub mod separator;
pub mod slots;

pub use crate::adapter::{Intersperse, IntersperseWith};

verus! {

/// Interspersing as a method of every iterator.
pub trait IteratorExt: Iterator {
    /// This sequence with a clone of `separator` between each two elements.
    fn intersperse1(self, separator: Self::Item) -> (adapter: Intersperse<Self>) where
        Self: Sized,
        Self::Item: Clone,

        ensures
            adapter.wf(),
            adapter.separator() == separator,
            !adapter.lookahead().started,
            adapter.lookahead().pending is None,
            adapter.lookahead().base() == self,
            !adapter.lookahead().guard.is_done(),
    {
        Intersperse::new(self, separator)
    }

    /// This sequence with what a call of `separator` returns between each two
    /// elements.
    fn intersperse1_with<G>(self, separator: G) -> (adapter: IntersperseWith<Self, G>) where
        Self: Sized,
        G: FnMut() -> Self::Item,

        ensures
            adapter.wf(),
            adapter.generator() == separator,
            !adapter.lookahead().started,
            adapter.lookahead().pending is None,
            adapter.lookahead().base() == self,
            !adapter.lookahead().guard.is_done(),
    {
        IntersperseWith::new(self, separator)
    }

    /// This sequence with a clone of `separator` between each two elements:
    /// the same adapter as [`Self::intersperse1`] builds.
    fn intersperse2(self, separator: Self::Item) -> (adapter: Intersperse<Self>) where
        Self: Sized,
        Self::Item: Clone,

        ensures
            adapter.wf(),
            adapter.separator() == separator,
            !adapter.lookahead().started,
            adapter.lookahead().pending is None,
            adapter.lookahead().base() == self,
            !adapter.lookahead().guard.is_done(),
    {
        Intersperse::new(self, separator)
    }

    /// This sequence with what a call of `separator` returns between each two
    /// elements: the same adapter as [`Self::intersperse1_with`] builds.
    fn intersperse2_with<G>(self, separator: G) -> (adapter: IntersperseWith<Self, G>) where
        Self: Sized,
        G: FnMut() -> Self::Item,

        ensures
            adapter.wf(),
            adapter.generator() == separator,
            !adapter.lookahead().started,
            adapter.lookahead().pending is None,
            adapter.lookahead().base() == self,
            !adapter.lookahead().guard.is_done(),
    {
        IntersperseWith::new(self, separator)
    }
}

impl<I: Iterator> IteratorExt for I {

}

} // verus!
