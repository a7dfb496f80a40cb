//! Where separators come from: a fixed value that is cloned for each
//! emission, or a generator that is called for each.

use vstd::prelude::*;

verus! {

/// A supply of separators.
pub trait Separator<T>: Sized {
    /// Whether a separator may be asked for.
    spec fn ready(&self) -> bool;

    /// Whether `item` is a value that one request may hand out.
    spec fn yields(&self, item: T) -> bool;

    /// Hands out one separator. The supply itself stays as it is.
    fn produce(&mut self) -> (item: T)
        requires
            old(self).ready(),
        ensures
            old(self).yields(item),
            *final(self) == *old(self),
    ;
}

/// A separator that is cloned each time it is needed.
#[derive(Debug, Clone)]
pub struct Fixed<T: Clone> {
    value: T,
}

impl<T: Clone> Fixed<T> {
    /// The value that is cloned.
    pub closed spec fn value(&self) -> T {
        self.value
    }

    /// A supply of clones of `value`.
    pub fn new(value: T) -> (fixed: Self)
        ensures
            fixed.value() == value,
    {
        Fixed { value }
    }
}

impl<T: Clone> Separator<T> for Fixed<T> {
    open spec fn ready(&self) -> bool {
        true
    }

    open spec fn yields(&self, item: T) -> bool {
        cloned(self.value(), item)
    }

    fn produce(&mut self) -> (item: T) {
        self.value.clone()
    }
}

/// A separator that is computed afresh each time it is needed.
#[derive(Debug, Clone)]
pub struct Computed<G> {
    generator: G,
}

impl<G> Computed<G> {
    /// The generator that is called.
    pub closed spec fn generator(&self) -> G {
        self.generator
    }

    /// A supply of what `generator` returns.
    pub fn new(generator: G) -> (computed: Self)
        ensures
            computed.generator() == generator,
    {
        Computed { generator }
    }
}

impl<T, G: FnMut() -> T> Separator<T> for Computed<G> {
    open spec fn ready(&self) -> bool {
        call_requires(self.generator(), ())
    }

    open spec fn yields(&self, item: T) -> bool {
        call_ensures(self.generator(), (), item)
    }

    fn produce(&mut self) -> (item: T) {
        (self.generator)()
    }
}

/// What a [`Computed`] asks for and hands out is what its generator asks for
/// and returns.
pub proof fn lemma_computed_is_generator<T, G: FnMut() -> T>(computed: Computed<G>)
    ensures
        Separator::<T>::ready(&computed) <==> call_requires(computed.generator(), ()),
        forall|item: T| #[trigger]
            Separator::<T>::yields(&computed, item) <==> call_ensures(
                computed.generator(),
                (),
                item,
            ),
{
}

} // verus!
