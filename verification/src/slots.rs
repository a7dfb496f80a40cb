//! The shape of an interspersed sequence.
//!
//! Separators may be cloned or computed afresh, so the values an adapter hands
//! out are not a function of its state. What is fixed is the *shape* of its
//! output: which positions carry an element of the base sequence (and which
//! one), and which positions carry a separator. This module describes that
//! shape as a sequence of [`Slot`]s and proves the facts that make it the
//! interspersed form of the base sequence.

use vstd::prelude::*;

verus! {

/// One position of the output.
pub enum Slot<T> {
    /// The position holds this element of the base sequence.
    Element(T),
    /// The position holds a separator.
    Separator,
}

/// Every element of `rest` preceded by a separator:
/// `[Separator, Element(rest[0]), Separator, Element(rest[1]), ..]`.
pub open spec fn separated<T>(rest: Seq<T>) -> Seq<Slot<T>> {
    Seq::new(
        2 * rest.len(),
        |k: int|
            if k % 2 == 0 {
                Slot::Separator
            } else {
                Slot::Element(rest[k / 2])
            },
    )
}

/// The slots still to be handed out by an adapter that has `pending` buffered
/// and whose base sequence will still yield `rest`.
///
/// Before the first pull nothing is buffered and the first element comes
/// without a separator in front of it. Afterwards the buffered element, if
/// any, comes first, and every further element follows a separator.
pub open spec fn upcoming<T>(started: bool, pending: Option<T>, rest: Seq<T>) -> Seq<Slot<T>> {
    if started {
        match pending {
            Some(x) => seq![Slot::Element(x)] + separated(rest),
            None => separated(rest),
        }
    } else if rest.len() == 0 {
        Seq::empty()
    } else {
        seq![Slot::Element(rest[0])] + separated(rest.drop_first())
    }
}

/// The slots of a whole base sequence with separators between its elements.
pub open spec fn interspersed<T>(base: Seq<T>) -> Seq<Slot<T>> {
    upcoming(false, None, base)
}

/// Whether the value `item` may stand in `slot`, where `is_separator` tells
/// which values a separator may take.
pub open spec fn fits<T>(slot: Slot<T>, item: T, is_separator: spec_fn(T) -> bool) -> bool {
    match slot {
        Slot::Element(x) => item == x,
        Slot::Separator => is_separator(item),
    }
}

/// Whether `items` is an output of the shape `slots`.
pub open spec fn fills<T>(slots: Seq<Slot<T>>, items: Seq<T>, is_separator: spec_fn(T) -> bool) -> bool {
    &&& items.len() == slots.len()
    &&& forall|k: int| 0 <= k < slots.len() ==> fits(#[trigger] slots[k], items[k], is_separator)
}

/// One pull: with `before` still to come, the pull returned `ret` and left
/// `after` to come. The end is signalled exactly when nothing is left;
/// otherwise the value returned fits the first slot, which is then gone.
pub open spec fn pulled<T>(
    before: Seq<Slot<T>>,
    ret: Option<T>,
    after: Seq<Slot<T>>,
    is_separator: spec_fn(T) -> bool,
) -> bool {
    match ret {
        Some(item) => {
            &&& before.len() > 0
            &&& fits(before[0], item, is_separator)
            &&& after == before.drop_first()
        },
        None => before.len() == 0 && after.len() == 0,
    }
}

/// A separated sequence starts with a separator and its first element, and
/// goes on with the separated rest.
pub proof fn lemma_separated_unfold<T>(rest: Seq<T>)
    requires
        rest.len() > 0,
    ensures
        separated(rest) == seq![Slot::Separator, Slot::Element(rest[0])] + separated(
            rest.drop_first(),
        ),
{
    let left = separated(rest);
    let right = seq![Slot::Separator, Slot::Element(rest[0])] + separated(rest.drop_first());
    assert(left.len() == right.len());
    assert forall|k: int| 0 <= k < left.len() implies left[k] == right[k] by {
        if k >= 2 {
            assert(right[k] == separated(rest.drop_first())[k - 2]);
            assert((k - 2) / 2 == k / 2 - 1);
            assert((k - 2) % 2 == k % 2);
        }
    }
    assert(left =~= right);
}

/// Length of an interspersed sequence: `2n - 1` slots for `n > 0` elements,
/// none for an empty base sequence.
pub proof fn lemma_interspersed_len<T>(base: Seq<T>)
    ensures
        interspersed(base).len() == if base.len() == 0 {
            0
        } else {
            2 * base.len() - 1
        },
{
}

/// Even positions of an interspersed sequence hold the elements of the base
/// sequence, in order; odd positions hold separators.
pub proof fn lemma_interspersed_alternates<T>(base: Seq<T>)
    ensures
        forall|i: int| 0 <= i < base.len() ==> #[trigger] interspersed(base)[2 * i] == Slot::Element(base[i]),
        forall|i: int| 0 <= i < base.len() - 1 ==> #[trigger] interspersed(base)[2 * i + 1] == Slot::<T>::Separator,
{
    let slots = interspersed(base);
    assert forall|i: int| 0 <= i < base.len() implies #[trigger] slots[2 * i] == Slot::Element(base[i]) by {
        if i > 0 {
            let k = 2 * i - 1;
            assert(slots[2 * i] == separated(base.drop_first())[k]);
            assert(k % 2 == 1);
            assert(k / 2 == i - 1);
        }
    }
    assert forall|i: int| 0 <= i < base.len() - 1 implies #[trigger] slots[2 * i + 1] == Slot::<T>::Separator by {
        let k = 2 * i;
        assert(slots[2 * i + 1] == separated(base.drop_first())[k]);
        assert(k % 2 == 0);
    }
}

/// An interspersed sequence begins and ends with an element of the base
/// sequence: no separator stands before the first element or after the last.
pub proof fn lemma_interspersed_ends<T>(base: Seq<T>)
    requires
        base.len() > 0,
    ensures
        interspersed(base).first() == Slot::Element(base.first()),
        interspersed(base).last() == Slot::Element(base.last()),
{
    lemma_interspersed_len(base);
    lemma_interspersed_alternates(base);
    let n = base.len() as int;
    assert(interspersed(base)[2 * 0int] == Slot::Element(base[0]));
    assert(interspersed(base)[2 * (n - 1)] == Slot::Element(base[n - 1]));
}

/// Whether a separator can take one value only.
pub open spec fn single_valued<T>(is_separator: spec_fn(T) -> bool) -> bool {
    forall|a: T, b: T| #![trigger is_separator(a), is_separator(b)]
        is_separator(a) && is_separator(b) ==> a == b
}

/// Whether pulling again and again, with `slots` still to come, may return
/// `items` one after the other and then signal the end.
pub open spec fn drains<T>(slots: Seq<Slot<T>>, items: Seq<T>, is_separator: spec_fn(T) -> bool) -> bool
    decreases items.len(),
{
    if items.len() == 0 {
        pulled(slots, None, slots, is_separator)
    } else {
        &&& pulled(slots, Some(items[0]), slots.drop_first(), is_separator)
        &&& drains(slots.drop_first(), items.drop_first(), is_separator)
    }
}

/// What pull after pull returns until the end is signalled is an output of
/// the upcoming shape, and every output of that shape can be pulled.
pub proof fn lemma_drains_fills<T>(
    slots: Seq<Slot<T>>,
    items: Seq<T>,
    is_separator: spec_fn(T) -> bool,
)
    ensures
        drains(slots, items, is_separator) <==> fills(slots, items, is_separator),
    decreases items.len(),
{
    if items.len() > 0 {
        lemma_drains_fills(slots.drop_first(), items.drop_first(), is_separator);
        if drains(slots, items, is_separator) {
            assert forall|k: int| 0 <= k < slots.len() implies fits(
                #[trigger] slots[k],
                items[k],
                is_separator,
            ) by {
                if k > 0 {
                    assert(slots[k] == slots.drop_first()[k - 1]);
                    assert(items[k] == items.drop_first()[k - 1]);
                }
            }
        }
        if fills(slots, items, is_separator) {
            assert forall|k: int| 0 <= k < slots.drop_first().len() implies fits(
                #[trigger] slots.drop_first()[k],
                items.drop_first()[k],
                is_separator,
            ) by {
                assert(slots.drop_first()[k] == slots[k + 1]);
                assert(fits(slots[k + 1], items[k + 1], is_separator));
            }
        }
    }
}

/// With a separator that can take one value only, a shape has one output.
pub proof fn lemma_fills_unique<T>(
    slots: Seq<Slot<T>>,
    a: Seq<T>,
    b: Seq<T>,
    is_separator: spec_fn(T) -> bool,
)
    requires
        single_valued(is_separator),
        fills(slots, a, is_separator),
        fills(slots, b, is_separator),
    ensures
        a == b,
{
    assert forall|k: int| 0 <= k < a.len() implies a[k] == b[k] by {
        assert(fits(slots[k], a[k], is_separator));
        assert(fits(slots[k], b[k], is_separator));
    }
    assert(a =~= b);
}

/// The whole output of an adapter over `base`, pulled item by item until the
/// end is signalled:
///
/// - it has `2n - 1` items for `n > 0` elements of `base`, and none for an
///   empty `base`;
/// - its first and its last item are the first and the last element of
///   `base`, so that no separator stands before the first element or after
///   the last;
/// - its items at even positions are the elements of `base`, in order, and
///   its items at odd positions are separators.
pub proof fn lemma_output_interspersed<T>(
    base: Seq<T>,
    items: Seq<T>,
    is_separator: spec_fn(T) -> bool,
)
    requires
        drains(interspersed(base), items, is_separator),
    ensures
        items.len() == if base.len() == 0 {
            0
        } else {
            2 * base.len() - 1
        },
        base.len() > 0 ==> items.first() == base.first() && items.last() == base.last(),
        forall|i: int| 0 <= i < base.len() ==> #[trigger] items[2 * i] == base[i],
        forall|i: int| 0 <= i < base.len() - 1 ==> is_separator(#[trigger] items[2 * i + 1]),
{
    let slots = interspersed(base);
    lemma_drains_fills(slots, items, is_separator);
    lemma_interspersed_len(base);
    lemma_interspersed_alternates(base);
    assert forall|i: int| 0 <= i < base.len() implies #[trigger] items[2 * i] == base[i] by {
        assert(fits(slots[2 * i], items[2 * i], is_separator));
    }
    assert forall|i: int| 0 <= i < base.len() - 1 implies is_separator(
        #[trigger] items[2 * i + 1],
    ) by {
        assert(fits(slots[2 * i + 1], items[2 * i + 1], is_separator));
    }
    if base.len() > 0 {
        let n = base.len() as int;
        assert(items[2 * 0int] == base[0]);
        assert(items[2 * (n - 1)] == base[n - 1]);
    }
}

} // verus!
