//! Reducing the whole remaining output in one go.
//!
//! Pulling item by item decides on every pull whether an element or a
//! separator is due. A reduction of everything that is left needs no such
//! decision: after the buffered element, if any, each remaining element of the
//! base sequence is reduced in as the pair of a separator and the element.

use vstd::prelude::*;
use vstd::std_specs::iter::IteratorSpec;
use crate::guard::Guard;
use crate::separator::Separator;
use crate::slots::{
    drains, fills, fits, lemma_drains_fills, lemma_fills_unique, lemma_separated_unfold,
    separated, single_valued, upcoming, Slot,
};

verus! {

/// Whether reducing `items` from the left with `f`, starting from `init`, may
/// end in `result`: each step is a call of `f` on the accumulator so far and
/// the next item.
pub open spec fn folds_to<B, T, F: FnMut(B, T) -> B>(f: F, init: B, items: Seq<T>, result: B) -> bool
    decreases items.len(),
{
    if items.len() == 0 {
        result == init
    } else {
        exists|mid: B|
            #![trigger call_ensures(f, (mid, items.last()), result)]
            folds_to(f, init, items.drop_last(), mid) && call_ensures(
                f,
                (mid, items.last()),
                result,
            )
    }
}

/// Whether `f` may be called wherever a reduction over an output of the
/// shape `shape`, starting from `init`, gets to: on every accumulator that
/// reducing a beginning of such an output may end in, together with every
/// item that may come next.
pub open spec fn accepts_reached<B, T, F: FnMut(B, T) -> B>(
    f: F,
    init: B,
    shape: Seq<Slot<T>>,
    is_separator: spec_fn(T) -> bool,
) -> bool {
    forall|items: Seq<T>, acc: B, item: T|
        #![trigger folds_to(f, init, items, acc), fits(shape[items.len() as int], item, is_separator)]
        items.len() < shape.len() && fills(shape.take(items.len() as int), items, is_separator)
            && folds_to(f, init, items, acc) && fits(
            shape[items.len() as int],
            item,
            is_separator,
        ) ==> call_requires(f, (acc, item))
}

/// A reduction of no items ends in `init`; a reduction of some items is a
/// reduction of all but the last, followed by one call of `f` on the last.
///
/// This is the definition of [`folds_to`], stated for callers whose `f` is a
/// closure or a function item.
pub proof fn lemma_folds_to_unfold<B, T, F: FnMut(B, T) -> B>(
    f: F,
    init: B,
    items: Seq<T>,
    result: B,
)
    ensures
        items.len() == 0 ==> (folds_to(f, init, items, result) <==> result == init),
        items.len() > 0 ==> (folds_to(f, init, items, result) <==> exists|mid: B|
            #![trigger call_ensures(f, (mid, items.last()), result)]
            folds_to(f, init, items.drop_last(), mid) && call_ensures(
                f,
                (mid, items.last()),
                result,
            )),
{
}

/// One more step of a reduction.
pub proof fn lemma_folds_to_push<B, T, F: FnMut(B, T) -> B>(
    f: F,
    init: B,
    items: Seq<T>,
    mid: B,
    item: T,
    result: B,
)
    requires
        folds_to(f, init, items, mid),
        call_ensures(f, (mid, item), result),
    ensures
        folds_to(f, init, items.push(item), result),
{
    let extended = items.push(item);
    assert(extended.drop_last() =~= items);
    assert(call_ensures(f, (mid, extended.last()), result));
}

/// Reduces everything that an adapter in the state `started`, `next_item`,
/// `iter` will still hand out, with `f`, starting from `init`.
///
/// The buffered element is reduced in first, if there is one; before the
/// first pull the first element of the base sequence takes its place. Then for
/// each element that `iter` still yields, a separator from `separator` and
/// the element are reduced in.
///
/// The result is what reducing item by item, pull after pull, may end in: a
/// reduction of some output of the upcoming shape. The base sequence has to
/// keep the iterator laws and to come to an end, and `f` has to accept what
/// the reduction gets to.
pub fn intersperse_fold<I, B, F, S>(
    iter: Guard<I>,
    init: B,
    f: F,
    separator: S,
    started: bool,
    next_item: Option<I::Item>,
) -> (result: B) where I: Iterator, F: FnMut(B, I::Item) -> B, S: Separator<I::Item>
    requires
        !started ==> next_item is None,
        iter.base().obeys_prophetic_iter_laws(),
        iter.base().decrease() is Some,
        separator.ready(),
        accepts_reached(
            f,
            init,
            upcoming(started, next_item, iter.ahead(iter.base().remaining())),
            |item: I::Item| separator.yields(item),
        ),
    ensures
        exists|items: Seq<I::Item>|
            fills(
                upcoming(started, next_item, iter.ahead(iter.base().remaining())),
                items,
                |item: I::Item| separator.yields(item),
            ) && #[trigger] folds_to(f, init, items, result),
{
    let ghost reduce = f;
    let ghost supply = separator;
    let ghost is_separator = |item: I::Item| supply.yields(item);
    let mut iter = iter;
    let mut f = f;
    let mut separator = separator;
    let mut accum = init;
    let ghost shape = upcoming(started, next_item, iter.ahead(iter.base().remaining()));
    let ghost mut filled: Seq<Slot<I::Item>> = Seq::empty();
    let ghost mut items: Seq<I::Item> = Seq::empty();

    let first = if started {
        next_item
    } else {
        iter.next()
    };
    if let Some(x) = first {
        let ghost before = accum;
        assert(shape.take(items.len() as int) =~= filled);
        assert(folds_to(f, init, items, accum));
        assert(fits(shape[items.len() as int], x, is_separator));
        accum = f(accum, x);
        proof {
            lemma_folds_to_push(f, init, items, before, x, accum);
            filled = filled.push(Slot::Element(x));
            items = items.push(x);
        }
    }
    assert(shape =~= filled + separated(iter.ahead(iter.base().remaining())));

    loop
        invariant
            iter.base().obeys_prophetic_iter_laws(),
            iter.base().decrease() is Some,
            f == reduce,
            separator == supply,
            separator.ready(),
            is_separator == |item: I::Item| supply.yields(item),
            accepts_reached(f, init, shape, is_separator),
            shape == filled + separated(iter.ahead(iter.base().remaining())),
            fills(filled, items, is_separator),
            folds_to(f, init, items, accum),
        ensures
            fills(shape, items, is_separator),
            folds_to(f, init, items, accum),
        decreases iter.base().decrease()->0,
    {
        let ghost ahead = iter.ahead(iter.base().remaining());
        match iter.next() {
            Some(x) => {
                let ghost before = accum;
                let s = separator.produce();
                proof {
                    lemma_separated_unfold(ahead);
                    assert(shape.take(items.len() as int) =~= filled);
                    assert(fits(shape[items.len() as int], s, is_separator));
                }
                accum = f(accum, s);
                let ghost between = accum;
                proof {
                    lemma_folds_to_push(f, init, items, before, s, between);
                    assert(shape.take(items.len() as int + 1) =~= filled.push(Slot::Separator));
                    assert(fills(filled.push(Slot::Separator), items.push(s), is_separator));
                    assert(fits(shape[items.len() as int + 1], x, is_separator));
                }
                accum = f(accum, x);
                proof {
                    lemma_folds_to_push(f, init, items.push(s), between, x, accum);
                    let ghost next_filled = filled.push(Slot::Separator).push(Slot::Element(x));
                    assert(shape =~= next_filled + separated(
                        iter.ahead(iter.base().remaining()),
                    ));
                    filled = next_filled;
                    items = items.push(s).push(x);
                }
            },
            None => {
                assert(shape =~= filled);
                break ;
            },
        }
    }
    accum
}

/// Where every call of `f` returns what `step` computes, a reduction with
/// `f` ends in the left fold of `step` over the items.
pub proof fn lemma_folds_to_fold_left<B, T, F: FnMut(B, T) -> B>(
    f: F,
    step: spec_fn(B, T) -> B,
    init: B,
    items: Seq<T>,
    result: B,
)
    requires
        forall|acc: B, item: T, r: B| #[trigger]
            call_ensures(f, (acc, item), r) ==> r == step(acc, item),
        folds_to(f, init, items, result),
    ensures
        result == items.fold_left(init, step),
    decreases items.len(),
{
    if items.len() > 0 {
        let mid = choose|mid: B|
            #![trigger call_ensures(f, (mid, items.last()), result)]
            folds_to(f, init, items.drop_last(), mid) && call_ensures(
                f,
                (mid, items.last()),
                result,
            );
        lemma_folds_to_fold_left(f, step, init, items.drop_last(), mid);
    }
}

/// Whether `f` has one result for each accumulator and item.
pub open spec fn deterministic<B, T, F: FnMut(B, T) -> B>(f: F) -> bool {
    forall|acc: B, item: T, a: B, b: B|
        #![trigger call_ensures(f, (acc, item), a), call_ensures(f, (acc, item), b)]
        call_ensures(f, (acc, item), a) && call_ensures(f, (acc, item), b) ==> a == b
}

/// A reduction with a deterministic `f` has one result.
pub proof fn lemma_folds_to_unique<B, T, F: FnMut(B, T) -> B>(
    f: F,
    init: B,
    items: Seq<T>,
    a: B,
    b: B,
)
    requires
        deterministic(f),
        folds_to(f, init, items, a),
        folds_to(f, init, items, b),
    ensures
        a == b,
    decreases items.len(),
{
    if items.len() > 0 {
        let mid_a = choose|mid: B|
            #![trigger call_ensures(f, (mid, items.last()), a)]
            folds_to(f, init, items.drop_last(), mid) && call_ensures(
                f,
                (mid, items.last()),
                a,
            );
        let mid_b = choose|mid: B|
            #![trigger call_ensures(f, (mid, items.last()), b)]
            folds_to(f, init, items.drop_last(), mid) && call_ensures(
                f,
                (mid, items.last()),
                b,
            );
        lemma_folds_to_unique(f, init, items.drop_last(), mid_a, mid_b);
    }
}

/// Reducing in one go and reducing pull by pull may end in the same results,
/// whatever the separator and the reduction are like: `result` is a
/// reduction of some output of the shape `slots`, as reducing in one go
/// gives, exactly if it is a reduction of what pull after pull may return
/// until the end is signalled.
pub proof fn lemma_fold_and_pulls_end_alike<B, T, F: FnMut(B, T) -> B>(
    f: F,
    init: B,
    slots: Seq<Slot<T>>,
    is_separator: spec_fn(T) -> bool,
    result: B,
)
    ensures
        (exists|items: Seq<T>|
            fills(slots, items, is_separator) && #[trigger] folds_to(f, init, items, result))
            <==> (exists|items: Seq<T>|
            drains(slots, items, is_separator) && #[trigger] folds_to(f, init, items, result)),
{
    if exists|items: Seq<T>|
        fills(slots, items, is_separator) && #[trigger] folds_to(f, init, items, result) {
        let items = choose|items: Seq<T>|
            fills(slots, items, is_separator) && #[trigger] folds_to(f, init, items, result);
        lemma_drains_fills(slots, items, is_separator);
    }
    if exists|items: Seq<T>|
        drains(slots, items, is_separator) && #[trigger] folds_to(f, init, items, result) {
        let items = choose|items: Seq<T>|
            drains(slots, items, is_separator) && #[trigger] folds_to(f, init, items, result);
        lemma_drains_fills(slots, items, is_separator);
    }
}

/// Reducing in one go and reducing pull by pull end in the same result.
///
/// Let the adapter have `slots` still to come. If pull after pull returned
/// `pulled_items` until the end was signalled, and reducing them one by one
/// gave `by_pulls`, while the reduction in one go gave `by_fold`, then the two
/// results are equal, provided that the separator can take one value only
/// and the reduction is deterministic: without that, two runs of the same
/// way may already differ, and [`lemma_fold_and_pulls_end_alike`] says what
/// holds.
pub proof fn lemma_fold_agrees_with_pulls<B, T, F: FnMut(B, T) -> B>(
    f: F,
    init: B,
    slots: Seq<Slot<T>>,
    is_separator: spec_fn(T) -> bool,
    pulled_items: Seq<T>,
    by_pulls: B,
    by_fold: B,
)
    requires
        single_valued(is_separator),
        deterministic(f),
        drains(slots, pulled_items, is_separator),
        folds_to(f, init, pulled_items, by_pulls),
        exists|items: Seq<T>|
            fills(slots, items, is_separator) && #[trigger] folds_to(f, init, items, by_fold),
    ensures
        by_pulls == by_fold,
{
    let items = choose|items: Seq<T>|
        fills(slots, items, is_separator) && #[trigger] folds_to(f, init, items, by_fold);
    lemma_drains_fills(slots, pulled_items, is_separator);
    lemma_fills_unique(slots, pulled_items, items, is_separator);
    lemma_folds_to_unique(f, init, items, by_pulls, by_fold);
}

} // verus!
