//! Size estimates: how many items an adapter will still hand out, computed
//! from the bounds that the base sequence reports for itself.

use vstd::prelude::*;
use crate::slots::upcoming;

verus! {

/// `n` as a `usize`, capped at `usize::MAX`.
pub open spec fn saturated(n: nat) -> usize {
    if n <= usize::MAX {
        n as usize
    } else {
        usize::MAX
    }
}

/// How many items are still to come when the base sequence will yield `base`
/// more elements and an element is buffered or not (`pending`).
///
/// After the first pull every element of the base sequence brings a separator
/// with it, and a buffered element counts for itself. Before the first pull
/// the first element comes alone.
pub open spec fn remaining_len(started: bool, pending: bool, base: nat) -> nat {
    if started {
        2 * base + if pending { 1nat } else { 0nat }
    } else if base == 0 {
        0
    } else {
        (2 * base - 1) as nat
    }
}

/// The estimate made from one bound of the base sequence.
pub open spec fn estimate(started: bool, pending: bool, bound: usize) -> usize {
    saturated(remaining_len(started, pending, bound as nat))
}

/// The estimate made from both bounds of the base sequence. Without an upper
/// bound for the base sequence there is none for the adapter.
pub open spec fn estimates(started: bool, pending: bool, lo: usize, hi: Option<usize>) -> (
    usize,
    Option<usize>,
) {
    (
        estimate(started, pending, lo),
        match hi {
            Some(hi) => Some(estimate(started, pending, hi)),
            None => None,
        },
    )
}

/// The estimate made from one bound: twice the bound, plus one for a
/// buffered element, saturating at `usize::MAX`. Before the first pull the
/// first element comes without a separator, so it counts like a buffered
/// element in front of the others.
fn interspersed_bound(bound: usize, started: bool, next_is_elem: bool) -> (r: usize)
    ensures
        r == estimate(started, next_is_elem, bound),
{
    if started {
        let buffered: usize = if next_is_elem { 1 } else { 0 };
        bound.saturating_add(buffered).saturating_add(bound)
    } else if bound == 0 {
        0
    } else {
        bound.saturating_add(bound - 1)
    }
}

/// Bounds on how many items are still to come, from the bounds `(lo, hi)`
/// that the base sequence gives for itself.
///
/// After the first pull they are `(2 * lo + p, 2 * hi + p)`, where `p` is one
/// if an element is buffered (`next_is_elem`) and zero if not. Before the
/// first pull a bound of zero stays zero and a bound of `n > 0` becomes
/// `2 * n - 1`. Each bound saturates at `usize::MAX`.
pub fn intersperse_size_hint(lo: usize, hi: Option<usize>, started: bool, next_is_elem: bool) -> (r:
    (usize, Option<usize>))
    ensures
        r == estimates(started, next_is_elem, lo, hi),
{
    let upper = match hi {
        Some(hi) => Some(interspersed_bound(hi, started, next_is_elem)),
        None => None,
    };
    (interspersed_bound(lo, started, next_is_elem), upper)
}

/// The count that the estimates are made of is the length of what is still
/// to come.
pub proof fn lemma_remaining_len<T>(started: bool, pending: Option<T>, rest: Seq<T>)
    requires
        !started ==> pending is None,
    ensures
        upcoming(started, pending, rest).len() == remaining_len(
            started,
            pending is Some,
            rest.len(),
        ),
{
}

/// Estimates are consistent with the true count.
///
/// If the base sequence will yield `rest` and its bounds `(lo, hi)` enclose
/// the length of `rest`, the estimates enclose the length of what is still to
/// come: the lower estimate never exceeds it, and the upper estimate is never
/// below it unless it has saturated. Where a bound of the base sequence is
/// exact, the estimate made from it is the true count, capped at
/// `usize::MAX`.
pub proof fn lemma_estimates_consistent<T>(
    started: bool,
    pending: Option<T>,
    rest: Seq<T>,
    lo: usize,
    hi: Option<usize>,
)
    requires
        !started ==> pending is None,
        lo <= rest.len(),
        hi matches Some(h) ==> rest.len() <= h,
    ensures
        ({
            let count = upcoming(started, pending, rest).len();
            let (lower, upper) = estimates(started, pending is Some, lo, hi);
            &&& lower <= count
            &&& lo == rest.len() ==> lower == saturated(count)
            &&& upper matches Some(u) ==> count <= u || u == usize::MAX
            &&& hi matches Some(h) ==> (h == rest.len() ==> upper == Some(saturated(count)))
            &&& upper is None <==> hi is None
        }),
{
    lemma_remaining_len(started, pending, rest);
}

/// With exact bounds for the base sequence, and a count that fits in a
/// `usize`, both estimates are the true count of what is still to come.
pub proof fn lemma_estimates_exact<T>(started: bool, pending: Option<T>, rest: Seq<T>)
    requires
        !started ==> pending is None,
        upcoming(started, pending, rest).len() <= usize::MAX,
    ensures
        ({
            let count = upcoming(started, pending, rest).len() as usize;
            let n = rest.len() as usize;
            estimates(started, pending is Some, n, Some(n)) == (count, Some(count))
        }),
{
    lemma_remaining_len(started, pending, rest);
}

} // verus!
