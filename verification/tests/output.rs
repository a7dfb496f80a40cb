use std::cell::Cell;

use intersperse::guard::Guard;
use intersperse::lookahead::intersperse_next;
use intersperse::separator::{Computed, Fixed, Separator};
use intersperse::{Intersperse, IntersperseWith, IteratorExt};

/// Pulls until the end is signalled.
fn drain<I: Iterator>(mut adapter: Intersperse<I>) -> Vec<I::Item>
where
    I::Item: Clone,
{
    let mut out = Vec::new();
    while let Some(item) = adapter.next() {
        out.push(item);
    }
    out
}

/// A sequence that yields `first`, signals the end once, and then goes on
/// with `later`, counting how often it is pulled.
struct Resuming<'a> {
    first: Vec<i32>,
    later: Vec<i32>,
    ended: bool,
    pulls: &'a Cell<usize>,
}

impl<'a> Iterator for Resuming<'a> {
    type Item = i32;

    fn next(&mut self) -> Option<i32> {
        self.pulls.set(self.pulls.get() + 1);
        if !self.first.is_empty() {
            Some(self.first.remove(0))
        } else if !self.ended {
            self.ended = true;
            None
        } else if !self.later.is_empty() {
            Some(self.later.remove(0))
        } else {
            None
        }
    }
}

#[test]
fn empty_base_ends_at_once() {
    let out = drain(Vec::<i32>::new().into_iter().intersperse2(0));
    assert_eq!(out, Vec::<i32>::new());
}

#[test]
fn single_element_has_no_separator() {
    assert_eq!(drain(vec![1].into_iter().intersperse2(0)), vec![1]);
}

#[test]
fn two_elements_have_one_separator() {
    assert_eq!(drain(vec![1, 2].into_iter().intersperse2(0)), vec![1, 0, 2]);
}

#[test]
fn three_elements_have_two_separators() {
    assert_eq!(drain(vec![1, 2, 3].into_iter().intersperse2(0)), vec![1, 0, 2, 0, 3]);
}

#[test]
fn output_length_is_twice_minus_one() {
    for n in 0usize..20 {
        let base: Vec<usize> = (0..n).collect();
        let out = drain(base.into_iter().intersperse1(usize::MAX));
        let expected = if n == 0 { 0 } else { 2 * n - 1 };
        assert_eq!(out.len(), expected);
    }
}

#[test]
fn elements_and_separators_alternate() {
    for n in 0usize..12 {
        let base: Vec<usize> = (100..100 + n).collect();
        let out = drain(base.clone().into_iter().intersperse1(7));
        for (k, item) in out.iter().enumerate() {
            if k % 2 == 0 {
                assert_eq!(*item, base[k / 2]);
            } else {
                assert_eq!(*item, 7);
            }
        }
    }
}

#[test]
fn output_starts_and_ends_with_an_element() {
    for n in 1usize..12 {
        let base: Vec<usize> = (100..100 + n).collect();
        let out = drain(base.clone().into_iter().intersperse1(7));
        assert_eq!(out.first(), base.first());
        assert_eq!(out.last(), base.last());
    }
}

#[test]
fn new_builds_what_the_extension_methods_build() {
    let a = drain(Intersperse::new(vec!["x", "y"].into_iter(), "-"));
    let b = drain(vec!["x", "y"].into_iter().intersperse1("-"));
    let c = drain(vec!["x", "y"].into_iter().intersperse2("-"));
    assert_eq!(a, vec!["x", "-", "y"]);
    assert_eq!(a, b);
    assert_eq!(a, c);
}

#[test]
fn generator_supplies_each_separator() {
    let next = Cell::new(10);
    let mut it = IntersperseWith::new(vec![1, 2, 3].into_iter(), || {
        next.set(next.get() + 1);
        next.get()
    });
    let mut out = Vec::new();
    while let Some(item) = it.next() {
        out.push(item);
    }
    assert_eq!(out, vec![1, 11, 2, 12, 3]);
}

#[test]
fn generator_is_called_once_per_separator() {
    let calls = Cell::new(0usize);
    let mut it = vec![1, 2, 3].into_iter().intersperse2_with(|| {
        calls.set(calls.get() + 1);
        0
    });
    assert_eq!(calls.get(), 0);
    assert_eq!(it.next(), Some(1));
    assert_eq!(calls.get(), 0);
    assert_eq!(it.next(), Some(0));
    assert_eq!(calls.get(), 1);
    assert_eq!(it.next(), Some(2));
    assert_eq!(calls.get(), 1);
    assert_eq!(it.next(), Some(0));
    assert_eq!(calls.get(), 2);
    assert_eq!(it.next(), Some(3));
    assert_eq!(it.next(), None);
    assert_eq!(it.next(), None);
    assert_eq!(calls.get(), 2);
}

#[test]
fn generator_is_not_called_for_short_bases() {
    let calls = Cell::new(0usize);
    let mut empty = Vec::<i32>::new().into_iter().intersperse1_with(|| {
        calls.set(calls.get() + 1);
        0
    });
    assert_eq!(empty.next(), None);
    let mut single = vec![5].into_iter().intersperse1_with(|| {
        calls.set(calls.get() + 1);
        0
    });
    assert_eq!(single.next(), Some(5));
    assert_eq!(single.next(), None);
    assert_eq!(calls.get(), 0);
}

#[test]
fn base_is_pulled_once_per_pull_at_most() {
    let pulls = Cell::new(0usize);
    let base = Resuming { first: vec![1, 2, 3], later: vec![], ended: false, pulls: &pulls };
    let mut it = base.intersperse2(0);
    assert_eq!(it.next(), Some(1));
    assert_eq!(pulls.get(), 1);
    assert_eq!(it.next(), Some(0));
    assert_eq!(pulls.get(), 2);
    assert_eq!(it.next(), Some(2));
    assert_eq!(pulls.get(), 2);
    assert_eq!(it.next(), Some(0));
    assert_eq!(pulls.get(), 3);
    assert_eq!(it.next(), Some(3));
    assert_eq!(pulls.get(), 3);
    assert_eq!(it.next(), None);
    assert_eq!(pulls.get(), 4);
}

#[test]
fn end_is_signalled_again_though_the_base_resumes() {
    let pulls = Cell::new(0usize);
    let base = Resuming { first: vec![1, 2], later: vec![8, 9], ended: false, pulls: &pulls };
    let mut it = base.intersperse2(0);
    assert_eq!(it.next(), Some(1));
    assert_eq!(it.next(), Some(0));
    assert_eq!(it.next(), Some(2));
    assert_eq!(it.next(), None);
    let pulls_at_end = pulls.get();
    for _ in 0..5 {
        assert_eq!(it.next(), None);
        assert_eq!(it.size_hint(), (0, Some(0)));
    }
    assert_eq!(pulls.get(), pulls_at_end);
}

#[test]
fn end_is_final_for_an_empty_resuming_base() {
    let pulls = Cell::new(0usize);
    let base = Resuming { first: vec![], later: vec![8, 9], ended: false, pulls: &pulls };
    let mut it = base.intersperse1_with(|| 0);
    assert_eq!(it.next(), None);
    assert_eq!(it.next(), None);
    assert_eq!(it.next(), None);
    assert_eq!(pulls.get(), 1);
}

#[test]
fn guard_stops_asking_after_the_end() {
    let pulls = Cell::new(0usize);
    let base = Resuming { first: vec![4], later: vec![5], ended: false, pulls: &pulls };
    let mut guard = Guard::new(base);
    assert_eq!(guard.next(), Some(4));
    assert_eq!(guard.next(), None);
    assert_eq!(guard.next(), None);
    assert_eq!(guard.next(), None);
    assert_eq!(pulls.get(), 2);
    assert_eq!(guard.size_hint(), (0, Some(0)));
}

#[test]
fn guard_passes_on_the_bounds_of_the_base() {
    let guard = Guard::new(vec![1, 2, 3].into_iter());
    assert_eq!(guard.size_hint(), (3, Some(3)));
    let open = Guard::new((0..).filter(|n: &i32| n % 2 == 0));
    assert_eq!(open.size_hint(), (0, None));
}

#[test]
fn fixed_separator_hands_out_clones() {
    let mut fixed = Fixed::new(String::from("sep"));
    assert_eq!(fixed.produce(), "sep");
    assert_eq!(fixed.produce(), "sep");
}

#[test]
fn computed_separator_calls_the_generator() {
    let mut n = 0;
    let mut computed = Computed::new(move || {
        n += 1;
        n
    });
    assert_eq!(computed.produce(), 1);
    assert_eq!(computed.produce(), 2);
}

#[test]
fn next_moves_the_state_step_by_step() {
    let mut started = false;
    let mut next_item = None;
    let mut iter = Guard::new(vec![1, 2].into_iter());
    let mut separator = Fixed::new(0);

    assert_eq!(intersperse_next(&mut started, &mut next_item, &mut iter, &mut separator), Some(1));
    assert!(started);
    assert_eq!(next_item, None);

    assert_eq!(intersperse_next(&mut started, &mut next_item, &mut iter, &mut separator), Some(0));
    assert_eq!(next_item, Some(2));

    assert_eq!(intersperse_next(&mut started, &mut next_item, &mut iter, &mut separator), Some(2));
    assert_eq!(next_item, None);

    assert_eq!(intersperse_next(&mut started, &mut next_item, &mut iter, &mut separator), None);
    assert_eq!(intersperse_next(&mut started, &mut next_item, &mut iter, &mut separator), None);
    assert!(started);
    assert_eq!(next_item, None);
}

#[test]
fn adapters_can_be_cloned_and_printed() {
    let mut it = vec![1, 2, 3].into_iter().intersperse2(0);
    assert_eq!(it.next(), Some(1));
    assert_eq!(it.next(), Some(0));
    let copy = it.clone();
    assert_eq!(drain(it), vec![2, 0, 3]);
    assert_eq!(drain(copy), vec![2, 0, 3]);

    let with = vec![1, 2].into_iter().intersperse2_with(zero as fn() -> i32);
    let mut copy = with.clone();
    assert_eq!(copy.next(), Some(1));
    assert_eq!(copy.next(), Some(0));
    assert!(format!("{:?}", with).contains("started: false"));
    assert!(format!("{:?}", vec![1].into_iter().intersperse1(0)).contains("next_item: None"));
}

fn zero() -> i32 {
    0
}

#[test]
fn end_of_a_resuming_closure_is_final() {
    let mut k = 0;
    let base = std::iter::from_fn(move || {
        k += 1;
        if k == 2 {
            None
        } else {
            Some(k)
        }
    });
    let mut it = Intersperse::new(base, 0);
    assert_eq!(it.next(), Some(1));
    assert_eq!(it.next(), None);
    assert_eq!(it.next(), None);
    assert_eq!(it.next(), None);
}

#[test]
fn generator_is_not_called_after_the_base_has_ended() {
    let calls = Cell::new(0usize);
    let pulls = Cell::new(0usize);
    let base = Resuming { first: vec![1], later: vec![7], ended: false, pulls: &pulls };
    let mut it = IntersperseWith::new(base, || {
        calls.set(calls.get() + 1);
        0
    });
    assert_eq!(it.next(), Some(1));
    assert_eq!(it.next(), None);
    let pulls_at_end = pulls.get();
    assert_eq!(it.next(), None);
    assert_eq!(it.next(), None);
    assert_eq!(pulls.get(), pulls_at_end);
    assert_eq!(calls.get(), 0);
}
