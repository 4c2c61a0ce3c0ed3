use vstd::prelude::*;

use crate::builder::CpCmp;
use crate::{pair_of, GetBeginEnd};

use std::cmp::Ordering;

verus! {

/// **Forward Consolidation Order** of the pairs a and b: begin ascending, then end descending.
pub open spec fn forward_order<T, C: CpCmp<T>>(t: &C, a: (T, T), b: (T, T)) -> Ordering {
    if t.spec_lt(b.0, a.0) {
        Ordering::Greater
    } else if t.spec_lt(a.0, b.0) {
        Ordering::Less
    } else if t.spec_lt(a.1, b.1) {
        Ordering::Greater
    } else if t.spec_lt(b.1, a.1) {
        Ordering::Less
    } else {
        Ordering::Equal
    }
}

/// **Reverse Consolidation Order** of the pairs a and b: end descending, then begin ascending.
pub open spec fn reverse_order<T, C: CpCmp<T>>(t: &C, a: (T, T), b: (T, T)) -> Ordering {
    if t.spec_lt(a.1, b.1) {
        Ordering::Greater
    } else if t.spec_lt(b.1, a.1) {
        Ordering::Less
    } else if t.spec_lt(b.0, a.0) {
        Ordering::Greater
    } else if t.spec_lt(a.0, b.0) {
        Ordering::Less
    } else {
        Ordering::Equal
    }
}

/// Compares range a and b and returns the **Forward Consolidation Order** value:
/// earliest largest ranges first, that is begin ascending, then end descending.
pub fn sort_forward<T, R: GetBeginEnd<T>, C: CpCmp<T>>(a: &R, b: &R, t: &C) -> (r: Ordering)
    ensures
        r == forward_order(t, pair_of(*a), pair_of(*b)),
{
    if t.lt(b.get_begin(), a.get_begin()) {
        Ordering::Greater
    } else if t.lt(a.get_begin(), b.get_begin()) {
        Ordering::Less
    } else if t.lt(a.get_end(), b.get_end()) {
        Ordering::Greater
    } else if t.lt(b.get_end(), a.get_end()) {
        Ordering::Less
    } else {
        Ordering::Equal
    }
}

/// Compares range a and b and returns the **Reverse Consolidation Order** value:
/// latest largest ranges first, that is end descending, then begin ascending.
pub fn sort_reverse<T, R: GetBeginEnd<T>, C: CpCmp<T>>(a: &R, b: &R, t: &C) -> (r: Ordering)
    ensures
        r == reverse_order(t, pair_of(*a), pair_of(*b)),
{
    if t.lt(a.get_end(), b.get_end()) {
        Ordering::Greater
    } else if t.lt(b.get_end(), a.get_end()) {
        Ordering::Less
    } else if t.lt(b.get_begin(), a.get_begin()) {
        Ordering::Greater
    } else if t.lt(a.get_begin(), b.get_begin()) {
        Ordering::Less
    } else {
        Ordering::Equal
    }
}

/// Both consolidation orders are total orders on pairs: swapping the arguments
/// swaps Less and Greater, Equal holds exactly of equal pairs, and both are transitive.
pub proof fn lemma_consolidation_orders_total<T, C: CpCmp<T>>(t: &C, a: (T, T), b: (T, T), c: (T, T))
    ensures
        (forward_order(t, a, b) == Ordering::Less) == (forward_order(t, b, a) == Ordering::Greater),
        (forward_order(t, a, b) == Ordering::Equal) == (a == b),
        forward_order(t, a, b) == Ordering::Less && forward_order(t, b, c) == Ordering::Less
            ==> forward_order(t, a, c) == Ordering::Less,
        (reverse_order(t, a, b) == Ordering::Less) == (reverse_order(t, b, a) == Ordering::Greater),
        (reverse_order(t, a, b) == Ordering::Equal) == (a == b),
        reverse_order(t, a, b) == Ordering::Less && reverse_order(t, b, c) == Ordering::Less
            ==> reverse_order(t, a, c) == Ordering::Less,
{
    t.lemma_order();
    assert(t.spec_lt(a.0, b.0) || t.spec_lt(b.0, a.0) || a.0 == b.0);
    assert(t.spec_lt(a.1, b.1) || t.spec_lt(b.1, a.1) || a.1 == b.1);
    assert(t.spec_lt(a.0, c.0) || t.spec_lt(c.0, a.0) || a.0 == c.0);
    assert(t.spec_lt(c.0, b.0) || t.spec_lt(b.0, c.0) || c.0 == b.0);
    assert(t.spec_lt(a.1, c.1) || t.spec_lt(c.1, a.1) || a.1 == c.1);
    assert(t.spec_lt(c.1, b.1) || t.spec_lt(b.1, c.1) || c.1 == b.1);
}

} // verus!
