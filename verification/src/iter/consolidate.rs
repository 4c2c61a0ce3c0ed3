use vstd::prelude::*;

use crate::builder::{CpCmp, DefaultValues, GetBeginEndOption, NumberIncDecCpCmp, RiFactory};
use crate::utils::{
    consolidate, opt_group_view, opt_rel_group_view, range_relation, relation_value,
    spec_consolidate, spec_range_relation, RangeRelation,
};
use crate::{pair_of, GetBeginEnd};

use std::ops::RangeInclusive;

pub mod checker;

verus! {

/// Represents the consolidation order.
#[derive(Clone, Copy)]
pub enum ConsolidationOrder {
    /// Data is expected in the order provided by [crate::sort_forward].
    Forward,
    /// Data is expected in the order provided by [crate::sort_reverse].
    Reverse,
}

/// Whether a relation is in the expected direction for the order, and the message
/// when it is not.
pub open spec fn direction_check<T>(order: ConsolidationOrder, state: RangeRelation<T>) -> Result<
    (),
    &'static str,
> {
    match state {
        RangeRelation::Invalid(_) => Err("Range Compare contained Invalid range(s)"),
        RangeRelation::Last(_) => Ok(()),
        RangeRelation::Overlap(_) => Ok(()),
        RangeRelation::After(_) => match order {
            ConsolidationOrder::Forward => Err(
                "Out of Forward Sequence, Expected: Before|Last|Overlap, got: After",
            ),
            ConsolidationOrder::Reverse => Ok(()),
        },
        RangeRelation::Before(_) => match order {
            ConsolidationOrder::Forward => Ok(()),
            ConsolidationOrder::Reverse => Err(
                "Out of Reverse Sequence, Expected: After|Last|Overlap, got: Before",
            ),
        },
    }
}

/// The positional check of range a against range b: (a overlaps b, a is done with
/// respect to b in the order).
pub open spec fn position_check<T, C: CpCmp<T>>(
    order: ConsolidationOrder,
    t: &C,
    a: (T, T),
    b: (T, T),
) -> (bool, bool) {
    match spec_range_relation(t, a, b) {
        RangeRelation::Invalid(_) => (false, false),
        RangeRelation::Last(_) => (true, true),
        RangeRelation::Overlap(_) => match order {
            ConsolidationOrder::Forward => (true, t.spec_lt(b.1, a.1)),
            ConsolidationOrder::Reverse => (true, t.spec_lt(a.0, b.0)),
        },
        RangeRelation::After(_) => match order {
            ConsolidationOrder::Forward => (false, true),
            ConsolidationOrder::Reverse => (false, false),
        },
        RangeRelation::Before(_) => match order {
            ConsolidationOrder::Forward => (false, false),
            ConsolidationOrder::Reverse => (false, true),
        },
    }
}

/// The final directional boundary of a lies beyond that of b.
pub open spec fn beyond_check<T, C: CpCmp<T>>(
    order: ConsolidationOrder,
    t: &C,
    a: (T, T),
    b: (T, T),
) -> bool {
    match order {
        ConsolidationOrder::Forward => t.spec_lt(b.1, a.1),
        ConsolidationOrder::Reverse => t.spec_lt(a.0, b.0),
    }
}

/// a ends (Forward) or begins (Reverse) before b in the order.
pub open spec fn before_check<T, C: CpCmp<T>>(
    order: ConsolidationOrder,
    t: &C,
    a: (T, T),
    b: (T, T),
) -> bool {
    match order {
        ConsolidationOrder::Forward => t.spec_lt(a.1, b.1),
        ConsolidationOrder::Reverse => t.spec_lt(b.0, a.0),
    }
}

impl ConsolidationOrder {
    /// Filters relations for validity against the order.
    ///
    /// Invalid states for: [ConsolidationOrder::Forward]
    ///   - [RangeRelation::After]
    ///   - [RangeRelation::Invalid]
    ///
    /// Invalid states for: [ConsolidationOrder::Reverse]
    ///   - [RangeRelation::Before]
    ///   - [RangeRelation::Invalid]
    pub fn check_direction<T>(&self, state: &RangeRelation<T>) -> (res: Result<(), &'static str>)
        ensures
            res == direction_check(*self, *state),
    {
        match state {
            RangeRelation::Invalid(_) => Err("Range Compare contained Invalid range(s)"),
            RangeRelation::Last(_) => Ok(()),
            RangeRelation::Overlap(_) => Ok(()),
            RangeRelation::After(_) => match self {
                ConsolidationOrder::Forward => Err(
                    "Out of Forward Sequence, Expected: Before|Last|Overlap, got: After",
                ),
                ConsolidationOrder::Reverse => Ok(()),
            },
            RangeRelation::Before(_) => match self {
                ConsolidationOrder::Forward => Ok(()),
                ConsolidationOrder::Reverse => Err(
                    "Out of Reverse Sequence, Expected: After|Last|Overlap, got: Before",
                ),
            },
        }
    }

    /// Checks if the next range would be wanted in the set.
    pub fn wants_next<T>(&self, r: &RangeRelation<T>) -> (res: bool)
        ensures
            res == direction_check(*self, *r) is Ok,
    {
        match r {
            RangeRelation::Invalid(_) => false,
            RangeRelation::Last(_) => true,
            RangeRelation::Overlap(_) => true,
            RangeRelation::After(_) => match self {
                ConsolidationOrder::Forward => false,
                ConsolidationOrder::Reverse => true,
            },
            RangeRelation::Before(_) => match self {
                ConsolidationOrder::Forward => true,
                ConsolidationOrder::Reverse => false,
            },
        }
    }

    /// Checks the positional value of a against b.
    ///
    /// The tuple returned represents the following
    ///  - 0: when true a overlaps with b
    ///  - 1: when true a is done with respect to b (after it, or reaching past it, in the order)
    pub fn check_position<T, A: GetBeginEnd<T>, B: GetBeginEnd<T>, C: CpCmp<T>>(
        &self,
        a: &A,
        b: &B,
        t: &C,
    ) -> (res: (bool, bool))
        ensures
            res == position_check(*self, t, pair_of(*a), pair_of(*b)),
    {
        match range_relation(a, b, t) {
            RangeRelation::Invalid(_) => (false, false),
            RangeRelation::Last(_) => (true, true),
            RangeRelation::Overlap(_) => match self {
                ConsolidationOrder::Forward => (true, t.lt(b.get_end(), a.get_end())),
                ConsolidationOrder::Reverse => (true, t.lt(a.get_begin(), b.get_begin())),
            },
            RangeRelation::After(_) => match self {
                ConsolidationOrder::Forward => (false, true),
                ConsolidationOrder::Reverse => (false, false),
            },
            RangeRelation::Before(_) => match self {
                ConsolidationOrder::Forward => (false, false),
                ConsolidationOrder::Reverse => (false, true),
            },
        }
    }

    /// Returns true if the final directional boundary of a is beyond b.
    ///  - Given [ConsolidationOrder::Forward] a.get_end() must be gt b.get_end().
    ///  - Given [ConsolidationOrder::Reverse] a.get_begin() must be lt b.get_begin().
    pub fn is_beyond<T, A: GetBeginEnd<T>, B: GetBeginEnd<T>, C: CpCmp<T>>(
        &self,
        a: &A,
        b: &B,
        t: &C,
    ) -> (res: bool)
        ensures
            res == beyond_check(*self, t, pair_of(*a), pair_of(*b)),
    {
        match self {
            ConsolidationOrder::Forward => t.lt(b.get_end(), a.get_end()),
            ConsolidationOrder::Reverse => t.lt(a.get_begin(), b.get_begin()),
        }
    }

    /// Checks if a ends (Forward) or begins (Reverse) before b relative to the order.
    pub fn is_before<T, A: GetBeginEnd<T>, B: GetBeginEnd<T>, C: CpCmp<T>>(
        &self,
        a: &A,
        b: &B,
        t: &C,
    ) -> (res: bool)
        ensures
            res == before_check(*self, t, pair_of(*a), pair_of(*b)),
    {
        match self {
            ConsolidationOrder::Forward => t.lt(a.get_end(), b.get_end()),
            ConsolidationOrder::Reverse => t.lt(b.get_begin(), a.get_begin()),
        }
    }
}

/// Consolidates duplicate and overlapping ranges read from a list of ranges.
pub struct Consolidate<T, R: GetBeginEnd<T>, S: GetBeginEnd<T>, F: GetBeginEndOption<T, R>, C: CpCmp<T>> {
    iter: Vec<S>,
    last: Option<(R, Vec<(usize, S)>)>,
    proxy: C,
    factory: F,
    offset: usize,
    _p: core::marker::PhantomData<T>,
}

impl<T, R: GetBeginEnd<T>, S: GetBeginEnd<T>, F: GetBeginEndOption<T, R>, C: CpCmp<T>> Consolidate<
    T,
    R,
    S,
    F,
    C,
> {
    /// The ranges not read yet.
    pub closed spec fn input(&self) -> Seq<S> {
        self.iter@
    }

    /// The group still open.
    pub closed spec fn open_group(&self) -> Option<((T, T), Seq<(usize, S)>)> {
        opt_group_view(self.last)
    }

    /// The position of the next range to read.
    pub closed spec fn position(&self) -> nat {
        self.offset as nat
    }

    /// The comparator.
    pub closed spec fn comparator(&self) -> C {
        self.proxy
    }

    /// The factory.
    pub closed spec fn factory_value(&self) -> F {
        self.factory
    }

    /// Positions stay within usize.
    pub open spec fn wf(&self) -> bool {
        self.position() + self.input().len() <= usize::MAX
    }

    /// What the next step computes (see [spec_consolidate]).
    pub open spec fn step(&self) -> (nat, Option<RangeRelation<((T, T), Seq<(usize, S)>)>>, Option<
        ((T, T), Seq<(usize, S)>),
    >) {
        spec_consolidate(&self.comparator(), self.open_group(), self.input(), self.position())
    }

    /// How much is left to do: each range not read counts two, an open group one.
    pub open spec fn remaining(&self) -> nat {
        2 * self.input().len() + if self.open_group() is Some {
            1nat
        } else {
            0nat
        }
    }

    /// Creates a consolidation of the ranges of `iter`, in order.
    pub fn new(iter: Vec<S>, cmp: C, factory: F) -> (res: Self)
        ensures
            res.input() == iter@,
            res.open_group() is None,
            res.position() == 0,
            res.comparator() == cmp,
            res.factory_value() == factory,
            res.wf(),
    {
        let _n = iter.len();
        Self { iter, last: None, proxy: cmp, factory, offset: 0, _p: core::marker::PhantomData }
    }

    /// Returns a ref to the internal comparator.
    pub fn get_cmp(&self) -> (res: &C)
        ensures
            *res == self.comparator(),
    {
        &self.proxy
    }

    /// Returns a ref to the internal factory.
    pub fn get_factory(&self) -> (res: &F)
        ensures
            *res == self.factory_value(),
    {
        &self.factory
    }

    /// Converts the current instance to a [checker::ConsolidateChecker].
    pub fn to_consolidate_checker(self, order: ConsolidationOrder) -> (res: checker::ConsolidateChecker<
        T,
        R,
        S,
        F,
        C,
    >)
        ensures
            res.order() == order,
            res.consolidation() == self,
    {
        checker::ConsolidateChecker::new(order, self)
    }

    /// Returns the next finished group and how it relates to the range that follows it:
    ///  - the R range is the hull of the group,
    ///  - each (usize, S) is a source range with its position in the input.
    pub fn next(&mut self) -> (res: Option<RangeRelation<(R, Vec<(usize, S)>)>>)
        requires
            old(self).wf(),
        ensures
            ({
                let s = old(self).step();
                &&& opt_rel_group_view(res) == s.1
                &&& final(self).open_group() == s.2
                &&& final(self).position() == s.0
                &&& old(self).position() <= s.0
                &&& final(self).input() == old(self).input().skip(s.0 - old(self).position())
                &&& final(self).comparator() == old(self).comparator()
                &&& final(self).factory_value() == old(self).factory_value()
                &&& final(self).wf()
            }),
            res is Some ==> final(self).remaining() < old(self).remaining(),
            res is None ==> final(self).remaining() == old(self).remaining(),
    {
        proof {
            crate::utils::lemma_consolidate_progress(
                &self.proxy,
                opt_group_view(self.last),
                self.iter@,
                self.offset as nat,
            );
        }
        let (offset, next) = consolidate(&mut self.last, &mut self.iter, &self.proxy, &self.factory, self.offset);
        self.offset = offset;
        next
    }
}

impl<T: Copy> Consolidate<T, RangeInclusive<T>, RangeInclusive<T>, RiFactory<T>, NumberIncDecCpCmp<T>> where
    NumberIncDecCpCmp<T>: DefaultValues<T, T>,
 {
    /// Creates a consolidation of number ranges.
    pub fn num(iter: Vec<RangeInclusive<T>>, cmp: NumberIncDecCpCmp<T>, factory: RiFactory<T>) -> (res: Self)
        ensures
            res.input() == iter@,
            res.open_group() is None,
            res.position() == 0,
            res.comparator() == cmp,
            res.wf(),
    {
        Self::new(iter, cmp, factory)
    }

    /// Creates a consolidation of number ranges with the default bounds.
    pub fn num_defaults(iter: Vec<RangeInclusive<T>>) -> (res: Self)
        ensures
            res.input() == iter@,
            res.open_group() is None,
            res.position() == 0,
            res.comparator().min_value() == NumberIncDecCpCmp::<T>::spec_default_min(),
            res.comparator().max_value() == NumberIncDecCpCmp::<T>::spec_default_max(),
            res.wf(),
    {
        Self::num(iter, NumberIncDecCpCmp::<T>::defaults(), RiFactory::<T>::new())
    }
}

} // verus!
