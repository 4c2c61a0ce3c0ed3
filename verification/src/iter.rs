use vstd::prelude::*;

use crate::builder::{
    CpCmp, DefaultValues, GetBeginEndOption, IncDecCpCmp, NumberIncDecCpCmp, RangeBound, RiFactory,
};
use crate::utils::{
    spec_bounds_to_values,
    first_range_begin_end, last_range_begin_end, next_range_begin_end, previous_range_begin_end,
    range_relation, spec_first_range, spec_last_range, spec_next_range, spec_previous_range,
    spec_range_relation, spec_valid, RangeRelation,
};
use crate::{pair_of, pairs_of, GetBeginEnd, Mrs};

use std::ops::RangeInclusive;

pub mod consolidate;

verus! {

/// The pair of an optional range.
pub open spec fn opt_pair<T, R: GetBeginEnd<T>>(o: Option<R>) -> Option<(T, T)> {
    match o {
        Some(r) => Some(pair_of(r)),
        None => None,
    }
}

/// The pair of an optional borrowed range.
pub open spec fn opt_ref_pair<T, R: GetBeginEnd<T>>(o: Option<&R>) -> Option<(T, T)> {
    match o {
        Some(r) => Some(pair_of(*r)),
        None => None,
    }
}

/// The segment that follows `n` going forward, while `back` is the current segment
/// going backward: once `n` overlaps `back` only the two of them are searched, while it
/// lies before `back` all the ranges are; anything else ends the forward walk.
pub open spec fn spec_try_next<T, V, C: IncDecCpCmp<T, V>>(
    t: &C,
    ranges: Seq<(T, T)>,
    step: V,
    n: Option<(T, T)>,
    back: Option<(T, T)>,
) -> Option<(T, T)> {
    match (n, back) {
        (Some(n), Some(b)) => match spec_range_relation(t, n, b) {
            RangeRelation::Overlap(_) => match t.spec_inc(n.1, step) {
                Some(begin) => spec_next_range(t, begin, seq![b, n], step),
                None => None,
            },
            RangeRelation::Before(_) => match t.spec_inc(n.1, step) {
                Some(begin) => spec_next_range(t, begin, ranges, step),
                None => None,
            },
            _ => None,
        },
        _ => None,
    }
}

/// The segment that precedes `b` going backward, while `next` is the current segment
/// going forward: once `b` overlaps `next` only the two of them are searched, while it
/// lies after `next` all the ranges are; anything else ends the backward walk.
pub open spec fn spec_try_next_back<T, V, C: IncDecCpCmp<T, V>>(
    t: &C,
    ranges: Seq<(T, T)>,
    step: V,
    b: Option<(T, T)>,
    next: Option<(T, T)>,
) -> Option<(T, T)> {
    match (b, next) {
        (Some(b), Some(n)) => match spec_range_relation(t, b, n) {
            RangeRelation::Overlap(_) => match t.spec_dec(b.0, step) {
                Some(end) => spec_previous_range(t, end, seq![n, b], step),
                None => None,
            },
            RangeRelation::After(_) => match t.spec_dec(b.0, step) {
                Some(end) => spec_previous_range(t, end, ranges, step),
                None => None,
            },
            _ => None,
        },
        _ => None,
    }
}

/// The core double ended walk for finding range intersections.
pub struct OverlapIter<T, V, C: IncDecCpCmp<T, V>, R: GetBeginEnd<T>, F: GetBeginEndOption<T, R>> {
    src: Vec<R>,
    step: V,
    proxy: C,
    next: Option<R>,
    back: Option<R>,
    last_next: Option<R>,
    last_back: Option<R>,
    factory: F,
    _marker: core::marker::PhantomData<T>,
}

impl<T, V, C: IncDecCpCmp<T, V>, R: GetBeginEnd<T>, F: GetBeginEndOption<T, R>> OverlapIter<
    T,
    V,
    C,
    R,
    F,
> {
    /// The ranges whose intersections are walked.
    pub closed spec fn ranges(&self) -> Seq<(T, T)> {
        pairs_of(self.src@)
    }

    /// The number of ranges (columns).
    pub closed spec fn columns(&self) -> nat {
        self.src@.len()
    }

    /// The step used to move past a segment.
    pub closed spec fn step_value(&self) -> V {
        self.step
    }

    /// The comparator.
    pub closed spec fn comparator(&self) -> C {
        self.proxy
    }

    /// The factory.
    pub closed spec fn factory_value(&self) -> F {
        self.factory
    }

    /// The segment the next forward step returns.
    pub closed spec fn next_pair(&self) -> Option<(T, T)> {
        opt_pair(self.next)
    }

    /// The segment the next backward step returns.
    pub closed spec fn back_pair(&self) -> Option<(T, T)> {
        opt_pair(self.back)
    }

    /// The segment the last forward step returned.
    pub closed spec fn last_next_pair(&self) -> Option<(T, T)> {
        opt_pair(self.last_next)
    }

    /// The segment the last backward step returned.
    pub closed spec fn last_back_pair(&self) -> Option<(T, T)> {
        opt_pair(self.last_back)
    }

    /// The parts of the walk that no step changes.
    pub open spec fn same_setup(&self, other: &Self) -> bool {
        &&& self.ranges() == other.ranges()
        &&& self.step_value() == other.step_value()
        &&& self.comparator() == other.comparator()
        &&& self.factory_value() == other.factory_value()
    }

    /// What updating a column keeps: the setup but for the ranges, and the walk's state.
    pub open spec fn same_update(&self, other: &Self) -> bool {
        &&& self.step_value() == other.step_value()
        &&& self.comparator() == other.comparator()
        &&& self.factory_value() == other.factory_value()
        &&& self.columns() == other.columns()
        &&& self.next_pair() == other.next_pair()
        &&& self.back_pair() == other.back_pair()
        &&& self.last_next_pair() == other.last_next_pair()
        &&& self.last_back_pair() == other.last_back_pair()
    }

    /// The state right after a reset: the first and last segments, nothing returned yet.
    pub open spec fn is_reset(&self) -> bool {
        &&& self.next_pair() == spec_first_range(&self.comparator(), self.ranges(), self.step_value())
        &&& self.back_pair() == spec_last_range(&self.comparator(), self.ranges(), self.step_value())
        &&& self.last_next_pair() is None
        &&& self.last_back_pair() is None
    }

    /// Creates a new [OverlapIter] over the ranges of `src`.
    pub fn new(src: Vec<R>, step: V, cmp: C, factory: F) -> (res: Self)
        ensures
            res.ranges() == pairs_of(src@),
            res.step_value() == step,
            res.comparator() == cmp,
            res.factory_value() == factory,
            res.is_reset(),
    {
        let mut res = Self {
            src,
            step,
            proxy: cmp,
            next: None,
            back: None,
            last_next: None,
            last_back: None,
            factory,
            _marker: core::marker::PhantomData,
        };
        res.reset();
        res
    }

    /// Resets this instance to its starting state.
    pub fn reset(&mut self)
        ensures
            final(self).same_setup(old(self)),
            final(self).columns() == old(self).columns(),
            final(self).is_reset(),
    {
        let next = self.factory.factory(first_range_begin_end(self.src.as_slice(), &self.step, &self.proxy));
        let back = self.factory.factory(last_range_begin_end(self.src.as_slice(), &self.step, &self.proxy));
        self.next = next;
        self.back = back;
        self.last_back = None;
        self.last_next = None;
    }

    /// Copies the src range via the internals.
    pub fn copy_range<U: GetBeginEnd<T>>(&self, src: &U) -> (res: Option<R>)
        ensures
            opt_pair(res) == Some(pair_of(*src)),
    {
        let a = self.proxy.cp(src.get_begin());
        let z = self.proxy.cp(src.get_end());
        self.factory.factory(Some((a, z)))
    }

    /// Returns a tuple of Option refs to the internal next and last_next ranges.
    pub fn ln(&self) -> (res: (Option<&R>, Option<&R>))
        ensures
            opt_ref_pair(res.0) == self.next_pair(),
            opt_ref_pair(res.1) == self.last_next_pair(),
    {
        let a = match &self.next {
            Some(n) => Some(n),
            None => None,
        };
        let b = match &self.last_next {
            Some(n) => Some(n),
            None => None,
        };
        (a, b)
    }

    /// Returns a tuple of Option refs to the internal back and last_back ranges.
    pub fn lb(&self) -> (res: (Option<&R>, Option<&R>))
        ensures
            opt_ref_pair(res.0) == self.back_pair(),
            opt_ref_pair(res.1) == self.last_back_pair(),
    {
        let a = match &self.back {
            Some(n) => Some(n),
            None => None,
        };
        let b = match &self.last_back {
            Some(n) => Some(n),
            None => None,
        };
        (a, b)
    }

    /// Generates a new next based on the src passed in (see [spec_try_next]).
    pub fn try_next(&self, src: &Option<R>) -> (res: Option<R>)
        ensures
            opt_pair(res) == spec_try_next(
                &self.comparator(),
                self.ranges(),
                self.step_value(),
                opt_pair(*src),
                self.back_pair(),
            ),
    {
        match src {
            Some(n) => match &self.back {
                Some(b) => match range_relation(n, b, &self.proxy) {
                    RangeRelation::Overlap(_) => match self.proxy.inc(n.get_end(), &self.step) {
                        Some(begin) => {
                            let pair = vec![
                                Mrs::new(self.proxy.cp(b.get_begin()), self.proxy.cp(b.get_end())),
                                Mrs::new(self.proxy.cp(n.get_begin()), self.proxy.cp(n.get_end())),
                            ];
                            assert(pairs_of(pair@) =~= seq![pair_of(*b), pair_of(*n)]);
                            self.factory.factory(
                                next_range_begin_end(&begin, pair.as_slice(), &self.step, &self.proxy),
                            )
                        },
                        None => None,
                    },
                    RangeRelation::Before(_) => match self.proxy.inc(n.get_end(), &self.step) {
                        Some(begin) => self.factory.factory(
                            next_range_begin_end(&begin, self.src.as_slice(), &self.step, &self.proxy),
                        ),
                        None => None,
                    },
                    _ => None,
                },
                None => None,
            },
            None => None,
        }
    }

    /// Generates a new back based on the src passed in (see [spec_try_next_back]).
    pub fn try_next_back(&self, src: &Option<R>) -> (res: Option<R>)
        ensures
            opt_pair(res) == spec_try_next_back(
                &self.comparator(),
                self.ranges(),
                self.step_value(),
                opt_pair(*src),
                self.next_pair(),
            ),
    {
        match src {
            Some(b) => match &self.next {
                Some(n) => match range_relation(b, n, &self.proxy) {
                    RangeRelation::Overlap(_) => match self.proxy.dec(b.get_begin(), &self.step) {
                        Some(end) => {
                            let pair = vec![
                                Mrs::new(self.proxy.cp(n.get_begin()), self.proxy.cp(n.get_end())),
                                Mrs::new(self.proxy.cp(b.get_begin()), self.proxy.cp(b.get_end())),
                            ];
                            assert(pairs_of(pair@) =~= seq![pair_of(*n), pair_of(*b)]);
                            self.factory.factory(
                                previous_range_begin_end(&end, pair.as_slice(), &self.step, &self.proxy),
                            )
                        },
                        None => None,
                    },
                    RangeRelation::After(_) => match self.proxy.dec(b.get_begin(), &self.step) {
                        Some(end) => self.factory.factory(
                            previous_range_begin_end(&end, self.src.as_slice(), &self.step, &self.proxy),
                        ),
                        None => None,
                    },
                    _ => None,
                },
                None => None,
            },
            None => None,
        }
    }

    /// Returns the next intersection going forward. Calls to next impact calls to next_back.
    pub fn next(&mut self) -> (res: Option<R>)
        ensures
            final(self).same_setup(old(self)),
            final(self).columns() == old(self).columns(),
            opt_pair(res) == old(self).next_pair(),
            final(self).next_pair() == spec_try_next(
                &old(self).comparator(),
                old(self).ranges(),
                old(self).step_value(),
                old(self).next_pair(),
                old(self).back_pair(),
            ),
            final(self).back_pair() == old(self).back_pair(),
            final(self).last_next_pair() == (if old(self).next_pair() is Some {
                old(self).next_pair()
            } else {
                old(self).last_next_pair()
            }),
            final(self).last_back_pair() == old(self).last_back_pair(),
    {
        let next = self.try_next(&self.next);
        match &self.next {
            Some(n) => {
                let c = self.copy_range(n);
                self.last_next = c;
            },
            None => {},
        }
        let res = self.next.take();
        self.next = next;
        res
    }

    /// Returns the next intersection going backward. Calls to next_back impact calls to next.
    pub fn next_back(&mut self) -> (res: Option<R>)
        ensures
            final(self).same_setup(old(self)),
            final(self).columns() == old(self).columns(),
            opt_pair(res) == old(self).back_pair(),
            final(self).back_pair() == spec_try_next_back(
                &old(self).comparator(),
                old(self).ranges(),
                old(self).step_value(),
                old(self).back_pair(),
                old(self).next_pair(),
            ),
            final(self).next_pair() == old(self).next_pair(),
            final(self).last_back_pair() == (if old(self).back_pair() is Some {
                old(self).back_pair()
            } else {
                old(self).last_back_pair()
            }),
            final(self).last_next_pair() == old(self).last_next_pair(),
    {
        let back = self.try_next_back(&self.back);
        match &self.back {
            Some(b) => {
                let c = self.copy_range(b);
                self.last_back = c;
            },
            None => {},
        }
        let res = self.back.take();
        self.back = back;
        res
    }

    /// Converts self to an instance of [OverlapIterWithOverlaps].
    pub fn into_iter_overlaps(self) -> (res: OverlapIterWithOverlaps<T, V, C, R, F>)
        ensures
            res.walk() == self,
    {
        OverlapIterWithOverlaps::new(self)
    }

    /// Steps forward like [OverlapIter::next]; with the segment comes a walk of the
    /// ranges that overlap it.
    pub fn next_overlaps(&mut self) -> (res: Option<(R, OverlapsIter<'_, T, C, R, R>)>)
        ensures
            final(self).same_setup(old(self)),
            final(self).columns() == old(self).columns(),
            final(self).next_pair() == spec_try_next(
                &old(self).comparator(),
                old(self).ranges(),
                old(self).step_value(),
                old(self).next_pair(),
                old(self).back_pair(),
            ),
            final(self).back_pair() == old(self).back_pair(),
            match res {
                Some(p) => {
                    &&& opt_pair(Some(p.0)) == old(self).next_pair()
                    &&& pair_of(p.1.target()) == old(self).next_pair().unwrap()
                    &&& pairs_of(p.1.items()) == old(self).ranges()
                    &&& p.1.comparator() == old(self).comparator()
                    &&& p.1.position() == 0
                },
                None => old(self).next_pair() is None,
            },
    {
        match self.next() {
            Some(n) => match &self.last_next {
                Some(ln) => Some((n, OverlapsIter::new(&self.proxy, ln, &self.src))),
                None => None,
            },
            None => None,
        }
    }

    /// Steps backward like [OverlapIter::next_back]; with the segment comes a walk of the
    /// ranges that overlap it.
    pub fn next_back_overlaps(&mut self) -> (res: Option<(R, OverlapsIter<'_, T, C, R, R>)>)
        ensures
            final(self).same_setup(old(self)),
            final(self).columns() == old(self).columns(),
            final(self).back_pair() == spec_try_next_back(
                &old(self).comparator(),
                old(self).ranges(),
                old(self).step_value(),
                old(self).back_pair(),
                old(self).next_pair(),
            ),
            final(self).next_pair() == old(self).next_pair(),
            match res {
                Some(p) => {
                    &&& opt_pair(Some(p.0)) == old(self).back_pair()
                    &&& pair_of(p.1.target()) == old(self).back_pair().unwrap()
                    &&& pairs_of(p.1.items()) == old(self).ranges()
                    &&& p.1.comparator() == old(self).comparator()
                    &&& p.1.position() == 0
                },
                None => old(self).back_pair() is None,
            },
    {
        match self.next_back() {
            Some(b) => match &self.last_back {
                Some(lb) => Some((b, OverlapsIter::new(&self.proxy, lb, &self.src))),
                None => None,
            },
            None => None,
        }
    }

    /// The factory used to build ranges.
    pub fn get_factory(&self) -> (res: &F)
        ensures
            *res == self.factory_value(),
    {
        &self.factory
    }

    /// The comparator.
    pub fn get_cmp(&self) -> (res: &C)
        ensures
            *res == self.comparator(),
    {
        &self.proxy
    }

    /// After calling [OverlapIter::update_column], call this method in place of
    /// [OverlapIter::next] to return the properly updated next value.
    /// The backward walk starts over from the last segment.
    pub fn recompute_next(&mut self) -> (res: Option<R>)
        ensures
            ({
                let t = old(self).comparator();
                let s = old(self).ranges();
                let step = old(self).step_value();
                let b = spec_last_range(&t, s, step);
                &&& final(self).same_setup(old(self))
                &&& final(self).columns() == old(self).columns()
                &&& final(self).back_pair() == b
                &&& final(self).last_back_pair() is None
                &&& match old(self).last_next_pair() {
                    None => {
                        &&& res is None
                        &&& final(self).next_pair() == old(self).next_pair()
                        &&& final(self).last_next_pair() is None
                    },
                    Some(x) => {
                        let n = spec_try_next(&t, s, step, Some(x), b);
                        &&& opt_pair(res) == n
                        &&& final(self).next_pair() == spec_try_next(&t, s, step, n, b)
                        &&& final(self).last_next_pair() == n
                    },
                }
            }),
    {
        self.last_back = None;
        self.back = self.factory.factory(last_range_begin_end(self.src.as_slice(), &self.step, &self.proxy));
        match self.last_next.take() {
            Some(x) => {
                let x = Some(x);
                self.next = self.try_next(&x);
            },
            None => {
                return None;
            },
        }
        self.next()
    }

    /// After calling [OverlapIter::update_column], call this method in place of
    /// [OverlapIter::next_back] to return the properly updated back value.
    /// The forward walk starts over from the first segment.
    pub fn recompute_back(&mut self) -> (res: Option<R>)
        ensures
            ({
                let t = old(self).comparator();
                let s = old(self).ranges();
                let step = old(self).step_value();
                let n = spec_first_range(&t, s, step);
                &&& final(self).same_setup(old(self))
                &&& final(self).columns() == old(self).columns()
                &&& final(self).next_pair() == n
                &&& final(self).last_next_pair() is None
                &&& match old(self).last_back_pair() {
                    None => {
                        &&& res is None
                        &&& final(self).back_pair() == old(self).back_pair()
                        &&& final(self).last_back_pair() is None
                    },
                    Some(x) => {
                        let b = spec_try_next_back(&t, s, step, Some(x), n);
                        &&& opt_pair(res) == b
                        &&& final(self).back_pair() == spec_try_next_back(&t, s, step, b, n)
                        &&& final(self).last_back_pair() == b
                    },
                }
            }),
    {
        self.last_next = None;
        self.next = self.factory.factory(first_range_begin_end(self.src.as_slice(), &self.step, &self.proxy));
        match self.last_back.take() {
            Some(x) => {
                let x = Some(x);
                self.back = self.try_next_back(&x);
            },
            None => {
                return None;
            },
        }
        self.next_back()
    }

    /// Updates the internal column `idx` to the new range.
    /// Returns an error if the range is invalid or if the column does not exist.
    ///
    /// After calling this method call [OverlapIter::recompute_next] or
    /// [OverlapIter::recompute_back] before stepping on.
    pub fn update_column(&mut self, idx: usize, range: R) -> (res: Result<(), &'static str>)
        ensures
            final(self).step_value() == old(self).step_value(),
            final(self).comparator() == old(self).comparator(),
            final(self).factory_value() == old(self).factory_value(),
            final(self).columns() == old(self).columns(),
            final(self).next_pair() == old(self).next_pair(),
            final(self).back_pair() == old(self).back_pair(),
            final(self).last_next_pair() == old(self).last_next_pair(),
            final(self).last_back_pair() == old(self).last_back_pair(),
            idx >= old(self).columns() ==> res == Err::<(), &'static str>("No such Column")
                && final(self).ranges() == old(self).ranges(),
            idx < old(self).columns() && !spec_valid(&old(self).comparator(), pair_of(range))
                ==> res == Err::<(), &'static str>("Invalid Range") && final(self).ranges()
                == old(self).ranges(),
            idx < old(self).columns() && spec_valid(&old(self).comparator(), pair_of(range))
                ==> res is Ok && final(self).ranges() == old(self).ranges().update(
                idx as int,
                pair_of(range),
            ),
    {
        if idx < self.src.len() {
            if self.proxy.is_invalid_set(range.get_begin(), range.get_end()) {
                return Err("Invalid Range");
            }
            let ghost before = self.src@;
            self.src.set(idx, range);
            assert(pairs_of(self.src@) =~= pairs_of(before).update(idx as int, pair_of(range)));
            return Ok(());
        }
        Err("No such Column")
    }
}

/// This acts as a general [OverlapIter] factory: ranges are added one by one, each gets
/// the index of its column, and the whole set is then turned into an [OverlapIter].
pub struct Intersector<T, V, C: IncDecCpCmp<T, V>, R, F> {
    list: Vec<R>,
    step: V,
    rebound: V,
    proxy: C,
    factory: F,
    _r: core::marker::PhantomData<T>,
}

impl<T, V, C: IncDecCpCmp<T, V>, R: GetBeginEnd<T>, F: GetBeginEndOption<T, R>> Intersector<
    T,
    V,
    C,
    R,
    F,
> {
    /// The ranges added so far, in the order of their columns.
    pub closed spec fn ranges(&self) -> Seq<(T, T)> {
        pairs_of(self.list@)
    }

    /// The number of ranges added so far.
    pub closed spec fn columns(&self) -> nat {
        self.list@.len()
    }

    /// The step value.
    pub closed spec fn step_value(&self) -> V {
        self.step
    }

    /// The rebound value.
    pub closed spec fn rebound_value(&self) -> V {
        self.rebound
    }

    /// The comparator.
    pub closed spec fn comparator(&self) -> C {
        self.proxy
    }

    /// The factory.
    pub closed spec fn factory_value(&self) -> F {
        self.factory
    }

    /// The configuration that adding ranges does not change.
    pub open spec fn same_config(&self, other: &Self) -> bool {
        &&& self.step_value() == other.step_value()
        &&& self.rebound_value() == other.rebound_value()
        &&& self.comparator() == other.comparator()
        &&& self.factory_value() == other.factory_value()
    }

    /// Constructs a new instance of [Intersector].
    pub fn new(list: Vec<R>, step: V, rebound: V, cmp: C, factory: F) -> (res: Self)
        ensures
            res.ranges() == pairs_of(list@),
            res.columns() == list@.len(),
            res.step_value() == step,
            res.rebound_value() == rebound,
            res.comparator() == cmp,
            res.factory_value() == factory,
    {
        Self { list, step, rebound, proxy: cmp, factory, _r: core::marker::PhantomData }
    }

    /// Converts the current instance into an instance of [OverlapIter].
    pub fn into_iter(self) -> (res: OverlapIter<T, V, C, R, F>)
        ensures
            res.ranges() == self.ranges(),
            res.columns() == self.columns(),
            res.step_value() == self.step_value(),
            res.comparator() == self.comparator(),
            res.factory_value() == self.factory_value(),
            res.is_reset(),
    {
        OverlapIter::new(self.list, self.step, self.proxy, self.factory)
    }

    /// Converts self to an instance of [OverlapIterWithOverlaps].
    pub fn into_iter_overlaps(self) -> (res: OverlapIterWithOverlaps<T, V, C, R, F>)
        ensures
            res.walk().ranges() == self.ranges(),
            res.walk().step_value() == self.step_value(),
            res.walk().comparator() == self.comparator(),
            res.walk().factory_value() == self.factory_value(),
            res.walk().is_reset(),
    {
        OverlapIterWithOverlaps::new(self.into_iter())
    }

    /// Tries to add a range; returns None, and adds nothing, if the range is invalid.
    /// Otherwise returns the index of its column and a ref to the stored range.
    pub fn add_raw_range(&mut self, src: R) -> (res: Option<(usize, &R)>)
        ensures
            final(self).same_config(old(self)),
            !spec_valid(&old(self).comparator(), pair_of(src)) ==> res is None && final(self).ranges()
                == old(self).ranges() && final(self).columns() == old(self).columns(),
            spec_valid(&old(self).comparator(), pair_of(src)) ==> (res matches Some(p) && p.0
                == old(self).columns() && pair_of(*p.1) == pair_of(src) && final(self).ranges()
                == old(self).ranges().push(pair_of(src)) && final(self).columns() == old(
                self,
            ).columns() + 1),
    {
        if self.proxy.is_invalid_set(src.get_begin(), src.get_end()) {
            return None;
        }
        let ghost before = self.list@;
        self.list.push(src);
        assert(pairs_of(self.list@) =~= pairs_of(before).push(pair_of(src)));
        let id = self.list.len() - 1;
        Some((id, &self.list[id]))
    }

    /// Tries to create and add a valid internal range from the tuple of refs.
    pub fn add_from_tuple_ref(&mut self, src: (&T, &T)) -> (res: Option<(usize, &R)>)
        ensures
            final(self).same_config(old(self)),
            !spec_valid(&old(self).comparator(), (*src.0, *src.1)) ==> res is None
                && final(self).ranges() == old(self).ranges() && final(self).columns() == old(
                self,
            ).columns(),
            spec_valid(&old(self).comparator(), (*src.0, *src.1)) ==> (res matches Some(p) && p.0
                == old(self).columns() && pair_of(*p.1) == (*src.0, *src.1) && final(self).ranges()
                == old(self).ranges().push((*src.0, *src.1)) && final(self).columns() == old(
                self,
            ).columns() + 1),
    {
        let a = self.proxy.cp(src.0);
        let z = self.proxy.cp(src.1);
        self.add_from_tuple((a, z))
    }

    /// Tries to add a tuple to the instance, returns None if the range is invalid.
    pub fn add_from_tuple(&mut self, src: (T, T)) -> (res: Option<(usize, &R)>)
        ensures
            final(self).same_config(old(self)),
            !spec_valid(&old(self).comparator(), src) ==> res is None && final(self).ranges()
                == old(self).ranges() && final(self).columns() == old(self).columns(),
            spec_valid(&old(self).comparator(), src) ==> (res matches Some(p) && p.0 == old(
                self,
            ).columns() && pair_of(*p.1) == src && final(self).ranges() == old(self).ranges().push(
                src,
            ) && final(self).columns() == old(self).columns() + 1),
    {
        match self.factory.factory(Some(src)) {
            Some(r) => self.add_raw_range(r),
            None => None,
        }
    }

    /// This is a wrapper for [crate::range_bounds_to_values].
    pub fn rebound<B: std::ops::RangeBounds<T>>(&self, r: &B) -> (res: Option<(T, T)>)
        ensures
            exists|start: RangeBound<&T>, end: RangeBound<&T>|
                res == #[trigger] spec_bounds_to_values(
                    &self.comparator(),
                    start,
                    end,
                    self.rebound_value(),
                ),
    {
        let res = crate::utils::range_bounds_to_values(r, &self.rebound, &self.proxy);
        proof {
            let (start, end) = choose|start: RangeBound<&T>, end: RangeBound<&T>|
                res == #[trigger] spec_bounds_to_values(&self.proxy, start, end, self.rebound);
            assert(res == spec_bounds_to_values(&self.comparator(), start, end, self.rebound_value()));
        }
        res
    }

    /// Tries to convert a std range to the internal range type and add it.
    /// Returns None, and adds nothing, if the conversion fails or the range is invalid.
    pub fn add_range<B: std::ops::RangeBounds<T>>(&mut self, r: &B) -> (res: Option<(usize, &R)>)
        ensures
            final(self).same_config(old(self)),
            exists|start: RangeBound<&T>, end: RangeBound<&T>|
                match #[trigger] spec_bounds_to_values(
                    &old(self).comparator(),
                    start,
                    end,
                    old(self).rebound_value(),
                ) {
                    None => res is None && final(self).ranges() == old(self).ranges()
                        && final(self).columns() == old(self).columns(),
                    Some(v) => res matches Some(p) && p.0 == old(self).columns() && pair_of(*p.1)
                        == v && final(self).ranges() == old(self).ranges().push(v)
                        && final(self).columns() == old(self).columns() + 1,
                },
    {
        match self.rebound(r) {
            Some(src) => self.add_tuple(src),
            None => None,
        }
    }

    /// Tries to add a range given by its two bounds (see [crate::utils::bounds_to_values]).
    pub fn add_bounds(&mut self, start: RangeBound<&T>, end: RangeBound<&T>) -> (res: Option<
        (usize, &R),
    >)
        ensures
            final(self).same_config(old(self)),
            match spec_bounds_to_values(&old(self).comparator(), start, end, old(self).rebound_value()) {
                None => res is None && final(self).ranges() == old(self).ranges()
                    && final(self).columns() == old(self).columns(),
                Some(v) => res matches Some(p) && p.0 == old(self).columns() && pair_of(*p.1) == v
                    && final(self).ranges() == old(self).ranges().push(v) && final(self).columns()
                    == old(self).columns() + 1,
            },
    {
        match crate::utils::bounds_to_values(start, end, &self.rebound, &self.proxy) {
            Some(src) => self.add_tuple(src),
            None => None,
        }
    }

    /// Tries to convert a tuple to the internal range type and add it.
    /// Returns None if the resulting range is invalid.
    pub fn add_tuple(&mut self, src: (T, T)) -> (res: Option<(usize, &R)>)
        ensures
            final(self).same_config(old(self)),
            !spec_valid(&old(self).comparator(), src) ==> res is None && final(self).ranges()
                == old(self).ranges() && final(self).columns() == old(self).columns(),
            spec_valid(&old(self).comparator(), src) ==> (res matches Some(p) && p.0 == old(
                self,
            ).columns() && pair_of(*p.1) == src && final(self).ranges() == old(self).ranges().push(
                src,
            ) && final(self).columns() == old(self).columns() + 1),
    {
        self.add_from_tuple(src)
    }

    /// Returns a mutable ref to the internal comparator.
    pub fn get_cmp_mut(&mut self) -> (res: &mut C)
        ensures
            *res == old(self).comparator(),
            final(self).comparator() == *final(res),
            final(self).ranges() == old(self).ranges(),
            final(self).columns() == old(self).columns(),
            final(self).step_value() == old(self).step_value(),
            final(self).rebound_value() == old(self).rebound_value(),
            final(self).factory_value() == old(self).factory_value(),
    {
        &mut self.proxy
    }

    /// Returns a ref to the internal comparator.
    pub fn get_cmp(&self) -> (res: &C)
        ensures
            *res == self.comparator(),
    {
        &self.proxy
    }

    /// Returns a ref to the internal rebound value.
    pub fn get_rebound(&self) -> (res: &V)
        ensures
            *res == self.rebound_value(),
    {
        &self.rebound
    }

    /// Returns a ref to the internal step value.
    pub fn get_step(&self) -> (res: &V)
        ensures
            *res == self.step_value(),
    {
        &self.step
    }

    /// Updates the internal rebound value.
    pub fn set_rebound(&mut self, rebound: V)
        ensures
            final(self).rebound_value() == rebound,
            final(self).step_value() == old(self).step_value(),
            final(self).comparator() == old(self).comparator(),
            final(self).factory_value() == old(self).factory_value(),
            final(self).ranges() == old(self).ranges(),
            final(self).columns() == old(self).columns(),
    {
        self.rebound = rebound;
    }

    /// Updates the internal step value.
    pub fn set_step(&mut self, step: V)
        ensures
            final(self).step_value() == step,
            final(self).rebound_value() == old(self).rebound_value(),
            final(self).comparator() == old(self).comparator(),
            final(self).factory_value() == old(self).factory_value(),
            final(self).ranges() == old(self).ranges(),
            final(self).columns() == old(self).columns(),
    {
        self.step = step;
    }
}

/// Walks a list of ranges and yields, in order, those that overlap a given range.
pub struct OverlapsIter<'r, T, C: CpCmp<T>, R: GetBeginEnd<T>, S: GetBeginEnd<T>> {
    proxy: &'r C,
    pos: usize,
    range: &'r R,
    list: &'r Vec<S>,
    _t: core::marker::PhantomData<T>,
}

impl<'r, T, C: CpCmp<T>, R: GetBeginEnd<T>, S: GetBeginEnd<T>> OverlapsIter<'r, T, C, R, S> {
    /// The position of the next range of the list to look at.
    pub closed spec fn position(&self) -> nat {
        self.pos as nat
    }

    /// The range the list is compared with.
    pub closed spec fn target(&self) -> R {
        *self.range
    }

    /// The list walked.
    pub closed spec fn items(&self) -> Seq<S> {
        self.list@
    }

    /// The comparator.
    pub closed spec fn comparator(&self) -> C {
        *self.proxy
    }

    /// Whether the item at `i` overlaps the target.
    pub open spec fn overlaps_at(&self, i: int) -> bool {
        crate::utils::spec_overlap(
            &self.comparator(),
            self.target().spec_begin(),
            self.target().spec_end(),
            self.items()[i].spec_begin(),
            self.items()[i].spec_end(),
        )
    }

    /// Creates a walk of `list` for the ranges that overlap `range`.
    pub fn new(cmp: &'r C, range: &'r R, list: &'r Vec<S>) -> (res: Self)
        ensures
            res.position() == 0,
            res.target() == *range,
            res.items() == list@,
            res.comparator() == *cmp,
    {
        Self { proxy: cmp, pos: 0, range, list, _t: core::marker::PhantomData }
    }

    /// Returns the range the list is compared with.
    pub fn get_range(&self) -> (res: &'r R)
        ensures
            *res == self.target(),
    {
        self.range
    }

    /// Returns the next range of the list, from the current position on, that overlaps
    /// the target range.
    pub fn next(&mut self) -> (res: Option<&'r S>)
        requires
            old(self).position() <= old(self).items().len(),
        ensures
            final(self).target() == old(self).target(),
            final(self).items() == old(self).items(),
            final(self).comparator() == old(self).comparator(),
            final(self).position() <= final(self).items().len(),
            match res {
                Some(x) => {
                    &&& old(self).position() < final(self).position()
                    &&& *x == old(self).items()[final(self).position() - 1]
                    &&& old(self).overlaps_at(final(self).position() - 1)
                    &&& forall|i: int|
                        old(self).position() <= i < final(self).position() - 1 ==> !old(
                            self,
                        ).overlaps_at(i)
                },
                None => {
                    &&& final(self).position() == final(self).items().len()
                    &&& forall|i: int|
                        old(self).position() <= i < old(self).items().len() ==> !old(
                            self,
                        ).overlaps_at(i)
                },
            },
    {
        let (a, b) = self.range.to_tuple_ref();
        while self.pos < self.list.len()
            invariant
                old(self).position() <= self.pos <= self.list@.len(),
                self.target() == old(self).target(),
                self.items() == old(self).items(),
                self.comparator() == old(self).comparator(),
                *a == self.target().spec_begin(),
                *b == self.target().spec_end(),
                forall|i: int| old(self).position() <= i < self.pos ==> !old(self).overlaps_at(i),
            decreases self.list@.len() - self.pos,
        {
            let item = &self.list[self.pos];
            self.pos = self.pos + 1;
            let (c, d) = item.to_tuple_ref();
            if self.proxy.overlap(a, b, c, d) {
                return Some(item);
            }
        }
        None
    }
}

/// An [OverlapIter] whose steps also hand out the columns that overlap the segment
/// just returned.
pub struct OverlapIterWithOverlaps<
    T,
    V,
    C: IncDecCpCmp<T, V>,
    R: GetBeginEnd<T>,
    F: GetBeginEndOption<T, R>,
> {
    iter: OverlapIter<T, V, C, R, F>,
}

impl<T, V, C: IncDecCpCmp<T, V>, R: GetBeginEnd<T>, F: GetBeginEndOption<T, R>> OverlapIterWithOverlaps<
    T,
    V,
    C,
    R,
    F,
> {
    /// The walk underneath.
    pub closed spec fn walk(&self) -> OverlapIter<T, V, C, R, F> {
        self.iter
    }

    /// Wraps the walk.
    pub fn new(iter: OverlapIter<T, V, C, R, F>) -> (res: Self)
        ensures
            res.walk() == iter,
    {
        Self { iter }
    }

    /// Resets the walk to its starting state.
    pub fn reset(&mut self)
        ensures
            final(self).walk().same_setup(&old(self).walk()),
            final(self).walk().columns() == old(self).walk().columns(),
            final(self).walk().is_reset(),
    {
        self.iter.reset();
    }

    /// Steps forward; returns the segment and a walk of the columns that overlap it
    /// (see [OverlapIter::next_overlaps]).
    pub fn next(&mut self) -> (res: Option<(R, OverlapsIter<'_, T, C, R, R>)>)
        ensures
            final(self).walk().same_setup(&old(self).walk()),
            final(self).walk().columns() == old(self).walk().columns(),
            final(self).walk().next_pair() == spec_try_next(
                &old(self).walk().comparator(),
                old(self).walk().ranges(),
                old(self).walk().step_value(),
                old(self).walk().next_pair(),
                old(self).walk().back_pair(),
            ),
            final(self).walk().back_pair() == old(self).walk().back_pair(),
            match res {
                Some(p) => {
                    &&& opt_pair(Some(p.0)) == old(self).walk().next_pair()
                    &&& pair_of(p.1.target()) == old(self).walk().next_pair().unwrap()
                    &&& pairs_of(p.1.items()) == old(self).walk().ranges()
                    &&& p.1.comparator() == old(self).walk().comparator()
                    &&& p.1.position() == 0
                },
                None => old(self).walk().next_pair() is None,
            },
    {
        self.iter.next_overlaps()
    }

    /// Steps backward; returns the segment and a walk of the columns that overlap it
    /// (see [OverlapIter::next_back_overlaps]).
    pub fn next_back(&mut self) -> (res: Option<(R, OverlapsIter<'_, T, C, R, R>)>)
        ensures
            final(self).walk().same_setup(&old(self).walk()),
            final(self).walk().columns() == old(self).walk().columns(),
            final(self).walk().back_pair() == spec_try_next_back(
                &old(self).walk().comparator(),
                old(self).walk().ranges(),
                old(self).walk().step_value(),
                old(self).walk().back_pair(),
                old(self).walk().next_pair(),
            ),
            final(self).walk().next_pair() == old(self).walk().next_pair(),
            match res {
                Some(p) => {
                    &&& opt_pair(Some(p.0)) == old(self).walk().back_pair()
                    &&& pair_of(p.1.target()) == old(self).walk().back_pair().unwrap()
                    &&& pairs_of(p.1.items()) == old(self).walk().ranges()
                    &&& p.1.comparator() == old(self).walk().comparator()
                    &&& p.1.position() == 0
                },
                None => old(self).walk().back_pair() is None,
            },
    {
        self.iter.next_back_overlaps()
    }
}

/// The values held by the options of `s`, in order.
pub open spec fn somes<A>(s: Seq<Option<A>>) -> Seq<A>
    decreases s.len(),
{
    if s.len() == 0 {
        Seq::empty()
    } else {
        match s.last() {
            Some(v) => somes(s.drop_last()).push(v),
            None => somes(s.drop_last()),
        }
    }
}

/// Each entry of `conv` is what [spec_bounds_to_values] gives for some pair of bounds with
/// the comparator `t` and the rebound `rebound`.
pub open spec fn converted<T, V, C: IncDecCpCmp<T, V>>(t: &C, rebound: V, conv: Seq<Option<(T, T)>>) -> bool {
    forall|i: int|
        0 <= i < conv.len() ==> exists|start: RangeBound<&T>, end: RangeBound<&T>|
            #[trigger] conv[i] == spec_bounds_to_values(t, start, end, rebound)
}

/// Every range of s is valid for t.
pub open spec fn all_valid<T, C: CpCmp<T>>(t: &C, s: Seq<(T, T)>) -> bool {
    forall|i: int| 0 <= i < s.len() ==> spec_valid(t, #[trigger] s[i])
}

impl<T: Copy> Intersector<T, T, NumberIncDecCpCmp<T>, RangeInclusive<T>, RiFactory<T>> where
    NumberIncDecCpCmp<T>: DefaultValues<T, T>,
 {
    /// The comparator uses the type's default minimum and maximum.
    pub open spec fn has_default_bounds(&self) -> bool {
        &&& self.comparator().min_value() == NumberIncDecCpCmp::<T>::spec_default_min()
        &&& self.comparator().max_value() == NumberIncDecCpCmp::<T>::spec_default_max()
    }

    /// Returns a new empty instance configured for a primitive number type using the
    /// default values.
    pub fn num_defaults() -> (res: Self)
        ensures
            res.columns() == 0,
            res.ranges() == Seq::<(T, T)>::empty(),
            res.has_default_bounds(),
            res.step_value() == res.comparator().spec_default_step(),
            res.rebound_value() == res.comparator().spec_default_rebound(),
    {
        let c = NumberIncDecCpCmp::<T>::defaults();
        let step = c.default_step();
        let rebound = c.default_rebound();
        let res = Self::new(Vec::new(), step, rebound, c, RiFactory::new());
        res
    }

    /// Returns a new empty instance configured with the given step, rebound, minimum and
    /// maximum.
    pub fn num(step: T, rebound: T, min: T, max: T) -> (res: Self)
        ensures
            res.columns() == 0,
            res.ranges() == Seq::<(T, T)>::empty(),
            res.step_value() == step,
            res.rebound_value() == rebound,
            res.comparator().min_value() == min,
            res.comparator().max_value() == max,
    {
        Self::new(Vec::new(), step, rebound, NumberIncDecCpCmp::new(min, max), RiFactory::new())
    }

    /// Returns a new empty instance with the default bounds, whose step and rebound
    /// values are both `sr`.
    pub fn num_sr(sr: T) -> (res: Self)
        ensures
            res.columns() == 0,
            res.ranges() == Seq::<(T, T)>::empty(),
            res.has_default_bounds(),
            res.step_value() == sr,
            res.rebound_value() == sr,
    {
        Self::new(Vec::new(), sr, sr, NumberIncDecCpCmp::defaults(), RiFactory::new())
    }

    /// Adds every range of `src` that converts to a valid range.
    fn add_all<B: std::ops::RangeBounds<T>>(&mut self, src: &[B])
        requires
            all_valid(&old(self).comparator(), old(self).ranges()),
        ensures
            final(self).same_config(old(self)),
            final(self).has_default_bounds() == old(self).has_default_bounds(),
            all_valid(&final(self).comparator(), final(self).ranges()),
            final(self).columns() <= old(self).columns() + src@.len(),
            exists|conv: Seq<Option<(T, T)>>|
                {
                    &&& conv.len() == src@.len()
                    &&& converted(&old(self).comparator(), old(self).rebound_value(), conv)
                    &&& #[trigger] final(self).ranges() == old(self).ranges() + somes(conv)
                    &&& final(self).columns() == old(self).columns() + somes(conv).len()
                },
    {
        let ghost mut conv: Seq<Option<(T, T)>> = Seq::empty();
        let mut i: usize = 0;
        proof {
            assert(old(self).ranges() + somes(conv) =~= old(self).ranges());
        }
        while i < src.len()
            invariant
                0 <= i <= src@.len(),
                self.same_config(old(self)),
                all_valid(&self.comparator(), self.ranges()),
                self.columns() <= old(self).columns() + i,
                conv.len() == i,
                converted(&old(self).comparator(), old(self).rebound_value(), conv),
                self.ranges() == old(self).ranges() + somes(conv),
                self.columns() == old(self).columns() + somes(conv).len(),
            decreases src@.len() - i,
        {
            let ghost before = self.ranges();
            let ghost prev = conv;
            let added = self.add_range(&src[i]);
            proof {
                let (start, end) = choose|start: RangeBound<&T>, end: RangeBound<&T>|
                    match #[trigger] spec_bounds_to_values(
                        &old(self).comparator(),
                        start,
                        end,
                        old(self).rebound_value(),
                    ) {
                        None => added is None && self.ranges() == before
                            && self.columns() == old(self).columns() + somes(prev).len(),
                        Some(v) => self.ranges() == before.push(v)
                            && self.columns() == old(self).columns() + somes(prev).len() + 1,
                    };
                let o = spec_bounds_to_values(&old(self).comparator(), start, end, old(self).rebound_value());
                conv = prev.push(o);
                assert(conv.drop_last() =~= prev);
                assert forall|k: int| 0 <= k < conv.len() implies exists|
                    st: RangeBound<&T>,
                    en: RangeBound<&T>,
                | #[trigger] conv[k] == spec_bounds_to_values(&old(self).comparator(), st, en, old(self).rebound_value()) by {
                    if k < prev.len() {
                        assert(conv[k] == prev[k]);
                    } else {
                        assert(conv[k] == spec_bounds_to_values(&old(self).comparator(), start, end, old(self).rebound_value()));
                    }
                }
                match o {
                    Some(v) => {
                        assert(self.ranges() =~= old(self).ranges() + somes(conv));
                    },
                    None => {
                        assert(self.ranges() =~= old(self).ranges() + somes(conv));
                    },
                }
            }
            i = i + 1;
        }
    }

    /// Takes a list of ranges of numbers and converts them to an instance of [OverlapIter],
    /// keeping those that convert to valid ranges.
    pub fn num_from<B: std::ops::RangeBounds<T>>(src: &[B]) -> (res: OverlapIter<
        T,
        T,
        NumberIncDecCpCmp<T>,
        RangeInclusive<T>,
        RiFactory<T>,
    >)
        ensures
            res.comparator().min_value() == NumberIncDecCpCmp::<T>::spec_default_min(),
            res.comparator().max_value() == NumberIncDecCpCmp::<T>::spec_default_max(),
            res.step_value() == res.comparator().spec_default_step(),
            all_valid(&res.comparator(), res.ranges()),
            res.columns() <= src@.len(),
            res.is_reset(),
            exists|conv: Seq<Option<(T, T)>>|
                {
                    &&& conv.len() == src@.len()
                    &&& converted(&res.comparator(), res.comparator().spec_default_rebound(), conv)
                    &&& #[trigger] res.ranges() == somes(conv)
                },
    {
        let mut i = Self::num_defaults();
        i.add_all(src);
        i.into_iter()
    }

    /// Takes a list of ranges of numbers and converts them to an instance of
    /// [OverlapIterWithOverlaps].
    pub fn num_from_ol<B: std::ops::RangeBounds<T>>(src: &[B]) -> (res: OverlapIterWithOverlaps<
        T,
        T,
        NumberIncDecCpCmp<T>,
        RangeInclusive<T>,
        RiFactory<T>,
    >)
        ensures
            res.walk().comparator().min_value() == NumberIncDecCpCmp::<T>::spec_default_min(),
            res.walk().comparator().max_value() == NumberIncDecCpCmp::<T>::spec_default_max(),
            res.walk().step_value() == res.walk().comparator().spec_default_step(),
            all_valid(&res.walk().comparator(), res.walk().ranges()),
            res.walk().is_reset(),
            exists|conv: Seq<Option<(T, T)>>|
                {
                    &&& conv.len() == src@.len()
                    &&& converted(&res.walk().comparator(), res.walk().comparator().spec_default_rebound(), conv)
                    &&& #[trigger] res.walk().ranges() == somes(conv)
                },
    {
        let mut i = Self::num_defaults();
        i.add_all(src);
        i.into_iter_overlaps()
    }

    /// Takes a list of ranges of numbers and converts them to an instance of [OverlapIter],
    /// with the step and rebound values set to sr.
    pub fn num_sr_from<B: std::ops::RangeBounds<T>>(sr: T, src: &[B]) -> (res: OverlapIter<
        T,
        T,
        NumberIncDecCpCmp<T>,
        RangeInclusive<T>,
        RiFactory<T>,
    >)
        ensures
            res.comparator().min_value() == NumberIncDecCpCmp::<T>::spec_default_min(),
            res.comparator().max_value() == NumberIncDecCpCmp::<T>::spec_default_max(),
            res.step_value() == sr,
            all_valid(&res.comparator(), res.ranges()),
            res.columns() <= src@.len(),
            res.is_reset(),
            exists|conv: Seq<Option<(T, T)>>|
                {
                    &&& conv.len() == src@.len()
                    &&& converted(&res.comparator(), sr, conv)
                    &&& #[trigger] res.ranges() == somes(conv)
                },
    {
        let mut i = Self::num_sr(sr);
        i.add_all(src);
        i.into_iter()
    }

    /// Takes a list of ranges of numbers and converts them to an instance of
    /// [OverlapIterWithOverlaps], with the step and rebound values set to sr.
    pub fn num_from_sr_ol<B: std::ops::RangeBounds<T>>(sr: T, src: &[B]) -> (res: OverlapIterWithOverlaps<
        T,
        T,
        NumberIncDecCpCmp<T>,
        RangeInclusive<T>,
        RiFactory<T>,
    >)
        ensures
            res.walk().comparator().min_value() == NumberIncDecCpCmp::<T>::spec_default_min(),
            res.walk().comparator().max_value() == NumberIncDecCpCmp::<T>::spec_default_max(),
            res.walk().step_value() == sr,
            all_valid(&res.walk().comparator(), res.walk().ranges()),
            res.walk().is_reset(),
            exists|conv: Seq<Option<(T, T)>>|
                {
                    &&& conv.len() == src@.len()
                    &&& converted(&res.walk().comparator(), sr, conv)
                    &&& #[trigger] res.walk().ranges() == somes(conv)
                },
    {
        let mut i = Self::num_sr(sr);
        i.add_all(src);
        i.into_iter_overlaps()
    }
}

} // verus!
