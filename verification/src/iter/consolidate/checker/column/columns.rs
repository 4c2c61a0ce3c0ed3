use vstd::prelude::*;

use crate::builder::{CpCmp, DefaultValues, GetBeginEndOption, IncDecCpCmp, NumberIncDecCpCmp, RiFactory};
use crate::iter::consolidate::checker::column::{
    after_filter, column_step, column_stepped, filtered, lemma_column_step_puts, lemma_selected_overlap,
    placed, puts, result_view, rows_view, Column,
};
use crate::iter::consolidate::checker::{checked_step, ConsolidateChecker};
use crate::iter::consolidate::{position_check, Consolidate, ConsolidationOrder};
use crate::iter::{opt_pair, spec_try_next, spec_try_next_back, Intersector, OverlapIter};
use crate::utils::{spec_first_range, spec_last_range, spec_valid};
use crate::{pair_of, replaced_at, ConsolidateMrsP, GetBeginEnd};

use std::ops::RangeInclusive;
use std::rc::Rc;

verus! {

/// What [Column::new] makes of a fresh checked consolidation of `input` in the order
/// `order`, with the comparator `t`, when the walk already has `idx` columns: the column
/// holds the first group (or the error's group), and has the index `idx` when that group
/// was in order and valid.
pub open spec fn started<T, R: GetBeginEnd<T>, S: GetBeginEnd<T>, F: GetBeginEndOption<T, R>, C: CpCmp<T>>(
    c: Column<T, R, S, F, C>,
    order: ConsolidationOrder,
    t: C,
    input: Seq<S>,
    idx: usize,
) -> bool {
    let s = checked_step(order, &t, None, input, 0);
    &&& c.error() is Ok
    &&& c.order() == order
    &&& c.comparator() == t
    &&& c.checker().consolidation().open_group() == s.1
    &&& c.checker().consolidation().input() == s.2
    &&& c.checker().consolidation().position() == s.3
    &&& c.wf()
    &&& match s.0 {
        None => {
            &&& c.column() == Err::<usize, &'static str>("checker has no next()")
            &&& c.rows().len() == 0
        },
        Some(Err(e)) => {
            &&& c.column() == Err::<usize, &'static str>(e.0)
            &&& rows_view(c.rows()) == seq![e.1]
        },
        Some(Ok(g)) => {
            &&& rows_view(c.rows()) == seq![g]
            &&& c.column() == if spec_valid(&t, g.0) {
                Ok::<usize, &'static str>(idx)
            } else {
                Err::<usize, &'static str>("Failed to add column from: checker")
            }
        },
    }
}

/// True when the first checked group of `input` is in order and valid, so that a column
/// made of it joins the walk.
pub open spec fn joins<T, S: GetBeginEnd<T>, C: CpCmp<T>>(
    order: ConsolidationOrder,
    t: C,
    input: Seq<S>,
) -> bool {
    checked_step(order, &t, None, input, 0).0 matches Some(Ok(g)) && spec_valid(&t, g.0)
}

/// A factory of [ColumnsIter]: each column added is a list of ranges, consolidated and
/// checked to come in the expected [ConsolidationOrder].
pub struct Columns<
    T,
    V,
    R: GetBeginEnd<T>,
    S: GetBeginEnd<T>,
    C: IncDecCpCmp<T, V>,
    F: GetBeginEndOption<T, R>,
> {
    isec: Intersector<T, V, C, RangeInclusive<T>, RiFactory<T>>,
    factory: F,
    columns: Vec<Column<T, R, S, F, C>>,
    proxy: C,
    order: ConsolidationOrder,
}

impl<
    T,
    V,
    R: GetBeginEnd<T>,
    S: GetBeginEnd<T>,
    C: IncDecCpCmp<T, V> + Copy,
    F: GetBeginEndOption<T, R> + Copy,
> Columns<T, V, R, S, C, F> {
    /// The walk's first ranges: the first group of each column added.
    pub closed spec fn intersector(&self) -> Intersector<T, V, C, RangeInclusive<T>, RiFactory<T>> {
        self.isec
    }

    /// The columns added, in order.
    pub closed spec fn column_list(&self) -> Seq<Column<T, R, S, F, C>> {
        self.columns@
    }

    /// The comparator.
    pub closed spec fn comparator(&self) -> C {
        self.proxy
    }

    /// The factory of the consolidated groups.
    pub closed spec fn factory_value(&self) -> F {
        self.factory
    }

    /// The expected order.
    pub closed spec fn order(&self) -> ConsolidationOrder {
        self.order
    }

    /// The walk compares as the columns do, and every column is well formed.
    pub open spec fn wf(&self) -> bool {
        &&& self.intersector().comparator() == self.comparator()
        &&& forall|i: int|
            0 <= i < self.column_list().len() ==> (#[trigger] self.column_list()[i]).wf()
                && self.column_list()[i].order() == self.order()
    }

    /// Creates a new instance of the [Columns] factory which can be converted into a
    /// [ColumnsIter].
    pub fn new(order: ConsolidationOrder, cmp: C, factory: F, step: V, rebound: V) -> (res: Self)
        ensures
            res.wf(),
            res.order() == order,
            res.comparator() == cmp,
            res.factory_value() == factory,
            res.column_list().len() == 0,
            res.intersector().columns() == 0,
            res.intersector().ranges().len() == 0,
            res.intersector().step_value() == step,
            res.intersector().rebound_value() == rebound,
    {
        Self {
            isec: Intersector::new(Vec::new(), step, rebound, cmp, RiFactory::new()),
            factory,
            columns: Vec::new(),
            proxy: cmp,
            order,
        }
    }

    /// Tries to add the column to the set of columns.
    ///  - Ok([usize]) is the id of the column
    ///  - Err([Column]) is the column that failed to be added.
    pub fn add_column(&mut self, iter: Vec<S>) -> (res: Result<usize, Column<T, R, S, F, C>>)
        requires
            old(self).wf(),
        ensures
            final(self).wf(),
            final(self).order() == old(self).order(),
            final(self).comparator() == old(self).comparator(),
            final(self).factory_value() == old(self).factory_value(),
            final(self).intersector().same_config(&old(self).intersector()),
            joins(old(self).order(), old(self).comparator(), iter@) <==> res is Ok,
            match res {
                Ok(id) => {
                    &&& id == old(self).intersector().columns() as usize
                    &&& final(self).column_list().len() == old(self).column_list().len() + 1
                    &&& final(self).column_list().drop_last() == old(self).column_list()
                    &&& started(
                        final(self).column_list().last(),
                        old(self).order(),
                        old(self).comparator(),
                        iter@,
                        old(self).intersector().columns() as usize,
                    )
                    &&& checked_step(old(self).order(), &old(self).comparator(), None, iter@, 0).0
                        matches Some(Ok(g)) && final(self).intersector().ranges() == old(
                        self,
                    ).intersector().ranges().push(g.0)
                    &&& final(self).intersector().columns() == old(self).intersector().columns()
                        + 1
                },
                Err(c) => {
                    &&& started(
                        c,
                        old(self).order(),
                        old(self).comparator(),
                        iter@,
                        old(self).intersector().columns() as usize,
                    )
                    &&& final(self).column_list() == old(self).column_list()
                    &&& final(self).intersector().ranges() == old(self).intersector().ranges()
                    &&& final(self).intersector().columns() == old(self).intersector().columns()
                },
            },
    {
        let con = Consolidate::new(iter, self.proxy, self.factory);
        let checker = ConsolidateChecker::new(self.order, con);
        match Column::new(&mut self.isec, checker) {
            Ok(res) => {
                match res.get_column() {
                    Ok(id) => {
                        let ghost before = self.columns@;
                        self.columns.push(res);
                        assert(self.columns@.drop_last() =~= before);
                        Ok(id)
                    },
                    Err(_) => Err(res),
                }
            },
            Err(res) => Err(res),
        }
    }

    /// Converts the factory into a [ColumnsIter] over the columns added.
    pub fn into_iter(self) -> (res: ColumnsIter<T, V, R, S, C, F>)
        requires
            self.wf(),
        ensures
            res.wf(),
            res.needs_init(),
            res.order() == self.order(),
            res.column_list() == self.column_list(),
            res.walk().ranges() == self.intersector().ranges(),
            res.walk().columns() == self.intersector().columns(),
            res.walk().step_value() == self.intersector().step_value(),
            res.walk().comparator() == self.comparator(),
            res.walk().is_reset(),
    {
        ColumnsIter::new(self.isec.into_iter(), self.columns, self.order, true)
    }
}

impl<S: GetBeginEnd<T>, T: Copy> Columns<
    T,
    T,
    RangeInclusive<T>,
    S,
    NumberIncDecCpCmp<T>,
    RiFactory<T>,
> where NumberIncDecCpCmp<T>: DefaultValues<T, T> {
    /// Creates an instance for a primitive number type with the given step, rebound,
    /// minimum and maximum.
    pub fn num(order: ConsolidationOrder, step: T, rebound: T, min: T, max: T) -> (res: Self)
        ensures
            res.wf(),
            res.order() == order,
            res.comparator().min_value() == min,
            res.comparator().max_value() == max,
            res.column_list().len() == 0,
            res.intersector().columns() == 0,
            res.intersector().ranges().len() == 0,
            res.intersector().step_value() == step,
            res.intersector().rebound_value() == rebound,
    {
        let c = NumberIncDecCpCmp::new(min, max);
        let factory = RiFactory::new();
        Self::new(order, c, factory, step, rebound)
    }

    /// Creates a forward instance with the default bounds, whose step and rebound are `sr`.
    pub fn num_sr(sr: T) -> (res: Self)
        ensures
            res.wf(),
            res.order() == ConsolidationOrder::Forward,
            res.comparator().min_value() == NumberIncDecCpCmp::<T>::spec_default_min(),
            res.comparator().max_value() == NumberIncDecCpCmp::<T>::spec_default_max(),
            res.column_list().len() == 0,
            res.intersector().columns() == 0,
            res.intersector().ranges().len() == 0,
            res.intersector().step_value() == sr,
            res.intersector().rebound_value() == sr,
    {
        let c = NumberIncDecCpCmp::defaults();
        let factory = RiFactory::new();
        Self::new(ConsolidationOrder::Forward, c, factory, sr, sr)
    }

    /// Creates a forward instance with all the default values.
    pub fn num_defaults() -> (res: Self)
        ensures
            res.wf(),
            res.order() == ConsolidationOrder::Forward,
            res.comparator().min_value() == NumberIncDecCpCmp::<T>::spec_default_min(),
            res.comparator().max_value() == NumberIncDecCpCmp::<T>::spec_default_max(),
            res.column_list().len() == 0,
            res.intersector().columns() == 0,
            res.intersector().ranges().len() == 0,
            res.intersector().step_value() == res.comparator().spec_default_step(),
            res.intersector().rebound_value() == res.comparator().spec_default_step(),
    {
        let c = NumberIncDecCpCmp::<T>::defaults();
        Self::new(ConsolidationOrder::Forward, c, RiFactory::new(), c.default_step(), c.default_step())
    }

    /// Creates a reverse instance with all the default values.
    pub fn num_defaults_rev() -> (res: Self)
        ensures
            res.wf(),
            res.order() == ConsolidationOrder::Reverse,
            res.comparator().min_value() == NumberIncDecCpCmp::<T>::spec_default_min(),
            res.comparator().max_value() == NumberIncDecCpCmp::<T>::spec_default_max(),
            res.column_list().len() == 0,
            res.intersector().columns() == 0,
            res.intersector().ranges().len() == 0,
            res.intersector().step_value() == res.comparator().spec_default_step(),
            res.intersector().rebound_value() == res.comparator().spec_default_step(),
    {
        let c = NumberIncDecCpCmp::<T>::defaults();
        Self::new(ConsolidationOrder::Reverse, c, RiFactory::new(), c.default_step(), c.default_step())
    }
}

/// The first error among filtering results, in order, if any.
pub open spec fn first_error<X>(s: Seq<Result<X, &'static str>>) -> Result<(), &'static str>
    decreases s.len(),
{
    if s.len() == 0 {
        Ok(())
    } else {
        match first_error(s.drop_last()) {
            Err(e) => Err(e),
            Ok(_) => match s.last() {
                Err(e) => Err(e),
                Ok(_) => Ok(()),
            },
        }
    }
}

/// The item of a [ColumnsIter]: the segment, the first error of a column, and what each
/// column holds for the segment (see [Column::filter_column]).
pub type ColumnsItem<T, R, S> = (
    RangeInclusive<T>,
    Result<(), &'static str>,
    Vec<Result<Vec<Rc<ConsolidateMrsP<T, R, S>>>, &'static str>>,
);

/// The walk's ranges after the first `n` columns of `cols` were read on toward `target`:
/// each column that puts its group in the walk (see [puts]) replaces the walk's range at its
/// index with that group (see [placed]).
pub open spec fn moved_ranges<T, R: GetBeginEnd<T>, S: GetBeginEnd<T>, F: GetBeginEndOption<T, R>, C: CpCmp<T>>(
    ranges: Seq<(T, T)>,
    cols: Seq<Column<T, R, S, F, C>>,
    target: (T, T),
    reset: bool,
    columns: nat,
    t: C,
    n: nat,
) -> Seq<(T, T)>
    decreases n,
{
    if n == 0 || n > cols.len() {
        ranges
    } else {
        let prev = moved_ranges(ranges, cols, target, reset, columns, t, (n - 1) as nat);
        let c = cols[n - 1];
        match c.column() {
            Ok(idx) => if puts(c, target, reset, columns, t) {
                replaced_at(prev, idx, placed(c, target, reset))
            } else {
                prev
            },
            Err(_) => prev,
        }
    }
}

/// The segment a walk over `s` recomputes in the order `order` from the segment it returned
/// last that way (see [OverlapIter::recompute_next], [OverlapIter::recompute_back]).
pub open spec fn recomputed_segment<T, V, C: IncDecCpCmp<T, V>>(
    order: ConsolidationOrder,
    t: &C,
    s: Seq<(T, T)>,
    step: V,
    last_next: Option<(T, T)>,
    last_back: Option<(T, T)>,
) -> Option<(T, T)> {
    match order {
        ConsolidationOrder::Forward => match last_next {
            None => None,
            Some(x) => spec_try_next(t, s, step, Some(x), spec_last_range(t, s, step)),
        },
        ConsolidationOrder::Reverse => match last_back {
            None => None,
            Some(x) => spec_try_next_back(t, s, step, Some(x), spec_first_range(t, s, step)),
        },
    }
}

/// Steps through the segments of the walk of the columns' groups, reading each column on
/// as the walk passes its groups.
pub struct ColumnsIter<
    T,
    V,
    R: GetBeginEnd<T>,
    S: GetBeginEnd<T>,
    C: IncDecCpCmp<T, V>,
    F: GetBeginEndOption<T, R>,
> {
    iter: OverlapIter<T, V, C, RangeInclusive<T>, RiFactory<T>>,
    cols: Vec<Column<T, R, S, F, C>>,
    order: ConsolidationOrder,
    needs_init: bool,
}

impl<
    T,
    V,
    R: GetBeginEnd<T>,
    S: GetBeginEnd<T>,
    C: IncDecCpCmp<T, V>,
    F: GetBeginEndOption<T, R>,
> ColumnsIter<T, V, R, S, C, F> {
    /// The walk of the segments.
    pub closed spec fn walk(&self) -> OverlapIter<T, V, C, RangeInclusive<T>, RiFactory<T>> {
        self.iter
    }

    /// The columns.
    pub closed spec fn column_list(&self) -> Seq<Column<T, R, S, F, C>> {
        self.cols@
    }

    /// The order of the walk.
    pub closed spec fn order(&self) -> ConsolidationOrder {
        self.order
    }

    /// True until the first step.
    pub closed spec fn needs_init(&self) -> bool {
        self.needs_init
    }

    /// Every column is well formed.
    pub open spec fn wf(&self) -> bool {
        forall|i: int| 0 <= i < self.column_list().len() ==> (#[trigger] self.column_list()[i]).wf()
    }

    /// The segment the walk returns next in its order.
    pub open spec fn coming(&self) -> Option<(T, T)> {
        match self.order() {
            ConsolidationOrder::Forward => self.walk().next_pair(),
            ConsolidationOrder::Reverse => self.walk().back_pair(),
        }
    }

    /// The segment the walk returned last in its order.
    pub open spec fn passed(&self) -> Option<(T, T)> {
        match self.order() {
            ConsolidationOrder::Forward => self.walk().last_next_pair(),
            ConsolidationOrder::Reverse => self.walk().last_back_pair(),
        }
    }

    /// The segment the columns are read on toward at a step: the coming one, or, when the
    /// walk has none, the one it passed last.
    pub open spec fn toward(&self) -> (T, T) {
        match self.coming() {
            Some(c) => c,
            None => self.passed().unwrap(),
        }
    }

    /// Whether a later step recomputes the walk: when the walk has no coming segment, or
    /// when a column puts its group in the walk on the way toward it.
    pub open spec fn redoes(&self) -> bool {
        self.coming() is None || exists|j: int|
            0 <= j < self.column_list().len() && #[trigger] puts(
                self.column_list()[j],
                self.toward(),
                false,
                self.walk().columns(),
                self.walk().comparator(),
            )
    }

    /// The walk's ranges after the columns are read on toward [ColumnsIter::toward] at a
    /// later step.
    pub open spec fn moved(&self) -> Seq<(T, T)> {
        moved_ranges(
            self.walk().ranges(),
            self.column_list(),
            self.toward(),
            self.coming() is None,
            self.walk().columns(),
            self.walk().comparator(),
            self.column_list().len(),
        )
    }

    /// The segment a later step returns: the coming one, or, when the step recomputes the
    /// walk, the one recomputed over the moved ranges (see [ColumnsIter::redoes],
    /// [ColumnsIter::moved]).
    pub open spec fn next_segment(&self) -> Option<(T, T)> {
        if self.redoes() {
            recomputed_segment(
                self.order(),
                &self.walk().comparator(),
                self.moved(),
                self.walk().step_value(),
                self.walk().last_next_pair(),
                self.walk().last_back_pair(),
            )
        } else {
            self.coming()
        }
    }

    /// Column `i` of `after` results from a step of `self` that returned `res`: the column
    /// was read on toward [ColumnsIter::toward] (see [Column::update_column]), and then, when
    /// a segment came out, filtered with it (see [Column::filter_column]).
    pub open spec fn advanced(&self, after: &Self, res: Option<ColumnsItem<T, R, S>>, i: int) -> bool {
        exists|m: Column<T, R, S, F, C>|
            {
                &&& #[trigger] column_stepped(
                    self.column_list()[i],
                    m,
                    self.toward(),
                    self.coming() is None,
                    self.walk().columns(),
                    self.walk().comparator(),
                )
                &&& match res {
                    Some(x) => result_view(x.2@[i]) == filtered(m, pair_of(x.0)) && rows_view(
                        after.column_list()[i].rows(),
                    ) == after_filter(m, pair_of(x.0)),
                    None => after.column_list()[i] == m,
                }
            }
    }

    /// What the columns keep from one step to the next: their number, and each its index,
    /// order, comparator and well-formedness.
    pub open spec fn same_columns(&self, other: &Self) -> bool {
        &&& self.column_list().len() == other.column_list().len()
        &&& forall|i: int|
            0 <= i < self.column_list().len() ==> {
                &&& (#[trigger] self.column_list()[i]).column() == other.column_list()[i].column()
                &&& self.column_list()[i].order() == other.column_list()[i].order()
                &&& self.column_list()[i].comparator() == other.column_list()[i].comparator()
            }
    }

    /// Constructs a new instance of [ColumnsIter].
    pub fn new(
        iter: OverlapIter<T, V, C, RangeInclusive<T>, RiFactory<T>>,
        cols: Vec<Column<T, R, S, F, C>>,
        order: ConsolidationOrder,
        needs_init: bool,
    ) -> (res: Self)
        ensures
            res.walk() == iter,
            res.column_list() == cols@,
            res.order() == order,
            res.needs_init() == needs_init,
    {
        Self { iter, cols, order, needs_init }
    }

    /// Converts self to a tuple, whose contents can be used to construct a new instance.
    pub fn into_inner(self) -> (res: (
        OverlapIter<T, V, C, RangeInclusive<T>, RiFactory<T>>,
        Vec<Column<T, R, S, F, C>>,
        ConsolidationOrder,
        bool,
    ))
        ensures
            res.0 == self.walk(),
            res.1@ == self.column_list(),
            res.2 == self.order(),
            res.3 == self.needs_init(),
    {
        (self.iter, self.cols, self.order, self.needs_init)
    }

    /// Returns the column `idx`, with the groups it holds, if there is one.
    pub fn get_column(&self, idx: usize) -> (res: Option<&Column<T, R, S, F, C>>)
        ensures
            idx < self.column_list().len() ==> res == Some(&self.column_list()[idx as int]),
            idx >= self.column_list().len() ==> res is None,
    {
        if idx < self.cols.len() {
            Some(&self.cols[idx])
        } else {
            None
        }
    }

    /// Filters every column with the segment `q`; returns the first error and the results.
    fn filter_all(&mut self, q: &RangeInclusive<T>) -> (res: (
        Result<(), &'static str>,
        Vec<Result<Vec<Rc<ConsolidateMrsP<T, R, S>>>, &'static str>>,
    ))
        requires
            old(self).wf(),
        ensures
            final(self).wf(),
            final(self).walk() == old(self).walk(),
            final(self).order() == old(self).order(),
            final(self).needs_init() == old(self).needs_init(),
            final(self).same_columns(old(self)),
            res.1@.len() == old(self).column_list().len(),
            res.0 == first_error(res.1@),
            forall|i: int|
                0 <= i < res.1@.len() ==> {
                    &&& result_view(#[trigger] res.1@[i]) == filtered(
                        old(self).column_list()[i],
                        pair_of(*q),
                    )
                    &&& rows_view(final(self).column_list()[i].rows()) == after_filter(
                        old(self).column_list()[i],
                        pair_of(*q),
                    )
                    &&& final(self).column_list()[i].checker() == old(self).column_list()[i].checker()
                    &&& final(self).column_list()[i].error() == old(self).column_list()[i].error()
                },
    {
        let mut out: Vec<Result<Vec<Rc<ConsolidateMrsP<T, R, S>>>, &'static str>> = Vec::new();
        let mut first: Result<(), &'static str> = Ok(());
        let n = self.cols.len();
        let mut i: usize = 0;
        while i < n
            invariant
                0 <= i <= n,
                n == self.cols@.len(),
                n == old(self).cols@.len(),
                self.iter == old(self).iter,
                self.order == old(self).order,
                self.needs_init == old(self).needs_init,
                out@.len() == i,
                first == first_error(out@),
                forall|j: int| 0 <= j < n ==> (#[trigger] self.cols@[j]).wf(),
                forall|j: int|
                    0 <= j < n ==> {
                        &&& (#[trigger] self.cols@[j]).column() == old(self).cols@[j].column()
                        &&& self.cols@[j].checker() == old(self).cols@[j].checker()
                        &&& self.cols@[j].error() == old(self).cols@[j].error()
                    },
                forall|j: int| i <= j < n ==> #[trigger] self.cols@[j] == old(self).cols@[j],
                forall|j: int|
                    0 <= j < i ==> {
                        &&& result_view(#[trigger] out@[j]) == filtered(
                            old(self).cols@[j],
                            pair_of(*q),
                        )
                        &&& rows_view(self.cols@[j].rows()) == after_filter(
                            old(self).cols@[j],
                            pair_of(*q),
                        )
                    },
            decreases n - i,
        {
            let r = self.cols[i].filter_column(q);
            let ghost before = out@;
            if first.is_ok() {
                match &r {
                    Err(e) => {
                        first = Err(*e);
                    },
                    Ok(_) => {},
                }
            }
            out.push(r);
            assert(out@.drop_last() == before);
            i = i + 1;
        }
        (first, out)
    }

    /// Reads every column on to the segment `r` (see [Column::update_column]); returns true
    /// when the walk was changed.
    fn update_all(&mut self, r: &RangeInclusive<T>, reset: bool) -> (redo: bool)
        requires
            old(self).wf(),
        ensures
            final(self).wf(),
            final(self).walk().same_update(&old(self).walk()),
            final(self).order() == old(self).order(),
            final(self).needs_init() == old(self).needs_init(),
            final(self).same_columns(old(self)),
            !redo ==> final(self).walk().ranges() == old(self).walk().ranges(),
            final(self).walk().ranges() == moved_ranges(
                old(self).walk().ranges(),
                old(self).column_list(),
                pair_of(*r),
                reset,
                old(self).walk().columns(),
                old(self).walk().comparator(),
                old(self).column_list().len(),
            ),
            redo == exists|j: int|
                0 <= j < old(self).column_list().len() && #[trigger] puts(
                    old(self).column_list()[j],
                    pair_of(*r),
                    reset,
                    old(self).walk().columns(),
                    old(self).walk().comparator(),
                ),
            forall|i: int|
                0 <= i < old(self).column_list().len() ==> column_stepped(
                    old(self).column_list()[i],
                    #[trigger] final(self).column_list()[i],
                    pair_of(*r),
                    reset,
                    old(self).walk().columns(),
                    old(self).walk().comparator(),
                ),
    {
        let mut redo = false;
        let n = self.cols.len();
        assert(forall|j: int| 0 <= j < n ==> self.cols@[j] == old(self).column_list()[j]);
        let mut i: usize = 0;
        while i < n
            invariant
                0 <= i <= n,
                n == self.cols@.len(),
                n == old(self).cols@.len(),
                self.iter.same_update(&old(self).iter),
                !redo ==> self.iter.ranges() == old(self).iter.ranges(),
                self.iter.ranges() == moved_ranges(
                    old(self).iter.ranges(),
                    old(self).cols@,
                    pair_of(*r),
                    reset,
                    old(self).iter.columns(),
                    old(self).iter.comparator(),
                    i as nat,
                ),
                redo == exists|j: int|
                    0 <= j < i && #[trigger] puts(
                        old(self).cols@[j],
                        pair_of(*r),
                        reset,
                        old(self).iter.columns(),
                        old(self).iter.comparator(),
                    ),
                self.order == old(self).order,
                self.needs_init == old(self).needs_init,
                forall|j: int| 0 <= j < n ==> (#[trigger] self.cols@[j]).wf(),
                forall|j: int|
                    0 <= j < n ==> {
                        &&& (#[trigger] self.cols@[j]).column() == old(self).cols@[j].column()
                        &&& self.cols@[j].order() == old(self).cols@[j].order()
                        &&& self.cols@[j].comparator() == old(self).cols@[j].comparator()
                    },
                forall|j: int| i <= j < n ==> #[trigger] self.cols@[j] == old(self).cols@[j],
                forall|j: int|
                    0 <= j < i ==> column_stepped(
                        old(self).cols@[j],
                        #[trigger] self.cols@[j],
                        pair_of(*r),
                        reset,
                        old(self).iter.columns(),
                        old(self).iter.comparator(),
                    ),
            decreases n - i,
        {
            let ghost before = self.cols@;
            let ghost redo_before = redo;
            let moved = self.cols[i].update_column(r, &mut self.iter, reset);
            if moved {
                redo = true;
            }
            proof {
                lemma_column_step_puts(
                    old(self).cols@[i as int],
                    self.cols@[i as int],
                    pair_of(*r),
                    reset,
                    old(self).iter.columns(),
                    old(self).iter.comparator(),
                    moved,
                );
                if moved {
                    assert(puts(
                        old(self).cols@[i as int],
                        pair_of(*r),
                        reset,
                        old(self).iter.columns(),
                        old(self).iter.comparator(),
                    ));
                } else {
                    assert forall|j: int|
                        0 <= j < i + 1 && #[trigger] puts(
                            old(self).cols@[j],
                            pair_of(*r),
                            reset,
                            old(self).iter.columns(),
                            old(self).iter.comparator(),
                        ) implies redo_before by {
                        if j == i {
                            assert(false);
                        }
                    }
                }
            }
            assert(forall|j: int| 0 <= j < n && j != i ==> self.cols@[j] == before[j]);
            assert(column_step(
                old(self).cols@[i as int],
                self.cols@[i as int],
                pair_of(*r),
                reset,
                old(self).iter.columns(),
                old(self).iter.comparator(),
                moved,
            ));
            assert forall|j: int| 0 <= j < i + 1 implies column_stepped(
                old(self).cols@[j],
                #[trigger] self.cols@[j],
                pair_of(*r),
                reset,
                old(self).iter.columns(),
                old(self).iter.comparator(),
            ) by {
                if j < i {
                    assert(self.cols@[j] == before[j]);
                }
            }
            i = i + 1;
        }
        assert forall|j: int| 0 <= j < old(self).column_list().len() implies column_stepped(
            old(self).column_list()[j],
            #[trigger] self.column_list()[j],
            pair_of(*r),
            reset,
            old(self).walk().columns(),
            old(self).walk().comparator(),
        ) by {
            assert(self.cols@[j] == self.column_list()[j]);
        }
        redo
    }

    /// Copies a segment of the walk.
    fn copy_of(&self, x: Option<&RangeInclusive<T>>) -> (res: Option<RangeInclusive<T>>)
        ensures
            opt_pair(res) == match x {
                Some(r) => Some(pair_of(*r)),
                None => None,
            },
    {
        match x {
            Some(r) => self.iter.copy_range(r),
            None => None,
        }
    }

    /// Steps the walk on in its order: to the next segment, or, after columns changed the
    /// walk, to the segment recomputed from the last one.
    fn step(&mut self, redo: bool) -> (res: Option<RangeInclusive<T>>)
        ensures
            final(self).column_list() == old(self).column_list(),
            final(self).order() == old(self).order(),
            final(self).needs_init() == old(self).needs_init(),
            final(self).walk().same_setup(&old(self).walk()),
            final(self).walk().columns() == old(self).walk().columns(),
            !redo ==> opt_pair(res) == old(self).coming(),
            redo ==> opt_pair(res) == recomputed_segment(
                old(self).order(),
                &old(self).walk().comparator(),
                old(self).walk().ranges(),
                old(self).walk().step_value(),
                old(self).walk().last_next_pair(),
                old(self).walk().last_back_pair(),
            ),
            res matches Some(x) ==> final(self).passed() == Some(pair_of(x)),
    {
        match self.order {
            ConsolidationOrder::Forward => if redo {
                self.iter.recompute_next()
            } else {
                self.iter.next()
            },
            ConsolidationOrder::Reverse => if redo {
                self.iter.recompute_back()
            } else {
                self.iter.next_back()
            },
        }
    }

    /// Returns the next segment with what each column holds for it.
    ///
    /// The first call steps the walk. Each later call first reads every column on toward
    /// the walk's coming segment (or, when the walk has none, past the last one it returned,
    /// so that columns with groups left can move the walk on), then steps the walk,
    /// recomputing it when a column changed it. Returns None when the walk is over.
    pub fn next(&mut self) -> (res: Option<ColumnsItem<T, R, S>>)
        requires
            old(self).wf(),
        ensures
            final(self).wf(),
            final(self).order() == old(self).order(),
            !final(self).needs_init(),
            final(self).same_columns(old(self)),
            final(self).walk().step_value() == old(self).walk().step_value(),
            final(self).walk().comparator() == old(self).walk().comparator(),
            final(self).walk().columns() == old(self).walk().columns(),
            old(self).needs_init() ==> {
                &&& final(self).walk().ranges() == old(self).walk().ranges()
                &&& match old(self).coming() {
                    None => res is None,
                    Some(p) => res matches Some(x) && pair_of(x.0) == p && forall|i: int|
                        0 <= i < x.2@.len() ==> result_view(#[trigger] x.2@[i]) == filtered(
                            old(self).column_list()[i],
                            p,
                        ),
                }
            },
            !old(self).needs_init() && old(self).coming() is None && old(self).passed() is None
                ==> res is None && *final(self) == *old(self),
            !old(self).needs_init() && (old(self).coming() is Some || old(self).passed() is Some)
                ==> match res {
                Some(x) => old(self).next_segment() == Some(pair_of(x.0)),
                None => old(self).next_segment() is None,
            },
            !old(self).needs_init() && (old(self).coming() is Some || old(self).passed() is Some)
                ==> forall|i: int|
                0 <= i < old(self).column_list().len() ==> #[trigger] old(self).advanced(
                    &*final(self),
                    res,
                    i,
                ),
            res matches Some(x) ==> {
                &&& final(self).passed() == Some(pair_of(x.0))
                &&& x.2@.len() == old(self).column_list().len()
                &&& x.1 == first_error(x.2@)
                &&& forall|i: int|
                    0 <= i < x.2@.len() ==> (#[trigger] x.2@[i] matches Ok(v) ==> forall|k: int|
                        0 <= k < v@.len() ==> position_check(
                            final(self).column_list()[i].order(),
                            &final(self).column_list()[i].comparator(),
                            (#[trigger] rows_view(v@)[k]).0,
                            pair_of(x.0),
                        ).0)
            },
    {
        if self.needs_init {
            self.needs_init = false;
            let n = self.step(false);
            match n {
                None => None,
                Some(filter) => {
                    let ghost mid = *self;
                    let (e, cols) = self.filter_all(&filter);
                    proof {
                        self.lemma_reported_overlap(mid, cols@, pair_of(filter));
                    }
                    Some((filter, e, cols))
                },
            }
        } else {
            let (nx, lx) = match self.order {
                ConsolidationOrder::Forward => {
                    let (a, b) = self.iter.ln();
                    (self.copy_of(a), self.copy_of(b))
                },
                ConsolidationOrder::Reverse => {
                    let (a, b) = self.iter.lb();
                    (self.copy_of(a), self.copy_of(b))
                },
            };
            assert(opt_pair(nx) == old(self).coming() && opt_pair(lx) == old(self).passed());
            let redo = match &nx {
                Some(r) => self.update_all(r, false),
                None => match &lx {
                    Some(r) => {
                        self.update_all(r, true);
                        true
                    },
                    None => {
                        return None;
                    },
                },
            };
            let ghost moved = *self;
            let n = self.step(redo);
            match n {
                None => {
                    let out: Option<ColumnsItem<T, R, S>> = None;
                    proof {
                        assert forall|i: int| 0 <= i < old(self).column_list().len() implies #[trigger] old(
                            self,
                        ).advanced(&*self, out, i) by {
                            assert(column_stepped(
                                old(self).column_list()[i],
                                moved.column_list()[i],
                                old(self).toward(),
                                old(self).coming() is None,
                                old(self).walk().columns(),
                                old(self).walk().comparator(),
                            ));
                        }
                    }
                    out
                },
                Some(filter) => {
                    let ghost mid = *self;
                    let (e, cols) = self.filter_all(&filter);
                    let out = Some((filter, e, cols));
                    proof {
                        self.lemma_reported_overlap(mid, cols@, pair_of(filter));
                        assert forall|i: int| 0 <= i < old(self).column_list().len() implies #[trigger] old(
                            self,
                        ).advanced(&*self, out, i) by {
                            assert(column_stepped(
                                old(self).column_list()[i],
                                mid.column_list()[i],
                                old(self).toward(),
                                old(self).coming() is None,
                                old(self).walk().columns(),
                                old(self).walk().comparator(),
                            ));
                        }
                    }
                    out
                },
            }
        }
    }

    /// What a column reports for a segment overlaps it (see [lemma_selected_overlap]).
    proof fn lemma_reported_overlap(
        &self,
        mid: Self,
        cols: Seq<Result<Vec<Rc<ConsolidateMrsP<T, R, S>>>, &'static str>>,
        q: (T, T),
    )
        requires
            cols.len() == mid.column_list().len(),
            self.same_columns(&mid),
            forall|i: int|
                0 <= i < cols.len() ==> result_view(#[trigger] cols[i]) == filtered(
                    mid.column_list()[i],
                    q,
                ),
        ensures
            forall|i: int|
                0 <= i < cols.len() ==> (#[trigger] cols[i] matches Ok(v) ==> forall|k: int|
                    0 <= k < v@.len() ==> position_check(
                        self.column_list()[i].order(),
                        &self.column_list()[i].comparator(),
                        (#[trigger] rows_view(v@)[k]).0,
                        q,
                    ).0),
    {
        assert forall|i: int| 0 <= i < cols.len() implies (#[trigger] cols[i] matches Ok(v) ==> forall|k: int|
            0 <= k < v@.len() ==> position_check(
                self.column_list()[i].order(),
                &self.column_list()[i].comparator(),
                (#[trigger] rows_view(v@)[k]).0,
                q,
            ).0) by {
            let c = mid.column_list()[i];
            lemma_selected_overlap(c.order(), &c.comparator(), rows_view(c.rows()), q, c.rows().len());
        }
    }
}

} // verus!
