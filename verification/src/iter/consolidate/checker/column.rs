use vstd::prelude::*;

use crate::builder::{CpCmp, GetBeginEndOption, IncDecCpCmp};
use crate::iter::consolidate::checker::{
    checked_step, lemma_checked_step_progress, mrsp_view, ConsolidateChecker,
};
use crate::iter::consolidate::{beyond_check, before_check, position_check, ConsolidationOrder};
use crate::iter::{Intersector, OverlapIter};
use crate::utils::spec_valid;
use crate::{pair_of, replaced_at, ConsolidateMrsP, GetBeginEnd};

use std::rc::Rc;

pub mod columns;

verus! {

/// Shares a row with `Rc::clone`: the result points to the same allocation, so it is the
/// same value as `rc`.
#[verifier::external_body]
fn share<X>(rc: &Rc<X>) -> (res: Rc<X>)
    ensures
        res == *rc,
{
    Rc::clone(rc)
}

/// The rows of a column seen as groups.
pub open spec fn rows_view<T, R: GetBeginEnd<T>, S: GetBeginEnd<T>>(
    rows: Seq<Rc<ConsolidateMrsP<T, R, S>>>,
) -> Seq<((T, T), Seq<(usize, S)>)> {
    rows.map_values(|r: Rc<ConsolidateMrsP<T, R, S>>| mrsp_view(*r))
}

/// The rows among the first n of `rows` that overlap `q` (when `overlap`), or that overlap
/// `q` or are done with respect to it (otherwise), in order.
pub open spec fn select_rows<T, S, C: CpCmp<T>>(
    order: ConsolidationOrder,
    t: &C,
    rows: Seq<((T, T), Seq<(usize, S)>)>,
    q: (T, T),
    overlap: bool,
    n: nat,
) -> Seq<((T, T), Seq<(usize, S)>)>
    decreases n,
{
    if n == 0 {
        Seq::empty()
    } else {
        let prev = select_rows(order, t, rows, q, overlap, (n - 1) as nat);
        let p = position_check(order, t, rows[n - 1].0, q);
        if p.0 || (!overlap && p.1) {
            prev.push(rows[n - 1])
        } else {
            prev
        }
    }
}

/// Every group that [select_rows] picks for overlapping overlaps the segment.
pub proof fn lemma_selected_overlap<T, S, C: CpCmp<T>>(
    order: ConsolidationOrder,
    t: &C,
    rows: Seq<((T, T), Seq<(usize, S)>)>,
    q: (T, T),
    n: nat,
)
    ensures
        forall|k: int|
            0 <= k < select_rows(order, t, rows, q, true, n).len() ==> position_check(
                order,
                t,
                (#[trigger] select_rows(order, t, rows, q, true, n)[k]).0,
                q,
            ).0,
    decreases n,
{
    if n > 0 {
        let prev = select_rows(order, t, rows, q, true, (n - 1) as nat);
        let cur = select_rows(order, t, rows, q, true, n);
        lemma_selected_overlap(order, t, rows, q, (n - 1) as nat);
        assert forall|k: int| 0 <= k < cur.len() implies position_check(order, t, cur[k].0, q).0 by {
            if k < prev.len() {
                assert(cur[k] == prev[k]);
            }
        }
    }
}

/// Splits `rows` into those that overlap `next` and those that overlap it or are done
/// with respect to it (see [select_rows]).
fn select<T, R: GetBeginEnd<T>, S: GetBeginEnd<T>, C: CpCmp<T>, Q: GetBeginEnd<T>>(
    order: ConsolidationOrder,
    t: &C,
    rows: &Vec<Rc<ConsolidateMrsP<T, R, S>>>,
    next: &Q,
) -> (res: (Vec<Rc<ConsolidateMrsP<T, R, S>>>, Vec<Rc<ConsolidateMrsP<T, R, S>>>))
    ensures
        rows_view(res.0@) == select_rows(order, t, rows_view(rows@), pair_of(*next), true, rows@.len()),
        rows_view(res.1@) == select_rows(order, t, rows_view(rows@), pair_of(*next), false, rows@.len()),
{
    let mut results: Vec<Rc<ConsolidateMrsP<T, R, S>>> = Vec::new();
    let mut kept: Vec<Rc<ConsolidateMrsP<T, R, S>>> = Vec::new();
    let ghost old_rows = rows_view(rows@);
    let mut i: usize = 0;
    while i < rows.len()
        invariant
            0 <= i <= rows@.len(),
            old_rows == rows_view(rows@),
            rows_view(results@) == select_rows(order, t, old_rows, pair_of(*next), true, i as nat),
            rows_view(kept@) == select_rows(order, t, old_rows, pair_of(*next), false, i as nat),
        decreases rows@.len() - i,
    {
        let row = &rows[i];
        let (overlap, done) = order.check_position(&**row, next, t);
        if overlap {
            let ghost before = results@;
            results.push(share(row));
            assert(rows_view(results@) =~= rows_view(before).push(mrsp_view(**row)));
            let ghost kb = kept@;
            kept.push(share(row));
            assert(rows_view(kept@) =~= rows_view(kb).push(mrsp_view(**row)));
        } else if done {
            let ghost kb = kept@;
            kept.push(share(row));
            assert(rows_view(kept@) =~= rows_view(kb).push(mrsp_view(**row)));
        }
        i = i + 1;
    }
    (results, kept)
}

/// Whether the group `g` ends the reading of a column toward the segment `target`: when
/// `reset`, a group reaching beyond it; otherwise one before it, overlapping it, or done
/// with respect to it.
pub open spec fn stops_at<T, C: CpCmp<T>>(
    order: ConsolidationOrder,
    t: &C,
    g: (T, T),
    target: (T, T),
    reset: bool,
) -> bool {
    if reset {
        beyond_check(order, t, g, target)
    } else {
        before_check(order, t, g, target) || position_check(order, t, g, target).0
            || position_check(order, t, g, target).1
    }
}

/// Reading a column on toward `target`, from the checker state (open group, input,
/// position): the groups read in order, how the reading ended (None: the checker ran out;
/// Ok: a group that [stops_at] the target was read last; Err: the checker reported an error
/// with its group), and the checker state after it.
pub open spec fn scan<T, S: GetBeginEnd<T>, C: CpCmp<T>>(
    order: ConsolidationOrder,
    t: &C,
    last: Option<((T, T), Seq<(usize, S)>)>,
    input: Seq<S>,
    pos: nat,
    target: (T, T),
    reset: bool,
) -> (
    Seq<((T, T), Seq<(usize, S)>)>,
    Option<Result<(), (&'static str, ((T, T), Seq<(usize, S)>))>>,
    (Option<((T, T), Seq<(usize, S)>)>, Seq<S>, nat),
)
    decreases 2 * input.len() + (if last is Some {
        1int
    } else {
        0int
    }),
{
    let s = checked_step(order, t, last, input, pos);
    match s.0 {
        None => (Seq::empty(), None, (s.1, s.2, s.3)),
        Some(Err(e)) => (Seq::empty(), Some(Err(e)), (s.1, s.2, s.3)),
        Some(Ok(g)) => if stops_at(order, t, g.0, target, reset) {
            (seq![g], Some(Ok(())), (s.1, s.2, s.3))
        } else {
            proof {
                lemma_checked_step_progress(order, t, last, input, pos);
            }
            let r = scan(order, t, s.1, s.2, s.3, target, reset);
            (seq![g] + r.0, r.1, r.2)
        },
    }
}

/// Whether a column holding the groups `rows` needs no reading toward `target`: its newest
/// group reaches beyond the target (when `reset`), or overlaps it or is done with respect
/// to it (otherwise).
pub open spec fn settled<T, S, C: CpCmp<T>>(
    order: ConsolidationOrder,
    t: &C,
    rows: Seq<((T, T), Seq<(usize, S)>)>,
    target: (T, T),
    reset: bool,
) -> bool {
    rows.len() > 0 && if reset {
        beyond_check(order, t, rows.last().0, target)
    } else {
        position_check(order, t, rows.last().0, target).0 || position_check(
            order,
            t,
            rows.last().0,
            target,
        ).1
    }
}

/// What putting the pair `g` in column `idx` of a walk with `columns` columns and the
/// comparator `t` answers (see [OverlapIter::update_column]).
pub open spec fn placement<T, C: CpCmp<T>>(columns: nat, t: &C, idx: usize, g: (T, T)) -> Result<
    (),
    &'static str,
> {
    if idx >= columns {
        Err("No such Column")
    } else if !spec_valid(t, g) {
        Err("Invalid Range")
    } else {
        Ok(())
    }
}

/// The group a column puts in the walk after reading on toward `target` (see [scan]): the
/// last group read, or the group of the error.
pub open spec fn placed<T, R: GetBeginEnd<T>, S: GetBeginEnd<T>, F: GetBeginEndOption<T, R>, C: CpCmp<T>>(
    c: Column<T, R, S, F, C>,
    target: (T, T),
    reset: bool,
) -> (T, T) {
    let k = c.checker().consolidation();
    let sc = scan(c.order(), &c.comparator(), k.open_group(), k.input(), k.position(), target, reset);
    match sc.1 {
        Some(Err(e)) => e.1.0,
        _ => sc.0.last().0,
    }
}

/// How a column `c1` results from reading the column `c0` on toward `target` in a walk with
/// `columns` columns and the comparator `t` (see [Column::update_column]); `res` tells
/// whether the column's group was put in the walk.
///
/// A column without index is left alone. A column that is [settled] only has its error
/// cleared. Otherwise the groups read (see [scan]) are added to those held, or, on an
/// error, replace them by the error's group; the last one is put in the walk when
/// [placement] allows, and the error is kept or set accordingly.
pub open spec fn column_step<T, R: GetBeginEnd<T>, S: GetBeginEnd<T>, F: GetBeginEndOption<T, R>, C: CpCmp<T>>(
    c0: Column<T, R, S, F, C>,
    c1: Column<T, R, S, F, C>,
    target: (T, T),
    reset: bool,
    columns: nat,
    t: C,
    res: bool,
) -> bool {
    let rows0 = rows_view(c0.rows());
    let k = c0.checker().consolidation();
    let sc = scan(c0.order(), &c0.comparator(), k.open_group(), k.input(), k.position(), target, reset);
    &&& c1.column() == c0.column()
    &&& c1.order() == c0.order()
    &&& c1.comparator() == c0.comparator()
    &&& c1.wf()
    &&& match c0.column() {
        Err(_) => !res && c1 == c0,
        Ok(idx) => if settled(c0.order(), &c0.comparator(), rows0, target, reset) {
            &&& !res
            &&& c1.rows() == c0.rows()
            &&& c1.checker() == c0.checker()
            &&& c1.error() is Ok
        } else {
            &&& c1.checker().consolidation().open_group() == sc.2.0
            &&& c1.checker().consolidation().input() == sc.2.1
            &&& c1.checker().consolidation().position() == sc.2.2
            &&& match sc.1 {
                None => {
                    &&& !res
                    &&& rows_view(c1.rows()) == rows0 + sc.0
                    &&& c1.error() is Ok
                },
                Some(Ok(_)) => {
                    let g = sc.0.last();
                    &&& sc.0.len() > 0
                    &&& stops_at(c0.order(), &c0.comparator(), g.0, target, reset)
                    &&& rows_view(c1.rows()) == rows0 + sc.0
                    &&& res == placement(columns, &t, idx, g.0) is Ok
                    &&& res ==> c1.error() is Ok
                    &&& !res ==> c1.error() == placement(columns, &t, idx, g.0)
                },
                Some(Err(e)) => {
                    &&& rows_view(c1.rows()) == seq![e.1]
                    &&& res == placement(columns, &t, idx, e.1.0) is Ok
                    &&& res ==> c1.error() == Err::<(), &'static str>(e.0)
                    &&& !res ==> c1.error() == placement(columns, &t, idx, e.1.0)
                },
            }
        },
    }
}

/// Whether reading the column `c` on toward `target` puts its group in the walk (see
/// [column_step]): it has an index, is not [settled], reads a group that stops there or an
/// error, and the walk takes that group (see [placement]).
pub open spec fn puts<T, R: GetBeginEnd<T>, S: GetBeginEnd<T>, F: GetBeginEndOption<T, R>, C: CpCmp<T>>(
    c: Column<T, R, S, F, C>,
    target: (T, T),
    reset: bool,
    columns: nat,
    t: C,
) -> bool {
    let k = c.checker().consolidation();
    let sc = scan(c.order(), &c.comparator(), k.open_group(), k.input(), k.position(), target, reset);
    match c.column() {
        Err(_) => false,
        Ok(idx) => !settled(c.order(), &c.comparator(), rows_view(c.rows()), target, reset) && match sc.1 {
            None => false,
            Some(Ok(_)) => placement(columns, &t, idx, sc.0.last().0) is Ok,
            Some(Err(e)) => placement(columns, &t, idx, e.1.0) is Ok,
        },
    }
}

/// A column step puts the column's group in the walk exactly when [puts] says so.
pub(crate) proof fn lemma_column_step_puts<T, R: GetBeginEnd<T>, S: GetBeginEnd<T>, F: GetBeginEndOption<T, R>, C: CpCmp<T>>(
    c0: Column<T, R, S, F, C>,
    c1: Column<T, R, S, F, C>,
    target: (T, T),
    reset: bool,
    columns: nat,
    t: C,
    res: bool,
)
    requires
        column_step(c0, c1, target, reset, columns, t, res),
    ensures
        res == puts(c0, target, reset, columns, t),
{
}

/// The column `c1` results from reading the column `c0` on toward `target` (see
/// [column_step]), whether or not its group was put in the walk.
pub open spec fn column_stepped<T, R: GetBeginEnd<T>, S: GetBeginEnd<T>, F: GetBeginEndOption<T, R>, C: CpCmp<T>>(
    c0: Column<T, R, S, F, C>,
    c1: Column<T, R, S, F, C>,
    target: (T, T),
    reset: bool,
    columns: nat,
    t: C,
) -> bool {
    exists|res: bool| #[trigger] column_step(c0, c1, target, reset, columns, t, res)
}

/// What filtering a column returns, seen through groups.
pub open spec fn result_view<T, R: GetBeginEnd<T>, S: GetBeginEnd<T>>(
    x: Result<Vec<Rc<ConsolidateMrsP<T, R, S>>>, &'static str>,
) -> Result<Seq<((T, T), Seq<(usize, S)>)>, &'static str> {
    match x {
        Ok(v) => Ok(rows_view(v@)),
        Err(e) => Err(e),
    }
}

/// What [Column::filter_column] returns for the column `c` and the segment `q`: the
/// message of a column without index or in error, else the held groups overlapping `q`.
pub open spec fn filtered<T, R: GetBeginEnd<T>, S: GetBeginEnd<T>, F: GetBeginEndOption<T, R>, C: CpCmp<T>>(
    c: Column<T, R, S, F, C>,
    q: (T, T),
) -> Result<Seq<((T, T), Seq<(usize, S)>)>, &'static str> {
    match c.column() {
        Err(e) => Err(e),
        Ok(_) => match c.error() {
            Err(e) => Err(e),
            Ok(_) => Ok(
                select_rows(c.order(), &c.comparator(), rows_view(c.rows()), q, true, c.rows().len()),
            ),
        },
    }
}

/// The groups [Column::filter_column] leaves held in the column `c` for the segment `q`:
/// all of them for a column without index or in error, else those overlapping `q` or
/// done with respect to it.
pub open spec fn after_filter<T, R: GetBeginEnd<T>, S: GetBeginEnd<T>, F: GetBeginEndOption<T, R>, C: CpCmp<T>>(
    c: Column<T, R, S, F, C>,
    q: (T, T),
) -> Seq<((T, T), Seq<(usize, S)>)> {
    if c.column() is Ok && c.error() is Ok {
        select_rows(c.order(), &c.comparator(), rows_view(c.rows()), q, false, c.rows().len())
    } else {
        rows_view(c.rows())
    }
}

/// Represents a column of an [OverlapIter]: a checked consolidation of a list of ranges
/// whose current group stands in one column of the walk.
pub struct Column<T, R: GetBeginEnd<T>, S: GetBeginEnd<T>, F: GetBeginEndOption<T, R>, C: CpCmp<T>> {
    col: Result<usize, &'static str>,
    checker: ConsolidateChecker<T, R, S, F, C>,
    rows: Vec<Rc<ConsolidateMrsP<T, R, S>>>,
    err: Result<(), &'static str>,
}

impl<T, R: GetBeginEnd<T>, S: GetBeginEnd<T>, F: GetBeginEndOption<T, R>, C: CpCmp<T>> Column<
    T,
    R,
    S,
    F,
    C,
> {
    /// The index of the column in the walk, or why it has none.
    pub closed spec fn column(&self) -> Result<usize, &'static str> {
        self.col
    }

    /// The checked consolidation feeding the column.
    pub closed spec fn checker(&self) -> ConsolidateChecker<T, R, S, F, C> {
        self.checker
    }

    /// The groups currently held.
    pub closed spec fn rows(&self) -> Seq<Rc<ConsolidateMrsP<T, R, S>>> {
        self.rows@
    }

    /// The error of the last update, if any.
    pub closed spec fn error(&self) -> Result<(), &'static str> {
        self.err
    }

    /// The order of the checked consolidation.
    pub open spec fn order(&self) -> ConsolidationOrder {
        self.checker().order()
    }

    /// The comparator of the checked consolidation.
    pub open spec fn comparator(&self) -> C {
        self.checker().consolidation().comparator()
    }

    /// The consolidation's positions stay within usize.
    pub open spec fn wf(&self) -> bool {
        self.checker().consolidation().wf()
    }

    /// Builds a column directly from its parts, without the steps of [Column::new].
    pub fn builder(
        inner: (
            Result<usize, &'static str>,
            ConsolidateChecker<T, R, S, F, C>,
            Vec<Rc<ConsolidateMrsP<T, R, S>>>,
        ),
    ) -> (res: Self)
        ensures
            res.column() == inner.0,
            res.checker() == inner.1,
            res.rows() == inner.2@,
            res.error() is Ok,
    {
        Self { err: Ok(()), col: inner.0, checker: inner.1, rows: inner.2 }
    }

    /// Unwraps the column into (index, rows, checker), which [Column::builder] accepts.
    pub fn to_inner(self) -> (res: (
        Result<usize, &'static str>,
        Vec<Rc<ConsolidateMrsP<T, R, S>>>,
        ConsolidateChecker<T, R, S, F, C>,
    ))
        ensures
            res.0 == self.column(),
            res.1@ == self.rows(),
            res.2 == self.checker(),
    {
        (self.col, self.rows, self.checker)
    }

    /// True when the column has no index or its last update failed.
    pub fn in_err(&self) -> (res: bool)
        ensures
            res == (self.column() is Err || self.error() is Err),
    {
        self.col.is_err() || self.err.is_err()
    }

    /// Returns the index of the column in the walk.
    pub fn get_column(&self) -> (res: Result<usize, &'static str>)
        ensures
            res == self.column(),
    {
        self.col
    }

    /// Returns a ref to the comparator of the checked consolidation.
    pub fn get_cmp(&self) -> (res: &C)
        ensures
            *res == self.comparator(),
    {
        self.checker.get_cmp()
    }

    /// Returns the groups currently held.
    pub fn get_rows(&self) -> (res: &Vec<Rc<ConsolidateMrsP<T, R, S>>>)
        ensures
            res@ == self.rows(),
    {
        &self.rows
    }

    /// Creates a column from the first group of `checker` and adds its hull to `isec`.
    ///  - `Ok`: the group was in order and valid for `isec`; the column has the index of
    ///    the range added.
    ///  - `Err`: the checker had nothing, reported an error, or its group could not be
    ///    added; the column carries the message and nothing is added to `isec`.
    pub fn new<V, Q: GetBeginEnd<T>, X: GetBeginEndOption<T, Q>>(
        isec: &mut Intersector<T, V, C, Q, X>,
        checker: ConsolidateChecker<T, R, S, F, C>,
    ) -> (res: Result<Self, Self>) where C: IncDecCpCmp<T, V>
        requires
            checker.consolidation().wf(),
        ensures
            ({
                let s = checker.step();
                let c = match res {
                    Ok(c) => c,
                    Err(c) => c,
                };
                &&& c.error() is Ok
                &&& c.order() == checker.order()
                &&& c.checker().consolidation().open_group() == s.1
                &&& c.checker().consolidation().input() == s.2
                &&& c.checker().consolidation().position() == s.3
                &&& c.comparator() == checker.consolidation().comparator()
                &&& c.wf()
                &&& final(isec).same_config(old(isec))
                &&& match s.0 {
                    None => {
                        &&& res is Err
                        &&& c.column() == Err::<usize, &'static str>("checker has no next()")
                        &&& c.rows().len() == 0
                        &&& final(isec).ranges() == old(isec).ranges()
                        &&& final(isec).columns() == old(isec).columns()
                    },
                    Some(Err(e)) => {
                        &&& res is Err
                        &&& c.column() == Err::<usize, &'static str>(e.0)
                        &&& rows_view(c.rows()) == seq![e.1]
                        &&& final(isec).ranges() == old(isec).ranges()
                        &&& final(isec).columns() == old(isec).columns()
                    },
                    Some(Ok(g)) => {
                        &&& rows_view(c.rows()) == seq![g]
                        &&& if spec_valid(&old(isec).comparator(), g.0) {
                            &&& res is Ok
                            &&& c.column() == Ok::<usize, &'static str>(old(isec).columns() as usize)
                            &&& final(isec).ranges() == old(isec).ranges().push(g.0)
                            &&& final(isec).columns() == old(isec).columns() + 1
                        } else {
                            &&& res is Err
                            &&& c.column() == Err::<usize, &'static str>(
                                "Failed to add column from: checker",
                            )
                            &&& final(isec).ranges() == old(isec).ranges()
                            &&& final(isec).columns() == old(isec).columns()
                        }
                    },
                }
            }),
    {
        let mut checker = checker;
        let mut rows: Vec<Rc<ConsolidateMrsP<T, R, S>>> = Vec::new();
        match checker.next() {
            Some(Ok(r)) => {
                let rc = Rc::new(r);
                let c = share(&rc);
                rows.push(rc);
                assert(rows_view(rows@) =~= seq![mrsp_view(*c)]);
                match isec.add_from_tuple_ref(c.to_tuple_ref()) {
                    Some((idx, _)) => Ok(Self::builder((Ok(idx), checker, rows))),
                    None => Err(Self::builder((Err("Failed to add column from: checker"), checker, rows))),
                }
            },
            Some(Err((e, r))) => {
                rows.push(Rc::new(r));
                assert(rows_view(rows@) =~= seq![mrsp_view(r)]);
                Err(Self::builder((Err(e), checker, rows)))
            },
            None => {
                assert(rows_view(rows@) =~= Seq::empty());
                Err(Self::builder((Err("checker has no next()"), checker, rows)))
            },
        }
    }

    /// Returns the held groups that overlap `next` and drops those neither overlapping
    /// nor done with respect to it. A column without index or in error returns its message
    /// and keeps its groups.
    pub fn filter_column<Q: GetBeginEnd<T>>(&mut self, next: &Q) -> (res: Result<
        Vec<Rc<ConsolidateMrsP<T, R, S>>>,
        &'static str,
    >)
        ensures
            final(self).column() == old(self).column(),
            final(self).checker() == old(self).checker(),
            final(self).error() == old(self).error(),
            result_view(res) == filtered(*old(self), pair_of(*next)),
            rows_view(final(self).rows()) == after_filter(*old(self), pair_of(*next)),
            (old(self).column() is Err || old(self).error() is Err) ==> final(self).rows() == old(
                self,
            ).rows(),
    {
        match &self.col {
            Err(e) => {
                return Err(*e);
            },
            Ok(_) => {},
        }
        match &self.err {
            Err(e) => {
                return Err(*e);
            },
            Ok(_) => {},
        }
        let order = self.checker.get_order();
        let (results, kept) = select(order, self.checker.get_cmp(), &self.rows, next);
        self.rows = kept;
        Ok(results)
    }
    /// Puts `col` in column `idx` of the walk; on failure records the error.
    fn update_iter<V, Q: GetBeginEnd<T>, X: GetBeginEndOption<T, Q>>(
        &mut self,
        iter: &mut OverlapIter<T, V, C, Q, X>,
        idx: usize,
        col: Q,
    ) -> (res: bool) where C: IncDecCpCmp<T, V>
        ensures
            final(self).column() == old(self).column(),
            final(self).checker() == old(self).checker(),
            final(self).rows() == old(self).rows(),
            final(iter).same_update(old(iter)),
            res == placement(old(iter).columns(), &old(iter).comparator(), idx, pair_of(col)) is Ok,
            res ==> final(self).error() == old(self).error() && final(iter).ranges() == replaced_at(
                old(iter).ranges(),
                idx,
                pair_of(col),
            ),
            !res ==> final(iter).ranges() == old(iter).ranges() && final(self).error() == placement(
                old(iter).columns(),
                &old(iter).comparator(),
                idx,
                pair_of(col),
            ),
    {
        match iter.update_column(idx, col) {
            Ok(()) => true,
            Err(e) => {
                self.err = Err(e);
                false
            },
        }
    }

    /// Advances the column until its newest group reaches `last`, the segment the walk is
    /// at, and puts that group in the column's place in the walk.
    ///
    /// Nothing is read when the column has no index, or when its newest group already
    /// overlaps or is done with respect to `last` (reaches beyond it, when `reset`).
    /// Otherwise groups are read (see [scan]) until one is out of order (the held groups are
    /// replaced by the error's group and the error is kept), or one [stops_at] `last`; that
    /// group is put in the walk. Returns true when the walk's column was updated.
    pub fn update_column<V, Q: GetBeginEnd<T>, X: GetBeginEndOption<T, Q>>(
        &mut self,
        last: &Q,
        iter: &mut OverlapIter<T, V, C, Q, X>,
        reset: bool,
    ) -> (res: bool) where C: IncDecCpCmp<T, V>
        requires
            old(self).wf(),
        ensures
            final(self).column() == old(self).column(),
            final(self).order() == old(self).order(),
            final(self).comparator() == old(self).comparator(),
            final(self).wf(),
            final(iter).same_update(old(iter)),
            old(self).column() is Err ==> !res && *final(self) == *old(self) && *final(iter)
                == *old(iter),
            column_step(
                *old(self),
                *final(self),
                pair_of(*last),
                reset,
                old(iter).columns(),
                old(iter).comparator(),
                res,
            ),
            res ==> (old(self).column() matches Ok(idx) && final(iter).ranges() == replaced_at(
                old(iter).ranges(),
                idx,
                placed(*old(self), pair_of(*last), reset),
            )),
            !res ==> final(iter).ranges() == old(iter).ranges(),
    {
        let col: usize = match &self.col {
            Ok(idx) => *idx,
            Err(_) => {
                return false;
            },
        };
        self.err = Ok(());
        let order = self.checker.get_order();
        let n = self.rows.len();
        proof {
            if n > 0 {
                assert(rows_view(self.rows@).last() == mrsp_view(*self.rows@[n - 1]));
            }
        }
        if n > 0 {
            let row = &self.rows[n - 1];
            if reset {
                if order.is_beyond(&**row, last, self.checker.get_cmp()) {
                    return false;
                }
            } else {
                let (overlap, done) = order.check_position(&**row, last, self.checker.get_cmp());
                if overlap || done {
                    return false;
                }
            }
        }
        let ghost q = pair_of(*last);
        let ghost tc = self.comparator();
        let ghost sc0 = scan(
            order,
            &tc,
            self.checker().consolidation().open_group(),
            self.checker().consolidation().input(),
            self.checker().consolidation().position(),
            q,
            reset,
        );
        let ghost rows0 = rows_view(self.rows@);
        let ghost mut prefix: Seq<((T, T), Seq<(usize, S)>)> = Seq::empty();
        assert(prefix + sc0.0 =~= sc0.0);
        assert(rows0 + prefix =~= rows0);
        loop
            invariant
                self.col == old(self).col,
                self.col == Ok::<usize, &'static str>(col),
                self.order() == old(self).order(),
                order == self.order(),
                self.comparator() == old(self).comparator(),
                tc == self.comparator(),
                q == pair_of(*last),
                self.wf(),
                self.err == Ok::<(), &'static str>(()),
                *iter == *old(iter),
                rows0 == rows_view(old(self).rows@),
                sc0 == scan(
                    old(self).order(),
                    &old(self).comparator(),
                    old(self).checker().consolidation().open_group(),
                    old(self).checker().consolidation().input(),
                    old(self).checker().consolidation().position(),
                    pair_of(*last),
                    reset,
                ),
                rows_view(self.rows@) == rows0 + prefix,
                !settled(order, &tc, rows0, q, reset),
                ({
                    let cur = scan(
                        order,
                        &tc,
                        self.checker().consolidation().open_group(),
                        self.checker().consolidation().input(),
                        self.checker().consolidation().position(),
                        q,
                        reset,
                    );
                    &&& sc0.0 == prefix + cur.0
                    &&& sc0.1 == cur.1
                    &&& sc0.2 == cur.2
                }),
            decreases self.checker.consolidation().remaining(),
        {
            let ghost before_rows = rows_view(self.rows@);
            match self.checker.next() {
                Some(Err((msg, row))) => {
                    self.rows.clear();
                    let clone = iter.get_factory().new_range(
                        self.checker.get_cmp().cp_tpl_ref(row.to_tuple_ref()),
                    );
                    self.rows.push(Rc::new(row));
                    assert(rows_view(self.rows@) =~= seq![mrsp_view(row)]);
                    assert(prefix + Seq::<((T, T), Seq<(usize, S)>)>::empty() =~= prefix);
                    self.err = Err(msg);
                    return self.update_iter(iter, col, clone);
                },
                Some(Ok(row)) => {
                    let rc = Rc::new(row);
                    let c = share(&rc);
                    self.rows.push(rc);
                    let ghost g = mrsp_view(row);
                    assert(rows_view(self.rows@) =~= before_rows.push(g));
                    proof {
                        prefix = prefix.push(g);
                    }
                    assert(rows_view(self.rows@) =~= rows0 + prefix);
                    let r = &*c;
                    let clone = iter.get_factory().new_range(
                        self.checker.get_cmp().cp_tpl_ref(r.to_tuple_ref()),
                    );
                    let stop = if reset {
                        order.is_beyond(r, last, self.checker.get_cmp())
                    } else if order.is_before(r, last, self.checker.get_cmp()) {
                        true
                    } else {
                        let (overlap, done) = order.check_position(r, last, self.checker.get_cmp());
                        overlap || done
                    };
                    if stop {
                        let placed_ok = self.update_iter(iter, col, clone);
                        proof {
                            let k = old(self).checker().consolidation();
                            let sc = scan(
                                old(self).order(),
                                &old(self).comparator(),
                                k.open_group(),
                                k.input(),
                                k.position(),
                                q,
                                reset,
                            );
                            assert(sc == sc0);
                            assert(sc.0.last() == g);
                            assert(sc.0.len() > 0);
                            assert(stops_at(order, &tc, g.0, q, reset));
                            assert(rows_view(self.rows()) == rows_view(old(self).rows()) + sc.0);
                            assert(self.checker().consolidation().open_group() == sc.2.0);
                        }
                        return placed_ok;
                    }
                    proof {
                        let cur = scan(
                            order,
                            &tc,
                            self.checker().consolidation().open_group(),
                            self.checker().consolidation().input(),
                            self.checker().consolidation().position(),
                            q,
                            reset,
                        );
                        assert(sc0.0 =~= prefix + cur.0);
                    }
                },
                None => {
                    assert(prefix + Seq::<((T, T), Seq<(usize, S)>)>::empty() =~= prefix);
                    return false;
                },
            }
        }
    }
}

} // verus!
