use vstd::prelude::*;

use crate::builder::{CpCmp, GetBeginEndOption};
use crate::iter::consolidate::{direction_check, Consolidate, ConsolidationOrder};
use crate::utils::{grow, relation_value, spec_consolidate, spec_grow, RangeRelation};
use crate::{pair_of, ConsolidateMrsP, GetBeginEnd};

pub mod column;

verus! {

/// A [ConsolidateMrsP] seen as a group.
pub open spec fn mrsp_view<T, R: GetBeginEnd<T>, S: GetBeginEnd<T>>(m: ConsolidateMrsP<T, R, S>) -> (
    (T, T),
    Seq<(usize, S)>,
) {
    (pair_of(m.hull()), m.sources())
}

/// A checked item seen through groups.
pub open spec fn checked_view<T, R: GetBeginEnd<T>, S: GetBeginEnd<T>>(
    x: Result<ConsolidateMrsP<T, R, S>, (&'static str, ConsolidateMrsP<T, R, S>)>,
) -> Result<((T, T), Seq<(usize, S)>), (&'static str, ((T, T), Seq<(usize, S)>))> {
    match x {
        Ok(m) => Ok(mrsp_view(m)),
        Err(e) => Err((e.0, mrsp_view(e.1))),
    }
}

/// One checked step of consolidation from the state (open group, input, position):
/// a group in the expected direction is handed out as is; one out of direction is
/// handed out as an error with the message of [direction_check], merged with the group
/// that follows it when there is one. Returns (the item, the open group, the input left,
/// the position) after the step.
pub open spec fn checked_step<T, S: GetBeginEnd<T>, C: CpCmp<T>>(
    order: ConsolidationOrder,
    t: &C,
    last: Option<((T, T), Seq<(usize, S)>)>,
    input: Seq<S>,
    pos: nat,
) -> (
    Option<Result<((T, T), Seq<(usize, S)>), (&'static str, ((T, T), Seq<(usize, S)>))>>,
    Option<((T, T), Seq<(usize, S)>)>,
    Seq<S>,
    nat,
) {
    let s1 = spec_consolidate(t, last, input, pos);
    let in1 = input.skip(s1.0 - pos);
    match s1.1 {
        None => (None, s1.2, in1, s1.0),
        Some(rel) => match direction_check(order, rel) {
            Ok(_) => (Some(Ok(relation_value(rel))), s1.2, in1, s1.0),
            Err(msg) => {
                let g1 = relation_value(rel);
                let s2 = spec_consolidate(t, s1.2, in1, s1.0);
                let in2 = in1.skip(s2.0 - s1.0);
                match s2.1 {
                    Some(rel2) => {
                        let g2 = relation_value(rel2);
                        (Some(Err((msg, (spec_grow(t, g1.0, g2.0), g1.1 + g2.1)))), s2.2, in2, s2.0)
                    },
                    None => (Some(Err((msg, g1))), s2.2, in2, s2.0),
                }
            },
        },
    }
}

/// A checked step that hands something out makes progress: two per range read, minus one
/// for a group left open, plus one for a group that was open (see [Consolidate::remaining]).
pub proof fn lemma_checked_step_progress<T, S: GetBeginEnd<T>, C: CpCmp<T>>(
    order: ConsolidationOrder,
    t: &C,
    last: Option<((T, T), Seq<(usize, S)>)>,
    input: Seq<S>,
    pos: nat,
)
    ensures
        ({
            let s = checked_step(order, t, last, input, pos);
            &&& pos <= s.3
            &&& s.3 + s.2.len() == pos + input.len()
            &&& s.0 is Some ==> 2 * s.2.len() + (if s.1 is Some {
                1int
            } else {
                0int
            }) < 2 * input.len() + (if last is Some {
                1int
            } else {
                0int
            })
        }),
{
    crate::utils::lemma_consolidate_progress(t, last, input, pos);
    let s1 = spec_consolidate(t, last, input, pos);
    let in1 = input.skip(s1.0 - pos);
    crate::utils::lemma_consolidate_progress(t, s1.2, in1, s1.0);
}

/// Wraps a [Consolidate] and checks that its groups come in the expected
/// [ConsolidationOrder].
pub struct ConsolidateChecker<
    T,
    R: GetBeginEnd<T>,
    S: GetBeginEnd<T>,
    F: GetBeginEndOption<T, R>,
    C: CpCmp<T>,
> {
    order: ConsolidationOrder,
    iter: Consolidate<T, R, S, F, C>,
}

impl<T, R: GetBeginEnd<T>, S: GetBeginEnd<T>, F: GetBeginEndOption<T, R>, C: CpCmp<T>> ConsolidateChecker<
    T,
    R,
    S,
    F,
    C,
> {
    /// The expected order.
    pub closed spec fn order(&self) -> ConsolidationOrder {
        self.order
    }

    /// The consolidation checked.
    pub closed spec fn consolidation(&self) -> Consolidate<T, R, S, F, C> {
        self.iter
    }

    /// What the next step computes (see [checked_step]).
    pub open spec fn step(&self) -> (
        Option<Result<((T, T), Seq<(usize, S)>), (&'static str, ((T, T), Seq<(usize, S)>))>>,
        Option<((T, T), Seq<(usize, S)>)>,
        Seq<S>,
        nat,
    ) {
        checked_step(
            self.order(),
            &self.consolidation().comparator(),
            self.consolidation().open_group(),
            self.consolidation().input(),
            self.consolidation().position(),
        )
    }

    /// Creates a checker of `iter` for the order `order`.
    pub fn new(order: ConsolidationOrder, iter: Consolidate<T, R, S, F, C>) -> (res: Self)
        ensures
            res.order() == order,
            res.consolidation() == iter,
    {
        Self { order, iter }
    }

    /// Returns the expected order.
    pub fn get_order(&self) -> (res: ConsolidationOrder)
        ensures
            res == self.order(),
    {
        self.order
    }

    /// Returns the comparator of the consolidation.
    pub fn get_cmp(&self) -> (res: &C)
        ensures
            *res == self.consolidation().comparator(),
    {
        self.iter.get_cmp()
    }

    /// Returns the next group, or the error and the merged groups when a group comes out of
    /// the expected order (see [checked_step]).
    pub fn next(&mut self) -> (res: Option<
        Result<ConsolidateMrsP<T, R, S>, (&'static str, ConsolidateMrsP<T, R, S>)>,
    >)
        requires
            old(self).consolidation().wf(),
        ensures
            ({
                let s = old(self).step();
                &&& match res {
                    Some(x) => s.0 == Some(checked_view(x)),
                    None => s.0 is None,
                }
                &&& final(self).consolidation().open_group() == s.1
                &&& final(self).consolidation().input() == s.2
                &&& final(self).consolidation().position() == s.3
            }),
            final(self).order() == old(self).order(),
            final(self).consolidation().comparator() == old(self).consolidation().comparator(),
            final(self).consolidation().factory_value() == old(self).consolidation().factory_value(),
            final(self).consolidation().wf(),
            res is Some ==> final(self).consolidation().remaining() < old(
                self,
            ).consolidation().remaining(),
    {
        match self.iter.next() {
            Some(r) => match self.order.check_direction(&r) {
                Ok(()) => Some(Ok(ConsolidateMrsP::new(r.unwrap()))),
                Err(msg) => {
                    let (first, mut dst) = r.unwrap();
                    let ghost in1 = self.iter.input();
                    match self.iter.next() {
                        Some(n) => {
                            let (second, mut src) = n.unwrap();
                            let g = grow(&first, &second, self.iter.get_cmp(), self.iter.get_factory());
                            dst.append(&mut src);
                            Some(Err((msg, ConsolidateMrsP::new((g, dst)))))
                        },
                        None => Some(Err((msg, ConsolidateMrsP::new((first, dst))))),
                    }
                },
            },
            None => None,
        }
    }
}

} // verus!
