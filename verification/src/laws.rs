//! What holds of the library as a whole: how ranges relate, how groups hold their
//! sources, how a segment sits among the ranges it was cut from, and how the walk moves.
use vstd::prelude::*;

use crate::builder::{CpCmp, GetBeginEndOption, IncDecCpCmp, NumberIncDecCpCmp};
use crate::iter::consolidate::checker::checked_step;
use crate::iter::consolidate::checker::column::{filtered, rows_view, select_rows, Column};
use crate::iter::consolidate::{position_check, ConsolidationOrder};
use crate::iter::{spec_try_next, spec_try_next_back};
use crate::utils::{
    spec_consolidate, spec_contains, spec_first_range, spec_grow, spec_hull_before,
    spec_last_range, spec_least_begin_over, spec_min_max,
    spec_least_end_over, spec_next_after, spec_next_range, spec_next_smallest, spec_overlap,
    spec_previous_range, spec_previous_smallest, spec_range_relation,
    spec_reduce_next, spec_reduce_previous, spec_retool_begin, spec_retool_end, spec_valid,
    relation_value, RangeRelation,
};
use crate::{pair_of, GetBeginEnd};

verus! {

/// The pair `inner` lies within the pair `outer`.
pub open spec fn within<T, C: CpCmp<T>>(t: &C, inner: (T, T), outer: (T, T)) -> bool {
    spec_contains(t, outer.0, outer.1, inner.0) && spec_contains(t, outer.0, outer.1, inner.1)
}

/// The pairs `a` and `b` share no value.
pub open spec fn apart<T, C: CpCmp<T>>(t: &C, a: (T, T), b: (T, T)) -> bool {
    t.spec_lt(a.1, b.0) || t.spec_lt(b.1, a.0)
}

/// The pair begins no later than it ends.
pub open spec fn ordered<T, C: CpCmp<T>>(t: &C, r: (T, T)) -> bool {
    !t.spec_lt(r.1, r.0)
}

/// Every source of the group `g` lies within its hull.
pub open spec fn holds_members<T, S: GetBeginEnd<T>, C: CpCmp<T>>(
    t: &C,
    g: ((T, T), Seq<(usize, S)>),
) -> bool {
    forall|k: int| 0 <= k < g.1.len() ==> within(t, pair_of(#[trigger] g.1[k].1), g.0)
}

/// Relations mirror each other: of two valid ranges, a is before b exactly when b is
/// after a, and they overlap in either order or in neither.
pub proof fn lemma_relation_mirror<T, C: CpCmp<T>>(t: &C, a: (T, T), b: (T, T))
    requires
        spec_valid(t, a),
        spec_valid(t, b),
    ensures
        spec_range_relation(t, a, b) is Before <==> spec_range_relation(t, b, a) is After,
        spec_range_relation(t, a, b) is After <==> spec_range_relation(t, b, a) is Before,
        spec_range_relation(t, a, b) is Overlap <==> spec_range_relation(t, b, a) is Overlap,
{
    t.lemma_order();
    if t.spec_lt(a.1, b.0) && t.spec_lt(b.1, a.0) {
        assert(!t.spec_lt(b.1, b.0));
        assert(!t.spec_lt(a.1, a.0));
        assert(t.spec_lt(a.1, a.0) || a.0 == a.1 || t.spec_lt(a.0, a.1));
        assert(t.spec_lt(b.1, b.0) || b.0 == b.1 || t.spec_lt(b.0, b.1));
    }
}

/// Growing a range by another gives a range that holds both of them.
pub proof fn lemma_grow_holds_both<T, C: CpCmp<T>>(t: &C, x: (T, T), y: (T, T))
    requires
        ordered(t, x),
        ordered(t, y),
    ensures
        within(t, x, spec_grow(t, x, y)),
        within(t, y, spec_grow(t, x, y)),
{
    t.lemma_order();
    assert(t.spec_lt(x.0, y.0) || x.0 == y.0 || t.spec_lt(y.0, x.0));
    assert(t.spec_lt(x.1, y.1) || x.1 == y.1 || t.spec_lt(y.1, x.1));
    assert(t.spec_lt(x.0, x.1) || x.0 == x.1 || t.spec_lt(x.1, x.0));
    assert(t.spec_lt(y.0, y.1) || y.0 == y.1 || t.spec_lt(y.1, y.0));
    assert(t.spec_lt(x.0, y.1) || x.0 == y.1 || t.spec_lt(y.1, x.0));
    assert(t.spec_lt(y.0, x.1) || y.0 == x.1 || t.spec_lt(x.1, y.0));
}

/// A group's hull still holds its members after it is grown by the hull of a new one.
proof fn lemma_grow_keeps_members<T, S: GetBeginEnd<T>, C: CpCmp<T>>(
    t: &C,
    g: ((T, T), Seq<(usize, S)>),
    a: ((T, T), Seq<(usize, S)>),
)
    requires
        ordered(t, g.0),
        ordered(t, a.0),
        holds_members(t, g),
        holds_members(t, a),
    ensures
        holds_members(t, (spec_grow(t, g.0, a.0), g.1 + a.1)),
        ordered(t, spec_grow(t, g.0, a.0)),
{
    t.lemma_order();
    lemma_grow_holds_both(t, g.0, a.0);
    let h = spec_grow(t, g.0, a.0);
    let m = g.1 + a.1;
    assert forall|k: int| 0 <= k < m.len() implies within(t, pair_of(#[trigger] m[k].1), h) by {
        let (outer, p) = if k < g.1.len() {
            (g.0, pair_of(g.1[k].1))
        } else {
            (a.0, pair_of(a.1[k - g.1.len()].1))
        };
        assert(within(t, p, outer));
        assert(within(t, outer, h));
        assert(t.spec_lt(p.0, outer.0) || p.0 == outer.0 || t.spec_lt(outer.0, p.0));
        assert(t.spec_lt(p.1, outer.1) || p.1 == outer.1 || t.spec_lt(outer.1, p.1));
        assert(t.spec_lt(p.0, h.0) || p.0 == h.0 || t.spec_lt(h.0, p.0));
        assert(t.spec_lt(p.1, h.1) || p.1 == h.1 || t.spec_lt(h.1, p.1));
        assert(t.spec_lt(p.0, h.1) || p.0 == h.1 || t.spec_lt(h.1, p.0));
        assert(t.spec_lt(p.1, h.0) || p.1 == h.0 || t.spec_lt(h.0, p.1));
    }
    assert(t.spec_lt(h.0, h.1) || h.0 == h.1 || t.spec_lt(h.1, h.0));
    assert(t.spec_lt(g.0.0, g.0.1) || g.0.0 == g.0.1 || t.spec_lt(g.0.1, g.0.0));
}

/// Every group that consolidation hands out, and the group it leaves open, holds the
/// ranges it was built from: each source lies within the group's range.
pub proof fn lemma_groups_hold_sources<T, S: GetBeginEnd<T>, C: CpCmp<T>>(
    t: &C,
    last: Option<((T, T), Seq<(usize, S)>)>,
    input: Seq<S>,
    offset: nat,
)
    requires
        forall|k: int| 0 <= k < input.len() ==> ordered(t, pair_of(#[trigger] input[k])),
        last matches Some(g) ==> ordered(t, g.0) && holds_members(t, g),
    ensures
        ({
            let s = spec_consolidate(t, last, input, offset);
            &&& s.1 matches Some(rel) ==> holds_members(t, relation_value(rel))
            &&& s.2 matches Some(g) ==> holds_members(t, g)
        }),
    decreases input.len(),
{
    t.lemma_order();
    if input.len() > 0 {
        let x = input[0];
        let ar = (pair_of(x), seq![(offset as usize, x)]);
        assert(ordered(t, pair_of(x)));
        assert(t.spec_lt(ar.0.0, ar.0.1) || ar.0.0 == ar.0.1 || t.spec_lt(ar.0.1, ar.0.0));
        assert(holds_members(t, ar)) by {
            assert(within(t, pair_of(ar.1[0].1), ar.0));
        }
        let rest = input.drop_first();
        assert forall|k: int| 0 <= k < rest.len() implies ordered(t, pair_of(#[trigger] rest[k])) by {
            assert(rest[k] == input[k + 1]);
        }
        match last {
            None => {
                lemma_groups_hold_sources(t, Some(ar), rest, offset + 1);
            },
            Some(g) => {
                match spec_range_relation(t, g.0, ar.0) {
                    RangeRelation::Overlap(_) => {
                        lemma_grow_keeps_members(t, g, ar);
                        let nr = spec_grow(t, g.0, ar.0);
                        if spec_valid(t, nr) {
                            lemma_groups_hold_sources(t, Some((nr, g.1 + ar.1)), rest, offset + 1);
                        }
                    },
                    _ => {},
                }
            },
        }
    }
}

/// What the first reduction of a segment keeps: its end is at most `end`, and at most the
/// begin of every overlapping valid range that begins after `begin`, and at most the end of
/// every other overlapping valid range.
pub proof fn lemma_reduce_next_bounds<T, C: CpCmp<T>>(t: &C, begin: T, end: T, s: Seq<(T, T)>, n: nat)
    requires
        n <= s.len(),
    ensures
        !t.spec_lt(end, spec_reduce_next(t, begin, end, s, n)),
        forall|k: int|
            0 <= k < n && spec_valid(t, #[trigger] s[k]) && spec_overlap(t, begin, end, s[k].0, s[k].1)
                ==> if t.spec_lt(begin, s[k].0) {
                !t.spec_lt(s[k].0, spec_reduce_next(t, begin, end, s, n))
            } else {
                !t.spec_lt(s[k].1, spec_reduce_next(t, begin, end, s, n))
            },
    decreases n,
{
    t.lemma_order();
    if n > 0 {
        lemma_reduce_next_bounds(t, begin, end, s, (n - 1) as nat);
        let acc = spec_reduce_next(t, begin, end, s, (n - 1) as nat);
        let cur = spec_reduce_next(t, begin, end, s, n);
        assert(t.spec_lt(acc, cur) || acc == cur || t.spec_lt(cur, acc));
        assert(t.spec_lt(end, cur) || end == cur || t.spec_lt(cur, end));
        assert forall|k: int|
            0 <= k < n && spec_valid(t, #[trigger] s[k]) && spec_overlap(t, begin, end, s[k].0, s[k].1)
                implies if t.spec_lt(begin, s[k].0) {
            !t.spec_lt(s[k].0, cur)
        } else {
            !t.spec_lt(s[k].1, cur)
        } by {
            assert(t.spec_lt(s[k].0, cur) || s[k].0 == cur || t.spec_lt(cur, s[k].0));
            assert(t.spec_lt(s[k].1, cur) || s[k].1 == cur || t.spec_lt(cur, s[k].1));
            assert(t.spec_lt(s[k].0, acc) || s[k].0 == acc || t.spec_lt(acc, s[k].0));
            assert(t.spec_lt(s[k].1, acc) || s[k].1 == acc || t.spec_lt(acc, s[k].1));
        }
    }
}

/// What lowering a segment's end keeps: the end goes no higher, and ends before every
/// valid range that begins inside the segment after `begin` and can be stepped down from.
pub proof fn lemma_retool_end_bounds<T, V, C: IncDecCpCmp<T, V>>(
    t: &C,
    begin: T,
    end: T,
    s: Seq<(T, T)>,
    step: V,
    n: nat,
)
    requires
        n <= s.len(),
    ensures
        !t.spec_lt(end, spec_retool_end(t, begin, end, s, step, n)),
        forall|k: int|
            0 <= k < n && spec_valid(t, #[trigger] s[k]) && t.spec_lt(begin, s[k].0) && !t.spec_lt(
                end,
                s[k].0,
            ) && t.spec_dec(s[k].0, step) is Some ==> t.spec_lt(
                spec_retool_end(t, begin, end, s, step, n),
                s[k].0,
            ),
    decreases n,
{
    t.lemma_order();
    t.lemma_inc_dec();
    if n > 0 {
        lemma_retool_end_bounds(t, begin, end, s, step, (n - 1) as nat);
        let acc = spec_retool_end(t, begin, end, s, step, (n - 1) as nat);
        let cur = spec_retool_end(t, begin, end, s, step, n);
        assert(t.spec_lt(acc, cur) || acc == cur || t.spec_lt(cur, acc));
        assert(t.spec_lt(end, cur) || end == cur || t.spec_lt(cur, end));
        let r = s[n - 1];
        if let Some(d) = t.spec_dec(r.0, step) {
            assert(t.spec_lt(d, r.0));
            assert(t.spec_lt(d, acc) || d == acc || t.spec_lt(acc, d));
        }
        assert forall|k: int|
            0 <= k < n && spec_valid(t, #[trigger] s[k]) && t.spec_lt(begin, s[k].0) && !t.spec_lt(
                end,
                s[k].0,
            ) && t.spec_dec(s[k].0, step) is Some implies t.spec_lt(cur, s[k].0) by {
            assert(t.spec_lt(s[k].0, cur) || s[k].0 == cur || t.spec_lt(cur, s[k].0));
            assert(t.spec_lt(s[k].0, acc) || s[k].0 == acc || t.spec_lt(acc, s[k].0));
            let d = t.spec_dec(s[k].0, step).unwrap();
            assert(t.spec_lt(d, s[k].0));
        }
    }
}

/// **A segment is a common intersection.** The first segment of begin..=end ends no
/// later than `end`, and every valid range either holds all of it or none of it, as long
/// as the segment is not empty and every range beginning after `begin` can be stepped
/// down from.
pub proof fn lemma_next_segment_uniform<T, V, C: IncDecCpCmp<T, V>>(
    t: &C,
    begin: T,
    end: T,
    s: Seq<(T, T)>,
    step: V,
)
    requires
        ordered(t, spec_next_smallest(t, begin, end, s, step)),
        forall|k: int|
            0 <= k < s.len() && t.spec_lt(begin, (#[trigger] s[k]).0) ==> t.spec_dec(s[k].0, step)
                is Some,
    ensures
        spec_next_smallest(t, begin, end, s, step).0 == begin,
        !t.spec_lt(end, spec_next_smallest(t, begin, end, s, step).1),
        forall|k: int|
            0 <= k < s.len() && spec_valid(t, #[trigger] s[k]) ==> within(
                t,
                spec_next_smallest(t, begin, end, s, step),
                s[k],
            ) || apart(t, spec_next_smallest(t, begin, end, s, step), s[k]),
{
    t.lemma_order();
    let e1 = spec_reduce_next(t, begin, end, s, s.len());
    let seg = spec_next_smallest(t, begin, end, s, step);
    let e2 = seg.1;
    lemma_reduce_next_bounds(t, begin, end, s, s.len());
    lemma_retool_end_bounds(t, begin, e1, s, step, s.len());
    assert(t.spec_lt(e1, e2) || e1 == e2 || t.spec_lt(e2, e1));
    assert(t.spec_lt(end, e1) || end == e1 || t.spec_lt(e1, end));
    assert(t.spec_lt(end, e2) || end == e2 || t.spec_lt(e2, end));
    assert forall|k: int| 0 <= k < s.len() && spec_valid(t, #[trigger] s[k]) implies within(
        t,
        seg,
        s[k],
    ) || apart(t, seg, s[k]) by {
        let r = s[k];
        assert(t.spec_lt(r.0, r.1) || r.0 == r.1 || t.spec_lt(r.1, r.0));
        assert(t.spec_lt(begin, r.0) || begin == r.0 || t.spec_lt(r.0, begin));
        assert(t.spec_lt(begin, r.1) || begin == r.1 || t.spec_lt(r.1, begin));
        assert(t.spec_lt(e1, r.0) || e1 == r.0 || t.spec_lt(r.0, e1));
        assert(t.spec_lt(e2, r.0) || e2 == r.0 || t.spec_lt(r.0, e2));
        assert(t.spec_lt(e2, r.1) || e2 == r.1 || t.spec_lt(r.1, e2));
        assert(t.spec_lt(end, r.0) || end == r.0 || t.spec_lt(r.0, end));
        assert(t.spec_lt(end, r.1) || end == r.1 || t.spec_lt(r.1, end));
        assert(t.spec_lt(begin, e2) || begin == e2 || t.spec_lt(e2, begin));
    }
}

/// What the last reduction of a segment keeps: its begin is at least `begin`, and at least
/// the end of every overlapping valid range that ends before `end`, and at least the begin
/// of every other overlapping valid range.
pub proof fn lemma_reduce_previous_bounds<T, C: CpCmp<T>>(t: &C, begin: T, end: T, s: Seq<(T, T)>, n: nat)
    requires
        n <= s.len(),
    ensures
        !t.spec_lt(spec_reduce_previous(t, begin, end, s, n), begin),
        forall|k: int|
            0 <= k < n && spec_valid(t, #[trigger] s[k]) && spec_overlap(t, begin, end, s[k].0, s[k].1)
                ==> if t.spec_lt(s[k].1, end) {
                !t.spec_lt(spec_reduce_previous(t, begin, end, s, n), s[k].1)
            } else {
                !t.spec_lt(spec_reduce_previous(t, begin, end, s, n), s[k].0)
            },
    decreases n,
{
    t.lemma_order();
    if n > 0 {
        lemma_reduce_previous_bounds(t, begin, end, s, (n - 1) as nat);
        let acc = spec_reduce_previous(t, begin, end, s, (n - 1) as nat);
        let cur = spec_reduce_previous(t, begin, end, s, n);
        assert(t.spec_lt(acc, cur) || acc == cur || t.spec_lt(cur, acc));
        assert(t.spec_lt(begin, cur) || begin == cur || t.spec_lt(cur, begin));
        assert forall|k: int|
            0 <= k < n && spec_valid(t, #[trigger] s[k]) && spec_overlap(t, begin, end, s[k].0, s[k].1)
                implies if t.spec_lt(s[k].1, end) {
            !t.spec_lt(cur, s[k].1)
        } else {
            !t.spec_lt(cur, s[k].0)
        } by {
            assert(t.spec_lt(s[k].0, cur) || s[k].0 == cur || t.spec_lt(cur, s[k].0));
            assert(t.spec_lt(s[k].1, cur) || s[k].1 == cur || t.spec_lt(cur, s[k].1));
            assert(t.spec_lt(s[k].0, acc) || s[k].0 == acc || t.spec_lt(acc, s[k].0));
            assert(t.spec_lt(s[k].1, acc) || s[k].1 == acc || t.spec_lt(acc, s[k].1));
        }
    }
}

/// What raising a segment's begin keeps: the begin goes no lower, and begins after every
/// valid range that ends inside the segment before `end` and can be stepped up from.
pub proof fn lemma_retool_begin_bounds<T, V, C: IncDecCpCmp<T, V>>(
    t: &C,
    begin: T,
    end: T,
    s: Seq<(T, T)>,
    step: V,
    n: nat,
)
    requires
        n <= s.len(),
    ensures
        !t.spec_lt(spec_retool_begin(t, begin, end, s, step, n), begin),
        forall|k: int|
            0 <= k < n && spec_valid(t, #[trigger] s[k]) && !t.spec_lt(s[k].1, begin) && t.spec_lt(
                s[k].1,
                end,
            ) && t.spec_inc(s[k].1, step) is Some ==> t.spec_lt(
                s[k].1,
                spec_retool_begin(t, begin, end, s, step, n),
            ),
    decreases n,
{
    t.lemma_order();
    t.lemma_inc_dec();
    if n > 0 {
        lemma_retool_begin_bounds(t, begin, end, s, step, (n - 1) as nat);
        let acc = spec_retool_begin(t, begin, end, s, step, (n - 1) as nat);
        let cur = spec_retool_begin(t, begin, end, s, step, n);
        assert(t.spec_lt(acc, cur) || acc == cur || t.spec_lt(cur, acc));
        assert(t.spec_lt(begin, cur) || begin == cur || t.spec_lt(cur, begin));
        let r = s[n - 1];
        if let Some(d) = t.spec_inc(r.1, step) {
            assert(t.spec_lt(r.1, d));
            assert(t.spec_lt(d, acc) || d == acc || t.spec_lt(acc, d));
        }
        assert forall|k: int|
            0 <= k < n && spec_valid(t, #[trigger] s[k]) && !t.spec_lt(s[k].1, begin) && t.spec_lt(
                s[k].1,
                end,
            ) && t.spec_inc(s[k].1, step) is Some implies t.spec_lt(s[k].1, cur) by {
            assert(t.spec_lt(s[k].1, cur) || s[k].1 == cur || t.spec_lt(cur, s[k].1));
            assert(t.spec_lt(s[k].1, acc) || s[k].1 == acc || t.spec_lt(acc, s[k].1));
            let d = t.spec_inc(s[k].1, step).unwrap();
            assert(t.spec_lt(s[k].1, d));
        }
    }
}

/// **A segment is a common intersection, going backward.** The last segment of
/// begin..=end begins no earlier than `begin`, and every valid range either holds all of it
/// or none of it, as long as the segment is not empty and every range ending before `end`
/// can be stepped up from.
pub proof fn lemma_previous_segment_uniform<T, V, C: IncDecCpCmp<T, V>>(
    t: &C,
    begin: T,
    end: T,
    s: Seq<(T, T)>,
    step: V,
)
    requires
        ordered(t, spec_previous_smallest(t, begin, end, s, step)),
        forall|k: int|
            0 <= k < s.len() && t.spec_lt((#[trigger] s[k]).1, end) ==> t.spec_inc(s[k].1, step)
                is Some,
    ensures
        spec_previous_smallest(t, begin, end, s, step).1 == end,
        !t.spec_lt(spec_previous_smallest(t, begin, end, s, step).0, begin),
        forall|k: int|
            0 <= k < s.len() && spec_valid(t, #[trigger] s[k]) ==> within(
                t,
                spec_previous_smallest(t, begin, end, s, step),
                s[k],
            ) || apart(t, spec_previous_smallest(t, begin, end, s, step), s[k]),
{
    t.lemma_order();
    let b1 = spec_reduce_previous(t, begin, end, s, s.len());
    let seg = spec_previous_smallest(t, begin, end, s, step);
    let b2 = seg.0;
    lemma_reduce_previous_bounds(t, begin, end, s, s.len());
    lemma_retool_begin_bounds(t, b1, end, s, step, s.len());
    assert(t.spec_lt(b1, b2) || b1 == b2 || t.spec_lt(b2, b1));
    assert(t.spec_lt(begin, b1) || begin == b1 || t.spec_lt(b1, begin));
    assert(t.spec_lt(begin, b2) || begin == b2 || t.spec_lt(b2, begin));
    assert forall|k: int| 0 <= k < s.len() && spec_valid(t, #[trigger] s[k]) implies within(
        t,
        seg,
        s[k],
    ) || apart(t, seg, s[k]) by {
        let r = s[k];
        assert(t.spec_lt(r.0, r.1) || r.0 == r.1 || t.spec_lt(r.1, r.0));
        assert(t.spec_lt(end, r.0) || end == r.0 || t.spec_lt(r.0, end));
        assert(t.spec_lt(end, r.1) || end == r.1 || t.spec_lt(r.1, end));
        assert(t.spec_lt(b1, r.1) || b1 == r.1 || t.spec_lt(r.1, b1));
        assert(t.spec_lt(b2, r.0) || b2 == r.0 || t.spec_lt(r.0, b2));
        assert(t.spec_lt(b2, r.1) || b2 == r.1 || t.spec_lt(r.1, b2));
        assert(t.spec_lt(begin, r.0) || begin == r.0 || t.spec_lt(r.0, begin));
        assert(t.spec_lt(begin, r.1) || begin == r.1 || t.spec_lt(r.1, begin));
        assert(t.spec_lt(b2, end) || b2 == end || t.spec_lt(end, b2));
    }
}

/// The first reduction ends at `end` or at a begin or end of an overlapping valid range.
pub proof fn lemma_reduce_next_candidate<T, C: CpCmp<T>>(t: &C, begin: T, end: T, s: Seq<(T, T)>, n: nat)
    requires
        n <= s.len(),
    ensures
        spec_reduce_next(t, begin, end, s, n) == end || exists|k: int|
            0 <= k < n && spec_valid(t, #[trigger] s[k]) && spec_overlap(t, begin, end, s[k].0, s[k].1)
                && spec_reduce_next(t, begin, end, s, n) == if t.spec_lt(begin, s[k].0) {
                s[k].0
            } else {
                s[k].1
            },
    decreases n,
{
    if n > 0 {
        lemma_reduce_next_candidate(t, begin, end, s, (n - 1) as nat);
    }
}

/// Lowering a segment's end ends at the given end or just before the begin of a valid range.
pub proof fn lemma_retool_end_candidate<T, V, C: IncDecCpCmp<T, V>>(
    t: &C,
    begin: T,
    end: T,
    s: Seq<(T, T)>,
    step: V,
    n: nat,
)
    requires
        n <= s.len(),
    ensures
        spec_retool_end(t, begin, end, s, step, n) == end || exists|k: int|
            0 <= k < n && spec_valid(t, #[trigger] s[k]) && t.spec_lt(begin, s[k].0) && t.spec_dec(
                s[k].0,
                step,
            ) == Some(spec_retool_end(t, begin, end, s, step, n)),
    decreases n,
{
    if n > 0 {
        lemma_retool_end_candidate(t, begin, end, s, step, (n - 1) as nat);
    }
}

/// **A segment ends where the ranges change.** The first segment of begin..=end ends at
/// `end`, at the end of a valid range that begins no later than `begin`, or at (or just
/// before) the begin of a valid range that begins after `begin`.
pub proof fn lemma_next_segment_ends_at_boundary<T, V, C: IncDecCpCmp<T, V>>(
    t: &C,
    begin: T,
    end: T,
    s: Seq<(T, T)>,
    step: V,
)
    ensures
        spec_next_smallest(t, begin, end, s, step).1 == end || exists|k: int|
            0 <= k < s.len() && spec_valid(t, #[trigger] s[k]) && ((!t.spec_lt(begin, s[k].0)
                && s[k].1 == spec_next_smallest(t, begin, end, s, step).1) || (t.spec_lt(begin, s[k].0)
                && (s[k].0 == spec_next_smallest(t, begin, end, s, step).1 || t.spec_dec(s[k].0, step)
                == Some(spec_next_smallest(t, begin, end, s, step).1)))),
{
    let e1 = spec_reduce_next(t, begin, end, s, s.len());
    lemma_reduce_next_candidate(t, begin, end, s, s.len());
    lemma_retool_end_candidate(t, begin, e1, s, step, s.len());
}

/// The last reduction begins at `begin` or at an end or begin of an overlapping valid range.
pub proof fn lemma_reduce_previous_candidate<T, C: CpCmp<T>>(t: &C, begin: T, end: T, s: Seq<(T, T)>, n: nat)
    requires
        n <= s.len(),
    ensures
        spec_reduce_previous(t, begin, end, s, n) == begin || exists|k: int|
            0 <= k < n && spec_valid(t, #[trigger] s[k]) && spec_overlap(t, begin, end, s[k].0, s[k].1)
                && spec_reduce_previous(t, begin, end, s, n) == if t.spec_lt(s[k].1, end) {
                s[k].1
            } else {
                s[k].0
            },
    decreases n,
{
    if n > 0 {
        lemma_reduce_previous_candidate(t, begin, end, s, (n - 1) as nat);
    }
}

/// Raising a segment's begin begins at the given begin or just after the end of a valid
/// range.
pub proof fn lemma_retool_begin_candidate<T, V, C: IncDecCpCmp<T, V>>(
    t: &C,
    begin: T,
    end: T,
    s: Seq<(T, T)>,
    step: V,
    n: nat,
)
    requires
        n <= s.len(),
    ensures
        spec_retool_begin(t, begin, end, s, step, n) == begin || exists|k: int|
            0 <= k < n && spec_valid(t, #[trigger] s[k]) && t.spec_lt(s[k].1, end) && t.spec_inc(
                s[k].1,
                step,
            ) == Some(spec_retool_begin(t, begin, end, s, step, n)),
    decreases n,
{
    if n > 0 {
        lemma_retool_begin_candidate(t, begin, end, s, step, (n - 1) as nat);
    }
}

/// **A segment begins where the ranges change, going backward.** The last segment of
/// begin..=end begins at `begin`, at the begin of a valid range that ends no earlier than
/// `end`, or at (or just after) the end of a valid range that ends before `end`.
pub proof fn lemma_previous_segment_begins_at_boundary<T, V, C: IncDecCpCmp<T, V>>(
    t: &C,
    begin: T,
    end: T,
    s: Seq<(T, T)>,
    step: V,
)
    ensures
        spec_previous_smallest(t, begin, end, s, step).0 == begin || exists|k: int|
            0 <= k < s.len() && spec_valid(t, #[trigger] s[k]) && ((!t.spec_lt(s[k].1, end)
                && s[k].0 == spec_previous_smallest(t, begin, end, s, step).0) || (t.spec_lt(s[k].1, end)
                && (s[k].1 == spec_previous_smallest(t, begin, end, s, step).0 || t.spec_inc(s[k].1, step)
                == Some(spec_previous_smallest(t, begin, end, s, step).0)))),
{
    let b1 = spec_reduce_previous(t, begin, end, s, s.len());
    lemma_reduce_previous_candidate(t, begin, end, s, s.len());
    lemma_retool_begin_candidate(t, b1, end, s, step, s.len());
}

/// The point `point` is passed by the nearest range that begins after it.
pub proof fn lemma_next_after_begins_later<T, C: CpCmp<T>>(t: &C, point: T, s: Seq<(T, T)>, n: nat)
    requires
        n <= s.len(),
    ensures
        spec_next_after(t, point, s, n) matches Some(p) ==> t.spec_lt(point, p.0),
    decreases n,
{
    if n > 0 {
        lemma_next_after_begins_later(t, point, s, (n - 1) as nat);
    }
}

/// The hull of the ranges that end before `point` ends before it too.
pub proof fn lemma_hull_before_ends_earlier<T, C: CpCmp<T>>(t: &C, point: T, s: Seq<(T, T)>, n: nat)
    requires
        n <= s.len(),
    ensures
        spec_hull_before(t, point, s, n) matches Some(p) ==> t.spec_lt(p.1, point),
    decreases n,
{
    t.lemma_order();
    if n > 0 {
        lemma_hull_before_ends_earlier(t, point, s, (n - 1) as nat);
    }
}

/// The least end over `point` exists exactly when a valid range holds `point`.
pub proof fn lemma_least_end_over_found<T, C: CpCmp<T>>(t: &C, point: T, s: Seq<(T, T)>, n: nat)
    requires
        n <= s.len(),
    ensures
        spec_least_end_over(t, point, s, n) is None <==> forall|k: int|
            0 <= k < n ==> !(spec_valid(t, #[trigger] s[k]) && spec_contains(t, s[k].0, s[k].1, point)),
    decreases n,
{
    if n > 0 {
        lemma_least_end_over_found(t, point, s, (n - 1) as nat);
        if spec_least_end_over(t, point, s, n) is None {
            assert forall|k: int|
                0 <= k < n implies !(spec_valid(t, #[trigger] s[k]) && spec_contains(
                    t,
                    s[k].0,
                    s[k].1,
                    point,
                )) by {
                if k < n - 1 {
                } else {
                }
            }
        } else {
            if spec_least_end_over(t, point, s, (n - 1) as nat) is None {
                let k = n - 1;
                assert(spec_valid(t, s[k]) && spec_contains(t, s[k].0, s[k].1, point));
            }
        }
    }
}

/// The nearest range after `point` is a valid range that begins after `point`, and no
/// valid range that begins after `point` begins before it; there is none exactly when no
/// valid range begins after `point` without holding it.
pub proof fn lemma_next_after_least<T, C: CpCmp<T>>(t: &C, point: T, s: Seq<(T, T)>, n: nat)
    requires
        n <= s.len(),
    ensures
        spec_next_after(t, point, s, n) matches Some(p) ==> {
            &&& spec_valid(t, p)
            &&& t.spec_lt(point, p.0)
            &&& forall|k: int|
                0 <= k < n && spec_valid(t, #[trigger] s[k]) && !spec_contains(
                    t,
                    s[k].0,
                    s[k].1,
                    point,
                ) && t.spec_lt(point, s[k].0) ==> !t.spec_lt(s[k].0, p.0)
        },
        spec_next_after(t, point, s, n) is None ==> forall|k: int|
            0 <= k < n ==> !(spec_valid(t, #[trigger] s[k]) && !spec_contains(
                t,
                s[k].0,
                s[k].1,
                point,
            ) && t.spec_lt(point, s[k].0)),
    decreases n,
{
    t.lemma_order();
    if n > 0 {
        lemma_next_after_least(t, point, s, (n - 1) as nat);
        let prev = spec_next_after(t, point, s, (n - 1) as nat);
        let cur = spec_next_after(t, point, s, n);
        if let Some(p) = cur {
            assert forall|k: int|
                0 <= k < n && spec_valid(t, #[trigger] s[k]) && !spec_contains(
                    t,
                    s[k].0,
                    s[k].1,
                    point,
                ) && t.spec_lt(point, s[k].0) implies !t.spec_lt(s[k].0, p.0) by {
                if let Some(q) = prev {
                    assert(t.spec_lt(s[k].0, q.0) || s[k].0 == q.0 || t.spec_lt(q.0, s[k].0));
                    assert(t.spec_lt(p.0, q.0) || p.0 == q.0 || t.spec_lt(q.0, p.0));
                }
                assert(t.spec_lt(s[k].0, p.0) || s[k].0 == p.0 || t.spec_lt(p.0, s[k].0));
            }
        }
    }
}

/// **No covered value is skipped.** The segment that the walk finds from `begin` begins at
/// `begin` or later, lies where some valid range is, and no valid range holds a value from
/// `begin` up to the segment's begin; when there is no segment, no valid range holds
/// `begin` or any value after it.
pub proof fn lemma_next_range_skips_nothing<T, V, C: IncDecCpCmp<T, V>>(
    t: &C,
    begin: T,
    s: Seq<(T, T)>,
    step: V,
)
    ensures
        spec_next_range(t, begin, s, step) matches Some(seg) ==> {
            &&& !t.spec_lt(seg.0, begin)
            &&& exists|k: int|
                0 <= k < s.len() && spec_valid(t, #[trigger] s[k]) && spec_contains(
                    t,
                    s[k].0,
                    s[k].1,
                    seg.0,
                )
            &&& forall|k: int, p: T|
                0 <= k < s.len() && spec_valid(t, s[k]) && !t.spec_lt(p, begin) && t.spec_lt(
                    p,
                    seg.0,
                ) ==> !#[trigger] spec_contains(t, s[k].0, s[k].1, p)
        },
        spec_next_range(t, begin, s, step) is None ==> forall|k: int, p: T|
            0 <= k < s.len() && spec_valid(t, s[k]) && !t.spec_lt(p, begin) ==> !#[trigger] spec_contains(
                t,
                s[k].0,
                s[k].1,
                p,
            ),
{
    t.lemma_order();
    lemma_least_end_over_found(t, begin, s, s.len());
    lemma_next_after_least(t, begin, s, s.len());
    match spec_least_end_over(t, begin, s, s.len()) {
        Some(e) => {
            let k = choose|k: int|
                0 <= k < s.len() && spec_valid(t, #[trigger] s[k]) && spec_contains(t, s[k].0, s[k].1, begin);
            assert(spec_valid(t, s[k]) && spec_contains(t, s[k].0, s[k].1, begin));
        },
        None => {
            match spec_next_after(t, begin, s, s.len()) {
                Some(q) => {
                    let seg = spec_next_range(t, begin, s, step).unwrap();
                    assert(seg.0 == q.0);
                    assert(exists|k: int| 0 <= k < s.len() && s[k] == q) by {
                        lemma_next_after_member(t, begin, s, s.len());
                    }
                    let k = choose|k: int| 0 <= k < s.len() && s[k] == q;
                    assert(spec_contains(t, s[k].0, s[k].1, seg.0)) by {
                        assert(t.spec_lt(q.0, q.1) || q.0 == q.1 || t.spec_lt(q.1, q.0));
                    }
                    assert forall|k: int, p: T|
                        0 <= k < s.len() && spec_valid(t, s[k]) && !t.spec_lt(p, begin) && t.spec_lt(
                            p,
                            seg.0,
                        ) implies !#[trigger] spec_contains(t, s[k].0, s[k].1, p) by {
                        let r = s[k];
                        assert(!(spec_valid(t, s[k]) && spec_contains(t, s[k].0, s[k].1, begin)));
                        assert(t.spec_lt(r.0, begin) || r.0 == begin || t.spec_lt(begin, r.0));
                        assert(t.spec_lt(r.1, begin) || r.1 == begin || t.spec_lt(begin, r.1));
                        assert(t.spec_lt(r.0, p) || r.0 == p || t.spec_lt(p, r.0));
                        assert(t.spec_lt(r.1, p) || r.1 == p || t.spec_lt(p, r.1));
                        assert(t.spec_lt(begin, p) || begin == p || t.spec_lt(p, begin));
                    }
                },
                None => {
                    assert forall|k: int, p: T|
                        0 <= k < s.len() && spec_valid(t, s[k]) && !t.spec_lt(p, begin)
                            implies !#[trigger] spec_contains(t, s[k].0, s[k].1, p) by {
                        let r = s[k];
                        assert(!(spec_valid(t, s[k]) && spec_contains(t, s[k].0, s[k].1, begin)));
                        assert(t.spec_lt(r.0, begin) || r.0 == begin || t.spec_lt(begin, r.0));
                        assert(t.spec_lt(r.1, begin) || r.1 == begin || t.spec_lt(begin, r.1));
                        assert(t.spec_lt(r.1, p) || r.1 == p || t.spec_lt(p, r.1));
                        assert(t.spec_lt(begin, p) || begin == p || t.spec_lt(p, begin));
                    }
                },
            }
        },
    }
}

/// The nearest range after `point` is one of the ranges.
pub proof fn lemma_next_after_member<T, C: CpCmp<T>>(t: &C, point: T, s: Seq<(T, T)>, n: nat)
    requires
        n <= s.len(),
    ensures
        spec_next_after(t, point, s, n) matches Some(p) ==> exists|k: int| 0 <= k < n && s[k] == p,
    decreases n,
{
    if n > 0 {
        lemma_next_after_member(t, point, s, (n - 1) as nat);
        if let Some(p) = spec_next_after(t, point, s, n) {
            if spec_next_after(t, point, s, (n - 1) as nat) != Some(p) {
                assert(s[n - 1] == p);
            }
        }
    }
}

/// The least begin over `point` exists exactly when a valid range holds `point`.
pub proof fn lemma_least_begin_over_found<T, C: CpCmp<T>>(t: &C, point: T, s: Seq<(T, T)>, n: nat)
    requires
        n <= s.len(),
    ensures
        spec_least_begin_over(t, point, s, n) is None <==> forall|k: int|
            0 <= k < n ==> !(spec_valid(t, #[trigger] s[k]) && spec_contains(t, s[k].0, s[k].1, point)),
    decreases n,
{
    if n > 0 {
        lemma_least_begin_over_found(t, point, s, (n - 1) as nat);
        if spec_least_begin_over(t, point, s, n) is None {
            assert forall|k: int|
                0 <= k < n implies !(spec_valid(t, #[trigger] s[k]) && spec_contains(
                    t,
                    s[k].0,
                    s[k].1,
                    point,
                )) by {
                if k < n - 1 {
                } else {
                }
            }
        } else {
            if spec_least_begin_over(t, point, s, (n - 1) as nat) is None {
                let k = n - 1;
                assert(spec_valid(t, s[k]) && spec_contains(t, s[k].0, s[k].1, point));
            }
        }
    }
}

/// The hull of the valid ranges that end before `point` (without holding it) ends where
/// one of them ends, and none of them ends after it; there is none exactly when no valid
/// range ends before `point`.
pub proof fn lemma_hull_before_greatest<T, C: CpCmp<T>>(t: &C, point: T, s: Seq<(T, T)>, n: nat)
    requires
        n <= s.len(),
    ensures
        spec_hull_before(t, point, s, n) matches Some(p) ==> {
            &&& t.spec_lt(p.1, point)
            &&& exists|j: int|
                0 <= j < n && spec_valid(t, #[trigger] s[j]) && s[j].1 == p.1
            &&& forall|k: int|
                0 <= k < n && spec_valid(t, #[trigger] s[k]) && !spec_contains(
                    t,
                    s[k].0,
                    s[k].1,
                    point,
                ) && t.spec_lt(s[k].1, point) ==> !t.spec_lt(p.1, s[k].1)
        },
        spec_hull_before(t, point, s, n) is None ==> forall|k: int|
            0 <= k < n ==> !(spec_valid(t, #[trigger] s[k]) && !spec_contains(
                t,
                s[k].0,
                s[k].1,
                point,
            ) && t.spec_lt(s[k].1, point)),
    decreases n,
{
    t.lemma_order();
    if n > 0 {
        lemma_hull_before_greatest(t, point, s, (n - 1) as nat);
        let prev = spec_hull_before(t, point, s, (n - 1) as nat);
        let cur = spec_hull_before(t, point, s, n);
        let r = s[n - 1];
        if let Some(p) = cur {
            if spec_valid(t, r) && !spec_contains(t, r.0, r.1, point) && t.spec_lt(r.1, point) {
                match prev {
                    Some(q) => {
                        assert(t.spec_lt(q.1, r.1) || q.1 == r.1 || t.spec_lt(r.1, q.1));
                        if t.spec_lt(q.1, r.1) {
                            assert(s[n - 1].1 == p.1);
                        } else {
                            let j = choose|j: int|
                                0 <= j < n - 1 && spec_valid(t, #[trigger] s[j]) && s[j].1 == q.1;
                            assert(s[j].1 == p.1);
                        }
                    },
                    None => {
                        assert(s[n - 1].1 == p.1);
                    },
                }
            } else {
                let q = prev.unwrap();
                let j = choose|j: int| 0 <= j < n - 1 && spec_valid(t, #[trigger] s[j]) && s[j].1 == q.1;
                assert(s[j].1 == p.1);
            }
            assert forall|k: int|
                0 <= k < n && spec_valid(t, #[trigger] s[k]) && !spec_contains(
                    t,
                    s[k].0,
                    s[k].1,
                    point,
                ) && t.spec_lt(s[k].1, point) implies !t.spec_lt(p.1, s[k].1) by {
                if let Some(q) = prev {
                    assert(t.spec_lt(s[k].1, q.1) || s[k].1 == q.1 || t.spec_lt(q.1, s[k].1));
                    assert(t.spec_lt(p.1, q.1) || p.1 == q.1 || t.spec_lt(q.1, p.1));
                }
                assert(t.spec_lt(s[k].1, p.1) || s[k].1 == p.1 || t.spec_lt(p.1, s[k].1));
            }
        }
    }
}

/// **No covered value is skipped, going backward.** The segment that the walk finds
/// backward from `end` ends at `end` or earlier, lies where some valid range is, and no
/// valid range holds a value after the segment's end up to `end`; when there is no
/// segment, no valid range holds `end` or any value before it.
pub proof fn lemma_previous_range_skips_nothing<T, V, C: IncDecCpCmp<T, V>>(
    t: &C,
    end: T,
    s: Seq<(T, T)>,
    step: V,
)
    ensures
        spec_previous_range(t, end, s, step) matches Some(seg) ==> {
            &&& !t.spec_lt(end, seg.1)
            &&& exists|k: int|
                0 <= k < s.len() && spec_valid(t, #[trigger] s[k]) && spec_contains(
                    t,
                    s[k].0,
                    s[k].1,
                    seg.1,
                )
            &&& forall|k: int, p: T|
                0 <= k < s.len() && spec_valid(t, s[k]) && t.spec_lt(seg.1, p) && !t.spec_lt(
                    end,
                    p,
                ) ==> !#[trigger] spec_contains(t, s[k].0, s[k].1, p)
        },
        spec_previous_range(t, end, s, step) is None ==> forall|k: int, p: T|
            0 <= k < s.len() && spec_valid(t, s[k]) && !t.spec_lt(end, p) ==> !#[trigger] spec_contains(
                t,
                s[k].0,
                s[k].1,
                p,
            ),
{
    t.lemma_order();
    lemma_least_begin_over_found(t, end, s, s.len());
    lemma_hull_before_greatest(t, end, s, s.len());
    match spec_least_begin_over(t, end, s, s.len()) {
        Some(b) => {
            let k = choose|k: int|
                0 <= k < s.len() && spec_valid(t, #[trigger] s[k]) && spec_contains(t, s[k].0, s[k].1, end);
            assert(spec_valid(t, s[k]) && spec_contains(t, s[k].0, s[k].1, end));
        },
        None => {
            match spec_hull_before(t, end, s, s.len()) {
                Some(q) => {
                    let seg = spec_previous_range(t, end, s, step).unwrap();
                    assert(seg.1 == q.1);
                    let j = choose|j: int| 0 <= j < s.len() && spec_valid(t, #[trigger] s[j]) && s[j].1 == q.1;
                    assert(spec_contains(t, s[j].0, s[j].1, seg.1)) by {
                        assert(t.spec_lt(s[j].0, s[j].1) || s[j].0 == s[j].1 || t.spec_lt(s[j].1, s[j].0));
                    }
                    assert forall|k: int, p: T|
                        0 <= k < s.len() && spec_valid(t, s[k]) && t.spec_lt(seg.1, p) && !t.spec_lt(
                            end,
                            p,
                        ) implies !#[trigger] spec_contains(t, s[k].0, s[k].1, p) by {
                        let r = s[k];
                        assert(!(spec_valid(t, s[k]) && spec_contains(t, s[k].0, s[k].1, end)));
                        assert(t.spec_lt(r.0, end) || r.0 == end || t.spec_lt(end, r.0));
                        assert(t.spec_lt(r.1, end) || r.1 == end || t.spec_lt(end, r.1));
                        assert(t.spec_lt(r.0, p) || r.0 == p || t.spec_lt(p, r.0));
                        assert(t.spec_lt(r.1, p) || r.1 == p || t.spec_lt(p, r.1));
                        assert(t.spec_lt(end, p) || end == p || t.spec_lt(p, end));
                        assert(t.spec_lt(r.1, q.1) || r.1 == q.1 || t.spec_lt(q.1, r.1));
                    }
                },
                None => {
                    assert forall|k: int, p: T|
                        0 <= k < s.len() && spec_valid(t, s[k]) && !t.spec_lt(end, p)
                            implies !#[trigger] spec_contains(t, s[k].0, s[k].1, p) by {
                        let r = s[k];
                        assert(!(spec_valid(t, s[k]) && spec_contains(t, s[k].0, s[k].1, end)));
                        assert(t.spec_lt(r.0, end) || r.0 == end || t.spec_lt(end, r.0));
                        assert(t.spec_lt(r.1, end) || r.1 == end || t.spec_lt(end, r.1));
                        assert(t.spec_lt(r.0, p) || r.0 == p || t.spec_lt(p, r.0));
                        assert(t.spec_lt(end, p) || end == p || t.spec_lt(p, end));
                    }
                },
            }
        },
    }
}

/// The span of the valid ranges begins where one of them begins and ends where one of
/// them ends, and holds them all; there is none exactly when no range is valid.
pub proof fn lemma_min_max_span<T, C: CpCmp<T>>(t: &C, s: Seq<(T, T)>, n: nat)
    requires
        n <= s.len(),
    ensures
        spec_min_max(t, s, n) matches Some(p) ==> {
            &&& exists|j: int| 0 <= j < n && spec_valid(t, #[trigger] s[j]) && s[j].0 == p.0
            &&& exists|j: int| 0 <= j < n && spec_valid(t, #[trigger] s[j]) && s[j].1 == p.1
            &&& forall|k: int|
                0 <= k < n && spec_valid(t, #[trigger] s[k]) ==> !t.spec_lt(s[k].0, p.0)
                    && !t.spec_lt(p.1, s[k].1)
        },
        spec_min_max(t, s, n) is None <==> forall|k: int| 0 <= k < n ==> !spec_valid(t, #[trigger] s[k]),
    decreases n,
{
    t.lemma_order();
    if n > 0 {
        lemma_min_max_span(t, s, (n - 1) as nat);
        let prev = spec_min_max(t, s, (n - 1) as nat);
        let r = s[n - 1];
        if let Some(p) = spec_min_max(t, s, n) {
            if spec_valid(t, r) {
                match prev {
                    Some(q) => {
                        if t.spec_lt(r.0, q.0) {
                            assert(s[n - 1].0 == p.0);
                        } else {
                            let j = choose|j: int| 0 <= j < n - 1 && spec_valid(t, #[trigger] s[j]) && s[j].0 == q.0;
                            assert(s[j].0 == p.0);
                        }
                        if t.spec_lt(q.1, r.1) {
                            assert(s[n - 1].1 == p.1);
                        } else {
                            let j = choose|j: int| 0 <= j < n - 1 && spec_valid(t, #[trigger] s[j]) && s[j].1 == q.1;
                            assert(s[j].1 == p.1);
                        }
                        assert forall|k: int|
                            0 <= k < n && spec_valid(t, #[trigger] s[k]) implies !t.spec_lt(s[k].0, p.0)
                                && !t.spec_lt(p.1, s[k].1) by {
                            assert(t.spec_lt(s[k].0, q.0) || s[k].0 == q.0 || t.spec_lt(q.0, s[k].0));
                            assert(t.spec_lt(s[k].1, q.1) || s[k].1 == q.1 || t.spec_lt(q.1, s[k].1));
                            assert(t.spec_lt(r.0, q.0) || r.0 == q.0 || t.spec_lt(q.0, r.0));
                            assert(t.spec_lt(r.1, q.1) || r.1 == q.1 || t.spec_lt(q.1, r.1));
                            assert(t.spec_lt(s[k].0, r.0) || s[k].0 == r.0 || t.spec_lt(r.0, s[k].0));
                            assert(t.spec_lt(s[k].1, r.1) || s[k].1 == r.1 || t.spec_lt(r.1, s[k].1));
                        }
                    },
                    None => {
                        assert(s[n - 1].0 == p.0);
                        assert(s[n - 1].1 == p.1);
                    },
                }
            } else {
                let q = prev.unwrap();
                let j = choose|j: int| 0 <= j < n - 1 && spec_valid(t, #[trigger] s[j]) && s[j].0 == q.0;
                assert(s[j].0 == p.0);
                let i = choose|i: int| 0 <= i < n - 1 && spec_valid(t, #[trigger] s[i]) && s[i].1 == q.1;
                assert(s[i].1 == p.1);
            }
        }
        if spec_min_max(t, s, n) is None {
            assert forall|k: int| 0 <= k < n implies !spec_valid(t, #[trigger] s[k]) by {
                if k < n - 1 {
                }
            }
        }
    }
}

/// **The walk begins and ends where the ranges do.** The first segment begins at the
/// least begin of the valid ranges and the last one ends at their greatest end, so no
/// valid range holds a value before the first or after the last; there are none exactly
/// when no range is valid.
pub proof fn lemma_walk_extent<T, V, C: IncDecCpCmp<T, V>>(t: &C, s: Seq<(T, T)>, step: V)
    ensures
        spec_first_range(t, s, step) is None <==> forall|k: int|
            0 <= k < s.len() ==> !spec_valid(t, #[trigger] s[k]),
        spec_last_range(t, s, step) is None <==> forall|k: int|
            0 <= k < s.len() ==> !spec_valid(t, #[trigger] s[k]),
        spec_first_range(t, s, step) matches Some(seg) ==> {
            &&& exists|j: int| 0 <= j < s.len() && spec_valid(t, #[trigger] s[j]) && s[j].0 == seg.0
            &&& forall|k: int, p: T|
                0 <= k < s.len() && spec_valid(t, s[k]) && t.spec_lt(p, seg.0) ==> !#[trigger] spec_contains(
                    t,
                    s[k].0,
                    s[k].1,
                    p,
                )
        },
        spec_last_range(t, s, step) matches Some(seg) ==> {
            &&& exists|j: int| 0 <= j < s.len() && spec_valid(t, #[trigger] s[j]) && s[j].1 == seg.1
            &&& forall|k: int, p: T|
                0 <= k < s.len() && spec_valid(t, s[k]) && t.spec_lt(seg.1, p) ==> !#[trigger] spec_contains(
                    t,
                    s[k].0,
                    s[k].1,
                    p,
                )
        },
{
    t.lemma_order();
    lemma_min_max_span(t, s, s.len());
    if let Some(span) = spec_min_max(t, s, s.len()) {
        assert forall|k: int, p: T|
            0 <= k < s.len() && spec_valid(t, s[k]) && t.spec_lt(p, span.0) implies !#[trigger] spec_contains(
                t,
                s[k].0,
                s[k].1,
                p,
            ) by {
            assert(t.spec_lt(s[k].0, p) || s[k].0 == p || t.spec_lt(p, s[k].0));
            assert(t.spec_lt(s[k].0, span.0) || s[k].0 == span.0 || t.spec_lt(span.0, s[k].0));
        }
        assert forall|k: int, p: T|
            0 <= k < s.len() && spec_valid(t, s[k]) && t.spec_lt(span.1, p) implies !#[trigger] spec_contains(
                t,
                s[k].0,
                s[k].1,
                p,
            ) by {
            assert(t.spec_lt(s[k].1, p) || s[k].1 == p || t.spec_lt(p, s[k].1));
            assert(t.spec_lt(s[k].1, span.1) || s[k].1 == span.1 || t.spec_lt(span.1, s[k].1));
        }
    }
}

/// The sources of the group `g` are ranges of `input` at consecutive positions, each with
/// its position (the position of `input[0]` being `base`).
pub open spec fn sources_in_order<T, S>(g: ((T, T), Seq<(usize, S)>), input: Seq<S>, base: nat) -> bool {
    &&& g.1.len() > 0
    &&& forall|k: int|
        0 <= k < g.1.len() ==> {
            &&& (#[trigger] g.1[k]).0 == g.1[0].0 + k
            &&& base <= g.1[k].0 < base + input.len()
            &&& g.1[k].1 == input[g.1[k].0 - base]
        }
}

/// **Groups list their sources in order.** Every group that consolidation hands out, and
/// the group it leaves open, is made of ranges read one after the other: its sources are
/// the input ranges at consecutive positions, each with its position.
pub proof fn lemma_groups_list_sources<T, S: GetBeginEnd<T>, C: CpCmp<T>>(
    t: &C,
    last: Option<((T, T), Seq<(usize, S)>)>,
    whole: Seq<S>,
    base: nat,
    input: Seq<S>,
    offset: nat,
)
    requires
        base <= offset <= base + whole.len(),
        base + whole.len() <= usize::MAX,
        input == whole.skip(offset - base),
        last matches Some(g) ==> sources_in_order(g, whole, base) && g.1.last().0 + 1 == offset,
    ensures
        ({
            let s = spec_consolidate(t, last, input, offset);
            &&& s.1 matches Some(rel) ==> sources_in_order(relation_value(rel), whole, base)
            &&& s.2 matches Some(g) ==> sources_in_order(g, whole, base) && g.1.last().0 + 1 == s.0
        }),
    decreases input.len(),
{
    crate::utils::lemma_consolidate_progress(t, last, input, offset);
    if input.len() > 0 {
        let x = input[0];
        let ar = (pair_of(x), seq![(offset as usize, x)]);
        let rest = input.drop_first();
        assert(x == whole[offset - base]);
        assert(sources_in_order(ar, whole, base));
        assert(rest =~= whole.skip(offset + 1 - base));
        match last {
            None => {
                lemma_groups_list_sources(t, Some(ar), whole, base, rest, offset + 1);
            },
            Some(g) => {
                let nl = g.1 + ar.1;
                assert forall|k: int| 0 <= k < nl.len() implies {
                    &&& (#[trigger] nl[k]).0 == nl[0].0 + k
                    &&& base <= nl[k].0 < base + whole.len()
                    &&& nl[k].1 == whole[nl[k].0 - base]
                } by {
                    if k < g.1.len() {
                        assert(nl[k] == g.1[k]);
                    } else {
                        assert(nl[k] == ar.1[0]);
                        assert(g.1.last() == g.1[g.1.len() - 1]);
                    }
                }
                match spec_range_relation(t, g.0, ar.0) {
                    RangeRelation::Overlap(_) => {
                        let nr = spec_grow(t, g.0, ar.0);
                        assert(sources_in_order((nr, nl), whole, base));
                        assert(nl.last() == ar.1[0]);
                        if spec_valid(t, nr) {
                            lemma_groups_list_sources(t, Some((nr, nl)), whole, base, rest, offset + 1);
                        }
                    },
                    _ => {},
                }
            },
        }
    }
}

/// The state of a consolidation that reads its input in the forward order: every range
/// is valid, begins come in ascending order, and an open group is valid and begins no later
/// than any range left.
pub open spec fn forward_ready<T, S: GetBeginEnd<T>, C: CpCmp<T>>(
    t: &C,
    last: Option<((T, T), Seq<(usize, S)>)>,
    input: Seq<S>,
) -> bool {
    &&& forall|k: int| 0 <= k < input.len() ==> spec_valid(t, pair_of(#[trigger] input[k]))
    &&& forall|i: int, j: int|
        0 <= i < j < input.len() ==> !t.spec_lt(
            pair_of(#[trigger] input[j]).0,
            pair_of(#[trigger] input[i]).0,
        )
    &&& last matches Some(g) ==> spec_valid(t, g.0) && forall|k: int|
        0 <= k < input.len() ==> !t.spec_lt(pair_of(#[trigger] input[k]).0, g.0.0)
}

/// The state of a consolidation that reads its input in the reverse order: every range
/// is valid, ends come in descending order, and an open group is valid and ends no earlier
/// than any range left.
pub open spec fn reverse_ready<T, S: GetBeginEnd<T>, C: CpCmp<T>>(
    t: &C,
    last: Option<((T, T), Seq<(usize, S)>)>,
    input: Seq<S>,
) -> bool {
    &&& forall|k: int| 0 <= k < input.len() ==> spec_valid(t, pair_of(#[trigger] input[k]))
    &&& forall|i: int, j: int|
        0 <= i < j < input.len() ==> !t.spec_lt(
            pair_of(#[trigger] input[i]).1,
            pair_of(#[trigger] input[j]).1,
        )
    &&& last matches Some(g) ==> spec_valid(t, g.0) && forall|k: int|
        0 <= k < input.len() ==> !t.spec_lt(g.0.1, pair_of(#[trigger] input[k]).1)
}

/// Growing a valid range by a valid one gives a valid range.
proof fn lemma_grow_valid<T, C: CpCmp<T>>(t: &C, x: (T, T), y: (T, T))
    requires
        spec_valid(t, x),
        spec_valid(t, y),
    ensures
        spec_valid(t, spec_grow(t, x, y)),
{
    t.lemma_order();
    assert(t.spec_lt(x.0, y.0) || x.0 == y.0 || t.spec_lt(y.0, x.0));
    assert(t.spec_lt(x.1, y.1) || x.1 == y.1 || t.spec_lt(y.1, x.1));
    assert(t.spec_lt(x.0, x.1) || x.0 == x.1 || t.spec_lt(x.1, x.0));
    assert(t.spec_lt(y.0, y.1) || y.0 == y.1 || t.spec_lt(y.1, y.0));
}

/// A consolidation step from a forward-ready state hands out only groups that come before
/// the next one, or the last group, and leaves a forward-ready state.
proof fn lemma_forward_ready_step<T, S: GetBeginEnd<T>, C: CpCmp<T>>(
    t: &C,
    last: Option<((T, T), Seq<(usize, S)>)>,
    input: Seq<S>,
    offset: nat,
)
    requires
        forward_ready(t, last, input),
    ensures
        ({
            let s = spec_consolidate(t, last, input, offset);
            &&& s.1 matches Some(rel) ==> rel is Before || rel is Last
            &&& offset <= s.0 <= offset + input.len()
            &&& forward_ready(t, s.2, input.skip(s.0 - offset))
        }),
    decreases input.len(),
{
    t.lemma_order();
    crate::utils::lemma_consolidate_progress(t, last, input, offset);
    if input.len() > 0 {
        let x = input[0];
        let ar = (pair_of(x), seq![(offset as usize, x)]);
        let rest = input.drop_first();
        assert forall|k: int| 0 <= k < rest.len() implies spec_valid(t, pair_of(#[trigger] rest[k])) by {
            assert(rest[k] == input[k + 1]);
        }
        assert forall|i: int, j: int| 0 <= i < j < rest.len() implies !t.spec_lt(
            pair_of(#[trigger] rest[j]).0,
            pair_of(#[trigger] rest[i]).0,
        ) by {
            assert(rest[i] == input[i + 1] && rest[j] == input[j + 1]);
        }
        assert forall|k: int| 0 <= k < rest.len() implies !t.spec_lt(
            pair_of(#[trigger] rest[k]).0,
            ar.0.0,
        ) by {
            assert(rest[k] == input[k + 1]);
            assert(!t.spec_lt(pair_of(input[k + 1]).0, pair_of(input[0]).0));
        }
        assert(input.skip(1) =~= rest);
        assert(spec_valid(t, pair_of(input[0])));
        match last {
            None => {
                lemma_forward_ready_step(t, Some(ar), rest, offset + 1);
                let s2 = spec_consolidate(t, Some(ar), rest, offset + 1);
                assert(input.skip(s2.0 - offset) =~= rest.skip(s2.0 - (offset + 1)));
            },
            Some(g) => {
                let xp = pair_of(x);
                assert(!t.spec_lt(xp.0, g.0.0));
                assert(t.spec_lt(xp.0, xp.1) || xp.0 == xp.1 || t.spec_lt(xp.1, xp.0));
                assert(t.spec_lt(g.0.0, xp.0) || g.0.0 == xp.0 || t.spec_lt(xp.0, g.0.0));
                assert(t.spec_lt(g.0.0, xp.1) || g.0.0 == xp.1 || t.spec_lt(xp.1, g.0.0));
                match spec_range_relation(t, g.0, ar.0) {
                    RangeRelation::Overlap(_) => {
                        let nr = spec_grow(t, g.0, ar.0);
                        lemma_grow_valid(t, g.0, ar.0);
                        assert(nr.0 == g.0.0);
                        assert forall|k: int| 0 <= k < rest.len() implies !t.spec_lt(
                            pair_of(#[trigger] rest[k]).0,
                            nr.0,
                        ) by {
                            assert(rest[k] == input[k + 1]);
                        }
                        lemma_forward_ready_step(t, Some((nr, g.1 + ar.1)), rest, offset + 1);
                        let s2 = spec_consolidate(t, Some((nr, g.1 + ar.1)), rest, offset + 1);
                        assert(input.skip(s2.0 - offset) =~= rest.skip(s2.0 - (offset + 1)));
                    },
                    _ => {},
                }
            },
        }
    }
}

/// **Input sorted for the forward order passes the forward check.** From a state whose
/// input is valid and sorted by begin (as [crate::sort_forward] sorts it), a checked step in
/// the forward order never reports an error, and leaves a state that is ready again.
pub proof fn lemma_forward_sorted_checks<T, S: GetBeginEnd<T>, C: CpCmp<T>>(
    t: &C,
    last: Option<((T, T), Seq<(usize, S)>)>,
    input: Seq<S>,
    pos: nat,
)
    requires
        forward_ready(t, last, input),
    ensures
        ({
            let s = checked_step(ConsolidationOrder::Forward, t, last, input, pos);
            &&& !(s.0 matches Some(Err(_)))
            &&& forward_ready(t, s.1, s.2)
        }),
{
    lemma_forward_ready_step(t, last, input, pos);
}

/// A consolidation step from a reverse-ready state hands out only groups that come after
/// the next one, or the last group, and leaves a reverse-ready state.
proof fn lemma_reverse_ready_step<T, S: GetBeginEnd<T>, C: CpCmp<T>>(
    t: &C,
    last: Option<((T, T), Seq<(usize, S)>)>,
    input: Seq<S>,
    offset: nat,
)
    requires
        reverse_ready(t, last, input),
    ensures
        ({
            let s = spec_consolidate(t, last, input, offset);
            &&& s.1 matches Some(rel) ==> rel is After || rel is Last
            &&& offset <= s.0 <= offset + input.len()
            &&& reverse_ready(t, s.2, input.skip(s.0 - offset))
        }),
    decreases input.len(),
{
    t.lemma_order();
    crate::utils::lemma_consolidate_progress(t, last, input, offset);
    if input.len() > 0 {
        let x = input[0];
        let ar = (pair_of(x), seq![(offset as usize, x)]);
        let rest = input.drop_first();
        assert forall|k: int| 0 <= k < rest.len() implies spec_valid(t, pair_of(#[trigger] rest[k])) by {
            assert(rest[k] == input[k + 1]);
        }
        assert forall|i: int, j: int| 0 <= i < j < rest.len() implies !t.spec_lt(
            pair_of(#[trigger] rest[i]).1,
            pair_of(#[trigger] rest[j]).1,
        ) by {
            assert(rest[i] == input[i + 1] && rest[j] == input[j + 1]);
        }
        assert forall|k: int| 0 <= k < rest.len() implies !t.spec_lt(
            ar.0.1,
            pair_of(#[trigger] rest[k]).1,
        ) by {
            assert(rest[k] == input[k + 1]);
            assert(!t.spec_lt(pair_of(input[0]).1, pair_of(input[k + 1]).1));
        }
        assert(input.skip(1) =~= rest);
        assert(spec_valid(t, pair_of(input[0])));
        match last {
            None => {
                lemma_reverse_ready_step(t, Some(ar), rest, offset + 1);
                let s2 = spec_consolidate(t, Some(ar), rest, offset + 1);
                assert(input.skip(s2.0 - offset) =~= rest.skip(s2.0 - (offset + 1)));
            },
            Some(g) => {
                let xp = pair_of(x);
                assert(!t.spec_lt(g.0.1, xp.1));
                assert(t.spec_lt(xp.0, xp.1) || xp.0 == xp.1 || t.spec_lt(xp.1, xp.0));
                assert(t.spec_lt(g.0.1, xp.1) || g.0.1 == xp.1 || t.spec_lt(xp.1, g.0.1));
                assert(t.spec_lt(g.0.1, xp.0) || g.0.1 == xp.0 || t.spec_lt(xp.0, g.0.1));
                match spec_range_relation(t, g.0, ar.0) {
                    RangeRelation::Overlap(_) => {
                        let nr = spec_grow(t, g.0, ar.0);
                        lemma_grow_valid(t, g.0, ar.0);
                        assert(nr.1 == g.0.1);
                        assert forall|k: int| 0 <= k < rest.len() implies !t.spec_lt(
                            nr.1,
                            pair_of(#[trigger] rest[k]).1,
                        ) by {
                            assert(rest[k] == input[k + 1]);
                        }
                        lemma_reverse_ready_step(t, Some((nr, g.1 + ar.1)), rest, offset + 1);
                        let s2 = spec_consolidate(t, Some((nr, g.1 + ar.1)), rest, offset + 1);
                        assert(input.skip(s2.0 - offset) =~= rest.skip(s2.0 - (offset + 1)));
                    },
                    _ => {},
                }
            },
        }
    }
}

/// **Input sorted for the reverse order passes the reverse check.** From a state whose
/// input is valid and sorted by end, descending (as [crate::sort_reverse] sorts it), a
/// checked step in the reverse order never reports an error, and leaves a state that is
/// ready again.
pub proof fn lemma_reverse_sorted_checks<T, S: GetBeginEnd<T>, C: CpCmp<T>>(
    t: &C,
    last: Option<((T, T), Seq<(usize, S)>)>,
    input: Seq<S>,
    pos: nat,
)
    requires
        reverse_ready(t, last, input),
    ensures
        ({
            let s = checked_step(ConsolidationOrder::Reverse, t, last, input, pos);
            &&& !(s.0 matches Some(Err(_)))
            &&& reverse_ready(t, s.1, s.2)
        }),
{
    lemma_reverse_ready_step(t, last, input, pos);
}

/// **The forward walk moves forward.** The segment that follows `n` begins strictly after
/// `n` ends.
pub proof fn lemma_walk_moves_forward<T, V, C: IncDecCpCmp<T, V>>(
    t: &C,
    ranges: Seq<(T, T)>,
    step: V,
    n: (T, T),
    back: Option<(T, T)>,
)
    ensures
        spec_try_next(t, ranges, step, Some(n), back) matches Some(x) ==> t.spec_lt(n.1, x.0),
{
    t.lemma_order();
    t.lemma_inc_dec();
    if let Some(b) = back {
        if let Some(begin) = t.spec_inc(n.1, step) {
            let both = seq![b, n];
            lemma_next_after_begins_later(t, begin, both, both.len());
            lemma_next_after_begins_later(t, begin, ranges, ranges.len());
        }
    }
}

/// **The backward walk moves backward.** The segment that precedes `b` ends strictly
/// before `b` begins.
pub proof fn lemma_walk_moves_backward<T, V, C: IncDecCpCmp<T, V>>(
    t: &C,
    ranges: Seq<(T, T)>,
    step: V,
    b: (T, T),
    next: Option<(T, T)>,
)
    ensures
        spec_try_next_back(t, ranges, step, Some(b), next) matches Some(x) ==> t.spec_lt(x.1, b.0),
{
    t.lemma_order();
    t.lemma_inc_dec();
    if let Some(n) = next {
        if let Some(end) = t.spec_dec(b.0, step) {
            let both = seq![n, b];
            lemma_hull_before_ends_earlier(t, end, both, both.len());
            lemma_hull_before_ends_earlier(t, end, ranges, ranges.len());
        }
    }
}

/// The step moves between neighbours: a step up from `x` reaches `y` exactly when a step
/// down from `y` reaches `x`, no value lies strictly between `x` and a step up from it, and
/// only the greatest value cannot be stepped up from, only the least one down from.
pub open spec fn unit_step<T, V, C: IncDecCpCmp<T, V>>(t: &C, step: V) -> bool {
    &&& forall|x: T| #[trigger]
        t.spec_inc(x, step) matches Some(y) ==> t.spec_dec(y, step) == Some(x)
    &&& forall|y: T| #[trigger]
        t.spec_dec(y, step) matches Some(x) ==> t.spec_inc(x, step) == Some(y)
    &&& forall|x: T, z: T|
        #![trigger t.spec_inc(x, step), t.spec_lt(x, z)]
        t.spec_inc(x, step) is Some && t.spec_lt(x, z) ==> !t.spec_lt(z, t.spec_inc(x, step).unwrap())
    &&& forall|x: T, z: T|
        #![trigger t.spec_lt(x, z), t.spec_inc(x, step)]
        t.spec_lt(x, z) ==> t.spec_inc(x, step) is Some
    &&& forall|x: T, z: T|
        #![trigger t.spec_lt(x, z), t.spec_dec(z, step)]
        t.spec_lt(x, z) ==> t.spec_dec(z, step) is Some
}

/// The valid ranges of `s` that hold `x` are those that hold `y`.
pub open spec fn same_ranges<T, C: CpCmp<T>>(t: &C, s: Seq<(T, T)>, x: T, y: T) -> bool {
    forall|k: int|
        0 <= k < s.len() && spec_valid(t, #[trigger] s[k]) ==> (spec_contains(t, s[k].0, s[k].1, x)
            <==> spec_contains(t, s[k].0, s[k].1, y))
}

/// The value just before `p` is held by other ranges than `p`, or there is none.
pub open spec fn changes_before<T, V, C: IncDecCpCmp<T, V>>(t: &C, s: Seq<(T, T)>, step: V, p: T) -> bool {
    match t.spec_dec(p, step) {
        Some(q) => !same_ranges(t, s, q, p),
        None => true,
    }
}

/// The value just after `e` is held by other ranges than `e`, or there is none.
pub open spec fn changes_after<T, V, C: IncDecCpCmp<T, V>>(t: &C, s: Seq<(T, T)>, step: V, e: T) -> bool {
    match t.spec_inc(e, step) {
        Some(q) => !same_ranges(t, s, q, e),
        None => true,
    }
}

/// **A segment is as long as it can be.** With a step between neighbours, the value just
/// after the first segment of begin..=end, if it is still in begin..=end, is held by other
/// ranges than the segment.
pub proof fn lemma_next_segment_maximal<T, V, C: IncDecCpCmp<T, V>>(
    t: &C,
    begin: T,
    end: T,
    s: Seq<(T, T)>,
    step: V,
)
    requires
        unit_step(t, step),
        ordered(t, spec_next_smallest(t, begin, end, s, step)),
        forall|k: int|
            0 <= k < s.len() && t.spec_lt(begin, (#[trigger] s[k]).0) ==> t.spec_dec(s[k].0, step)
                is Some,
    ensures
        forall|x: T|
            #[trigger] t.spec_inc(spec_next_smallest(t, begin, end, s, step).1, step) == Some(x)
                && !t.spec_lt(end, x) ==> !same_ranges(t, s, spec_next_smallest(t, begin, end, s, step).1, x),
{
    t.lemma_order();
    t.lemma_inc_dec();
    let e = spec_next_smallest(t, begin, end, s, step).1;
    lemma_next_segment_uniform(t, begin, end, s, step);
    lemma_next_segment_ends_at_boundary(t, begin, end, s, step);
    assert forall|x: T| #[trigger]
        t.spec_inc(e, step) == Some(x) && !t.spec_lt(end, x) implies !same_ranges(t, s, e, x) by {
        assert(t.spec_lt(e, x));
        assert(e != end);
        let k = choose|k: int|
            0 <= k < s.len() && spec_valid(t, #[trigger] s[k]) && ((!t.spec_lt(begin, s[k].0)
                && s[k].1 == e) || (t.spec_lt(begin, s[k].0) && (s[k].0 == e || t.spec_dec(s[k].0, step)
                == Some(e))));
        let r = s[k];
        assert(t.spec_lt(r.0, r.1) || r.0 == r.1 || t.spec_lt(r.1, r.0));
        assert(t.spec_lt(begin, e) || begin == e || t.spec_lt(e, begin));
        if !t.spec_lt(begin, r.0) && r.1 == e {
            assert(spec_contains(t, r.0, r.1, e));
            assert(!spec_contains(t, r.0, r.1, x));
        } else if r.0 == e {
            assert(within(t, spec_next_smallest(t, begin, end, s, step), s[k]) || apart(
                t,
                spec_next_smallest(t, begin, end, s, step),
                s[k],
            ));
            assert(false);
        } else {
            assert(t.spec_inc(e, step) == Some(r.0));
            assert(spec_contains(t, r.0, r.1, x));
            assert(!spec_contains(t, r.0, r.1, e));
        }
    }
}

/// **A segment is as long as it can be, going backward.** With a step between neighbours,
/// the value just before the last segment of begin..=end, if it is still in begin..=end, is
/// held by other ranges than the segment.
pub proof fn lemma_previous_segment_maximal<T, V, C: IncDecCpCmp<T, V>>(
    t: &C,
    begin: T,
    end: T,
    s: Seq<(T, T)>,
    step: V,
)
    requires
        unit_step(t, step),
        ordered(t, spec_previous_smallest(t, begin, end, s, step)),
        forall|k: int|
            0 <= k < s.len() && t.spec_lt((#[trigger] s[k]).1, end) ==> t.spec_inc(s[k].1, step)
                is Some,
    ensures
        forall|x: T|
            #[trigger] t.spec_dec(spec_previous_smallest(t, begin, end, s, step).0, step) == Some(x)
                && !t.spec_lt(x, begin) ==> !same_ranges(t, s, spec_previous_smallest(t, begin, end, s, step).0, x),
{
    t.lemma_order();
    t.lemma_inc_dec();
    let b = spec_previous_smallest(t, begin, end, s, step).0;
    lemma_previous_segment_uniform(t, begin, end, s, step);
    lemma_previous_segment_begins_at_boundary(t, begin, end, s, step);
    assert forall|x: T| #[trigger]
        t.spec_dec(b, step) == Some(x) && !t.spec_lt(x, begin) implies !same_ranges(t, s, b, x) by {
        assert(t.spec_lt(x, b));
        assert(b != begin);
        let k = choose|k: int|
            0 <= k < s.len() && spec_valid(t, #[trigger] s[k]) && ((!t.spec_lt(s[k].1, end)
                && s[k].0 == b) || (t.spec_lt(s[k].1, end) && (s[k].1 == b || t.spec_inc(s[k].1, step)
                == Some(b))));
        let r = s[k];
        assert(t.spec_lt(r.0, r.1) || r.0 == r.1 || t.spec_lt(r.1, r.0));
        assert(t.spec_lt(b, end) || b == end || t.spec_lt(end, b));
        if !t.spec_lt(r.1, end) && r.0 == b {
            assert(spec_contains(t, r.0, r.1, b));
            assert(!spec_contains(t, r.0, r.1, x));
        } else if r.1 == b {
            assert(within(t, spec_previous_smallest(t, begin, end, s, step), s[k]) || apart(
                t,
                spec_previous_smallest(t, begin, end, s, step),
                s[k],
            ));
            assert(false);
        } else {
            assert(t.spec_dec(b, step) == Some(r.1));
            assert(spec_contains(t, r.0, r.1, x));
            assert(!spec_contains(t, r.0, r.1, b));
        }
    }
}

/// The last reduction of begin..=end begins no later than `end`.
proof fn lemma_reduce_previous_at_most_end<T, C: CpCmp<T>>(t: &C, begin: T, end: T, s: Seq<(T, T)>, n: nat)
    requires
        n <= s.len(),
        !t.spec_lt(end, begin),
    ensures
        !t.spec_lt(end, spec_reduce_previous(t, begin, end, s, n)),
    decreases n,
{
    t.lemma_order();
    if n > 0 {
        lemma_reduce_previous_at_most_end(t, begin, end, s, (n - 1) as nat);
        let r = s[n - 1];
        assert(t.spec_lt(r.0, r.1) || r.0 == r.1 || t.spec_lt(r.1, r.0));
        assert(t.spec_lt(r.0, end) || r.0 == end || t.spec_lt(end, r.0));
        assert(t.spec_lt(r.1, end) || r.1 == end || t.spec_lt(end, r.1));
        assert(t.spec_lt(r.0, begin) || r.0 == begin || t.spec_lt(begin, r.0));
        assert(t.spec_lt(r.1, begin) || r.1 == begin || t.spec_lt(begin, r.1));
    }
}

/// With a step between neighbours, raising a begin that is no later than `end` keeps it no
/// later than `end`.
proof fn lemma_retool_begin_at_most_end<T, V, C: IncDecCpCmp<T, V>>(
    t: &C,
    begin: T,
    end: T,
    s: Seq<(T, T)>,
    step: V,
    n: nat,
)
    requires
        n <= s.len(),
        unit_step(t, step),
        !t.spec_lt(end, begin),
    ensures
        !t.spec_lt(end, spec_retool_begin(t, begin, end, s, step, n)),
    decreases n,
{
    t.lemma_order();
    if n > 0 {
        lemma_retool_begin_at_most_end(t, begin, end, s, step, (n - 1) as nat);
        let r = s[n - 1];
        if spec_valid(t, r) && !t.spec_lt(r.1, begin) && t.spec_lt(r.1, end) {
            if let Some(i) = t.spec_inc(r.1, step) {
                assert(!t.spec_lt(end, i));
            }
        }
    }
}

/// The first reduction of begin..=end ends no earlier than `begin`.
proof fn lemma_reduce_next_at_least_begin<T, C: CpCmp<T>>(t: &C, begin: T, end: T, s: Seq<(T, T)>, n: nat)
    requires
        n <= s.len(),
        !t.spec_lt(end, begin),
    ensures
        !t.spec_lt(spec_reduce_next(t, begin, end, s, n), begin),
    decreases n,
{
    t.lemma_order();
    if n > 0 {
        lemma_reduce_next_at_least_begin(t, begin, end, s, (n - 1) as nat);
        let r = s[n - 1];
        assert(t.spec_lt(r.0, r.1) || r.0 == r.1 || t.spec_lt(r.1, r.0));
        assert(t.spec_lt(r.0, end) || r.0 == end || t.spec_lt(end, r.0));
        assert(t.spec_lt(r.1, end) || r.1 == end || t.spec_lt(end, r.1));
        assert(t.spec_lt(r.0, begin) || r.0 == begin || t.spec_lt(begin, r.0));
        assert(t.spec_lt(r.1, begin) || r.1 == begin || t.spec_lt(begin, r.1));
    }
}

/// With a step between neighbours, lowering an end that is no earlier than `begin` keeps it
/// no earlier than `begin`.
proof fn lemma_retool_end_at_least_begin<T, V, C: IncDecCpCmp<T, V>>(
    t: &C,
    begin: T,
    end: T,
    s: Seq<(T, T)>,
    step: V,
    n: nat,
)
    requires
        n <= s.len(),
        unit_step(t, step),
        !t.spec_lt(end, begin),
    ensures
        !t.spec_lt(spec_retool_end(t, begin, end, s, step, n), begin),
    decreases n,
{
    t.lemma_order();
    if n > 0 {
        lemma_retool_end_at_least_begin(t, begin, end, s, step, (n - 1) as nat);
        let r = s[n - 1];
        if spec_valid(t, r) && t.spec_lt(begin, r.0) && !t.spec_lt(end, r.0) {
            if let Some(d) = t.spec_dec(r.0, step) {
                assert(t.spec_inc(d, step) == Some(r.0));
                assert(t.spec_lt(d, begin) || d == begin || t.spec_lt(begin, d));
                if t.spec_lt(d, begin) {
                    assert(!t.spec_lt(begin, r.0));
                }
            }
        }
    }
}

/// **Going backward finds the same segment.** With a step between neighbours, the last
/// segment of lo..=e, where e is the end of the first segment of begin..=end, is that first
/// segment, when `lo` is no later than `begin` and either `lo` is `begin` or the value just
/// before `begin` is held by other ranges than `begin`.
pub proof fn lemma_backward_finds_forward_segment<T, V, C: IncDecCpCmp<T, V>>(
    t: &C,
    lo: T,
    begin: T,
    end: T,
    s: Seq<(T, T)>,
    step: V,
)
    requires
        unit_step(t, step),
        ordered(t, spec_next_smallest(t, begin, end, s, step)),
        forall|k: int|
            0 <= k < s.len() && t.spec_lt(begin, (#[trigger] s[k]).0) ==> t.spec_dec(s[k].0, step)
                is Some,
        forall|k: int|
            0 <= k < s.len() && t.spec_lt((#[trigger] s[k]).1, spec_next_smallest(t, begin, end, s, step).1)
                ==> t.spec_inc(s[k].1, step) is Some,
        !t.spec_lt(begin, lo),
        lo == begin || changes_before(t, s, step, begin),
    ensures
        spec_previous_smallest(t, lo, spec_next_smallest(t, begin, end, s, step).1, s, step)
            == spec_next_smallest(t, begin, end, s, step),
{
    t.lemma_order();
    t.lemma_inc_dec();
    let f = spec_next_smallest(t, begin, end, s, step);
    let e = f.1;
    let g = spec_previous_smallest(t, lo, e, s, step);
    let b = g.0;
    lemma_next_segment_uniform(t, begin, end, s, step);
    assert(!t.spec_lt(e, lo));
    lemma_reduce_previous_at_most_end(t, lo, e, s, s.len());
    lemma_retool_begin_at_most_end(t, spec_reduce_previous(t, lo, e, s, s.len()), e, s, step, s.len());
    assert(ordered(t, g));
    lemma_previous_segment_uniform(t, lo, e, s, step);
    lemma_previous_segment_begins_at_boundary(t, lo, e, s, step);
    assert(t.spec_lt(b, begin) || b == begin || t.spec_lt(begin, b));
    if t.spec_lt(b, begin) {
        let p = t.spec_dec(begin, step).unwrap();
        assert(t.spec_inc(p, step) == Some(begin));
        assert(t.spec_lt(p, begin));
        assert(t.spec_lt(b, p) || b == p || t.spec_lt(p, b));
        assert forall|k: int| 0 <= k < s.len() && spec_valid(t, #[trigger] s[k]) implies (spec_contains(
            t,
            s[k].0,
            s[k].1,
            p,
        ) <==> spec_contains(t, s[k].0, s[k].1, begin)) by {
            let r = s[k];
            assert(within(t, g, r) || apart(t, g, r));
            assert(t.spec_lt(r.0, p) || r.0 == p || t.spec_lt(p, r.0));
            assert(t.spec_lt(r.1, p) || r.1 == p || t.spec_lt(p, r.1));
            assert(t.spec_lt(r.0, begin) || r.0 == begin || t.spec_lt(begin, r.0));
            assert(t.spec_lt(r.1, begin) || r.1 == begin || t.spec_lt(begin, r.1));
            assert(t.spec_lt(begin, e) || begin == e || t.spec_lt(e, begin));
        }
        assert(same_ranges(t, s, p, begin));
        assert(false);
    } else if t.spec_lt(begin, b) {
        assert(b != lo);
        let k = choose|k: int|
            0 <= k < s.len() && spec_valid(t, #[trigger] s[k]) && ((!t.spec_lt(s[k].1, e)
                && s[k].0 == b) || (t.spec_lt(s[k].1, e) && (s[k].1 == b || t.spec_inc(s[k].1, step)
                == Some(b))));
        let r = s[k];
        assert(within(t, f, r) || apart(t, f, r));
        assert(t.spec_lt(r.0, r.1) || r.0 == r.1 || t.spec_lt(r.1, r.0));
        assert(t.spec_lt(begin, e) || begin == e || t.spec_lt(e, begin));
        assert(t.spec_lt(b, e) || b == e || t.spec_lt(e, b));
        assert(t.spec_lt(r.1, begin) || r.1 == begin || t.spec_lt(begin, r.1));
        if t.spec_lt(r.1, e) && t.spec_inc(r.1, step) == Some(b) && t.spec_lt(r.1, begin) {
            assert(!t.spec_lt(begin, b));
        }
        assert(false);
    }
}

/// **Going forward finds the same segment.** With a step between neighbours, the first
/// segment of b..=hi, where b is the begin of the last segment of begin..=end, is that last
/// segment, when `hi` is no earlier than `end` and either `hi` is `end` or the value just
/// after `end` is held by other ranges than `end`.
pub proof fn lemma_forward_finds_backward_segment<T, V, C: IncDecCpCmp<T, V>>(
    t: &C,
    begin: T,
    end: T,
    hi: T,
    s: Seq<(T, T)>,
    step: V,
)
    requires
        unit_step(t, step),
        ordered(t, spec_previous_smallest(t, begin, end, s, step)),
        forall|k: int|
            0 <= k < s.len() && t.spec_lt((#[trigger] s[k]).1, end) ==> t.spec_inc(s[k].1, step)
                is Some,
        forall|k: int|
            0 <= k < s.len() && t.spec_lt(spec_previous_smallest(t, begin, end, s, step).0, (#[trigger] s[k]).0)
                ==> t.spec_dec(s[k].0, step) is Some,
        !t.spec_lt(hi, end),
        hi == end || changes_after(t, s, step, end),
    ensures
        spec_next_smallest(t, spec_previous_smallest(t, begin, end, s, step).0, hi, s, step)
            == spec_previous_smallest(t, begin, end, s, step),
{
    t.lemma_order();
    t.lemma_inc_dec();
    let g = spec_previous_smallest(t, begin, end, s, step);
    let b = g.0;
    let f = spec_next_smallest(t, b, hi, s, step);
    let e = f.1;
    lemma_previous_segment_uniform(t, begin, end, s, step);
    assert(!t.spec_lt(hi, b));
    lemma_reduce_next_at_least_begin(t, b, hi, s, s.len());
    lemma_retool_end_at_least_begin(t, b, spec_reduce_next(t, b, hi, s, s.len()), s, step, s.len());
    assert(ordered(t, f));
    lemma_next_segment_uniform(t, b, hi, s, step);
    lemma_next_segment_ends_at_boundary(t, b, hi, s, step);
    assert(t.spec_lt(e, end) || e == end || t.spec_lt(end, e));
    if t.spec_lt(end, e) {
        let q = t.spec_inc(end, step).unwrap();
        assert(t.spec_dec(q, step) == Some(end));
        assert(t.spec_lt(end, q));
        assert(t.spec_lt(e, q) || e == q || t.spec_lt(q, e));
        assert forall|k: int| 0 <= k < s.len() && spec_valid(t, #[trigger] s[k]) implies (spec_contains(
            t,
            s[k].0,
            s[k].1,
            q,
        ) <==> spec_contains(t, s[k].0, s[k].1, end)) by {
            let r = s[k];
            assert(within(t, f, r) || apart(t, f, r));
            assert(t.spec_lt(r.0, q) || r.0 == q || t.spec_lt(q, r.0));
            assert(t.spec_lt(r.1, q) || r.1 == q || t.spec_lt(q, r.1));
            assert(t.spec_lt(r.0, end) || r.0 == end || t.spec_lt(end, r.0));
            assert(t.spec_lt(r.1, end) || r.1 == end || t.spec_lt(end, r.1));
            assert(t.spec_lt(b, end) || b == end || t.spec_lt(end, b));
        }
        assert(same_ranges(t, s, q, end));
        assert(false);
    } else if t.spec_lt(e, end) {
        assert(e != hi);
        let k = choose|k: int|
            0 <= k < s.len() && spec_valid(t, #[trigger] s[k]) && ((!t.spec_lt(b, s[k].0)
                && s[k].1 == e) || (t.spec_lt(b, s[k].0) && (s[k].0 == e || t.spec_dec(s[k].0, step)
                == Some(e))));
        let r = s[k];
        assert(within(t, g, r) || apart(t, g, r));
        assert(t.spec_lt(r.0, r.1) || r.0 == r.1 || t.spec_lt(r.1, r.0));
        assert(t.spec_lt(b, end) || b == end || t.spec_lt(end, b));
        assert(t.spec_lt(b, e) || b == e || t.spec_lt(e, b));
        assert(t.spec_lt(r.0, end) || r.0 == end || t.spec_lt(end, r.0));
        if t.spec_lt(b, r.0) && t.spec_dec(r.0, step) == Some(e) && t.spec_lt(end, r.0) {
            assert(t.spec_inc(e, step) == Some(r.0));
            assert(!t.spec_lt(end, r.0));
        }
        assert(false);
    }
}

/// The least end over `point` is the end of a valid range that holds `point`.
pub proof fn lemma_least_end_over_witness<T, C: CpCmp<T>>(t: &C, point: T, s: Seq<(T, T)>, n: nat)
    requires
        n <= s.len(),
    ensures
        spec_least_end_over(t, point, s, n) matches Some(e) ==> exists|k: int|
            0 <= k < n && spec_valid(t, #[trigger] s[k]) && spec_contains(t, s[k].0, s[k].1, point)
                && s[k].1 == e,
    decreases n,
{
    if n > 0 {
        lemma_least_end_over_witness(t, point, s, (n - 1) as nat);
        if let Some(e) = spec_least_end_over(t, point, s, n) {
            if spec_least_end_over(t, point, s, (n - 1) as nat) != Some(e) {
                assert(s[n - 1].1 == e);
            }
        }
    }
}

/// The least begin over `point` is the begin of a valid range that holds `point`.
pub proof fn lemma_least_begin_over_witness<T, C: CpCmp<T>>(t: &C, point: T, s: Seq<(T, T)>, n: nat)
    requires
        n <= s.len(),
    ensures
        spec_least_begin_over(t, point, s, n) matches Some(b) ==> exists|k: int|
            0 <= k < n && spec_valid(t, #[trigger] s[k]) && spec_contains(t, s[k].0, s[k].1, point)
                && s[k].0 == b,
    decreases n,
{
    if n > 0 {
        lemma_least_begin_over_witness(t, point, s, (n - 1) as nat);
        if let Some(b) = spec_least_begin_over(t, point, s, n) {
            if spec_least_begin_over(t, point, s, (n - 1) as nat) != Some(b) {
                assert(s[n - 1].0 == b);
            }
        }
    }
}

/// The segment that the walk finds from `begin` is that of `from..=to` (see
/// [spec_next_range]), which begins no later than it ends.
proof fn lemma_next_range_parts<T, V, C: IncDecCpCmp<T, V>>(t: &C, begin: T, s: Seq<(T, T)>, step: V)
    requires
        unit_step(t, step),
    ensures
        spec_next_range(t, begin, s, step) matches Some(f) ==> exists|k: int|
            0 <= k < s.len() && spec_valid(t, #[trigger] s[k]) && ({
                ||| spec_contains(t, s[k].0, s[k].1, begin)
                    && f == spec_next_smallest(t, begin, s[k].1, s, step)
                ||| t.spec_lt(begin, s[k].0) && f == spec_next_smallest(t, s[k].0, s[k].1, s, step)
                    && spec_least_end_over(t, begin, s, s.len()) is None
            }) && ordered(t, f),
{
    t.lemma_order();
    lemma_least_end_over_witness(t, begin, s, s.len());
    lemma_next_after_least(t, begin, s, s.len());
    lemma_next_after_member(t, begin, s, s.len());
    match spec_least_end_over(t, begin, s, s.len()) {
        Some(e) => {
            let k = choose|k: int|
                0 <= k < s.len() && spec_valid(t, #[trigger] s[k]) && spec_contains(t, s[k].0, s[k].1, begin)
                    && s[k].1 == e;
            lemma_reduce_next_at_least_begin(t, begin, e, s, s.len());
            lemma_retool_end_at_least_begin(t, begin, spec_reduce_next(t, begin, e, s, s.len()), s, step, s.len());
            assert(spec_valid(t, s[k]));
        },
        None => {
            if let Some(q) = spec_next_after(t, begin, s, s.len()) {
                let k = choose|k: int| 0 <= k < s.len() && s[k] == q;
                assert(t.spec_lt(q.0, q.1) || q.0 == q.1 || t.spec_lt(q.1, q.0));
                lemma_reduce_next_at_least_begin(t, q.0, q.1, s, s.len());
                lemma_retool_end_at_least_begin(t, q.0, spec_reduce_next(t, q.0, q.1, s, s.len()), s, step, s.len());
                assert(spec_valid(t, s[k]));
            }
        },
    }
}

/// **Every segment of the walk is as long as it can be.** With a step between neighbours,
/// the value just after the segment that the walk finds from `begin` is held by other
/// ranges than the segment.
/// A segment at the least or greatest value, where no step leads out, ends there.
pub proof fn lemma_walk_segment_maximal<T, V, C: IncDecCpCmp<T, V>>(t: &C, begin: T, s: Seq<(T, T)>, step: V)
    requires
        unit_step(t, step),
    ensures
        spec_next_range(t, begin, s, step) matches Some(f) ==> forall|x: T|
            #[trigger] t.spec_inc(f.1, step) == Some(x) ==> !same_ranges(t, s, f.1, x),
{
    t.lemma_order();
    t.lemma_inc_dec();
    lemma_next_range_parts(t, begin, s, step);
    if let Some(f) = spec_next_range(t, begin, s, step) {
        let k = choose|k: int|
            0 <= k < s.len() && spec_valid(t, #[trigger] s[k]) && ({
                ||| spec_contains(t, s[k].0, s[k].1, begin)
                    && f == spec_next_smallest(t, begin, s[k].1, s, step)
                ||| t.spec_lt(begin, s[k].0) && f == spec_next_smallest(t, s[k].0, s[k].1, s, step)
                    && spec_least_end_over(t, begin, s, s.len()) is None
            }) && ordered(t, f);
        let r = s[k];
        let b = f.0;
        if spec_contains(t, r.0, r.1, begin) && f == spec_next_smallest(t, begin, r.1, s, step) {
            lemma_next_segment_maximal(t, begin, r.1, s, step);
            lemma_next_segment_uniform(t, begin, r.1, s, step);
        } else {
            lemma_next_segment_maximal(t, r.0, r.1, s, step);
            lemma_next_segment_uniform(t, r.0, r.1, s, step);
        }
        assert forall|x: T| #[trigger] t.spec_inc(f.1, step) == Some(x) implies !same_ranges(
            t,
            s,
            f.1,
            x,
        ) by {
            assert(t.spec_lt(f.1, x));
            assert(t.spec_lt(r.1, x) || r.1 == x || t.spec_lt(x, r.1));
            if t.spec_lt(r.1, x) {
                assert(t.spec_lt(f.1, r.1) || f.1 == r.1 || t.spec_lt(r.1, f.1));
                assert(f.1 == r.1);
                assert(t.spec_lt(r.0, b) || r.0 == b || t.spec_lt(b, r.0));
                assert(spec_contains(t, r.0, r.1, f.1));
                assert(!spec_contains(t, r.0, r.1, x));
            }
        }
    }
}

/// The segment that the walk finds forward from `begin`, when the value just before `begin`
/// is held by other ranges than `begin`, is the last segment of lo..=e for every `lo` no
/// later than its begin, e being its end.
proof fn lemma_walk_segment_from_below<T, V, C: IncDecCpCmp<T, V>>(
    t: &C,
    begin: T,
    s: Seq<(T, T)>,
    step: V,
    lo: T,
)
    requires
        unit_step(t, step),
        changes_before(t, s, step, begin),
    ensures
        spec_next_range(t, begin, s, step) matches Some(f) ==> (!t.spec_lt(f.0, lo)
            ==> spec_previous_smallest(t, lo, f.1, s, step) == f),
{
    t.lemma_order();
    t.lemma_inc_dec();
    lemma_next_range_parts(t, begin, s, step);
    lemma_next_range_skips_nothing(t, begin, s, step);
    if let Some(f) = spec_next_range(t, begin, s, step) {
        if !t.spec_lt(f.0, lo) {
            let k = choose|k: int|
                0 <= k < s.len() && spec_valid(t, #[trigger] s[k]) && ({
                    ||| spec_contains(t, s[k].0, s[k].1, begin)
                        && f == spec_next_smallest(t, begin, s[k].1, s, step)
                    ||| t.spec_lt(begin, s[k].0) && f == spec_next_smallest(t, s[k].0, s[k].1, s, step)
                        && spec_least_end_over(t, begin, s, s.len()) is None
                }) && ordered(t, f);
            let r = s[k];
            if spec_contains(t, r.0, r.1, begin) && f == spec_next_smallest(t, begin, r.1, s, step) {
                lemma_backward_finds_forward_segment(t, lo, begin, r.1, s, step);
            } else {
                let p = t.spec_dec(r.0, step).unwrap();
                assert(t.spec_inc(p, step) == Some(r.0));
                assert(t.spec_lt(p, begin) || p == begin || t.spec_lt(begin, p));
                assert(t.spec_lt(p, r.0));
                assert(!spec_contains(t, r.0, r.1, p));
                assert(t.spec_lt(r.0, r.1) || r.0 == r.1 || t.spec_lt(r.1, r.0));
                assert(spec_contains(t, r.0, r.1, r.0));
                assert(!same_ranges(t, s, p, r.0));
                lemma_backward_finds_forward_segment(t, lo, r.0, r.1, s, step);
            }
        }
    }
}

/// **The walk finds each segment both ways.** With a step between neighbours, the segment
/// that the walk finds forward from `begin` is the one it finds backward from that
/// segment's end, when the value just before `begin` is held by other ranges than `begin`
/// (as after a segment, or before the first one).
pub proof fn lemma_walk_segment_found_backward<T, V, C: IncDecCpCmp<T, V>>(
    t: &C,
    begin: T,
    s: Seq<(T, T)>,
    step: V,
)
    requires
        unit_step(t, step),
        changes_before(t, s, step, begin),
    ensures
        spec_next_range(t, begin, s, step) matches Some(f) ==> spec_previous_range(t, f.1, s, step)
            == Some(f),
{
    t.lemma_order();
    lemma_next_range_parts(t, begin, s, step);
    if let Some(f) = spec_next_range(t, begin, s, step) {
        let k = choose|k: int|
            0 <= k < s.len() && spec_valid(t, #[trigger] s[k]) && ({
                ||| spec_contains(t, s[k].0, s[k].1, begin)
                    && f == spec_next_smallest(t, begin, s[k].1, s, step)
                ||| t.spec_lt(begin, s[k].0) && f == spec_next_smallest(t, s[k].0, s[k].1, s, step)
                    && spec_least_end_over(t, begin, s, s.len()) is None
            }) && ordered(t, f);
        let r = s[k];
        if spec_contains(t, r.0, r.1, begin) && f == spec_next_smallest(t, begin, r.1, s, step) {
            lemma_next_segment_uniform(t, begin, r.1, s, step);
        } else {
            lemma_next_segment_uniform(t, r.0, r.1, s, step);
        }
        assert(within(t, f, r) || apart(t, f, r));
        assert(t.spec_lt(r.0, r.1) || r.0 == r.1 || t.spec_lt(r.1, r.0));
        assert(t.spec_lt(f.0, f.1) || f.0 == f.1 || t.spec_lt(f.1, f.0));
        assert(spec_contains(t, r.0, r.1, f.1));
        lemma_least_begin_over_found(t, f.1, s, s.len());
        lemma_least_begin_over_witness(t, f.1, s, s.len());
        let lb = spec_least_begin_over(t, f.1, s, s.len()).unwrap();
        let k2 = choose|k2: int|
            0 <= k2 < s.len() && spec_valid(t, #[trigger] s[k2]) && spec_contains(t, s[k2].0, s[k2].1, f.1)
                && s[k2].0 == lb;
        assert(within(t, f, s[k2]) || apart(t, f, s[k2]));
        lemma_walk_segment_from_below(t, begin, s, step, lb);
    }
}

/// The hull of the ranges that end before `point` begins no later than it ends, and no
/// later than any of those ranges.
pub proof fn lemma_hull_before_ordered<T, C: CpCmp<T>>(t: &C, point: T, s: Seq<(T, T)>, n: nat)
    requires
        n <= s.len(),
    ensures
        spec_hull_before(t, point, s, n) matches Some(p) ==> {
            &&& ordered(t, p)
            &&& exists|j: int|
                0 <= j < n && spec_valid(t, #[trigger] s[j]) && !spec_contains(t, s[j].0, s[j].1, point)
                    && t.spec_lt(s[j].1, point) && s[j].0 == p.0
            &&& forall|k: int|
                0 <= k < n && spec_valid(t, #[trigger] s[k]) && !spec_contains(t, s[k].0, s[k].1, point)
                    && t.spec_lt(s[k].1, point) ==> !t.spec_lt(s[k].0, p.0)
        },
    decreases n,
{
    t.lemma_order();
    if n > 0 {
        lemma_hull_before_ordered(t, point, s, (n - 1) as nat);
        let r = s[n - 1];
        if let Some(q) = spec_hull_before(t, point, s, (n - 1) as nat) {
            assert(t.spec_lt(r.0, q.0) || r.0 == q.0 || t.spec_lt(q.0, r.0));
            assert(t.spec_lt(r.1, q.1) || r.1 == q.1 || t.spec_lt(q.1, r.1));
            assert(t.spec_lt(q.0, q.1) || q.0 == q.1 || t.spec_lt(q.1, q.0));
            assert(t.spec_lt(r.0, r.1) || r.0 == r.1 || t.spec_lt(r.1, r.0));
            assert(t.spec_lt(r.0, q.1) || r.0 == q.1 || t.spec_lt(q.1, r.0));
            assert(t.spec_lt(q.0, r.1) || q.0 == r.1 || t.spec_lt(r.1, q.0));
        }
        if let Some(p) = spec_hull_before(t, point, s, n) {
            if p.0 == r.0 && spec_valid(t, r) && !spec_contains(t, r.0, r.1, point) && t.spec_lt(r.1, point) {
                assert(s[n - 1].0 == p.0);
            } else {
                assert(spec_hull_before(t, point, s, (n - 1) as nat) matches Some(q) && q.0 == p.0);
            }
            assert forall|k: int|
                0 <= k < n && spec_valid(t, #[trigger] s[k]) && !spec_contains(t, s[k].0, s[k].1, point)
                    && t.spec_lt(s[k].1, point) implies !t.spec_lt(s[k].0, p.0) by {
                assert(t.spec_lt(s[k].0, p.0) || s[k].0 == p.0 || t.spec_lt(p.0, s[k].0));
                if let Some(q) = spec_hull_before(t, point, s, (n - 1) as nat) {
                    assert(t.spec_lt(s[k].0, q.0) || s[k].0 == q.0 || t.spec_lt(q.0, s[k].0));
                    assert(t.spec_lt(r.0, q.0) || r.0 == q.0 || t.spec_lt(q.0, r.0));
                    if k < n - 1 {
                        assert(!t.spec_lt(s[k].0, q.0));
                    }
                } else {
                    lemma_hull_before_greatest(t, point, s, (n - 1) as nat);
                }
            }
        }
    }
}

/// The segment that the walk finds backward from `end`, when the value just after `end` is
/// held by other ranges than `end`, is the first segment of b..=hi for every `hi` no earlier
/// than its end, b being its begin.
proof fn lemma_walk_segment_to_above<T, V, C: IncDecCpCmp<T, V>>(
    t: &C,
    end: T,
    s: Seq<(T, T)>,
    step: V,
    hi: T,
)
    requires
        unit_step(t, step),
        changes_after(t, s, step, end),
    ensures
        spec_previous_range(t, end, s, step) matches Some(g) ==> (!t.spec_lt(hi, g.1)
            ==> spec_next_smallest(t, g.0, hi, s, step) == g),
{
    t.lemma_order();
    t.lemma_inc_dec();
    lemma_previous_range_skips_nothing(t, end, s, step);
    lemma_least_begin_over_witness(t, end, s, s.len());
    lemma_hull_before_greatest(t, end, s, s.len());
    lemma_hull_before_ordered(t, end, s, s.len());
    if let Some(g) = spec_previous_range(t, end, s, step) {
        if !t.spec_lt(hi, g.1) {
            let held = spec_least_begin_over(t, end, s, s.len()) is Some;
            let (bg, eg) = if held {
                (spec_least_begin_over(t, end, s, s.len()).unwrap(), end)
            } else {
                spec_hull_before(t, end, s, s.len()).unwrap()
            };
            assert(g == spec_previous_smallest(t, bg, eg, s, step));
            if held {
                let k = choose|k: int|
                    0 <= k < s.len() && spec_valid(t, #[trigger] s[k]) && spec_contains(t, s[k].0, s[k].1, end)
                        && s[k].0 == bg;
                assert(!t.spec_lt(eg, bg));
            } else {
                assert(ordered(t, (bg, eg)));
            }
            lemma_reduce_previous_at_most_end(t, bg, eg, s, s.len());
            lemma_retool_begin_at_most_end(t, spec_reduce_previous(t, bg, eg, s, s.len()), eg, s, step, s.len());
            assert(ordered(t, g));
            if !held {
                let j2 = choose|j2: int| 0 <= j2 < s.len() && spec_valid(t, #[trigger] s[j2]) && s[j2].1 == eg;
                let q = t.spec_inc(eg, step).unwrap();
                assert(t.spec_dec(q, step) == Some(eg));
                assert(t.spec_lt(eg, q));
                assert(t.spec_lt(q, end) || q == end || t.spec_lt(end, q));
                assert(!spec_contains(t, s[j2].0, s[j2].1, q));
                assert(t.spec_lt(s[j2].0, s[j2].1) || s[j2].0 == s[j2].1 || t.spec_lt(s[j2].1, s[j2].0));
                assert(spec_contains(t, s[j2].0, s[j2].1, eg));
                assert(!same_ranges(t, s, q, eg));
            }
            lemma_forward_finds_backward_segment(t, bg, eg, hi, s, step);
        }
    }
}

/// The segment that the walk finds backward from `end` begins no later than it ends, and
/// every valid range holds all of it or none of it.
proof fn lemma_previous_range_parts<T, V, C: IncDecCpCmp<T, V>>(t: &C, end: T, s: Seq<(T, T)>, step: V)
    requires
        unit_step(t, step),
    ensures
        spec_previous_range(t, end, s, step) matches Some(g) ==> {
            &&& ordered(t, g)
            &&& forall|k: int|
                0 <= k < s.len() && spec_valid(t, #[trigger] s[k]) ==> within(t, g, s[k]) || apart(t, g, s[k])
        },
{
    t.lemma_order();
    lemma_least_begin_over_witness(t, end, s, s.len());
    lemma_hull_before_ordered(t, end, s, s.len());
    if let Some(g) = spec_previous_range(t, end, s, step) {
        let held = spec_least_begin_over(t, end, s, s.len()) is Some;
        let (bg, eg) = if held {
            (spec_least_begin_over(t, end, s, s.len()).unwrap(), end)
        } else {
            spec_hull_before(t, end, s, s.len()).unwrap()
        };
        assert(g == spec_previous_smallest(t, bg, eg, s, step));
        if held {
            let k = choose|k: int|
                0 <= k < s.len() && spec_valid(t, #[trigger] s[k]) && spec_contains(t, s[k].0, s[k].1, end)
                    && s[k].0 == bg;
            assert(!t.spec_lt(eg, bg));
        } else {
            assert(ordered(t, (bg, eg)));
        }
        lemma_reduce_previous_at_most_end(t, bg, eg, s, s.len());
        lemma_retool_begin_at_most_end(t, spec_reduce_previous(t, bg, eg, s, s.len()), eg, s, step, s.len());
        lemma_previous_segment_uniform(t, bg, eg, s, step);
    }
}

/// **The walk finds each segment both ways, going backward.** With a step between
/// neighbours, the segment that the walk finds
/// backward from `end` is the one it finds forward from that segment's begin, when the value
/// just after `end` is held by other ranges than `end` (as before a segment, or after the
/// last one).
pub proof fn lemma_walk_segment_found_forward<T, V, C: IncDecCpCmp<T, V>>(
    t: &C,
    end: T,
    s: Seq<(T, T)>,
    step: V,
)
    requires
        unit_step(t, step),
        changes_after(t, s, step, end),
    ensures
        spec_previous_range(t, end, s, step) matches Some(g) ==> spec_next_range(t, g.0, s, step)
            == Some(g),
{
    t.lemma_order();
    lemma_previous_range_skips_nothing(t, end, s, step);
    lemma_walk_segment_to_above(t, end, s, step, end);
    if let Some(g) = spec_previous_range(t, end, s, step) {
        lemma_previous_range_parts(t, end, s, step);
        let j = choose|j: int|
            0 <= j < s.len() && spec_valid(t, #[trigger] s[j]) && spec_contains(t, s[j].0, s[j].1, g.1);
        assert(within(t, g, s[j]) || apart(t, g, s[j]));
        assert(spec_contains(t, s[j].0, s[j].1, g.0));
        lemma_least_end_over_found(t, g.0, s, s.len());
        lemma_least_end_over_witness(t, g.0, s, s.len());
        let hi = spec_least_end_over(t, g.0, s, s.len()).unwrap();
        let k2 = choose|k2: int|
            0 <= k2 < s.len() && spec_valid(t, #[trigger] s[k2]) && spec_contains(t, s[k2].0, s[k2].1, g.0)
                && s[k2].1 == hi;
        assert(within(t, g, s[k2]) || apart(t, g, s[k2]));
        lemma_walk_segment_to_above(t, end, s, step, hi);
    }
}

/// **Every segment of the backward walk is as long as it can be.** With a step between
/// neighbours, the value just before the segment that
/// the walk finds backward from `end` is held by other ranges than the segment.
/// A segment at the least or greatest value, where no step leads out, ends there.
pub proof fn lemma_walk_segment_maximal_backward<T, V, C: IncDecCpCmp<T, V>>(
    t: &C,
    end: T,
    s: Seq<(T, T)>,
    step: V,
)
    requires
        unit_step(t, step),
    ensures
        spec_previous_range(t, end, s, step) matches Some(g) ==> forall|y: T|
            #[trigger] t.spec_dec(g.0, step) == Some(y) ==> !same_ranges(t, s, g.0, y),
{
    t.lemma_order();
    t.lemma_inc_dec();
    lemma_least_begin_over_witness(t, end, s, s.len());
    lemma_hull_before_ordered(t, end, s, s.len());
    lemma_previous_range_parts(t, end, s, step);
    if let Some(g) = spec_previous_range(t, end, s, step) {
        let held = spec_least_begin_over(t, end, s, s.len()) is Some;
        let (bg, eg) = if held {
            (spec_least_begin_over(t, end, s, s.len()).unwrap(), end)
        } else {
            spec_hull_before(t, end, s, s.len()).unwrap()
        };
        assert(g == spec_previous_smallest(t, bg, eg, s, step));
        let k = if held {
            choose|k: int|
                0 <= k < s.len() && spec_valid(t, #[trigger] s[k]) && spec_contains(t, s[k].0, s[k].1, end)
                    && s[k].0 == bg
        } else {
            choose|k: int|
                0 <= k < s.len() && spec_valid(t, #[trigger] s[k]) && !spec_contains(t, s[k].0, s[k].1, end)
                    && t.spec_lt(s[k].1, end) && s[k].0 == bg
        };
        let r = s[k];
        assert(spec_valid(t, r) && r.0 == bg);
        lemma_previous_segment_maximal(t, bg, eg, s, step);
        lemma_previous_segment_uniform(t, bg, eg, s, step);
        assert forall|y: T| #[trigger] t.spec_dec(g.0, step) == Some(y) implies !same_ranges(
            t,
            s,
            g.0,
            y,
        ) by {
            assert(t.spec_lt(y, g.0));
            assert(t.spec_lt(y, bg) || y == bg || t.spec_lt(bg, y));
            if t.spec_lt(y, bg) {
                assert(t.spec_inc(y, step) == Some(g.0));
                assert(t.spec_lt(g.0, bg) || g.0 == bg || t.spec_lt(bg, g.0));
                assert(g.0 == bg);
                assert(t.spec_lt(r.0, r.1) || r.0 == r.1 || t.spec_lt(r.1, r.0));
                assert(t.spec_lt(bg, eg) || bg == eg || t.spec_lt(eg, bg));
                assert(spec_contains(t, r.0, r.1, g.0));
                assert(!spec_contains(t, r.0, r.1, y));
            }
        }
    }
}

/// **A step back undoes a step forward.** With a step between neighbours, when the walk
/// goes forward from the segment `n` that it found from `begin` to the segment that follows
/// it, stepping back from that one gives `n` again, as long as the value just before
/// `begin` is held by other ranges than `begin`.
pub proof fn lemma_walk_step_back_undoes_step<T, V, C: IncDecCpCmp<T, V>>(
    t: &C,
    begin: T,
    s: Seq<(T, T)>,
    step: V,
)
    requires
        unit_step(t, step),
        changes_before(t, s, step, begin),
    ensures
        spec_next_range(t, begin, s, step) matches Some(n) ==> (t.spec_inc(n.1, step) matches Some(x)
            ==> (spec_next_range(t, x, s, step) matches Some(f) ==> (t.spec_dec(f.0, step) matches Some(
            d,
        ) && spec_previous_range(t, d, s, step) == Some(n)))),
{
    t.lemma_order();
    t.lemma_inc_dec();
    lemma_walk_segment_maximal(t, begin, s, step);
    lemma_walk_segment_found_backward(t, begin, s, step);
    lemma_next_range_parts(t, begin, s, step);
    if let Some(n) = spec_next_range(t, begin, s, step) {
        if let Some(x) = t.spec_inc(n.1, step) {
            assert(t.spec_dec(x, step) == Some(n.1));
            assert(t.spec_lt(n.1, x));
            lemma_next_range_skips_nothing(t, x, s, step);
            lemma_next_range_parts(t, x, s, step);
            if let Some(f) = spec_next_range(t, x, s, step) {
                if f.0 != x {
                    let kf = choose|kf: int|
                        0 <= kf < s.len() && spec_valid(t, #[trigger] s[kf]) && ({
                            ||| spec_contains(t, s[kf].0, s[kf].1, x)
                                && f == spec_next_smallest(t, x, s[kf].1, s, step)
                            ||| t.spec_lt(x, s[kf].0) && f == spec_next_smallest(t, s[kf].0, s[kf].1, s, step)
                                && spec_least_end_over(t, x, s, s.len()) is None
                        }) && ordered(t, f);
                    assert(f.0 == s[kf].0);
                    let d = t.spec_dec(f.0, step).unwrap();
                    assert(t.spec_inc(d, step) == Some(f.0));
                    assert(t.spec_lt(d, f.0));
                    assert(t.spec_lt(d, x) || d == x || t.spec_lt(x, d));
                    assert(!t.spec_lt(d, x));
                    let k = choose|k: int|
                        0 <= k < s.len() && spec_valid(t, #[trigger] s[k]) && ({
                            ||| spec_contains(t, s[k].0, s[k].1, begin)
                                && n == spec_next_smallest(t, begin, s[k].1, s, step)
                            ||| t.spec_lt(begin, s[k].0) && n == spec_next_smallest(t, s[k].0, s[k].1, s, step)
                                && spec_least_end_over(t, begin, s, s.len()) is None
                        }) && ordered(t, n);
                    let r = s[k];
                    if spec_contains(t, r.0, r.1, begin) && n == spec_next_smallest(t, begin, r.1, s, step) {
                        lemma_next_segment_uniform(t, begin, r.1, s, step);
                    } else {
                        lemma_next_segment_uniform(t, r.0, r.1, s, step);
                    }
                    assert(within(t, n, r) || apart(t, n, r));
                    assert(t.spec_lt(r.0, r.1) || r.0 == r.1 || t.spec_lt(r.1, r.0));
                    assert(t.spec_lt(n.0, n.1) || n.0 == n.1 || t.spec_lt(n.1, n.0));
                    assert(spec_contains(t, r.0, r.1, n.1));
                    assert(!spec_contains(t, r.0, r.1, x));
                    assert(t.spec_lt(r.1, x));
                    assert(!spec_contains(t, r.0, r.1, d));
                    lemma_least_begin_over_found(t, d, s, s.len());
                    lemma_hull_before_greatest(t, d, s, s.len());
                    lemma_hull_before_ordered(t, d, s, s.len());
                    let h = spec_hull_before(t, d, s, s.len()).unwrap();
                    let j = choose|j: int| 0 <= j < s.len() && spec_valid(t, #[trigger] s[j]) && s[j].1 == h.1;
                    assert(t.spec_lt(s[j].0, s[j].1) || s[j].0 == s[j].1 || t.spec_lt(s[j].1, s[j].0));
                    assert(t.spec_lt(h.1, x) || h.1 == x || t.spec_lt(x, h.1));
                    if !t.spec_lt(h.1, x) {
                        assert(spec_contains(t, s[j].0, s[j].1, h.1));
                        assert(false);
                    }
                    assert(!t.spec_lt(h.1, r.1));
                    assert(t.spec_lt(n.1, h.1) || n.1 == h.1 || t.spec_lt(h.1, n.1));
                    assert(h.1 == n.1);
                    assert(!t.spec_lt(r.0, h.0));
                    lemma_walk_segment_from_below(t, begin, s, step, h.0);
                }
            }
        }
    }
}

/// **A step forward undoes a step back.** With a step between neighbours, when the walk
/// goes backward from the segment `g` that it found from `end` to the segment that precedes
/// it, stepping forward from that one gives `g` again, as long as the value just after
/// `end` is held by other ranges than `end`.
pub proof fn lemma_walk_step_undoes_step_back<T, V, C: IncDecCpCmp<T, V>>(
    t: &C,
    end: T,
    s: Seq<(T, T)>,
    step: V,
)
    requires
        unit_step(t, step),
        changes_after(t, s, step, end),
    ensures
        spec_previous_range(t, end, s, step) matches Some(g) ==> (t.spec_dec(g.0, step) matches Some(y)
            ==> (spec_previous_range(t, y, s, step) matches Some(h) ==> (t.spec_inc(h.1, step) matches Some(
            u,
        ) && spec_next_range(t, u, s, step) == Some(g)))),
{
    t.lemma_order();
    t.lemma_inc_dec();
    lemma_walk_segment_maximal_backward(t, end, s, step);
    lemma_walk_segment_found_forward(t, end, s, step);
    lemma_previous_range_parts(t, end, s, step);
    lemma_previous_range_skips_nothing(t, end, s, step);
    if let Some(g) = spec_previous_range(t, end, s, step) {
        if let Some(y) = t.spec_dec(g.0, step) {
            assert(t.spec_inc(y, step) == Some(g.0));
            assert(t.spec_lt(y, g.0));
            lemma_previous_range_skips_nothing(t, y, s, step);
            lemma_least_begin_over_found(t, y, s, s.len());
            lemma_hull_before_greatest(t, y, s, s.len());
            if let Some(h) = spec_previous_range(t, y, s, step) {
                if h.1 != y {
                    assert(spec_least_begin_over(t, y, s, s.len()) is None);
                    let hb = spec_hull_before(t, y, s, s.len()).unwrap();
                    assert(h.1 == hb.1);
                    let j = choose|j: int| 0 <= j < s.len() && spec_valid(t, #[trigger] s[j]) && s[j].1 == hb.1;
                    let u = t.spec_inc(h.1, step).unwrap();
                    assert(t.spec_dec(u, step) == Some(h.1));
                    assert(t.spec_lt(h.1, u));
                    assert(t.spec_lt(h.1, y));
                    assert(!t.spec_lt(y, u));
                    let jg = choose|jg: int|
                        0 <= jg < s.len() && spec_valid(t, #[trigger] s[jg]) && spec_contains(t, s[jg].0, s[jg].1, g.1);
                    let r = s[jg];
                    assert(within(t, g, r) || apart(t, g, r));
                    assert(t.spec_lt(g.0, g.1) || g.0 == g.1 || t.spec_lt(g.1, g.0));
                    assert(spec_contains(t, r.0, r.1, g.0));
                    assert(!spec_contains(t, r.0, r.1, y));
                    assert(t.spec_lt(y, r.0));
                    assert(t.spec_lt(r.0, g.0) || r.0 == g.0 || t.spec_lt(g.0, r.0));
                    assert(r.0 == g.0);
                    assert(!spec_contains(t, r.0, r.1, u));
                    lemma_least_end_over_found(t, u, s, s.len());
                    lemma_next_after_least(t, u, s, s.len());
                    lemma_next_after_member(t, u, s, s.len());
                    assert(t.spec_lt(u, r.0));
                    let qq = spec_next_after(t, u, s, s.len()).unwrap();
                    assert(!t.spec_lt(r.0, qq.0));
                    let kq = choose|kq: int| 0 <= kq < s.len() && s[kq] == qq;
                    assert(t.spec_lt(qq.0, qq.1) || qq.0 == qq.1 || t.spec_lt(qq.1, qq.0));
                    assert(t.spec_lt(qq.0, g.0) || qq.0 == g.0 || t.spec_lt(g.0, qq.0));
                    if t.spec_lt(qq.0, g.0) {
                        assert(!t.spec_lt(y, qq.0));
                        assert(spec_contains(t, s[kq].0, s[kq].1, qq.0));
                        assert(false);
                    }
                    assert(qq.0 == g.0);
                    assert(within(t, g, s[kq]) || apart(t, g, s[kq]));
                    assert(!t.spec_lt(qq.1, g.1));
                    lemma_walk_segment_to_above(t, end, s, step, qq.1);
                }
            }
        }
    }
}

/// The first segment of begin..=end can be stepped out of at its end, unless it ends at
/// `end`.
proof fn lemma_next_segment_steps_out<T, V, C: IncDecCpCmp<T, V>>(
    t: &C,
    begin: T,
    end: T,
    s: Seq<(T, T)>,
    step: V,
)
    requires
        unit_step(t, step),
        ordered(t, spec_next_smallest(t, begin, end, s, step)),
    ensures
        spec_next_smallest(t, begin, end, s, step).1 == end || t.spec_inc(
            spec_next_smallest(t, begin, end, s, step).1,
            step,
        ) is Some,
{
    t.lemma_order();
    lemma_next_segment_ends_at_boundary(t, begin, end, s, step);
    lemma_next_segment_uniform(t, begin, end, s, step);
    let seg = spec_next_smallest(t, begin, end, s, step);
    let e = seg.1;
    if e != end {
        let k = choose|k: int|
            0 <= k < s.len() && spec_valid(t, #[trigger] s[k]) && ((!t.spec_lt(begin, s[k].0)
                && s[k].1 == e) || (t.spec_lt(begin, s[k].0) && (s[k].0 == e || t.spec_dec(s[k].0, step)
                == Some(e))));
        let r = s[k];
        if !t.spec_lt(begin, r.0) && r.1 == e {
            assert(t.spec_inc(r.1, step) is Some);
        } else if r.0 == e {
            assert(within(t, seg, r) || apart(t, seg, r));
            assert(t.spec_lt(r.0, r.1) || r.0 == r.1 || t.spec_lt(r.1, r.0));
            assert(false);
        } else {
            assert(t.spec_inc(e, step) == Some(r.0));
        }
    }
}

/// The last segment of begin..=end can be stepped out of at its begin, unless it begins at
/// `begin`.
proof fn lemma_previous_segment_steps_out<T, V, C: IncDecCpCmp<T, V>>(
    t: &C,
    begin: T,
    end: T,
    s: Seq<(T, T)>,
    step: V,
)
    requires
        unit_step(t, step),
        ordered(t, spec_previous_smallest(t, begin, end, s, step)),
    ensures
        spec_previous_smallest(t, begin, end, s, step).0 == begin || t.spec_dec(
            spec_previous_smallest(t, begin, end, s, step).0,
            step,
        ) is Some,
{
    t.lemma_order();
    lemma_previous_segment_begins_at_boundary(t, begin, end, s, step);
    lemma_previous_segment_uniform(t, begin, end, s, step);
    let seg = spec_previous_smallest(t, begin, end, s, step);
    let b = seg.0;
    if b != begin {
        let k = choose|k: int|
            0 <= k < s.len() && spec_valid(t, #[trigger] s[k]) && ((!t.spec_lt(s[k].1, end)
                && s[k].0 == b) || (t.spec_lt(s[k].1, end) && (s[k].1 == b || t.spec_inc(s[k].1, step)
                == Some(b))));
        let r = s[k];
        if !t.spec_lt(r.1, end) && r.0 == b {
            assert(t.spec_dec(r.0, step) is Some);
        } else if r.1 == b {
            assert(within(t, seg, r) || apart(t, seg, r));
            assert(t.spec_lt(r.0, r.1) || r.0 == r.1 || t.spec_lt(r.1, r.0));
            assert(false);
        } else {
            assert(t.spec_dec(b, step) == Some(r.1));
        }
    }
}

/// **The walk starts where a forward step would.** With a step between neighbours, the
/// first segment is the one the walk finds forward from its begin, and the value just
/// before it is held by other ranges (by none), so [lemma_walk_segment_found_backward] and
/// [lemma_walk_step_back_undoes_step] apply to it.
pub proof fn lemma_walk_first_segment<T, V, C: IncDecCpCmp<T, V>>(t: &C, s: Seq<(T, T)>, step: V)
    requires
        unit_step(t, step),
    ensures
        spec_first_range(t, s, step) matches Some(f) ==> {
            &&& spec_next_range(t, f.0, s, step) == Some(f)
            &&& changes_before(t, s, step, f.0)
        },
{
    t.lemma_order();
    t.lemma_inc_dec();
    lemma_min_max_span(t, s, s.len());
    if let Some(span) = spec_min_max(t, s, s.len()) {
        let m = span.0;
        let mx = span.1;
        let f1 = spec_next_smallest(t, m, mx, s, step);
        let j = choose|j: int| 0 <= j < s.len() && spec_valid(t, #[trigger] s[j]) && s[j].0 == m;
        let rj = s[j];
        assert(!t.spec_lt(mx, rj.1));
        assert(spec_contains(t, rj.0, rj.1, m));
        lemma_reduce_next_at_least_begin(t, m, mx, s, s.len());
        lemma_retool_end_at_least_begin(t, m, spec_reduce_next(t, m, mx, s, s.len()), s, step, s.len());
        lemma_least_end_over_found(t, m, s, s.len());
        lemma_least_end_over_witness(t, m, s, s.len());
        let e = spec_least_end_over(t, m, s, s.len()).unwrap();
        let k2 = choose|k2: int|
            0 <= k2 < s.len() && spec_valid(t, #[trigger] s[k2]) && spec_contains(t, s[k2].0, s[k2].1, m)
                && s[k2].1 == e;
        let f2 = spec_next_smallest(t, m, e, s, step);
        assert(spec_next_range(t, m, s, step) == Some(f2));
        lemma_reduce_next_at_least_begin(t, m, e, s, s.len());
        lemma_retool_end_at_least_begin(t, m, spec_reduce_next(t, m, e, s, s.len()), s, step, s.len());
        lemma_reduce_next_bounds(t, m, mx, s, s.len());
        lemma_retool_end_bounds(t, m, spec_reduce_next(t, m, mx, s, s.len()), s, step, s.len());
        assert(spec_overlap(t, m, mx, s[k2].0, s[k2].1));
        assert(!t.spec_lt(e, f1.1));
        lemma_next_segment_uniform(t, m, mx, s, step);
        lemma_next_segment_uniform(t, m, e, s, step);
        lemma_next_segment_maximal(t, m, mx, s, step);
        lemma_next_segment_maximal(t, m, e, s, step);
        lemma_next_segment_steps_out(t, m, mx, s, step);
        lemma_next_segment_steps_out(t, m, e, s, step);
        assert(t.spec_lt(f1.1, f2.1) || f1.1 == f2.1 || t.spec_lt(f2.1, f1.1));
        if t.spec_lt(f1.1, f2.1) {
            let x = t.spec_inc(f1.1, step).unwrap();
            assert(!t.spec_lt(f2.1, x));
            assert forall|k: int| 0 <= k < s.len() && spec_valid(t, #[trigger] s[k]) implies (spec_contains(
                t,
                s[k].0,
                s[k].1,
                f1.1,
            ) <==> spec_contains(t, s[k].0, s[k].1, x)) by {
                assert(within(t, f2, s[k]) || apart(t, f2, s[k]));
                assert(t.spec_lt(s[k].0, x) || s[k].0 == x || t.spec_lt(x, s[k].0));
                assert(t.spec_lt(s[k].1, x) || s[k].1 == x || t.spec_lt(x, s[k].1));
                assert(t.spec_lt(s[k].0, f1.1) || s[k].0 == f1.1 || t.spec_lt(f1.1, s[k].0));
                assert(t.spec_lt(s[k].1, f1.1) || s[k].1 == f1.1 || t.spec_lt(f1.1, s[k].1));
            }
            assert(same_ranges(t, s, f1.1, x));
            assert(false);
        } else if t.spec_lt(f2.1, f1.1) {
            let x = t.spec_inc(f2.1, step).unwrap();
            assert(!t.spec_lt(f1.1, x));
            assert forall|k: int| 0 <= k < s.len() && spec_valid(t, #[trigger] s[k]) implies (spec_contains(
                t,
                s[k].0,
                s[k].1,
                f2.1,
            ) <==> spec_contains(t, s[k].0, s[k].1, x)) by {
                assert(within(t, f1, s[k]) || apart(t, f1, s[k]));
                assert(t.spec_lt(s[k].0, x) || s[k].0 == x || t.spec_lt(x, s[k].0));
                assert(t.spec_lt(s[k].1, x) || s[k].1 == x || t.spec_lt(x, s[k].1));
                assert(t.spec_lt(s[k].0, f2.1) || s[k].0 == f2.1 || t.spec_lt(f2.1, s[k].0));
                assert(t.spec_lt(s[k].1, f2.1) || s[k].1 == f2.1 || t.spec_lt(f2.1, s[k].1));
            }
            assert(same_ranges(t, s, f2.1, x));
            assert(false);
        }
        assert(f1 == f2);
        if let Some(p) = t.spec_dec(m, step) {
            assert(t.spec_lt(p, m));
            assert(!spec_contains(t, rj.0, rj.1, p));
            assert(!same_ranges(t, s, p, m));
        }
    }
}

/// **The walk ends where a backward step would.** With a step between neighbours, the last
/// segment is the one the walk finds backward from its end, and the value just after it is
/// held by other ranges (by none), so [lemma_walk_segment_found_forward] and
/// [lemma_walk_step_undoes_step_back] apply to it.
pub proof fn lemma_walk_last_segment<T, V, C: IncDecCpCmp<T, V>>(t: &C, s: Seq<(T, T)>, step: V)
    requires
        unit_step(t, step),
    ensures
        spec_last_range(t, s, step) matches Some(g) ==> {
            &&& spec_previous_range(t, g.1, s, step) == Some(g)
            &&& changes_after(t, s, step, g.1)
        },
{
    t.lemma_order();
    t.lemma_inc_dec();
    lemma_min_max_span(t, s, s.len());
    if let Some(span) = spec_min_max(t, s, s.len()) {
        let m = span.0;
        let mx = span.1;
        let g1 = spec_previous_smallest(t, m, mx, s, step);
        let j = choose|j: int| 0 <= j < s.len() && spec_valid(t, #[trigger] s[j]) && s[j].1 == mx;
        let rj = s[j];
        assert(!t.spec_lt(rj.0, m));
        assert(spec_contains(t, rj.0, rj.1, mx));
        lemma_reduce_previous_at_most_end(t, m, mx, s, s.len());
        lemma_retool_begin_at_most_end(t, spec_reduce_previous(t, m, mx, s, s.len()), mx, s, step, s.len());
        lemma_least_begin_over_found(t, mx, s, s.len());
        lemma_least_begin_over_witness(t, mx, s, s.len());
        let b = spec_least_begin_over(t, mx, s, s.len()).unwrap();
        let k2 = choose|k2: int|
            0 <= k2 < s.len() && spec_valid(t, #[trigger] s[k2]) && spec_contains(t, s[k2].0, s[k2].1, mx)
                && s[k2].0 == b;
        let g2 = spec_previous_smallest(t, b, mx, s, step);
        assert(spec_previous_range(t, mx, s, step) == Some(g2));
        lemma_reduce_previous_at_most_end(t, b, mx, s, s.len());
        lemma_retool_begin_at_most_end(t, spec_reduce_previous(t, b, mx, s, s.len()), mx, s, step, s.len());
        lemma_reduce_previous_bounds(t, m, mx, s, s.len());
        lemma_retool_begin_bounds(t, spec_reduce_previous(t, m, mx, s, s.len()), mx, s, step, s.len());
        assert(spec_overlap(t, m, mx, s[k2].0, s[k2].1));
        assert(!t.spec_lt(g1.0, b));
        lemma_previous_segment_uniform(t, m, mx, s, step);
        lemma_previous_segment_uniform(t, b, mx, s, step);
        lemma_previous_segment_maximal(t, m, mx, s, step);
        lemma_previous_segment_maximal(t, b, mx, s, step);
        lemma_previous_segment_steps_out(t, m, mx, s, step);
        lemma_previous_segment_steps_out(t, b, mx, s, step);
        assert(t.spec_lt(g1.0, g2.0) || g1.0 == g2.0 || t.spec_lt(g2.0, g1.0));
        if t.spec_lt(g2.0, g1.0) {
            let x = t.spec_dec(g1.0, step).unwrap();
            assert(!t.spec_lt(x, g2.0));
            assert(!t.spec_lt(s[k2].0, m));
            assert(!t.spec_lt(g2.0, b));
            assert(!t.spec_lt(x, m));
            assert(t.spec_dec(g1.0, step) == Some(x));
            assert forall|k: int| 0 <= k < s.len() && spec_valid(t, #[trigger] s[k]) implies (spec_contains(
                t,
                s[k].0,
                s[k].1,
                g1.0,
            ) <==> spec_contains(t, s[k].0, s[k].1, x)) by {
                assert(within(t, g2, s[k]) || apart(t, g2, s[k]));
                assert(t.spec_lt(s[k].0, x) || s[k].0 == x || t.spec_lt(x, s[k].0));
                assert(t.spec_lt(s[k].1, x) || s[k].1 == x || t.spec_lt(x, s[k].1));
                assert(t.spec_lt(s[k].0, g1.0) || s[k].0 == g1.0 || t.spec_lt(g1.0, s[k].0));
                assert(t.spec_lt(s[k].1, g1.0) || s[k].1 == g1.0 || t.spec_lt(g1.0, s[k].1));
            }
            assert(same_ranges(t, s, g1.0, x));
            assert(false);
        } else if t.spec_lt(g1.0, g2.0) {
            let x = t.spec_dec(g2.0, step).unwrap();
            assert(!t.spec_lt(x, g1.0));
            assert forall|k: int| 0 <= k < s.len() && spec_valid(t, #[trigger] s[k]) implies (spec_contains(
                t,
                s[k].0,
                s[k].1,
                g2.0,
            ) <==> spec_contains(t, s[k].0, s[k].1, x)) by {
                assert(within(t, g1, s[k]) || apart(t, g1, s[k]));
                assert(t.spec_lt(s[k].0, x) || s[k].0 == x || t.spec_lt(x, s[k].0));
                assert(t.spec_lt(s[k].1, x) || s[k].1 == x || t.spec_lt(x, s[k].1));
                assert(t.spec_lt(s[k].0, g2.0) || s[k].0 == g2.0 || t.spec_lt(g2.0, s[k].0));
                assert(t.spec_lt(s[k].1, g2.0) || s[k].1 == g2.0 || t.spec_lt(g2.0, s[k].1));
            }
            assert(same_ranges(t, s, g2.0, x));
            assert(false);
        }
        assert(g1 == g2);
        if let Some(q) = t.spec_inc(mx, step) {
            assert(t.spec_lt(mx, q));
            assert(!spec_contains(t, rj.0, rj.1, q));
            assert(!same_ranges(t, s, q, mx));
        }
    }
}

/// The `k`-th segment of the forward walk over `s` that only steps forward: the first
/// segment, then each time the segment found from just after the previous one.
pub open spec fn forward_chain<T, V, C: IncDecCpCmp<T, V>>(t: &C, s: Seq<(T, T)>, step: V, k: nat) -> Option<
    (T, T),
>
    decreases k,
{
    if k == 0 {
        spec_first_range(t, s, step)
    } else {
        match forward_chain(t, s, step, (k - 1) as nat) {
            Some(f) => match t.spec_inc(f.1, step) {
                Some(x) => spec_next_range(t, x, s, step),
                None => None,
            },
            None => None,
        }
    }
}

/// The `k`-th segment of the backward walk over `s` that only steps backward: the last
/// segment, then each time the segment found from just before the previous one.
pub open spec fn backward_chain<T, V, C: IncDecCpCmp<T, V>>(t: &C, s: Seq<(T, T)>, step: V, k: nat) -> Option<
    (T, T),
>
    decreases k,
{
    if k == 0 {
        spec_last_range(t, s, step)
    } else {
        match backward_chain(t, s, step, (k - 1) as nat) {
            Some(g) => match t.spec_dec(g.0, step) {
                Some(d) => spec_previous_range(t, d, s, step),
                None => None,
            },
            None => None,
        }
    }
}

/// The segment `f` is the one the walk finds forward from a value just before which other
/// ranges hold.
pub open spec fn found_at_change<T, V, C: IncDecCpCmp<T, V>>(t: &C, s: Seq<(T, T)>, step: V, f: (T, T)) -> bool {
    exists|p: T|
        #[trigger] spec_next_range(t, p, s, step) == Some(f) && changes_before(t, s, step, p)
}

/// Every segment of the forward chain is found from a value where the ranges change.
proof fn lemma_forward_chain_found<T, V, C: IncDecCpCmp<T, V>>(t: &C, s: Seq<(T, T)>, step: V, k: nat)
    requires
        unit_step(t, step),
    ensures
        forward_chain(t, s, step, k) matches Some(f) ==> found_at_change(t, s, step, f),
    decreases k,
{
    if k == 0 {
        lemma_walk_first_segment(t, s, step);
        if let Some(f) = forward_chain(t, s, step, k) {
            assert(spec_next_range(t, f.0, s, step) == Some(f));
        }
    } else {
        lemma_forward_chain_found(t, s, step, (k - 1) as nat);
        if let Some(g) = forward_chain(t, s, step, (k - 1) as nat) {
            if let Some(x) = t.spec_inc(g.1, step) {
                if let Some(f) = spec_next_range(t, x, s, step) {
                    let p = choose|p: T|
                        #[trigger] spec_next_range(t, p, s, step) == Some(g) && changes_before(t, s, step, p);
                    lemma_walk_segment_maximal(t, p, s, step);
                    assert(!same_ranges(t, s, g.1, x));
                    assert(t.spec_dec(x, step) == Some(g.1));
                    assert(spec_next_range(t, x, s, step) == Some(f));
                }
            }
        }
    }
}

/// One step back from the segment after the `k`-th one of the forward chain gives the
/// `k`-th one.
proof fn lemma_forward_chain_back_step<T, V, C: IncDecCpCmp<T, V>>(t: &C, s: Seq<(T, T)>, step: V, k: nat)
    requires
        unit_step(t, step),
    ensures
        forward_chain(t, s, step, k + 1) matches Some(f) ==> (t.spec_dec(f.0, step) matches Some(d)
            && spec_previous_range(t, d, s, step) == forward_chain(t, s, step, k)),
{
    lemma_forward_chain_found(t, s, step, k);
    if let Some(f) = forward_chain(t, s, step, k + 1) {
        let g = forward_chain(t, s, step, k).unwrap();
        let p = choose|p: T|
            #[trigger] spec_next_range(t, p, s, step) == Some(g) && changes_before(t, s, step, p);
        lemma_walk_step_back_undoes_step(t, p, s, step);
    }
}

/// The backward chain is the forward chain of `n` segments read from its end.
proof fn lemma_backward_chain_mirrors<T, V, C: IncDecCpCmp<T, V>>(
    t: &C,
    s: Seq<(T, T)>,
    step: V,
    n: nat,
    k: nat,
)
    requires
        unit_step(t, step),
        k < n,
        forall|j: nat| j < n ==> #[trigger] forward_chain(t, s, step, j) is Some,
        backward_chain(t, s, step, 0) == forward_chain(t, s, step, (n - 1) as nat),
    ensures
        backward_chain(t, s, step, k) == forward_chain(t, s, step, (n - 1 - k) as nat),
    decreases k,
{
    if k > 0 {
        lemma_backward_chain_mirrors(t, s, step, n, (k - 1) as nat);
        let j = (n - k) as nat;
        assert(forward_chain(t, s, step, j) is Some);
        lemma_forward_chain_back_step(t, s, step, (n - 1 - k) as nat);
        assert((n - 1 - k) as nat + 1 == j);
    }
}

/// **The backward walk is the forward walk reversed.** With a step between neighbours, when
/// the forward chain has exactly `n` segments, the backward chain has exactly `n` segments
/// too, the same ones in reverse order.
pub proof fn lemma_walk_reverses<T, V, C: IncDecCpCmp<T, V>>(t: &C, s: Seq<(T, T)>, step: V, n: nat)
    requires
        unit_step(t, step),
        forall|k: nat| k < n ==> #[trigger] forward_chain(t, s, step, k) is Some,
        forward_chain(t, s, step, n) is None,
    ensures
        forall|k: nat| k < n ==> #[trigger] backward_chain(t, s, step, k) == forward_chain(
            t,
            s,
            step,
            (n - 1 - k) as nat,
        ),
        backward_chain(t, s, step, n) is None,
{
    t.lemma_order();
    t.lemma_inc_dec();
    lemma_walk_extent(t, s, step);
    lemma_walk_last_segment(t, s, step);
    lemma_walk_first_segment(t, s, step);
    if n == 0 {
        assert(spec_first_range(t, s, step) is None);
        assert(spec_last_range(t, s, step) is None);
    } else {
        // The last segment of the forward chain ends where the ranges end.
        let last = forward_chain(t, s, step, (n - 1) as nat).unwrap();
        lemma_forward_chain_found(t, s, step, (n - 1) as nat);
        let p = choose|p: T|
            #[trigger] spec_next_range(t, p, s, step) == Some(last) && changes_before(t, s, step, p);
        lemma_walk_segment_found_backward(t, p, s, step);
        lemma_next_range_skips_nothing(t, p, s, step);
        lemma_next_range_parts(t, p, s, step);
        let g = spec_last_range(t, s, step).unwrap();
        let kl = choose|j: int| 0 <= j < s.len() && spec_valid(t, #[trigger] s[j]) && s[j].1 == g.1;
        let kf = choose|k: int|
            0 <= k < s.len() && spec_valid(t, #[trigger] s[k]) && ({
                ||| spec_contains(t, s[k].0, s[k].1, p)
                    && last == spec_next_smallest(t, p, s[k].1, s, step)
                ||| t.spec_lt(p, s[k].0) && last == spec_next_smallest(t, s[k].0, s[k].1, s, step)
                    && spec_least_end_over(t, p, s, s.len()) is None
            }) && ordered(t, last);
        let r = s[kf];
        if spec_contains(t, r.0, r.1, p) && last == spec_next_smallest(t, p, r.1, s, step) {
            lemma_next_segment_uniform(t, p, r.1, s, step);
            lemma_next_segment_steps_out(t, p, r.1, s, step);
        } else {
            lemma_next_segment_uniform(t, r.0, r.1, s, step);
            lemma_next_segment_steps_out(t, r.0, r.1, s, step);
        }
        assert(within(t, last, r) || apart(t, last, r));
        assert(t.spec_lt(r.0, r.1) || r.0 == r.1 || t.spec_lt(r.1, r.0));
        assert(t.spec_lt(last.0, last.1) || last.0 == last.1 || t.spec_lt(last.1, last.0));
        assert(spec_contains(t, r.0, r.1, last.1));
        assert(spec_contains(t, r.0, r.1, r.1));
        assert(!t.spec_lt(g.1, r.1));
        assert(t.spec_lt(last.1, g.1) || last.1 == g.1 || t.spec_lt(g.1, last.1));
        if t.spec_lt(last.1, g.1) {
            if last.1 == r.1 {
                assert(t.spec_inc(r.1, step) is Some);
            }
            let x = t.spec_inc(last.1, step).unwrap();
            assert(t.spec_lt(last.1, x));
            assert(!t.spec_lt(g.1, x));
            lemma_next_range_skips_nothing(t, x, s, step);
            assert(spec_next_range(t, x, s, step) is None);
            assert(t.spec_lt(s[kl].0, s[kl].1) || s[kl].0 == s[kl].1 || t.spec_lt(s[kl].1, s[kl].0));
            assert(spec_contains(t, s[kl].0, s[kl].1, g.1));
            assert(false);
        }
        assert(last.1 == g.1);
        assert(backward_chain(t, s, step, 0) == forward_chain(t, s, step, (n - 1) as nat));
        assert forall|k: nat| k < n implies #[trigger] backward_chain(t, s, step, k) == forward_chain(
            t,
            s,
            step,
            (n - 1 - k) as nat,
        ) by {
            lemma_backward_chain_mirrors(t, s, step, n, k);
        }
        // Before the first segment nothing is held.
        lemma_backward_chain_mirrors(t, s, step, n, (n - 1) as nat);
        let f0 = forward_chain(t, s, step, 0).unwrap();
        assert(backward_chain(t, s, step, (n - 1) as nat) == Some(f0));
        if let Some(d) = t.spec_dec(f0.0, step) {
            assert(t.spec_lt(d, f0.0));
            lemma_previous_range_skips_nothing(t, d, s, step);
            if let Some(h) = spec_previous_range(t, d, s, step) {
                let j = choose|j: int|
                    0 <= j < s.len() && spec_valid(t, #[trigger] s[j]) && spec_contains(t, s[j].0, s[j].1, h.1);
                assert(t.spec_lt(h.1, f0.0));
                assert(!spec_contains(t, s[j].0, s[j].1, h.1));
                assert(false);
            }
        }
        assert(backward_chain(t, s, step, n) == backward_chain(t, s, step, ((n as int - 1) + 1) as nat));
    }
}

/// The segment `g` is the one the walk finds backward from a value just after which other
/// ranges hold.
pub open spec fn found_at_change_back<T, V, C: IncDecCpCmp<T, V>>(t: &C, s: Seq<(T, T)>, step: V, g: (T, T)) -> bool {
    exists|e: T|
        #[trigger] spec_previous_range(t, e, s, step) == Some(g) && changes_after(t, s, step, e)
}

/// Every segment of the backward chain is found from a value where the ranges change.
proof fn lemma_backward_chain_found<T, V, C: IncDecCpCmp<T, V>>(t: &C, s: Seq<(T, T)>, step: V, k: nat)
    requires
        unit_step(t, step),
    ensures
        backward_chain(t, s, step, k) matches Some(g) ==> found_at_change_back(t, s, step, g),
    decreases k,
{
    if k == 0 {
        lemma_walk_last_segment(t, s, step);
        if let Some(g) = backward_chain(t, s, step, k) {
            assert(spec_previous_range(t, g.1, s, step) == Some(g));
        }
    } else {
        lemma_backward_chain_found(t, s, step, (k - 1) as nat);
        if let Some(h) = backward_chain(t, s, step, (k - 1) as nat) {
            if let Some(y) = t.spec_dec(h.0, step) {
                if let Some(g) = spec_previous_range(t, y, s, step) {
                    let e = choose|e: T|
                        #[trigger] spec_previous_range(t, e, s, step) == Some(h) && changes_after(t, s, step, e);
                    lemma_walk_segment_maximal_backward(t, e, s, step);
                    assert(!same_ranges(t, s, h.0, y));
                    assert(t.spec_inc(y, step) == Some(h.0));
                    assert(spec_previous_range(t, y, s, step) == Some(g));
                }
            }
        }
    }
}

/// The `k`-th segment that a walk over `s` hands out when only stepped forward from its
/// reset state (see [crate::OverlapIter::next]): the first segment, then each time
/// [spec_try_next] with the last segment as the backward one.
pub open spec fn forward_walk<T, V, C: IncDecCpCmp<T, V>>(t: &C, s: Seq<(T, T)>, step: V, k: nat) -> Option<
    (T, T),
>
    decreases k,
{
    if k == 0 {
        spec_first_range(t, s, step)
    } else {
        spec_try_next(t, s, step, forward_walk(t, s, step, (k - 1) as nat), spec_last_range(t, s, step))
    }
}

/// The `k`-th segment that a walk over `s` hands out when only stepped backward from its
/// reset state (see [crate::OverlapIter::next_back]).
pub open spec fn backward_walk<T, V, C: IncDecCpCmp<T, V>>(t: &C, s: Seq<(T, T)>, step: V, k: nat) -> Option<
    (T, T),
>
    decreases k,
{
    if k == 0 {
        spec_last_range(t, s, step)
    } else {
        spec_try_next_back(t, s, step, backward_walk(t, s, step, (k - 1) as nat), spec_first_range(t, s, step))
    }
}

/// The segment that the walk finds forward from `begin` begins no later than it ends, and
/// every valid range holds all of it or none of it.
proof fn lemma_next_range_uniform<T, V, C: IncDecCpCmp<T, V>>(t: &C, begin: T, s: Seq<(T, T)>, step: V)
    requires
        unit_step(t, step),
    ensures
        spec_next_range(t, begin, s, step) matches Some(f) ==> {
            &&& ordered(t, f)
            &&& forall|k: int|
                0 <= k < s.len() && spec_valid(t, #[trigger] s[k]) ==> within(t, f, s[k]) || apart(t, f, s[k])
        },
{
    lemma_next_range_parts(t, begin, s, step);
    if let Some(f) = spec_next_range(t, begin, s, step) {
        let k = choose|k: int|
            0 <= k < s.len() && spec_valid(t, #[trigger] s[k]) && ({
                ||| spec_contains(t, s[k].0, s[k].1, begin)
                    && f == spec_next_smallest(t, begin, s[k].1, s, step)
                ||| t.spec_lt(begin, s[k].0) && f == spec_next_smallest(t, s[k].0, s[k].1, s, step)
                    && spec_least_end_over(t, begin, s, s.len()) is None
            }) && ordered(t, f);
        let r = s[k];
        if spec_contains(t, r.0, r.1, begin) && f == spec_next_smallest(t, begin, r.1, s, step) {
            lemma_next_segment_uniform(t, begin, r.1, s, step);
        } else {
            lemma_next_segment_uniform(t, r.0, r.1, s, step);
        }
    }
}

/// A pair that begins no later than it ends and lies within a valid range is valid.
proof fn lemma_within_valid<T, C: CpCmp<T>>(t: &C, f: (T, T), r: (T, T))
    requires
        ordered(t, f),
        spec_valid(t, r),
        within(t, f, r),
    ensures
        spec_valid(t, f),
{
    t.lemma_order();
    assert(t.spec_lt(f.0, t.spec_min()) || f.0 == t.spec_min() || t.spec_lt(t.spec_min(), f.0));
    assert(t.spec_lt(f.1, t.spec_max()) || f.1 == t.spec_max() || t.spec_lt(t.spec_max(), f.1));
    assert(t.spec_lt(r.0, t.spec_min()) || r.0 == t.spec_min() || t.spec_lt(t.spec_min(), r.0));
    assert(t.spec_lt(r.1, t.spec_max()) || r.1 == t.spec_max() || t.spec_lt(t.spec_max(), r.1));
}

/// The forward walk hands out the forward chain.
proof fn lemma_forward_walk_is_chain<T, V, C: IncDecCpCmp<T, V>>(t: &C, s: Seq<(T, T)>, step: V, k: nat)
    requires
        unit_step(t, step),
    ensures
        forward_walk(t, s, step, k) == forward_chain(t, s, step, k),
    decreases k,
{
    t.lemma_order();
    t.lemma_inc_dec();
    if k > 0 {
        let j = (k - 1) as nat;
        lemma_forward_walk_is_chain(t, s, step, j);
        lemma_forward_chain_found(t, s, step, j);
        if let Some(f) = forward_chain(t, s, step, j) {
            let p = choose|p: T|
                #[trigger] spec_next_range(t, p, s, step) == Some(f) && changes_before(t, s, step, p);
            lemma_next_range_skips_nothing(t, p, s, step);
            lemma_next_range_uniform(t, p, s, step);
            lemma_walk_segment_maximal(t, p, s, step);
            lemma_walk_segment_found_backward(t, p, s, step);
            lemma_walk_extent(t, s, step);
            lemma_walk_last_segment(t, s, step);
            let r = choose|i: int|
                0 <= i < s.len() && spec_valid(t, #[trigger] s[i]) && spec_contains(t, s[i].0, s[i].1, f.0);
            assert(within(t, f, s[r]) || apart(t, f, s[r]));
            assert(t.spec_lt(f.0, f.1) || f.0 == f.1 || t.spec_lt(f.1, f.0));
            assert(within(t, f, s[r]));
            lemma_within_valid(t, f, s[r]);
            let l = spec_last_range(t, s, step).unwrap();
            assert(spec_contains(t, s[r].0, s[r].1, f.1));
            assert(!t.spec_lt(l.1, f.1));
            lemma_previous_range_parts(t, l.1, s, step);
            if !t.spec_lt(f.1, l.0) {
                // The segment overlaps the last one: it is the last one, and nothing follows.
                if f.1 != l.1 {
                    assert(t.spec_lt(f.1, l.1));
                    let x = t.spec_inc(f.1, step).unwrap();
                    assert(t.spec_lt(f.1, x));
                    assert(!t.spec_lt(l.1, x));
                    assert forall|i: int| 0 <= i < s.len() && spec_valid(t, #[trigger] s[i]) implies (spec_contains(
                        t,
                        s[i].0,
                        s[i].1,
                        f.1,
                    ) <==> spec_contains(t, s[i].0, s[i].1, x)) by {
                        assert(within(t, l, s[i]) || apart(t, l, s[i]));
                        assert(t.spec_lt(s[i].0, x) || s[i].0 == x || t.spec_lt(x, s[i].0));
                        assert(t.spec_lt(s[i].1, x) || s[i].1 == x || t.spec_lt(x, s[i].1));
                        assert(t.spec_lt(s[i].0, f.1) || s[i].0 == f.1 || t.spec_lt(f.1, s[i].0));
                        assert(t.spec_lt(s[i].1, f.1) || s[i].1 == f.1 || t.spec_lt(f.1, s[i].1));
                        assert(t.spec_lt(l.0, l.1) || l.0 == l.1 || t.spec_lt(l.1, l.0));
                    }
                    assert(same_ranges(t, s, f.1, x));
                    assert(false);
                }
                assert(f == l);
                if let Some(x) = t.spec_inc(f.1, step) {
                    assert(t.spec_lt(f.1, x));
                    let both = seq![l, f];
                    lemma_next_range_skips_nothing(t, x, both, step);
                    lemma_next_range_skips_nothing(t, x, s, step);
                    if let Some(seg) = spec_next_range(t, x, both, step) {
                        let i = choose|i: int|
                            0 <= i < both.len() && spec_valid(t, #[trigger] both[i]) && spec_contains(
                                t,
                                both[i].0,
                                both[i].1,
                                seg.0,
                            );
                        assert(both[i] == l);
                        assert(false);
                    }
                    if let Some(seg) = spec_next_range(t, x, s, step) {
                        let i = choose|i: int|
                            0 <= i < s.len() && spec_valid(t, #[trigger] s[i]) && spec_contains(t, s[i].0, s[i].1, seg.0);
                        assert(false);
                    }
                }
            }
        }
    }
}

/// The backward walk hands out the backward chain.
proof fn lemma_backward_walk_is_chain<T, V, C: IncDecCpCmp<T, V>>(t: &C, s: Seq<(T, T)>, step: V, k: nat)
    requires
        unit_step(t, step),
    ensures
        backward_walk(t, s, step, k) == backward_chain(t, s, step, k),
    decreases k,
{
    t.lemma_order();
    t.lemma_inc_dec();
    if k > 0 {
        let j = (k - 1) as nat;
        lemma_backward_walk_is_chain(t, s, step, j);
        lemma_backward_chain_found(t, s, step, j);
        if let Some(g) = backward_chain(t, s, step, j) {
            let e = choose|e: T|
                #[trigger] spec_previous_range(t, e, s, step) == Some(g) && changes_after(t, s, step, e);
            lemma_previous_range_skips_nothing(t, e, s, step);
            lemma_previous_range_parts(t, e, s, step);
            lemma_walk_segment_maximal_backward(t, e, s, step);
            lemma_walk_segment_found_forward(t, e, s, step);
            lemma_walk_extent(t, s, step);
            lemma_walk_first_segment(t, s, step);
            let r = choose|i: int|
                0 <= i < s.len() && spec_valid(t, #[trigger] s[i]) && spec_contains(t, s[i].0, s[i].1, g.1);
            assert(within(t, g, s[r]) || apart(t, g, s[r]));
            assert(t.spec_lt(g.0, g.1) || g.0 == g.1 || t.spec_lt(g.1, g.0));
            assert(within(t, g, s[r]));
            lemma_within_valid(t, g, s[r]);
            let f = spec_first_range(t, s, step).unwrap();
            assert(spec_contains(t, s[r].0, s[r].1, g.0));
            assert(!t.spec_lt(g.0, f.0));
            lemma_next_range_uniform(t, f.0, s, step);
            if !t.spec_lt(f.1, g.0) {
                if g.0 != f.0 {
                    assert(t.spec_lt(f.0, g.0));
                    let y = t.spec_dec(g.0, step).unwrap();
                    assert(t.spec_lt(y, g.0));
                    assert(t.spec_inc(y, step) == Some(g.0));
                    assert(!t.spec_lt(y, f.0));
                    assert forall|i: int| 0 <= i < s.len() && spec_valid(t, #[trigger] s[i]) implies (spec_contains(
                        t,
                        s[i].0,
                        s[i].1,
                        g.0,
                    ) <==> spec_contains(t, s[i].0, s[i].1, y)) by {
                        assert(within(t, f, s[i]) || apart(t, f, s[i]));
                        assert(t.spec_lt(s[i].0, y) || s[i].0 == y || t.spec_lt(y, s[i].0));
                        assert(t.spec_lt(s[i].1, y) || s[i].1 == y || t.spec_lt(y, s[i].1));
                        assert(t.spec_lt(s[i].0, g.0) || s[i].0 == g.0 || t.spec_lt(g.0, s[i].0));
                        assert(t.spec_lt(s[i].1, g.0) || s[i].1 == g.0 || t.spec_lt(g.0, s[i].1));
                        assert(t.spec_lt(f.0, f.1) || f.0 == f.1 || t.spec_lt(f.1, f.0));
                    }
                    assert(same_ranges(t, s, g.0, y));
                    assert(false);
                }
                assert(g == f);
                if let Some(y) = t.spec_dec(g.0, step) {
                    assert(t.spec_lt(y, g.0));
                    let both = seq![f, g];
                    lemma_previous_range_skips_nothing(t, y, both, step);
                    lemma_previous_range_skips_nothing(t, y, s, step);
                    if let Some(seg) = spec_previous_range(t, y, both, step) {
                        let i = choose|i: int|
                            0 <= i < both.len() && spec_valid(t, #[trigger] both[i]) && spec_contains(
                                t,
                                both[i].0,
                                both[i].1,
                                seg.1,
                            );
                        assert(both[i] == f);
                        assert(false);
                    }
                    if let Some(seg) = spec_previous_range(t, y, s, step) {
                        let i = choose|i: int|
                            0 <= i < s.len() && spec_valid(t, #[trigger] s[i]) && spec_contains(t, s[i].0, s[i].1, seg.1);
                        assert(false);
                    }
                }
            }
        }
    }
}

/// The optional segment `o` holds `p`.
pub open spec fn segment_holds<T, C: CpCmp<T>>(t: &C, o: Option<(T, T)>, p: T) -> bool {
    o matches Some(f) && spec_contains(t, f.0, f.1, p)
}

/// Every value that a valid range holds, up to the end of the `k`-th segment of the forward
/// chain, lies in one of its first `k + 1` segments.
proof fn lemma_forward_chain_covers<T, V, C: IncDecCpCmp<T, V>>(t: &C, s: Seq<(T, T)>, step: V, k: nat)
    requires
        unit_step(t, step),
        forward_chain(t, s, step, k) is Some,
    ensures
        forall|i: int, p: T|
            0 <= i < s.len() && spec_valid(t, s[i]) && #[trigger] spec_contains(t, s[i].0, s[i].1, p)
                && !t.spec_lt(forward_chain(t, s, step, k).unwrap().1, p) ==> exists|j: nat|
                j <= k && #[trigger] segment_holds(t, forward_chain(t, s, step, j), p),
    decreases k,
{
    t.lemma_order();
    t.lemma_inc_dec();
    let f = forward_chain(t, s, step, k).unwrap();
    if k == 0 {
        lemma_walk_extent(t, s, step);
        assert forall|i: int, p: T|
            0 <= i < s.len() && spec_valid(t, s[i]) && #[trigger] spec_contains(t, s[i].0, s[i].1, p)
                && !t.spec_lt(f.1, p) implies exists|j: nat|
            j <= k && #[trigger] segment_holds(t, forward_chain(t, s, step, j), p) by {
            assert(!t.spec_lt(p, f.0));
            assert(segment_holds(t, forward_chain(t, s, step, 0), p));
        }
    } else {
        let j0 = (k - 1) as nat;
        lemma_forward_chain_covers(t, s, step, j0);
        let g = forward_chain(t, s, step, j0).unwrap();
        let x = t.spec_inc(g.1, step).unwrap();
        assert(f == spec_next_range(t, x, s, step).unwrap());
        lemma_next_range_skips_nothing(t, x, s, step);
        assert forall|i: int, p: T|
            0 <= i < s.len() && spec_valid(t, s[i]) && #[trigger] spec_contains(t, s[i].0, s[i].1, p)
                && !t.spec_lt(f.1, p) implies exists|j: nat|
            j <= k && #[trigger] segment_holds(t, forward_chain(t, s, step, j), p) by {
            assert(t.spec_lt(g.1, p) || g.1 == p || t.spec_lt(p, g.1));
            if t.spec_lt(g.1, p) {
                assert(!t.spec_lt(p, x));
                assert(t.spec_lt(p, f.0) || p == f.0 || t.spec_lt(f.0, p));
                assert(!t.spec_lt(p, f.0));
                assert(segment_holds(t, forward_chain(t, s, step, k), p));
            } else {
                let j = choose|j: nat| j <= j0 && #[trigger] segment_holds(t, forward_chain(t, s, step, j), p);
                assert(j <= k);
            }
        }
    }
}

/// The segment `f` is an elementary interval of the ranges of `s`: it begins no later than
/// it ends, lies where some valid range is, every valid range holds all of it or none of it,
/// and the values just before and just after it are held by other ranges.
/// A segment at the least or greatest value, where no step leads out, ends there.
pub open spec fn elementary<T, V, C: IncDecCpCmp<T, V>>(t: &C, s: Seq<(T, T)>, step: V, f: (T, T)) -> bool {
    &&& ordered(t, f)
    &&& exists|i: int|
        0 <= i < s.len() && spec_valid(t, #[trigger] s[i]) && spec_contains(t, s[i].0, s[i].1, f.0)
    &&& forall|i: int|
        0 <= i < s.len() && spec_valid(t, #[trigger] s[i]) ==> within(t, f, s[i]) || apart(t, f, s[i])
    &&& forall|x: T| #[trigger] t.spec_inc(f.1, step) == Some(x) ==> !same_ranges(t, s, f.1, x)
    &&& forall|y: T| #[trigger] t.spec_dec(f.0, step) == Some(y) ==> !same_ranges(t, s, f.0, y)
}

/// **A walk that is over stays over.** Once a walk that only steps forward (or only
/// backward) hands out nothing, every later step hands out nothing too.
pub proof fn lemma_walk_done_stays_done<T, V, C: IncDecCpCmp<T, V>>(t: &C, s: Seq<(T, T)>, step: V, k: nat)
    ensures
        forward_walk(t, s, step, k) is None ==> forward_walk(t, s, step, k + 1) is None,
        backward_walk(t, s, step, k) is None ==> backward_walk(t, s, step, k + 1) is None,
{
}

/// **The walk run backward hands out the walk run forward, reversed.** With a step between
/// neighbours, when a walk stepped only forward from
/// its reset state hands out exactly `n` segments, one stepped only backward hands out the
/// same `n` segments in reverse order, and then nothing.
pub proof fn lemma_walk_backward_is_forward_reversed<T, V, C: IncDecCpCmp<T, V>>(
    t: &C,
    s: Seq<(T, T)>,
    step: V,
    n: nat,
)
    requires
        unit_step(t, step),
        forall|k: nat| k < n ==> #[trigger] forward_walk(t, s, step, k) is Some,
        forward_walk(t, s, step, n) is None,
    ensures
        forall|k: nat| k < n ==> #[trigger] backward_walk(t, s, step, k) == forward_walk(
            t,
            s,
            step,
            (n - 1 - k) as nat,
        ),
        backward_walk(t, s, step, n) is None,
{
    assert forall|k: nat| k <= n implies #[trigger] forward_walk(t, s, step, k) == forward_chain(t, s, step, k) by {
        lemma_forward_walk_is_chain(t, s, step, k);
    }
    assert forall|k: nat| k < n implies #[trigger] forward_chain(t, s, step, k) is Some by {
        assert(forward_walk(t, s, step, k) is Some);
    }
    lemma_walk_reverses(t, s, step, n);
    assert forall|k: nat| k < n implies #[trigger] backward_walk(t, s, step, k) == forward_walk(
        t,
        s,
        step,
        (n - 1 - k) as nat,
    ) by {
        lemma_backward_walk_is_chain(t, s, step, k);
        assert(backward_chain(t, s, step, k) == forward_chain(t, s, step, (n - 1 - k) as nat));
    }
    lemma_backward_walk_is_chain(t, s, step, n);
}

/// **The walk hands out the elementary intervals of the ranges.** With a step between
/// neighbours, when a walk stepped only forward from
/// its reset state hands out exactly `n` segments: each begins no later than it ends, lies
/// where some valid range is, and every valid range holds all of it or none of it; the values
/// just before and just after it are held by other ranges; each ends before the next one
/// begins; and every value that a valid range holds lies in one of them.
/// A segment at the least or greatest value, where no step leads out, ends there.
pub proof fn lemma_walk_is_elementary<T, V, C: IncDecCpCmp<T, V>>(t: &C, s: Seq<(T, T)>, step: V, n: nat)
    requires
        unit_step(t, step),
        forall|k: nat| k < n ==> #[trigger] forward_walk(t, s, step, k) is Some,
        forward_walk(t, s, step, n) is None,
    ensures
        forall|k: nat|
            k < n ==> (#[trigger] forward_walk(t, s, step, k) matches Some(f) && elementary(t, s, step, f)),
        forall|k: nat|
            k + 1 < n ==> t.spec_lt(
                (#[trigger] forward_walk(t, s, step, k)).unwrap().1,
                forward_walk(t, s, step, k + 1).unwrap().0,
            ),
        forall|i: int, p: T|
            0 <= i < s.len() && spec_valid(t, s[i]) && #[trigger] spec_contains(t, s[i].0, s[i].1, p)
                ==> exists|k: nat| k < n && #[trigger] segment_holds(t, forward_walk(t, s, step, k), p),
{
    t.lemma_order();
    t.lemma_inc_dec();
    assert forall|k: nat| k <= n implies #[trigger] forward_walk(t, s, step, k) == forward_chain(t, s, step, k) by {
        lemma_forward_walk_is_chain(t, s, step, k);
    }
    assert forall|k: nat| k < n implies #[trigger] forward_chain(t, s, step, k) is Some by {
        assert(forward_walk(t, s, step, k) is Some);
    }
    assert forall|k: nat| k < n implies (#[trigger] forward_walk(t, s, step, k) matches Some(f) && elementary(t, s, step, f)) by {
        lemma_forward_chain_found(t, s, step, k);
        let f = forward_chain(t, s, step, k).unwrap();
        let p = choose|p: T|
            #[trigger] spec_next_range(t, p, s, step) == Some(f) && changes_before(t, s, step, p);
        lemma_next_range_skips_nothing(t, p, s, step);
        lemma_next_range_uniform(t, p, s, step);
        lemma_walk_segment_maximal(t, p, s, step);
        lemma_walk_segment_found_backward(t, p, s, step);
        lemma_walk_segment_maximal_backward(t, f.1, s, step);
    }
    assert forall|k: nat| k + 1 < n implies t.spec_lt(
        (#[trigger] forward_walk(t, s, step, k)).unwrap().1,
        forward_walk(t, s, step, k + 1).unwrap().0,
    ) by {
        lemma_forward_chain_found(t, s, step, k);
        let f = forward_chain(t, s, step, k).unwrap();
        let x = t.spec_inc(f.1, step).unwrap();
        assert(t.spec_lt(f.1, x));
        lemma_next_range_skips_nothing(t, x, s, step);
        assert(forward_chain(t, s, step, k + 1) == spec_next_range(t, x, s, step));
    }
    if n > 0 {
        lemma_walk_reverses(t, s, step, n);
        lemma_walk_extent(t, s, step);
        let last = forward_chain(t, s, step, (n - 1) as nat).unwrap();
        assert(backward_chain(t, s, step, 0) == Some(last));
        lemma_forward_chain_covers(t, s, step, (n - 1) as nat);
        assert forall|i: int, p: T|
            0 <= i < s.len() && spec_valid(t, s[i]) && #[trigger] spec_contains(t, s[i].0, s[i].1, p)
                implies exists|k: nat| k < n && #[trigger] segment_holds(t, forward_walk(t, s, step, k), p) by {
            assert(!t.spec_lt(last.1, p));
            let j = choose|j: nat|
                j <= (n - 1) as nat && #[trigger] segment_holds(t, forward_chain(t, s, step, j), p);
            assert(segment_holds(t, forward_walk(t, s, step, j), p));
        }
    } else {
        lemma_walk_extent(t, s, step);
        assert(forward_walk(t, s, step, 0) is None);
        assert forall|i: int, p: T|
            0 <= i < s.len() && spec_valid(t, s[i]) && #[trigger] spec_contains(t, s[i].0, s[i].1, p)
                implies exists|k: nat| k < n && #[trigger] segment_holds(t, forward_walk(t, s, step, k), p) by {
            assert(!spec_valid(t, s[i]));
        }
    }
}

/// A segment of the forward chain implies every earlier one.
proof fn lemma_forward_chain_some_before<T, V, C: IncDecCpCmp<T, V>>(
    t: &C,
    s: Seq<(T, T)>,
    step: V,
    j: nat,
    k: nat,
)
    requires
        j <= k,
        forward_chain(t, s, step, k) is Some,
    ensures
        forward_chain(t, s, step, j) is Some,
    decreases k - j,
{
    if j < k {
        lemma_forward_chain_some_before(t, s, step, j, (k - 1) as nat);
    }
}

/// The ends of the segments of the forward chain go strictly up.
proof fn lemma_forward_chain_ascending<T, V, C: IncDecCpCmp<T, V>>(
    t: &C,
    s: Seq<(T, T)>,
    step: V,
    j: nat,
    k: nat,
)
    requires
        unit_step(t, step),
        j < k,
        forward_chain(t, s, step, k) is Some,
    ensures
        t.spec_lt(forward_chain(t, s, step, j).unwrap().1, forward_chain(t, s, step, k).unwrap().1),
    decreases k - j,
{
    t.lemma_order();
    t.lemma_inc_dec();
    lemma_forward_chain_some_before(t, s, step, (k - 1) as nat, k);
    let g = forward_chain(t, s, step, (k - 1) as nat).unwrap();
    let f = forward_chain(t, s, step, k).unwrap();
    let x = t.spec_inc(g.1, step).unwrap();
    lemma_next_range_skips_nothing(t, x, s, step);
    lemma_next_range_uniform(t, x, s, step);
    assert(t.spec_lt(g.1, x));
    assert(t.spec_lt(f.0, f.1) || f.0 == f.1 || t.spec_lt(f.1, f.0));
    assert(t.spec_lt(x, f.0) || x == f.0 || t.spec_lt(f.0, x));
    assert(t.spec_lt(g.1, f.1));
    if j < (k - 1) as nat {
        lemma_forward_chain_ascending(t, s, step, j, (k - 1) as nat);
    }
}

/// The places where a segment of the forward chain can end: the end of a range, or just
/// before the begin of one.
pub open spec fn end_candidates<T, V, C: IncDecCpCmp<T, V>>(t: &C, s: Seq<(T, T)>, step: V) -> Seq<T> {
    Seq::new(s.len(), |i: int| s[i].1) + Seq::new(s.len(), |i: int| t.spec_dec(s[i].0, step).unwrap())
}

/// Every segment of the forward chain ends at one of [end_candidates].
proof fn lemma_forward_chain_end_candidate<T, V, C: IncDecCpCmp<T, V>>(t: &C, s: Seq<(T, T)>, step: V, k: nat)
    requires
        unit_step(t, step),
        forward_chain(t, s, step, k) is Some,
    ensures
        end_candidates(t, s, step).contains(forward_chain(t, s, step, k).unwrap().1),
{
    t.lemma_order();
    let c = end_candidates(t, s, step);
    let n = s.len();
    lemma_forward_chain_found(t, s, step, k);
    let f = forward_chain(t, s, step, k).unwrap();
    let p = choose|p: T|
        #[trigger] spec_next_range(t, p, s, step) == Some(f) && changes_before(t, s, step, p);
    lemma_next_range_parts(t, p, s, step);
    let kf = choose|kf: int|
        0 <= kf < s.len() && spec_valid(t, #[trigger] s[kf]) && ({
            ||| spec_contains(t, s[kf].0, s[kf].1, p)
                && f == spec_next_smallest(t, p, s[kf].1, s, step)
            ||| t.spec_lt(p, s[kf].0) && f == spec_next_smallest(t, s[kf].0, s[kf].1, s, step)
                && spec_least_end_over(t, p, s, s.len()) is None
        }) && ordered(t, f);
    let r = s[kf];
    let b = if spec_contains(t, r.0, r.1, p) && f == spec_next_smallest(t, p, r.1, s, step) {
        p
    } else {
        r.0
    };
    assert(f == spec_next_smallest(t, b, r.1, s, step));
    lemma_next_segment_ends_at_boundary(t, b, r.1, s, step);
    lemma_next_segment_uniform(t, b, r.1, s, step);
    if f.1 == r.1 {
        assert(c[kf] == f.1);
    } else {
        let i = choose|i: int|
            0 <= i < s.len() && spec_valid(t, #[trigger] s[i]) && ((!t.spec_lt(b, s[i].0)
                && s[i].1 == f.1) || (t.spec_lt(b, s[i].0) && (s[i].0 == f.1 || t.spec_dec(s[i].0, step)
                == Some(f.1))));
        let q = s[i];
        if !t.spec_lt(b, q.0) && q.1 == f.1 {
            assert(c[i] == f.1);
        } else if q.0 == f.1 {
            assert(within(t, f, s[i]) || apart(t, f, s[i]));
            assert(t.spec_lt(q.0, q.1) || q.0 == q.1 || t.spec_lt(q.1, q.0));
            assert(false);
        } else {
            assert(c[n + i] == f.1);
        }
    }
}

/// **The walk ends.** With a step between neighbours,
/// a walk stepped only forward from its reset state hands out at most twice as many
/// segments as there are ranges, and then nothing.
pub proof fn lemma_walk_ends<T, V, C: IncDecCpCmp<T, V>>(t: &C, s: Seq<(T, T)>, step: V)
    requires
        unit_step(t, step),
    ensures
        exists|n: nat|
            n <= 2 * s.len() && forward_walk(t, s, step, n) is None && forall|k: nat|
                k < n ==> #[trigger] forward_walk(t, s, step, k) is Some,
{
    let m = 2 * s.len();
    assert forall|k: nat| k <= m implies #[trigger] forward_walk(t, s, step, k) == forward_chain(t, s, step, k) by {
        lemma_forward_walk_is_chain(t, s, step, k);
    }
    if forward_chain(t, s, step, m) is Some {
        let c = end_candidates(t, s, step);
        let x = vstd::set_lib::set_int_range(0, (m + 1) as int);
        let f = |k: int| forward_chain(t, s, step, k as nat).unwrap().1;
        vstd::set_lib::lemma_int_range(0, (m + 1) as int);
        assert forall|k1: int, k2: int| x.contains(k1) && x.contains(k2) && #[trigger] f(k1) == #[trigger] f(k2)
            implies k1 == k2 by {
            if k1 < k2 {
                lemma_forward_chain_some_before(t, s, step, k2 as nat, m);
                lemma_forward_chain_ascending(t, s, step, k1 as nat, k2 as nat);
                t.lemma_order();
            } else if k2 < k1 {
                lemma_forward_chain_some_before(t, s, step, k1 as nat, m);
                lemma_forward_chain_ascending(t, s, step, k2 as nat, k1 as nat);
                t.lemma_order();
            }
        }
        vstd::set_lib::lemma_map_size(x, x.map(f), f);
        assert forall|v: T| #[trigger] x.map(f).contains(v) implies c.to_set().contains(v) by {
            let k = choose|k: int| x.contains(k) && f(k) == v;
            lemma_forward_chain_some_before(t, s, step, k as nat, m);
            lemma_forward_chain_end_candidate(t, s, step, k as nat);
        }
        c.lemma_cardinality_of_set();
        vstd::set_lib::lemma_len_subset(x.map(f), c.to_set());
        assert(false);
    }
    lemma_walk_first_none(t, s, step, m);
}

/// The first segment missing from the forward chain comes no later than one that is.
proof fn lemma_walk_first_none<T, V, C: IncDecCpCmp<T, V>>(t: &C, s: Seq<(T, T)>, step: V, m: nat)
    requires
        forward_chain(t, s, step, m) is None,
        forall|k: nat| k <= m ==> #[trigger] forward_walk(t, s, step, k) == forward_chain(t, s, step, k),
    ensures
        exists|n: nat|
            n <= m && forward_walk(t, s, step, n) is None && forall|k: nat|
                k < n ==> #[trigger] forward_walk(t, s, step, k) is Some,
    decreases m,
{
    if m == 0 {
        assert(forward_walk(t, s, step, 0) is None);
    } else if forward_chain(t, s, step, (m - 1) as nat) is None {
        lemma_walk_first_none(t, s, step, (m - 1) as nat);
        let n = choose|n: nat|
            n <= (m - 1) as nat && forward_walk(t, s, step, n) is None && forall|k: nat|
                k < n ==> #[trigger] forward_walk(t, s, step, k) is Some;
        assert(n <= m);
    } else {
        assert forall|k: nat| k < m implies #[trigger] forward_walk(t, s, step, k) is Some by {
            lemma_forward_chain_some_before(t, s, step, k, (m - 1) as nat);
        }
        assert(forward_walk(t, s, step, m) is None);
    }
}

/// The ranges of `input`, each with its position, the first one's being `offset`.
pub open spec fn indexed<S>(input: Seq<S>, offset: nat) -> Seq<(usize, S)> {
    Seq::new(input.len(), |i: int| ((offset + i) as usize, input[i]))
}

/// The sources of an optional open group.
pub open spec fn open_members<T, S>(last: Option<((T, T), Seq<(usize, S)>)>) -> Seq<(usize, S)> {
    match last {
        Some(g) => g.1,
        None => Seq::empty(),
    }
}

/// The groups that consolidation hands out, one step after the other, from the open group
/// `last` and the ranges `input` (the first at position `offset`), until it hands out
/// nothing.
pub open spec fn consolidation_run<T, S: GetBeginEnd<T>, C: CpCmp<T>>(
    t: &C,
    last: Option<((T, T), Seq<(usize, S)>)>,
    input: Seq<S>,
    offset: nat,
) -> Seq<((T, T), Seq<(usize, S)>)>
    decreases 2 * input.len() + (if last is Some {
        1int
    } else {
        0int
    }),
{
    let s = spec_consolidate(t, last, input, offset);
    proof {
        crate::utils::lemma_consolidate_progress(t, last, input, offset);
    }
    match s.1 {
        None => Seq::empty(),
        Some(rel) => seq![relation_value(rel)] + consolidation_run(
            t,
            s.2,
            input.skip(s.0 - offset),
            s.0,
        ),
    }
}

/// The sources of the groups of `run`, one group after the other.
pub open spec fn run_members<T, S>(run: Seq<((T, T), Seq<(usize, S)>)>) -> Seq<(usize, S)>
    decreases run.len(),
{
    if run.len() == 0 {
        Seq::empty()
    } else {
        run[0].1 + run_members(run.drop_first())
    }
}

/// The hull of the sources `m`: the first one's pair grown by each of the others in turn.
pub open spec fn hull_of<T, S: GetBeginEnd<T>, C: CpCmp<T>>(t: &C, m: Seq<(usize, S)>) -> (T, T)
    decreases m.len(),
{
    if m.len() <= 1 {
        pair_of(m[0].1)
    } else {
        spec_grow(t, hull_of(t, m.drop_last()), pair_of(m.last().1))
    }
}

/// The group `g` has sources, and its range is their hull.
pub open spec fn is_hull_group<T, S: GetBeginEnd<T>, C: CpCmp<T>>(t: &C, g: ((T, T), Seq<(usize, S)>)) -> bool {
    g.1.len() > 0 && g.0 == hull_of(t, g.1)
}

/// **A group's range is the hull of its sources.** When the open group's range is the hull
/// of its sources, the group that a step of consolidation hands out and the group it leaves
/// open each have sources, and their range is the hull of them.
pub proof fn lemma_consolidate_hulls<T, S: GetBeginEnd<T>, C: CpCmp<T>>(
    t: &C,
    last: Option<((T, T), Seq<(usize, S)>)>,
    input: Seq<S>,
    offset: nat,
)
    requires
        last matches Some(g) ==> is_hull_group(t, g),
    ensures
        ({
            let s = spec_consolidate(t, last, input, offset);
            &&& s.1 matches Some(rel) ==> is_hull_group(t, relation_value(rel))
            &&& s.2 matches Some(g) ==> is_hull_group(t, g)
        }),
    decreases input.len(),
{
    if input.len() > 0 {
        let x = input[0];
        let ar = (pair_of(x), seq![(offset as usize, x)]);
        let rest = input.drop_first();
        let off = offset + 1;
        assert(is_hull_group(t, ar));
        match last {
            None => {
                lemma_consolidate_hulls(t, Some(ar), rest, off);
            },
            Some(g) => {
                match spec_range_relation(t, g.0, ar.0) {
                    RangeRelation::Overlap(_) => {
                        let nr = spec_grow(t, g.0, ar.0);
                        let nl = g.1 + ar.1;
                        assert(nl.drop_last() =~= g.1);
                        assert(nl.last() == (offset as usize, x));
                        assert(hull_of(t, nl) == nr);
                        if spec_valid(t, nr) {
                            lemma_consolidate_hulls(t, Some((nr, nl)), rest, off);
                        }
                    },
                    _ => {},
                }
            },
        }
    }
}

/// **Every group of a run is the hull of its sources.** Each group that a run of
/// consolidation hands out, from no open group or one whose range is the hull of its
/// sources, has sources, and its range is their hull.
pub proof fn lemma_consolidation_run_hulls<T, S: GetBeginEnd<T>, C: CpCmp<T>>(
    t: &C,
    last: Option<((T, T), Seq<(usize, S)>)>,
    input: Seq<S>,
    offset: nat,
)
    requires
        last matches Some(g) ==> is_hull_group(t, g),
    ensures
        forall|k: int|
            0 <= k < consolidation_run(t, last, input, offset).len() ==> is_hull_group(
                t,
                #[trigger] consolidation_run(t, last, input, offset)[k],
            ),
    decreases 2 * input.len() + (if last is Some {
        1int
    } else {
        0int
    }),
{
    crate::utils::lemma_consolidate_progress(t, last, input, offset);
    lemma_consolidate_hulls(t, last, input, offset);
    let s = spec_consolidate(t, last, input, offset);
    if let Some(rel) = s.1 {
        let k0 = (s.0 - offset) as int;
        let rest = input.skip(k0);
        lemma_consolidation_run_hulls(t, s.2, rest, s.0);
        let tail = consolidation_run(t, s.2, rest, s.0);
        let run = consolidation_run(t, last, input, offset);
        assert(run == seq![relation_value(rel)] + tail);
        assert forall|k: int| 0 <= k < run.len() implies is_hull_group(t, #[trigger] run[k]) by {
            if k > 0 {
                assert(run[k] == tail[k - 1]);
            }
        }
    }
}

/// One step of consolidation loses and repeats nothing: the sources of the group it hands
/// out, followed by those of the group it leaves open, are those of the group it had open,
/// followed by the ranges it read, each with its position.
pub proof fn lemma_consolidate_keeps_sources<T, S: GetBeginEnd<T>, C: CpCmp<T>>(
    t: &C,
    last: Option<((T, T), Seq<(usize, S)>)>,
    input: Seq<S>,
    offset: nat,
)
    ensures
        ({
            let s = spec_consolidate(t, last, input, offset);
            &&& offset <= s.0 <= offset + input.len()
            &&& (match s.1 {
                Some(rel) => relation_value(rel).1,
                None => Seq::empty(),
            }) + open_members(s.2) == open_members(last) + indexed(input.take(s.0 - offset), offset)
        }),
    decreases input.len(),
{
    crate::utils::lemma_consolidate_progress(t, last, input, offset);
    let s = spec_consolidate(t, last, input, offset);
    if input.len() == 0 {
        assert(indexed(input.take(s.0 - offset), offset) =~= Seq::<(usize, S)>::empty());
    } else {
        let x = input[0];
        let ar = (pair_of(x), seq![(offset as usize, x)]);
        let rest = input.drop_first();
        let off = offset + 1;
        assert(indexed(input.take(1), offset) =~= ar.1);
        match last {
            None => {
                lemma_consolidate_keeps_sources(t, Some(ar), rest, off);
                let k = (s.0 - off) as int;
                assert(indexed(input.take(s.0 - offset), offset) =~= ar.1 + indexed(rest.take(k), off));
            },
            Some(g) => {
                match spec_range_relation(t, g.0, ar.0) {
                    RangeRelation::Overlap(_) => {
                        let nr = spec_grow(t, g.0, ar.0);
                        let nl = g.1 + ar.1;
                        if !spec_valid(t, nr) {
                            assert(indexed(input.take(s.0 - offset), offset) =~= ar.1);
                            assert(nl + open_members(s.2) =~= g.1 + ar.1);
                        } else {
                            lemma_consolidate_keeps_sources(t, Some((nr, nl)), rest, off);
                            let k = (s.0 - off) as int;
                            assert(indexed(input.take(s.0 - offset), offset) =~= ar.1 + indexed(
                                rest.take(k),
                                off,
                            ));
                            assert(g.1 + (ar.1 + indexed(rest.take(k), off)) =~= nl + indexed(
                                rest.take(k),
                                off,
                            ));
                        }
                    },
                    _ => {
                        assert(indexed(input.take(s.0 - offset), offset) =~= ar.1);
                    },
                }
            },
        }
    }
}

/// **Consolidation loses and repeats no range.** The sources of all the groups that a run
/// of consolidation hands out, one group after the other, are those of the group it started
/// with open, followed by every range of the input, each with its position.
pub proof fn lemma_consolidation_run_keeps_sources<T, S: GetBeginEnd<T>, C: CpCmp<T>>(
    t: &C,
    last: Option<((T, T), Seq<(usize, S)>)>,
    input: Seq<S>,
    offset: nat,
)
    ensures
        run_members(consolidation_run(t, last, input, offset)) == open_members(last) + indexed(
            input,
            offset,
        ),
    decreases 2 * input.len() + (if last is Some {
        1int
    } else {
        0int
    }),
{
    crate::utils::lemma_consolidate_progress(t, last, input, offset);
    lemma_consolidate_keeps_sources(t, last, input, offset);
    let s = spec_consolidate(t, last, input, offset);
    let run = consolidation_run(t, last, input, offset);
    match s.1 {
        None => {
            assert(indexed(input, offset) =~= Seq::<(usize, S)>::empty());
            assert(open_members(last) =~= Seq::<(usize, S)>::empty());
        },
        Some(rel) => {
            let k = (s.0 - offset) as int;
            let rest = input.skip(k);
            lemma_consolidation_run_keeps_sources(t, s.2, rest, s.0);
            let tail = consolidation_run(t, s.2, rest, s.0);
            assert(run == seq![relation_value(rel)] + tail);
            assert(run.drop_first() =~= tail);
            assert(run[0] == relation_value(rel));
            assert(indexed(input, offset) =~= indexed(input.take(k), offset) + indexed(rest, s.0));
            assert(run_members(run) == relation_value(rel).1 + run_members(tail));
            let a = relation_value(rel).1;
            let b = open_members(s.2);
            let c = indexed(rest, s.0);
            assert(a + b == open_members(last) + indexed(input.take(k), offset));
            assert(a + (b + c) =~= (a + b) + c);
            assert((open_members(last) + indexed(input.take(k), offset)) + c =~= open_members(last) + (
            indexed(input.take(k), offset) + c));
            assert(a + (b + c) == open_members(last) + indexed(input, offset));
        },
    }
}

/// A segment of the forward chain is valid, and the one after it begins after it ends.
proof fn lemma_forward_chain_segment<T, V, C: IncDecCpCmp<T, V>>(t: &C, s: Seq<(T, T)>, step: V, k: nat)
    requires
        unit_step(t, step),
        forward_chain(t, s, step, k) is Some,
    ensures
        spec_valid(t, forward_chain(t, s, step, k).unwrap()),
        forward_chain(t, s, step, k + 1) matches Some(g) ==> t.spec_lt(
            forward_chain(t, s, step, k).unwrap().1,
            g.0,
        ),
{
    t.lemma_order();
    t.lemma_inc_dec();
    lemma_forward_chain_found(t, s, step, k);
    let f = forward_chain(t, s, step, k).unwrap();
    let p = choose|p: T|
        #[trigger] spec_next_range(t, p, s, step) == Some(f) && changes_before(t, s, step, p);
    lemma_next_range_skips_nothing(t, p, s, step);
    lemma_next_range_uniform(t, p, s, step);
    let r = choose|i: int|
        0 <= i < s.len() && spec_valid(t, #[trigger] s[i]) && spec_contains(t, s[i].0, s[i].1, f.0);
    assert(within(t, f, s[r]) || apart(t, f, s[r]));
    assert(t.spec_lt(f.0, f.1) || f.0 == f.1 || t.spec_lt(f.1, f.0));
    lemma_within_valid(t, f, s[r]);
    if let Some(g) = forward_chain(t, s, step, k + 1) {
        let x = t.spec_inc(f.1, step).unwrap();
        assert(t.spec_lt(f.1, x));
        lemma_next_range_skips_nothing(t, x, s, step);
        assert(g == spec_next_range(t, x, s, step).unwrap());
    }
}

/// Of two segments `a` before `m` of the forward chain, a forward step from the first with
/// the second as the backward one gives the segment after the first, and a backward step
/// from the second with the first as the forward one gives the segment before the second.
/// A step from a segment with itself on the other side gives nothing.
proof fn lemma_forward_chain_steps<T, V, C: IncDecCpCmp<T, V>>(
    t: &C,
    s: Seq<(T, T)>,
    step: V,
    a: nat,
    m: nat,
)
    requires
        unit_step(t, step),
        a <= m,
        forward_chain(t, s, step, m) is Some,
    ensures
        a < m ==> spec_try_next(
            t,
            s,
            step,
            forward_chain(t, s, step, a),
            forward_chain(t, s, step, m),
        ) == forward_chain(t, s, step, a + 1),
        a < m ==> spec_try_next_back(
            t,
            s,
            step,
            forward_chain(t, s, step, m),
            forward_chain(t, s, step, a),
        ) == forward_chain(t, s, step, (m - 1) as nat),
        a == m ==> spec_try_next(
            t,
            s,
            step,
            forward_chain(t, s, step, a),
            forward_chain(t, s, step, m),
        ) is None,
        a == m ==> spec_try_next_back(
            t,
            s,
            step,
            forward_chain(t, s, step, m),
            forward_chain(t, s, step, a),
        ) is None,
{
    t.lemma_order();
    t.lemma_inc_dec();
    lemma_forward_chain_some_before(t, s, step, a, m);
    lemma_forward_chain_segment(t, s, step, a);
    lemma_forward_chain_segment(t, s, step, m);
    let fa = forward_chain(t, s, step, a).unwrap();
    let fm = forward_chain(t, s, step, m).unwrap();
    if a < m {
        let p = (m - 1) as nat;
        lemma_forward_chain_some_before(t, s, step, p, m);
        lemma_forward_chain_segment(t, s, step, p);
        let fp = forward_chain(t, s, step, p).unwrap();
        assert(t.spec_lt(fp.1, fm.0));
        if a < p {
            lemma_forward_chain_ascending(t, s, step, a, p);
        }
        assert(t.spec_lt(fa.1, fm.0));
        assert(spec_range_relation(t, fa, fm) is Before);
        assert(spec_range_relation(t, fm, fa) is After);
        lemma_forward_chain_back_step(t, s, step, p);
        assert(p + 1 == m);
    } else {
        assert(spec_range_relation(t, fa, fa) is Overlap);
        let both = seq![fa, fa];
        if let Some(x) = t.spec_inc(fa.1, step) {
            assert(t.spec_lt(fa.1, x));
            lemma_next_range_skips_nothing(t, x, both, step);
            if let Some(seg) = spec_next_range(t, x, both, step) {
                let i = choose|i: int|
                    0 <= i < both.len() && spec_valid(t, #[trigger] both[i]) && spec_contains(
                        t,
                        both[i].0,
                        both[i].1,
                        seg.0,
                    );
                assert(both[i] == fa);
                assert(false);
            }
        }
        if let Some(y) = t.spec_dec(fa.0, step) {
            assert(t.spec_lt(y, fa.0));
            lemma_previous_range_skips_nothing(t, y, both, step);
            if let Some(seg) = spec_previous_range(t, y, both, step) {
                let i = choose|i: int|
                    0 <= i < both.len() && spec_valid(t, #[trigger] both[i]) && spec_contains(
                        t,
                        both[i].0,
                        both[i].1,
                        seg.1,
                    );
                assert(both[i] == fa);
                assert(false);
            }
        }
    }
}

/// Where a walk of `count` segments stands after `i` segments were handed out from the
/// front and `j` from the back, in any order, with `n` its next segment going forward and
/// `b` its next segment going backward. Segment `k` is the `k`-th of [forward_walk]; the
/// front hands out 0, 1, ... in turn and the back count - 1, count - 2, ...
///
/// - While the two ends have not met: `n` is segment `i` and `b` segment `count - 1 - j`.
/// - Once the front has handed out the segment where they meet: `n` is gone and `b` is still
///   that segment; likewise with the two ends swapped.
/// - At the end both are gone, and the segment where the ends met was handed out from both
///   of them: `i + j == count + 1` (or nothing was there to hand out).
pub open spec fn interleaved<T, V, C: IncDecCpCmp<T, V>>(
    t: &C,
    s: Seq<(T, T)>,
    step: V,
    count: nat,
    n: Option<(T, T)>,
    b: Option<(T, T)>,
    i: nat,
    j: nat,
) -> bool {
    ||| i + j < count && n == forward_walk(t, s, step, i) && b == forward_walk(
        t,
        s,
        step,
        (count - 1 - j) as nat,
    )
    ||| i + j == count && i >= 1 && n is None && b == forward_walk(t, s, step, (i - 1) as nat)
    ||| i + j == count && j >= 1 && n == forward_walk(t, s, step, (count - j) as nat) && b is None
    ||| n is None && b is None && (i + j == count + 1 || (count == 0 && i == 0 && j == 0))
}

/// **An interleaved walk starts with nothing handed out.** With a step between neighbours,
/// the reset state of a walk of exactly `count` segments (first and last segment pending)
/// is [interleaved] with none handed out.
pub proof fn lemma_interleaving_starts<T, V, C: IncDecCpCmp<T, V>>(t: &C, s: Seq<(T, T)>, step: V, count: nat)
    requires
        unit_step(t, step),
        forall|k: nat| k < count ==> #[trigger] forward_walk(t, s, step, k) is Some,
        forward_walk(t, s, step, count) is None,
    ensures
        interleaved(
            t,
            s,
            step,
            count,
            spec_first_range(t, s, step),
            spec_last_range(t, s, step),
            0,
            0,
        ),
{
    lemma_walk_backward_is_forward_reversed(t, s, step, count);
    lemma_walk_extent(t, s, step);
    if count == 0 {
        assert(forward_walk(t, s, step, 0) is None);
        assert(backward_walk(t, s, step, 0) is None);
    } else {
        assert(backward_walk(t, s, step, 0) == forward_walk(t, s, step, (count - 1) as nat));
    }
}

/// **A forward step of an interleaved walk.** With a step between neighbours, a forward
/// step (see [crate::OverlapIter::next]) from an [interleaved] state hands out segment `i`
/// when it hands out anything, and leaves an interleaved state with one more segment handed
/// out from the front; when it hands out nothing, nothing changes.
pub proof fn lemma_interleaving_next<T, V, C: IncDecCpCmp<T, V>>(
    t: &C,
    s: Seq<(T, T)>,
    step: V,
    count: nat,
    n: Option<(T, T)>,
    b: Option<(T, T)>,
    i: nat,
    j: nat,
)
    requires
        unit_step(t, step),
        forall|k: nat| k < count ==> #[trigger] forward_walk(t, s, step, k) is Some,
        forward_walk(t, s, step, count) is None,
        interleaved(t, s, step, count, n, b, i, j),
    ensures
        n is Some ==> n == forward_walk(t, s, step, i) && interleaved(
            t,
            s,
            step,
            count,
            spec_try_next(t, s, step, n, b),
            b,
            i + 1,
            j,
        ),
        n is None ==> spec_try_next(t, s, step, n, b) is None && interleaved(t, s, step, count, n, b, i, j),
{
    assert forall|k: nat| k <= count implies #[trigger] forward_walk(t, s, step, k) == forward_chain(t, s, step, k) by {
        lemma_forward_walk_is_chain(t, s, step, k);
    }
    if i + j < count {
        let m = (count - 1 - j) as nat;
        assert(forward_chain(t, s, step, m) is Some);
        lemma_forward_chain_steps(t, s, step, i, m);
        if i < m {
            assert(forward_walk(t, s, step, i + 1) == forward_chain(t, s, step, i + 1));
        }
    }
}

/// **A backward step of an interleaved walk.** With a step between neighbours, a backward
/// step (see [crate::OverlapIter::next_back]) from an [interleaved] state hands out segment
/// `count - 1 - j` when it hands out anything, and leaves an interleaved state with one
/// more segment handed out from the back; when it hands out nothing, nothing changes.
pub proof fn lemma_interleaving_next_back<T, V, C: IncDecCpCmp<T, V>>(
    t: &C,
    s: Seq<(T, T)>,
    step: V,
    count: nat,
    n: Option<(T, T)>,
    b: Option<(T, T)>,
    i: nat,
    j: nat,
)
    requires
        unit_step(t, step),
        forall|k: nat| k < count ==> #[trigger] forward_walk(t, s, step, k) is Some,
        forward_walk(t, s, step, count) is None,
        interleaved(t, s, step, count, n, b, i, j),
    ensures
        b is Some ==> b == forward_walk(t, s, step, (count - 1 - j) as nat) && interleaved(
            t,
            s,
            step,
            count,
            n,
            spec_try_next_back(t, s, step, b, n),
            i,
            j + 1,
        ),
        b is None ==> spec_try_next_back(t, s, step, b, n) is None && interleaved(t, s, step, count, n, b, i, j),
{
    assert forall|k: nat| k <= count implies #[trigger] forward_walk(t, s, step, k) == forward_chain(t, s, step, k) by {
        lemma_forward_walk_is_chain(t, s, step, k);
    }
    if i + j < count {
        let m = (count - 1 - j) as nat;
        assert(forward_chain(t, s, step, m) is Some);
        lemma_forward_chain_steps(t, s, step, i, m);
        if i < m {
            assert(forward_walk(t, s, step, (m - 1) as nat) == forward_chain(t, s, step, (m - 1) as nat));
            assert((count - 1 - (j + 1)) as nat == (m - 1) as nat);
        } else {
            assert((count - (j + 1)) as nat == i);
        }
    }
}

/// The valid pair `a` shares a value with the pair `b`.
pub open spec fn shares<T, C: CpCmp<T>>(t: &C, a: (T, T), b: (T, T)) -> bool {
    spec_valid(t, a) && !apart(t, a, b)
}

/// **What the positional check answers.** Of a range `a` checked against `b`: the first
/// answer is true exactly when `a` is valid and shares a value with `b`, in either order.
/// When `b` begins no later than it ends, the second answer (done) is true exactly when a
/// valid `a` reaches past the end of `b` (forward), or begins before `b` begins (reverse).
pub proof fn lemma_position_check_meaning<T, C: CpCmp<T>>(
    order: ConsolidationOrder,
    t: &C,
    a: (T, T),
    b: (T, T),
)
    ensures
        position_check(order, t, a, b).0 == shares(t, a, b),
        ordered(t, b) ==> position_check(order, t, a, b).1 == (spec_valid(t, a) && match order {
            ConsolidationOrder::Forward => t.spec_lt(b.1, a.1),
            ConsolidationOrder::Reverse => t.spec_lt(a.0, b.0),
        }),
{
    t.lemma_order();
    assert(t.spec_lt(a.0, a.1) || a.0 == a.1 || t.spec_lt(a.1, a.0));
    assert(t.spec_lt(b.0, b.1) || b.0 == b.1 || t.spec_lt(b.1, b.0));
    assert(t.spec_lt(a.1, b.1) || a.1 == b.1 || t.spec_lt(b.1, a.1));
    assert(t.spec_lt(a.0, b.0) || a.0 == b.0 || t.spec_lt(b.0, a.0));
    assert(t.spec_lt(a.1, b.0) || a.1 == b.0 || t.spec_lt(b.0, a.1));
    assert(t.spec_lt(b.1, a.0) || b.1 == a.0 || t.spec_lt(a.0, b.1));
}

/// The groups that [select_rows] picks for overlapping among the first `n` are exactly
/// those that share a value with `q`, in order.
pub proof fn lemma_select_rows_overlapping<T, S, C: CpCmp<T>>(
    order: ConsolidationOrder,
    t: &C,
    rows: Seq<((T, T), Seq<(usize, S)>)>,
    q: (T, T),
    n: nat,
)
    requires
        n <= rows.len(),
    ensures
        select_rows(order, t, rows, q, true, n) == rows.take(n as int).filter(
            |r: ((T, T), Seq<(usize, S)>)| shares(t, r.0, q),
        ),
    decreases n,
{
    let pred = |r: ((T, T), Seq<(usize, S)>)| shares(t, r.0, q);
    reveal(Seq::filter);
    if n == 0 {
        assert(rows.take(0) =~= Seq::<((T, T), Seq<(usize, S)>)>::empty());
    } else {
        lemma_select_rows_overlapping(order, t, rows, q, (n - 1) as nat);
        lemma_position_check_meaning(order, t, rows[n - 1].0, q);
        let tk = rows.take(n as int);
        assert(tk.drop_last() =~= rows.take(n - 1));
        assert(tk.last() == rows[n - 1]);
        assert(tk.filter(pred) == if pred(tk.last()) {
            tk.drop_last().filter(pred).push(tk.last())
        } else {
            tk.drop_last().filter(pred)
        });
    }
}

/// **A column reports every group it holds that overlaps the segment, and only those.**
/// What filtering a column for the segment `q` gives, when it gives groups (see
/// [crate::ColumnsIter::next]), is exactly the column's held groups that share a value with
/// `q`, in the order held.
pub proof fn lemma_filtered_reports_overlapping<
    T,
    R: GetBeginEnd<T>,
    S: GetBeginEnd<T>,
    F: GetBeginEndOption<T, R>,
    C: CpCmp<T>,
>(c: Column<T, R, S, F, C>, q: (T, T))
    ensures
        filtered(c, q) is Ok ==> filtered(c, q) == Ok::<Seq<((T, T), Seq<(usize, S)>)>, &'static str>(
            rows_view(c.rows()).filter(|r: ((T, T), Seq<(usize, S)>)| shares(&c.comparator(), r.0, q)),
        ),
{
    let rows = rows_view(c.rows());
    lemma_select_rows_overlapping(c.order(), &c.comparator(), rows, q, c.rows().len());
    assert(rows.take(c.rows().len() as int) =~= rows);
}

/// The group that consolidation hands out next from the open group `h` begins with the
/// sources of `h`.
proof fn lemma_consolidate_extends_open<T, S: GetBeginEnd<T>, C: CpCmp<T>>(
    t: &C,
    h: ((T, T), Seq<(usize, S)>),
    input: Seq<S>,
    offset: nat,
)
    ensures
        spec_consolidate(t, Some(h), input, offset).1 matches Some(rel) && relation_value(rel).1.len()
            >= h.1.len() && relation_value(rel).1.take(h.1.len() as int) == h.1,
    decreases input.len(),
{
    if input.len() == 0 {
        assert(h.1.take(h.1.len() as int) =~= h.1);
    } else {
        let x = input[0];
        let ar = (pair_of(x), seq![(offset as usize, x)]);
        let rest = input.drop_first();
        match spec_range_relation(t, h.0, ar.0) {
            RangeRelation::Overlap(_) => {
                let nr = spec_grow(t, h.0, ar.0);
                let nl = h.1 + ar.1;
                if spec_valid(t, nr) {
                    lemma_consolidate_extends_open(t, (nr, nl), rest, offset + 1);
                    let g = relation_value(spec_consolidate(t, Some((nr, nl)), rest, offset + 1).1.unwrap());
                    assert(g.1.take(nl.len() as int) == nl);
                    assert forall|i: int| 0 <= i < h.1.len() implies g.1[i] == h.1[i] by {
                        assert(g.1.take(nl.len() as int)[i] == nl[i]);
                    }
                    assert(g.1.take(h.1.len() as int) =~= h.1);
                }
                assert(nl.take(h.1.len() as int) =~= h.1);
            },
            _ => {
                assert(h.1.take(h.1.len() as int) =~= h.1);
            },
        }
    }
}

/// **A range that shares a value with the open group joins it.** When the open group's
/// range is valid and the next range shares a value with it, the group that consolidation
/// hands out next holds the open group's sources followed by that range.
pub proof fn lemma_consolidate_joins_overlapping<T, S: GetBeginEnd<T>, C: CpCmp<T>>(
    t: &C,
    g: ((T, T), Seq<(usize, S)>),
    input: Seq<S>,
    offset: nat,
)
    requires
        input.len() > 0,
        spec_valid(t, g.0),
        !apart(t, g.0, pair_of(input[0])),
    ensures
        spec_consolidate(t, Some(g), input, offset).1 matches Some(rel) && relation_value(rel).1.take(
            g.1.len() + 1int,
        ) == g.1 + seq![(offset as usize, input[0])],
{
    let x = input[0];
    let ar = (pair_of(x), seq![(offset as usize, x)]);
    let rest = input.drop_first();
    assert(spec_range_relation(t, g.0, ar.0) is Overlap);
    let nr = spec_grow(t, g.0, ar.0);
    let nl = g.1 + ar.1;
    if spec_valid(t, nr) {
        lemma_consolidate_extends_open(t, (nr, nl), rest, offset + 1);
    } else {
        assert(nl.take(nl.len() as int) =~= nl);
    }
}

/// **A group is handed out before or after the next range only when they share no value.**
/// When consolidation hands out a group as lying before or after the range that follows it,
/// that range alone is left open, and the two share no value.
pub proof fn lemma_consolidate_splits_apart<T, S: GetBeginEnd<T>, C: CpCmp<T>>(
    t: &C,
    last: Option<((T, T), Seq<(usize, S)>)>,
    input: Seq<S>,
    offset: nat,
)
    ensures
        ({
            let s = spec_consolidate(t, last, input, offset);
            match s.1 {
                Some(rel) => (rel is Before || rel is After) ==> (s.2 matches Some(h) && h.1.len() == 1
                    && apart(t, relation_value(rel).0, h.0)),
                None => true,
            }
        }),
    decreases input.len(),
{
    if input.len() > 0 {
        let x = input[0];
        let ar = (pair_of(x), seq![(offset as usize, x)]);
        let rest = input.drop_first();
        match last {
            None => {
                lemma_consolidate_splits_apart(t, Some(ar), rest, offset + 1);
            },
            Some(g) => {
                match spec_range_relation(t, g.0, ar.0) {
                    RangeRelation::Overlap(_) => {
                        let nr = spec_grow(t, g.0, ar.0);
                        let nl = g.1 + ar.1;
                        if spec_valid(t, nr) {
                            lemma_consolidate_splits_apart(t, Some((nr, nl)), rest, offset + 1);
                        }
                    },
                    _ => {},
                }
            },
        }
    }
}

/// **The order check reports exactly the groups out of order.** A checked step hands out
/// nothing exactly when consolidation hands out nothing. When consolidation hands out a
/// group, the checked step reports an error exactly when the group is invalid, lies after
/// the range that follows it in the forward order, or lies before it in the reverse order;
/// the error's group begins with that group's sources. Otherwise it hands out the group as is.
pub proof fn lemma_checked_step_reports<T, S: GetBeginEnd<T>, C: CpCmp<T>>(
    order: ConsolidationOrder,
    t: &C,
    last: Option<((T, T), Seq<(usize, S)>)>,
    input: Seq<S>,
    pos: nat,
)
    ensures
        ({
            let s1 = spec_consolidate(t, last, input, pos);
            let c = checked_step(order, t, last, input, pos);
            &&& s1.1 is None <==> c.0 is None
            &&& s1.1 matches Some(rel) ==> {
                let bad = rel is Invalid || (order is Forward && rel is After) || (order is Reverse
                    && rel is Before);
                &&& bad ==> (c.0 matches Some(Err(e)) && e.1.1.take(relation_value(rel).1.len() as int)
                    == relation_value(rel).1)
                &&& !bad ==> c.0 == Some(
                    Ok::<((T, T), Seq<(usize, S)>), (&'static str, ((T, T), Seq<(usize, S)>))>(
                        relation_value(rel),
                    ),
                )
            }
        }),
{
    let s1 = spec_consolidate(t, last, input, pos);
    if let Some(rel) = s1.1 {
        let g1 = relation_value(rel);
        assert(g1.1.take(g1.1.len() as int) =~= g1.1);
        let in1 = input.skip(s1.0 - pos);
        let s2 = spec_consolidate(t, s1.2, in1, s1.0);
        if let Some(rel2) = s2.1 {
            let g2 = relation_value(rel2);
            assert((g1.1 + g2.1).take(g1.1.len() as int) =~= g1.1);
        }
    }
}

/// The default step of the `u8` comparator, 1, moves between neighbours.
pub proof fn lemma_unit_step_u8(t: &NumberIncDecCpCmp<u8>)
    ensures
        unit_step(t, 1u8),
{
}

/// The default step of the `u16` comparator, 1, moves between neighbours.
pub proof fn lemma_unit_step_u16(t: &NumberIncDecCpCmp<u16>)
    ensures
        unit_step(t, 1u16),
{
}

/// The default step of the `u32` comparator, 1, moves between neighbours.
pub proof fn lemma_unit_step_u32(t: &NumberIncDecCpCmp<u32>)
    ensures
        unit_step(t, 1u32),
{
}

/// The default step of the `u64` comparator, 1, moves between neighbours.
pub proof fn lemma_unit_step_u64(t: &NumberIncDecCpCmp<u64>)
    ensures
        unit_step(t, 1u64),
{
}

/// The default step of the `u128` comparator, 1, moves between neighbours.
pub proof fn lemma_unit_step_u128(t: &NumberIncDecCpCmp<u128>)
    ensures
        unit_step(t, 1u128),
{
}

/// The default step of the `usize` comparator, 1, moves between neighbours.
pub proof fn lemma_unit_step_usize(t: &NumberIncDecCpCmp<usize>)
    ensures
        unit_step(t, 1usize),
{
}

/// The default step of the `i8` comparator, 1, moves between neighbours.
pub proof fn lemma_unit_step_i8(t: &NumberIncDecCpCmp<i8>)
    ensures
        unit_step(t, 1i8),
{
}

/// The default step of the `i16` comparator, 1, moves between neighbours.
pub proof fn lemma_unit_step_i16(t: &NumberIncDecCpCmp<i16>)
    ensures
        unit_step(t, 1i16),
{
}

/// The default step of the `i32` comparator, 1, moves between neighbours.
pub proof fn lemma_unit_step_i32(t: &NumberIncDecCpCmp<i32>)
    ensures
        unit_step(t, 1i32),
{
}

/// The default step of the `i64` comparator, 1, moves between neighbours.
pub proof fn lemma_unit_step_i64(t: &NumberIncDecCpCmp<i64>)
    ensures
        unit_step(t, 1i64),
{
}

/// The default step of the `i128` comparator, 1, moves between neighbours.
pub proof fn lemma_unit_step_i128(t: &NumberIncDecCpCmp<i128>)
    ensures
        unit_step(t, 1i128),
{
}

/// The default step of the `isize` comparator, 1, moves between neighbours.
pub proof fn lemma_unit_step_isize(t: &NumberIncDecCpCmp<isize>)
    ensures
        unit_step(t, 1isize),
{
}

} // verus!
