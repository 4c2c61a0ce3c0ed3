use vstd::prelude::*;

use crate::builder::{CpCmp, GetBeginEndOption, IncDecCpCmp, RangeBound};
use crate::{pair_of, pairs_of, GetBeginEnd};

verus! {

/// This enum is used to represent positional relationships in 3 states
///  - before a range
///  - overlap with a range
///  - after a range
///
/// The additional states represent the end of the set and an invalid range.
pub enum RangeRelation<T> {
    /// Range a is before range b
    Before(T),
    /// Range a and b overlap
    Overlap(T),
    /// Range a is after range b
    After(T),
    /// Represents final set of data
    Last(T),
    /// Denotes a was not valid
    Invalid(T),
}

/// The value a relation carries.
pub open spec fn relation_value<T>(r: RangeRelation<T>) -> T {
    match r {
        RangeRelation::Before(v) => v,
        RangeRelation::Overlap(v) => v,
        RangeRelation::After(v) => v,
        RangeRelation::Last(v) => v,
        RangeRelation::Invalid(v) => v,
    }
}

impl<T> RangeRelation<T> {
    /// Unwraps the value.
    pub fn unwrap(self) -> (r: T)
        ensures
            r == relation_value(self),
    {
        match self {
            RangeRelation::After(v) => v,
            RangeRelation::Before(v) => v,
            RangeRelation::Last(v) => v,
            RangeRelation::Invalid(v) => v,
            RangeRelation::Overlap(v) => v,
        }
    }

    /// Unwraps the state of [RangeRelation::Invalid].
    pub fn invalid(self) -> (r: T)
        requires
            self is Invalid,
        ensures
            r == relation_value(self),
    {
        match self {
            RangeRelation::Invalid(data) => data,
            _ => { proof { assert(false); } unreached() },
        }
    }

    /// Unwraps the state of [RangeRelation::Last].
    pub fn last(self) -> (r: T)
        requires
            self is Last,
        ensures
            r == relation_value(self),
    {
        match self {
            RangeRelation::Last(data) => data,
            _ => { proof { assert(false); } unreached() },
        }
    }

    /// Unwraps the state of [RangeRelation::Before].
    pub fn before(self) -> (r: T)
        requires
            self is Before,
        ensures
            r == relation_value(self),
    {
        match self {
            RangeRelation::Before(data) => data,
            _ => { proof { assert(false); } unreached() },
        }
    }

    /// Unwraps the state of [RangeRelation::Overlap].
    pub fn overlap(self) -> (r: T)
        requires
            self is Overlap,
        ensures
            r == relation_value(self),
    {
        match self {
            RangeRelation::Overlap(data) => data,
            _ => { proof { assert(false); } unreached() },
        }
    }

    /// Unwraps the state of [RangeRelation::After].
    pub fn after(self) -> (r: T)
        requires
            self is After,
        ensures
            r == relation_value(self),
    {
        match self {
            RangeRelation::After(data) => data,
            _ => { proof { assert(false); } unreached() },
        }
    }

    /// Returns true if [RangeRelation::Last].
    pub fn is_last(&self) -> (r: bool)
        ensures
            r == self is Last,
    {
        match self {
            RangeRelation::Last(_) => true,
            _ => false,
        }
    }

    /// Returns true if [RangeRelation::Invalid].
    pub fn is_invalid(&self) -> (r: bool)
        ensures
            r == self is Invalid,
    {
        match self {
            RangeRelation::Invalid(_) => true,
            _ => false,
        }
    }

    /// Returns true if [RangeRelation::Overlap].
    pub fn is_overlap(&self) -> (r: bool)
        ensures
            r == self is Overlap,
    {
        match self {
            RangeRelation::Overlap(_) => true,
            _ => false,
        }
    }

    /// Returns true if [RangeRelation::Before].
    pub fn is_before(&self) -> (r: bool)
        ensures
            r == self is Before,
    {
        match self {
            RangeRelation::Before(_) => true,
            _ => false,
        }
    }

    /// Returns true if [RangeRelation::After].
    pub fn is_after(&self) -> (r: bool)
        ensures
            r == self is After,
    {
        match self {
            RangeRelation::After(_) => true,
            _ => false,
        }
    }
}

/// A range (a, z) is valid when a <= z and it lies within the comparator's min and max.
pub open spec fn spec_valid<T, C: CpCmp<T>>(t: &C, r: (T, T)) -> bool {
    !(t.spec_lt(r.1, r.0) || t.spec_lt(r.0, t.spec_min()) || t.spec_lt(t.spec_max(), r.1))
}

/// The span a..=b contains c.
pub open spec fn spec_contains<T, C: CpCmp<T>>(t: &C, a: T, b: T, c: T) -> bool {
    !(t.spec_lt(c, a) || t.spec_lt(b, c))
}

/// The spans a..=b and c..=d overlap.
pub open spec fn spec_overlap<T, C: CpCmp<T>>(t: &C, a: T, b: T, c: T, d: T) -> bool {
    spec_contains(t, a, b, c) || spec_contains(t, a, b, d) || spec_contains(t, c, d, a)
        || spec_contains(t, c, d, b)
}

/// The positional relationship of range a to range b.
pub open spec fn spec_range_relation<T, C: CpCmp<T>>(t: &C, a: (T, T), b: (T, T)) -> RangeRelation<
    (),
> {
    if !spec_valid(t, a) {
        RangeRelation::Invalid(())
    } else if t.spec_lt(a.1, b.0) {
        RangeRelation::Before(())
    } else if t.spec_lt(b.1, a.0) {
        RangeRelation::After(())
    } else {
        RangeRelation::Overlap(())
    }
}

/// Compares the positional relationship between a and b.
///
/// - [RangeRelation::Invalid] a was not a valid range.
/// - [RangeRelation::Before] a is before b.
/// - [RangeRelation::After] a is after b.
/// - [RangeRelation::Overlap] a and b overlap to some degree.
pub fn range_relation<T, R: GetBeginEnd<T>, N: GetBeginEnd<T>, C: CpCmp<T>>(
    a: &R,
    b: &N,
    t: &C,
) -> (r: RangeRelation<()>)
    ensures
        r == spec_range_relation(t, pair_of(*a), pair_of(*b)),
{
    if t.is_invalid_set(a.get_begin(), a.get_end()) {
        RangeRelation::Invalid(())
    } else if t.lt(a.get_end(), b.get_begin()) {
        RangeRelation::Before(())
    } else if t.lt(b.get_end(), a.get_begin()) {
        RangeRelation::After(())
    } else {
        RangeRelation::Overlap(())
    }
}

/// The smallest begin and the largest end of the valid ranges among the first n of s.
pub open spec fn spec_min_max<T, C: CpCmp<T>>(t: &C, s: Seq<(T, T)>, n: nat) -> Option<(T, T)>
    decreases n,
{
    if n == 0 {
        None
    } else {
        let prev = spec_min_max(t, s, (n - 1) as nat);
        let r = s[n - 1];
        if !spec_valid(t, r) {
            prev
        } else {
            match prev {
                None => Some(r),
                Some(p) => Some(
                    (
                        if t.spec_lt(r.0, p.0) {
                            r.0
                        } else {
                            p.0
                        },
                        if t.spec_lt(p.1, r.1) {
                            r.1
                        } else {
                            p.1
                        },
                    ),
                ),
            }
        }
    }
}

/// Returns the smallest begin and the largest end of the valid ranges of src,
/// or None when src holds no valid range.
pub fn min_max<'r, T, R: GetBeginEnd<T>, C: CpCmp<T>>(src: &'r [R], t: &C) -> (res: Option<
    (&'r T, &'r T),
>)
    ensures
        match res {
            Some(p) => spec_min_max(t, pairs_of(src@), src@.len()) == Some((*p.0, *p.1)),
            None => spec_min_max(t, pairs_of(src@), src@.len()) is None,
        },
{
    let mut check: Option<(&T, &T)> = None;
    let mut i: usize = 0;
    while i < src.len()
        invariant
            0 <= i <= src@.len(),
            match check {
                Some(p) => spec_min_max(t, pairs_of(src@), i as nat) == Some((*p.0, *p.1)),
                None => spec_min_max(t, pairs_of(src@), i as nat) is None,
            },
        decreases src@.len() - i,
    {
        let span = &src[i];
        if !t.is_invalid_set(span.get_begin(), span.get_end()) {
            let (start, finish) = span.to_tuple_ref();
            match check {
                Some((begin, end)) => {
                    let mut a = begin;
                    let mut z = end;
                    if t.lt(end, finish) {
                        z = finish;
                    }
                    if t.lt(start, begin) {
                        a = start;
                    }
                    check = Some((a, z));
                },
                None => {
                    check = Some((start, finish));
                },
            }
        }
        i = i + 1;
    }
    check
}

/// The end of the first segment of begin..=end: the least of `end` and, for every valid
/// range among the first n of s that overlaps begin..=end, its begin when that lies after
/// `begin` and its end otherwise.
pub open spec fn spec_reduce_next<T, C: CpCmp<T>>(t: &C, begin: T, end: T, s: Seq<(T, T)>, n: nat) -> T
    decreases n,
{
    if n == 0 {
        end
    } else {
        let acc = spec_reduce_next(t, begin, end, s, (n - 1) as nat);
        let r = s[n - 1];
        if spec_valid(t, r) && spec_overlap(t, begin, end, r.0, r.1) {
            let m = if t.spec_lt(begin, r.0) {
                r.0
            } else {
                r.1
            };
            if t.spec_lt(m, acc) {
                m
            } else {
                acc
            }
        } else {
            acc
        }
    }
}

/// The begin of the last segment of begin..=end: the greatest of `begin` and, for every
/// valid range among the first n of s that overlaps begin..=end, its end when that lies
/// before `end` and its begin otherwise.
pub open spec fn spec_reduce_previous<T, C: CpCmp<T>>(
    t: &C,
    begin: T,
    end: T,
    s: Seq<(T, T)>,
    n: nat,
) -> T
    decreases n,
{
    if n == 0 {
        begin
    } else {
        let acc = spec_reduce_previous(t, begin, end, s, (n - 1) as nat);
        let r = s[n - 1];
        if spec_valid(t, r) && spec_overlap(t, begin, end, r.0, r.1) {
            let m = if t.spec_lt(r.1, end) {
                r.1
            } else {
                r.0
            };
            if t.spec_lt(acc, m) {
                m
            } else {
                acc
            }
        } else {
            acc
        }
    }
}

/// The end `end` lowered to just before every valid range begin that lies in
/// (begin, end]: the least of `end` and the decrements by `step` of those begins.
pub open spec fn spec_retool_end<T, V, C: IncDecCpCmp<T, V>>(
    t: &C,
    begin: T,
    end: T,
    s: Seq<(T, T)>,
    step: V,
    n: nat,
) -> T
    decreases n,
{
    if n == 0 {
        end
    } else {
        let acc = spec_retool_end(t, begin, end, s, step, (n - 1) as nat);
        let r = s[n - 1];
        if spec_valid(t, r) && t.spec_lt(begin, r.0) && !t.spec_lt(end, r.0) {
            match t.spec_dec(r.0, step) {
                Some(d) => if t.spec_lt(d, acc) {
                    d
                } else {
                    acc
                },
                None => acc,
            }
        } else {
            acc
        }
    }
}

/// The begin `begin` raised to just after every valid range end that lies in
/// [begin, end): the greatest of `begin` and the increments by `step` of those ends.
pub open spec fn spec_retool_begin<T, V, C: IncDecCpCmp<T, V>>(
    t: &C,
    begin: T,
    end: T,
    s: Seq<(T, T)>,
    step: V,
    n: nat,
) -> T
    decreases n,
{
    if n == 0 {
        begin
    } else {
        let acc = spec_retool_begin(t, begin, end, s, step, (n - 1) as nat);
        let r = s[n - 1];
        if spec_valid(t, r) && !t.spec_lt(r.1, begin) && t.spec_lt(r.1, end) {
            match t.spec_inc(r.1, step) {
                Some(i) => if t.spec_lt(acc, i) {
                    i
                } else {
                    acc
                },
                None => acc,
            }
        } else {
            acc
        }
    }
}

/// Reduces begin..=end to its first segment: the end becomes the nearest begin or end of
/// a valid range of src that overlaps begin..=end (see [spec_reduce_next]).
pub fn reduce_next<T, C: CpCmp<T>, R: GetBeginEnd<T>>(begin: &T, end: &T, src: &[R], t: &C) -> (res: (
    T,
    T,
))
    ensures
        res.0 == *begin,
        res.1 == spec_reduce_next(t, *begin, *end, pairs_of(src@), src@.len()),
{
    let mut target = end;
    let mut i: usize = 0;
    while i < src.len()
        invariant
            0 <= i <= src@.len(),
            *target == spec_reduce_next(t, *begin, *end, pairs_of(src@), i as nat),
        decreases src@.len() - i,
    {
        let (start, finish) = src[i].to_tuple_ref();
        if !(t.is_invalid_set(start, finish) || !t.overlap(begin, end, start, finish)) {
            let mut m = finish;
            if t.lt(begin, start) {
                m = start;
            }
            if t.lt(m, target) {
                target = m;
            }
        }
        i = i + 1;
    }
    (t.cp(begin), t.cp(target))
}

/// Reduces begin..=end to its last segment: the begin becomes the nearest end or begin of
/// a valid range of src that overlaps begin..=end (see [spec_reduce_previous]).
pub fn reduce_previous<T, C: CpCmp<T>, R: GetBeginEnd<T>>(
    begin: &T,
    end: &T,
    src: &[R],
    t: &C,
) -> (res: (T, T))
    ensures
        res.0 == spec_reduce_previous(t, *begin, *end, pairs_of(src@), src@.len()),
        res.1 == *end,
{
    let mut target = begin;
    let mut i: usize = 0;
    while i < src.len()
        invariant
            0 <= i <= src@.len(),
            *target == spec_reduce_previous(t, *begin, *end, pairs_of(src@), i as nat),
        decreases src@.len() - i,
    {
        let (start, finish) = src[i].to_tuple_ref();
        if !(t.is_invalid_set(start, finish) || !t.overlap(begin, end, start, finish)) {
            let mut m = start;
            if t.lt(finish, end) {
                m = finish;
            }
            if t.lt(target, m) {
                target = m;
            }
        }
        i = i + 1;
    }
    (t.cp(target), t.cp(end))
}

/// Lowers the end of `src_range` to just before the begin of any valid range of `src`
/// that starts inside it after its begin.
pub fn retool_end<T, V, C: IncDecCpCmp<T, V>, R: GetBeginEnd<T>>(
    src_range: (T, T),
    src: &[R],
    step: &V,
    t: &C,
) -> (res: (T, T))
    ensures
        res.0 == src_range.0,
        res.1 == spec_retool_end(t, src_range.0, src_range.1, pairs_of(src@), *step, src@.len()),
{
    let (begin, end) = src_range;
    let mut target = t.cp(&end);
    let mut i: usize = 0;
    while i < src.len()
        invariant
            0 <= i <= src@.len(),
            target == spec_retool_end(t, begin, end, pairs_of(src@), *step, i as nat),
        decreases src@.len() - i,
    {
        let (start, finish) = src[i].to_tuple_ref();
        if !t.is_invalid_set(start, finish) && t.lt(&begin, start) && !t.lt(&end, start) {
            match t.dec(start, step) {
                Some(d) => {
                    if t.lt(&d, &target) {
                        target = d;
                    }
                },
                None => {},
            }
        }
        i = i + 1;
    }
    (begin, target)
}

/// Raises the begin of `src_range` to just after the end of any valid range of `src`
/// that ends inside it before its end.
pub fn retool_begin<T, V, C: IncDecCpCmp<T, V>, R: GetBeginEnd<T>>(
    src_range: (T, T),
    src: &[R],
    step: &V,
    t: &C,
) -> (res: (T, T))
    ensures
        res.0 == spec_retool_begin(t, src_range.0, src_range.1, pairs_of(src@), *step, src@.len()),
        res.1 == src_range.1,
{
    let (begin, end) = src_range;
    let mut target = t.cp(&begin);
    let mut i: usize = 0;
    while i < src.len()
        invariant
            0 <= i <= src@.len(),
            target == spec_retool_begin(t, begin, end, pairs_of(src@), *step, i as nat),
        decreases src@.len() - i,
    {
        let (start, finish) = src[i].to_tuple_ref();
        if !t.is_invalid_set(start, finish) && !t.lt(finish, &begin) && t.lt(finish, &end) {
            match t.inc(finish, step) {
                Some(x) => {
                    if t.lt(&target, &x) {
                        target = x;
                    }
                },
                None => {},
            }
        }
        i = i + 1;
    }
    (target, end)
}

/// The first segment of begin..=end with respect to the ranges of s.
pub open spec fn spec_next_smallest<T, V, C: IncDecCpCmp<T, V>>(
    t: &C,
    begin: T,
    end: T,
    s: Seq<(T, T)>,
    step: V,
) -> (T, T) {
    (
        begin,
        spec_retool_end(t, begin, spec_reduce_next(t, begin, end, s, s.len()), s, step, s.len()),
    )
}

/// The last segment of begin..=end with respect to the ranges of s.
pub open spec fn spec_previous_smallest<T, V, C: IncDecCpCmp<T, V>>(
    t: &C,
    begin: T,
    end: T,
    s: Seq<(T, T)>,
    step: V,
) -> (T, T) {
    (
        spec_retool_begin(t, spec_reduce_previous(t, begin, end, s, s.len()), end, s, step, s.len()),
        end,
    )
}

/// Finds the first segment of begin..=end: the range is first reduced by
/// [reduce_next] and its end is then lowered by [retool_end].
pub fn next_smallest_range<T, V, C: IncDecCpCmp<T, V>, R: GetBeginEnd<T>>(
    begin: &T,
    end: &T,
    src: &[R],
    step: &V,
    t: &C,
) -> (res: (T, T))
    ensures
        res == spec_next_smallest(t, *begin, *end, pairs_of(src@), *step),
{
    let reduced = reduce_next(begin, end, src, t);
    retool_end(reduced, src, step, t)
}

/// Finds the last segment of begin..=end: the range is first reduced by
/// [reduce_previous] and its begin is then raised by [retool_begin].
pub fn previous_smallest_range<T, V, C: IncDecCpCmp<T, V>, R: GetBeginEnd<T>>(
    begin: &T,
    end: &T,
    src: &[R],
    step: &V,
    t: &C,
) -> (res: (T, T))
    ensures
        res == spec_previous_smallest(t, *begin, *end, pairs_of(src@), *step),
{
    let reduced = reduce_previous(begin, end, src, t);
    retool_begin(reduced, src, step, t)
}

/// The first segment of the valid ranges of s, if there is one.
pub open spec fn spec_first_range<T, V, C: IncDecCpCmp<T, V>>(t: &C, s: Seq<(T, T)>, step: V) -> Option<
    (T, T),
> {
    match spec_min_max(t, s, s.len()) {
        Some(p) => Some(spec_next_smallest(t, p.0, p.1, s, step)),
        None => None,
    }
}

/// The last segment of the valid ranges of s, if there is one.
pub open spec fn spec_last_range<T, V, C: IncDecCpCmp<T, V>>(t: &C, s: Seq<(T, T)>, step: V) -> Option<
    (T, T),
> {
    match spec_min_max(t, s, s.len()) {
        Some(p) => Some(spec_previous_smallest(t, p.0, p.1, s, step)),
        None => None,
    }
}

/// Looks for the first most range, if found returns an Option<(T,T)>.
pub fn first_range_begin_end<T, V, C: IncDecCpCmp<T, V>, R: GetBeginEnd<T>>(
    src: &[R],
    step: &V,
    t: &C,
) -> (res: Option<(T, T)>)
    ensures
        res == spec_first_range(t, pairs_of(src@), *step),
{
    match min_max(src, t) {
        Some((begin, end)) => Some(next_smallest_range(begin, end, src, step, t)),
        None => None,
    }
}

/// Looks for the last most range, if found returns an Option<(T,T)>.
pub fn last_range_begin_end<T, V, C: IncDecCpCmp<T, V>, R: GetBeginEnd<T>>(
    src: &[R],
    step: &V,
    t: &C,
) -> (res: Option<(T, T)>)
    ensures
        res == spec_last_range(t, pairs_of(src@), *step),
{
    match min_max(src, t) {
        Some((begin, end)) => Some(previous_smallest_range(begin, end, src, step, t)),
        None => None,
    }
}

/// The least end of the valid ranges among the first n of s that contain `point`.
pub open spec fn spec_least_end_over<T, C: CpCmp<T>>(t: &C, point: T, s: Seq<(T, T)>, n: nat) -> Option<
    T,
>
    decreases n,
{
    if n == 0 {
        None
    } else {
        let prev = spec_least_end_over(t, point, s, (n - 1) as nat);
        let r = s[n - 1];
        if spec_valid(t, r) && spec_contains(t, r.0, r.1, point) {
            match prev {
                Some(e) => if t.spec_lt(r.1, e) {
                    Some(r.1)
                } else {
                    prev
                },
                None => Some(r.1),
            }
        } else {
            prev
        }
    }
}

/// The first of the valid ranges among the first n of s that begin after `point`
/// whose begin is least.
pub open spec fn spec_next_after<T, C: CpCmp<T>>(t: &C, point: T, s: Seq<(T, T)>, n: nat) -> Option<
    (T, T),
>
    decreases n,
{
    if n == 0 {
        None
    } else {
        let prev = spec_next_after(t, point, s, (n - 1) as nat);
        let r = s[n - 1];
        if spec_valid(t, r) && !spec_contains(t, r.0, r.1, point) && t.spec_lt(point, r.0) {
            match prev {
                Some(p) => if t.spec_lt(r.0, p.0) {
                    Some(r)
                } else {
                    prev
                },
                None => Some(r),
            }
        } else {
            prev
        }
    }
}

/// The segment that begins at `begin` when a valid range contains it, otherwise the
/// first segment of the nearest valid range that begins after it.
pub open spec fn spec_next_range<T, V, C: IncDecCpCmp<T, V>>(
    t: &C,
    begin: T,
    s: Seq<(T, T)>,
    step: V,
) -> Option<(T, T)> {
    match spec_least_end_over(t, begin, s, s.len()) {
        Some(e) => Some(spec_next_smallest(t, begin, e, s, step)),
        None => match spec_next_after(t, begin, s, s.len()) {
            Some(p) => Some(spec_next_smallest(t, p.0, p.1, s, step)),
            None => None,
        },
    }
}

/// Searches for the next smallest valid range of (T,T) that begins at `begin`.
/// If no range overlaps with `begin`, it finds the next smallest range after begin.
/// Returns None when no matches were found.
pub fn next_range_begin_end<T, V, C: IncDecCpCmp<T, V>, R: GetBeginEnd<T>>(
    begin: &T,
    src: &[R],
    step: &V,
    t: &C,
) -> (res: Option<(T, T)>)
    ensures
        res == spec_next_range(t, *begin, pairs_of(src@), *step),
{
    let mut target: Option<&T> = None;
    let mut alt: Option<(&T, &T)> = None;
    let mut i: usize = 0;
    while i < src.len()
        invariant
            0 <= i <= src@.len(),
            match target {
                Some(e) => spec_least_end_over(t, *begin, pairs_of(src@), i as nat) == Some(*e),
                None => spec_least_end_over(t, *begin, pairs_of(src@), i as nat) is None,
            },
            match alt {
                Some(p) => spec_next_after(t, *begin, pairs_of(src@), i as nat) == Some(
                    (*p.0, *p.1),
                ),
                None => spec_next_after(t, *begin, pairs_of(src@), i as nat) is None,
            },
        decreases src@.len() - i,
    {
        let (start, finish) = src[i].to_tuple_ref();
        if !t.is_invalid_set(start, finish) {
            if t.contains(start, finish, begin) {
                match target {
                    Some(e) => {
                        if t.lt(finish, e) {
                            target = Some(finish);
                        }
                    },
                    None => {
                        target = Some(finish);
                    },
                }
            } else if t.lt(begin, start) {
                match alt {
                    Some((b, _)) => {
                        if t.lt(start, b) {
                            alt = Some((start, finish));
                        }
                    },
                    None => {
                        alt = Some((start, finish));
                    },
                }
            }
        }
        i = i + 1;
    }
    match target {
        Some(end) => Some(next_smallest_range(begin, end, src, step, t)),
        None => match alt {
            Some((b, e)) => Some(next_smallest_range(b, e, src, step, t)),
            None => None,
        },
    }
}

/// The least begin of the valid ranges among the first n of s that contain `point`.
pub open spec fn spec_least_begin_over<T, C: CpCmp<T>>(t: &C, point: T, s: Seq<(T, T)>, n: nat) -> Option<
    T,
>
    decreases n,
{
    if n == 0 {
        None
    } else {
        let prev = spec_least_begin_over(t, point, s, (n - 1) as nat);
        let r = s[n - 1];
        if spec_valid(t, r) && spec_contains(t, r.0, r.1, point) {
            match prev {
                Some(b) => if t.spec_lt(r.0, b) {
                    Some(r.0)
                } else {
                    prev
                },
                None => Some(r.0),
            }
        } else {
            prev
        }
    }
}

/// The smallest begin and largest end of the valid ranges among the first n of s that end
/// before `point`.
pub open spec fn spec_hull_before<T, C: CpCmp<T>>(t: &C, point: T, s: Seq<(T, T)>, n: nat) -> Option<
    (T, T),
>
    decreases n,
{
    if n == 0 {
        None
    } else {
        let prev = spec_hull_before(t, point, s, (n - 1) as nat);
        let r = s[n - 1];
        if spec_valid(t, r) && !spec_contains(t, r.0, r.1, point) && t.spec_lt(r.1, point) {
            match prev {
                Some(p) => Some(
                    (
                        if t.spec_lt(r.0, p.0) {
                            r.0
                        } else {
                            p.0
                        },
                        if t.spec_lt(p.1, r.1) {
                            r.1
                        } else {
                            p.1
                        },
                    ),
                ),
                None => Some(r),
            }
        } else {
            prev
        }
    }
}

/// The segment that ends at `end` when a valid range contains it, otherwise the last
/// segment of the valid ranges that end before it.
pub open spec fn spec_previous_range<T, V, C: IncDecCpCmp<T, V>>(
    t: &C,
    end: T,
    s: Seq<(T, T)>,
    step: V,
) -> Option<(T, T)> {
    match spec_least_begin_over(t, end, s, s.len()) {
        Some(b) => Some(spec_previous_smallest(t, b, end, s, step)),
        None => match spec_hull_before(t, end, s, s.len()) {
            Some(p) => Some(spec_previous_smallest(t, p.0, p.1, s, step)),
            None => None,
        },
    }
}

/// Searches for the previous smallest valid range of (T,T) that ends at `end`.
/// If no range overlaps with end, it finds the previous smallest range before end.
/// Returns None when no matches were found.
pub fn previous_range_begin_end<T, V, C: IncDecCpCmp<T, V>, R: GetBeginEnd<T>>(
    end: &T,
    src: &[R],
    step: &V,
    t: &C,
) -> (res: Option<(T, T)>)
    ensures
        res == spec_previous_range(t, *end, pairs_of(src@), *step),
{
    let mut target: Option<&T> = None;
    let mut alt: Option<(&T, &T)> = None;
    let mut i: usize = 0;
    while i < src.len()
        invariant
            0 <= i <= src@.len(),
            match target {
                Some(b) => spec_least_begin_over(t, *end, pairs_of(src@), i as nat) == Some(*b),
                None => spec_least_begin_over(t, *end, pairs_of(src@), i as nat) is None,
            },
            match alt {
                Some(p) => spec_hull_before(t, *end, pairs_of(src@), i as nat) == Some(
                    (*p.0, *p.1),
                ),
                None => spec_hull_before(t, *end, pairs_of(src@), i as nat) is None,
            },
        decreases src@.len() - i,
    {
        let (start, finish) = src[i].to_tuple_ref();
        if !t.is_invalid_set(start, finish) {
            if t.contains(start, finish, end) {
                match target {
                    Some(b) => {
                        if t.lt(start, b) {
                            target = Some(start);
                        }
                    },
                    None => {
                        target = Some(start);
                    },
                }
            } else if t.lt(finish, end) {
                match alt {
                    Some((x, y)) => {
                        let mut a = x;
                        let mut z = y;
                        if t.lt(y, finish) {
                            z = finish;
                        }
                        if t.lt(start, a) {
                            a = start;
                        }
                        alt = Some((a, z));
                    },
                    None => {
                        alt = Some((start, finish));
                    },
                }
            }
        }
        i = i + 1;
    }
    match target {
        Some(begin) => Some(previous_smallest_range(begin, end, src, step, t)),
        None => match alt {
            Some((b, e)) => Some(previous_smallest_range(b, e, src, step, t)),
            None => None,
        },
    }
}

/// Builds the smallest range that holds both x and y.
pub fn grow<
    T,
    Q: GetBeginEnd<T>,
    R: GetBeginEnd<T>,
    S: GetBeginEnd<T>,
    C: CpCmp<T>,
    F: GetBeginEndOption<T, Q>,
>(x: &R, y: &S, t: &C, f: &F) -> (res: Q)
    ensures
        pair_of(res) == spec_grow(t, pair_of(*x), pair_of(*y)),
{
    let a = if t.lt(x.get_begin(), y.get_begin()) {
        t.cp(x.get_begin())
    } else {
        t.cp(y.get_begin())
    };
    let z = if t.lt(x.get_end(), y.get_end()) {
        t.cp(y.get_end())
    } else {
        t.cp(x.get_end())
    };
    f.new_range((a, z))
}

/// The smallest range that holds both x and y.
pub open spec fn spec_grow<T, C: CpCmp<T>>(t: &C, x: (T, T), y: (T, T)) -> (T, T) {
    (
        if t.spec_lt(x.0, y.0) {
            x.0
        } else {
            y.0
        },
        if t.spec_lt(x.1, y.1) {
            y.1
        } else {
            x.1
        },
    )
}

/// What the start bound becomes: unbounded is the minimum, included is kept and excluded
/// is incremented by `rebound`.
pub open spec fn spec_rebound_start<T, V, C: IncDecCpCmp<T, V>>(
    t: &C,
    start: RangeBound<&T>,
    rebound: V,
) -> Option<T> {
    match start {
        RangeBound::Included(b) => Some(*b),
        RangeBound::Excluded(b) => t.spec_inc(*b, rebound),
        RangeBound::Unbounded => Some(t.spec_min()),
    }
}

/// What the end bound becomes: unbounded is the maximum, included is kept and excluded
/// is decremented by `rebound`.
pub open spec fn spec_rebound_end<T, V, C: IncDecCpCmp<T, V>>(
    t: &C,
    end: RangeBound<&T>,
    rebound: V,
) -> Option<T> {
    match end {
        RangeBound::Included(e) => Some(*e),
        RangeBound::Excluded(e) => t.spec_dec(*e, rebound),
        RangeBound::Unbounded => Some(t.spec_max()),
    }
}

/// The values of a range given by its two bounds, when both convert and form a valid range.
pub open spec fn spec_bounds_to_values<T, V, C: IncDecCpCmp<T, V>>(
    t: &C,
    start: RangeBound<&T>,
    end: RangeBound<&T>,
    rebound: V,
) -> Option<(T, T)> {
    match (spec_rebound_start(t, start, rebound), spec_rebound_end(t, end, rebound)) {
        (Some(b), Some(e)) => if spec_valid(t, (b, e)) {
            Some((b, e))
        } else {
            None
        },
        _ => None,
    }
}

/// **Bounds to value Conversion**
///
/// For conversion of start values
///   - Unbounded becomes the comparator's minimum
///   - Included value is not changed
///   - Excluded value is incremented
///
/// For conversion of end values
///   - Unbounded becomes the comparator's maximum
///   - Included value is not changed
///   - Excluded value is decremented
///
/// Returns None when a conversion fails or the resulting range is invalid.
pub fn bounds_to_values<T, V, C: IncDecCpCmp<T, V>>(
    start: RangeBound<&T>,
    end: RangeBound<&T>,
    rebound: &V,
    t: &C,
) -> (res: Option<(T, T)>)
    ensures
        res == spec_bounds_to_values(t, start, end, *rebound),
{
    match t.rebound_start(start, rebound) {
        Some(begin) => match t.rebound_end(end, rebound) {
            Some(end) => {
                if t.is_invalid_set(&begin, &end) {
                    None
                } else {
                    Some((begin, end))
                }
            },
            None => None,
        },
        None => None,
    }
}

/// Reads the start bound of a std range (`RangeBounds::start_bound`), as the range's own
/// impl hands it out; nothing is claimed of it, since the impl may be any.
#[verifier::external_body]
fn start_bound_of<'a, T, B: std::ops::RangeBounds<T>>(range: &'a B) -> RangeBound<&'a T> {
    match range.start_bound() {
        std::ops::Bound::Included(v) => RangeBound::Included(v),
        std::ops::Bound::Excluded(v) => RangeBound::Excluded(v),
        std::ops::Bound::Unbounded => RangeBound::Unbounded,
    }
}

/// Reads the end bound of a std range (`RangeBounds::end_bound`), as the range's own impl
/// hands it out; nothing is claimed of it, since the impl may be any.
#[verifier::external_body]
fn end_bound_of<'a, T, B: std::ops::RangeBounds<T>>(range: &'a B) -> RangeBound<&'a T> {
    match range.end_bound() {
        std::ops::Bound::Included(v) => RangeBound::Included(v),
        std::ops::Bound::Excluded(v) => RangeBound::Excluded(v),
        std::ops::Bound::Unbounded => RangeBound::Unbounded,
    }
}

/// **Range to value Conversion**
///
/// Takes a std range and returns the values computed by [bounds_to_values] from its bounds.
/// The bounds are whatever the range's `RangeBounds` impl hands out.
pub fn range_bounds_to_values<T, V, B: std::ops::RangeBounds<T>, C: IncDecCpCmp<T, V>>(
    range: &B,
    rebound: &V,
    t: &C,
) -> (res: Option<(T, T)>)
    ensures
        exists|start: RangeBound<&T>, end: RangeBound<&T>|
            res == #[trigger] spec_bounds_to_values(t, start, end, *rebound),
{
    bounds_to_values(start_bound_of(range), end_bound_of(range), rebound, t)
}

/// A group of consolidated ranges seen through its hull's pair.
pub open spec fn group_view<T, R: GetBeginEnd<T>, S>(g: (R, Vec<(usize, S)>)) -> ((T, T), Seq<
    (usize, S),
>) {
    (pair_of(g.0), g.1@)
}

/// An optional group seen through its hull's pair.
pub open spec fn opt_group_view<T, R: GetBeginEnd<T>, S>(g: Option<(R, Vec<(usize, S)>)>) -> Option<
    ((T, T), Seq<(usize, S)>),
> {
    match g {
        Some(x) => Some(group_view(x)),
        None => None,
    }
}

/// A relation carrying a group seen through its hull's pair.
pub open spec fn rel_group_view<T, R: GetBeginEnd<T>, S>(
    r: RangeRelation<(R, Vec<(usize, S)>)>,
) -> RangeRelation<((T, T), Seq<(usize, S)>)> {
    match r {
        RangeRelation::Before(g) => RangeRelation::Before(group_view(g)),
        RangeRelation::Overlap(g) => RangeRelation::Overlap(group_view(g)),
        RangeRelation::After(g) => RangeRelation::After(group_view(g)),
        RangeRelation::Last(g) => RangeRelation::Last(group_view(g)),
        RangeRelation::Invalid(g) => RangeRelation::Invalid(group_view(g)),
    }
}

/// An optional relation carrying a group seen through its hull's pair.
pub open spec fn opt_rel_group_view<T, R: GetBeginEnd<T>, S>(
    r: Option<RangeRelation<(R, Vec<(usize, S)>)>>,
) -> Option<RangeRelation<((T, T), Seq<(usize, S)>)>> {
    match r {
        Some(x) => Some(rel_group_view(x)),
        None => None,
    }
}

/// One call of consolidation: with the open group `last`, reading `input` whose first item
/// has position `offset`, the result is (the position after the last item read, the group
/// that is finished and how it relates to what follows, the group left open).
///
/// Items are read one at a time. An item that overlaps the open group joins it and the
/// hull grows; when the grown hull is invalid it is handed out as invalid and nothing
/// stays open. An item before or after the open group, or one following an invalid group,
/// closes that group, which is handed out as before, after or invalid, and the item opens a
/// new group. When the input ends, the open group is handed out as the last one.
pub open spec fn spec_consolidate<T, S: GetBeginEnd<T>, C: CpCmp<T>>(
    t: &C,
    last: Option<((T, T), Seq<(usize, S)>)>,
    input: Seq<S>,
    offset: nat,
) -> (nat, Option<RangeRelation<((T, T), Seq<(usize, S)>)>>, Option<((T, T), Seq<(usize, S)>)>)
    decreases input.len(),
{
    if input.len() == 0 {
        match last {
            Some(g) => (offset, Some(RangeRelation::Last(g)), None),
            None => (offset, None, None),
        }
    } else {
        let x = input[0];
        let ar = (pair_of(x), seq![(offset as usize, x)]);
        let off = offset + 1;
        match last {
            None => spec_consolidate(t, Some(ar), input.drop_first(), off),
            Some(g) => match spec_range_relation(t, g.0, ar.0) {
                RangeRelation::Overlap(_) => {
                    let nr = spec_grow(t, g.0, ar.0);
                    let nl = g.1 + ar.1;
                    if !spec_valid(t, nr) {
                        (off, Some(RangeRelation::Invalid((nr, nl))), None)
                    } else {
                        spec_consolidate(t, Some((nr, nl)), input.drop_first(), off)
                    }
                },
                RangeRelation::Before(_) => (off, Some(RangeRelation::Before(g)), Some(ar)),
                RangeRelation::After(_) => (off, Some(RangeRelation::After(g)), Some(ar)),
                _ => (off, Some(RangeRelation::Invalid(g)), Some(ar)),
            },
        }
    }
}

/// Consolidates duplicate and overlapping ranges read from the front of `iter`
/// (see [spec_consolidate]). `offset` is the position of the first item of `iter`;
/// the position after the last item read is returned with the finished group.
pub fn consolidate<
    T,
    R: GetBeginEnd<T>,
    S: GetBeginEnd<T>,
    C: CpCmp<T>,
    F: GetBeginEndOption<T, R>,
>(
    last: &mut Option<(R, Vec<(usize, S)>)>,
    iter: &mut Vec<S>,
    t: &C,
    f: &F,
    offset: usize,
) -> (res: (usize, Option<RangeRelation<(R, Vec<(usize, S)>)>>))
    requires
        offset + old(iter)@.len() <= usize::MAX,
    ensures
        ({
            let s = spec_consolidate(t, opt_group_view(*old(last)), old(iter)@, offset as nat);
            &&& res.0 as nat == s.0
            &&& opt_rel_group_view(res.1) == s.1
            &&& opt_group_view(*final(last)) == s.2
            &&& offset <= res.0
            &&& final(iter)@ == old(iter)@.skip(res.0 - offset)
        }),
{
    let ghost whole = spec_consolidate(t, opt_group_view(*last), iter@, offset as nat);
    let ghost input = iter@;
    let mut pos = offset;
    let ghost start = offset;
    while iter.len() > 0
        invariant
            whole == spec_consolidate(t, opt_group_view(*old(last)), old(iter)@, offset as nat),
            start == offset,
            input == old(iter)@,
            start <= pos,
            pos - start <= input.len(),
            pos + iter@.len() <= usize::MAX,
            iter@ == input.skip(pos - start),
            spec_consolidate(t, opt_group_view(*last), iter@, pos as nat) == whole,
        decreases iter@.len(),
    {
        let ghost before = iter@;
        let ghost lv = opt_group_view(*last);
        let range = iter.remove(0);
        assert(before.remove(0) =~= before.drop_first());
        assert(input.skip(pos + 1 - start) =~= before.drop_first()) by {
            assert forall|j: int| 0 <= j < before.len() - 1 implies input.skip(pos + 1 - start)[j]
                == before.drop_first()[j] by {
                assert(before[j + 1] == input[pos - start + j + 1]);
            }
        }
        let hull = f.new_range(t.cp_tpl_ref(range.to_tuple_ref()));
        let mut ar = (hull, vec![(pos, range)]);
        assert(group_view(ar) == (pair_of(range), seq![(pos as usize, range)]));
        pos = pos + 1;
        match last.take() {
            Some((src, mut list)) => {
                match range_relation(&src, &ar.0, t) {
                    RangeRelation::Overlap(_) => {
                        let nr = grow(&src, &ar.0, t, f);
                        list.append(&mut ar.1);
                        if t.is_invalid_set(nr.get_begin(), nr.get_end()) {
                            assert(list@ == lv.unwrap().1 + seq![((pos - 1) as usize, range)]);
                            *last = None;
                            return (pos, Some(RangeRelation::Invalid((nr, list))));
                        } else {
                            *last = Some((nr, list));
                        }
                    },
                    RangeRelation::Before(_) => {
                        *last = Some(ar);
                        return (pos, Some(RangeRelation::Before((src, list))));
                    },
                    RangeRelation::After(_) => {
                        *last = Some(ar);
                        return (pos, Some(RangeRelation::After((src, list))));
                    },
                    _ => {
                        *last = Some(ar);
                        return (pos, Some(RangeRelation::Invalid((src, list))));
                    },
                }
            },
            None => {
                *last = Some(ar);
            },
        }
    }
    match last.take() {
        Some(g) => (pos, Some(RangeRelation::Last(g))),
        None => (pos, None),
    }
}

/// A consolidation step reads at most what is left, and whenever it hands out a group
/// it makes progress: two per range read, minus one for a group left open, plus one for a
/// group that was open.
pub proof fn lemma_consolidate_progress<T, S: GetBeginEnd<T>, C: CpCmp<T>>(
    t: &C,
    last: Option<((T, T), Seq<(usize, S)>)>,
    input: Seq<S>,
    offset: nat,
)
    ensures
        ({
            let s = spec_consolidate(t, last, input, offset);
            &&& offset <= s.0 <= offset + input.len()
            &&& s.1 is None ==> input.len() == 0 && last is None && s.2 is None && s.0 == offset
            &&& s.1 is Some ==> 2 * (input.len() - (s.0 - offset)) + (if s.2 is Some {
                1int
            } else {
                0int
            }) < 2 * input.len() + (if last is Some {
                1int
            } else {
                0int
            })
        }),
    decreases input.len(),
{
    if input.len() > 0 {
        let x = input[0];
        let ar = (pair_of(x), seq![(offset as usize, x)]);
        match last {
            None => {
                lemma_consolidate_progress(t, Some(ar), input.drop_first(), offset + 1);
            },
            Some(g) => {
                let nr = spec_grow(t, g.0, ar.0);
                let nl = g.1 + ar.1;
                lemma_consolidate_progress(t, Some((nr, nl)), input.drop_first(), offset + 1);
            },
        }
    }
}

} // verus!
