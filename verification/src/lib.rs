//! Finds all common intersections of ranges of generic values, consolidates
//! overlapping ranges, and steps through columns of ranges together.
use vstd::prelude::*;

pub mod builder;
pub mod iter;
pub mod laws;
pub mod order;
pub mod types;
pub mod utils;

pub use crate::iter::consolidate::checker::column::columns::{Columns, ColumnsItem, ColumnsIter};
pub use crate::iter::consolidate::checker::column::Column;
pub use crate::iter::consolidate::checker::ConsolidateChecker;
pub use crate::iter::consolidate::{Consolidate, ConsolidationOrder};
pub use crate::iter::{Intersector, OverlapIter, OverlapIterWithOverlaps, OverlapsIter};
pub use crate::order::{sort_forward, sort_reverse};
pub use crate::types::{RangeAddSubValue, RangeValue, SafeIncDec};
pub use crate::utils::{
    bounds_to_values, consolidate, first_range_begin_end, grow, last_range_begin_end, min_max,
    next_range_begin_end, next_smallest_range, previous_range_begin_end, previous_smallest_range,
    range_bounds_to_values, range_relation, reduce_next, reduce_previous, retool_begin,
    retool_end, RangeRelation,
};

pub use crate::builder::{
    CpCmp, DefaultValues, GetBeginEndOption, IncDecCpCmp, MrsFactory, NumberIncDecCpCmp,
    RangeBound, RiFactory,
};

use std::ops::RangeInclusive;

verus! {

/// Trait used by internals to represent ranges.
pub trait GetBeginEnd<T>: Sized {
    /// The begin value of the range.
    spec fn spec_begin(&self) -> T;

    /// The end value of the range.
    spec fn spec_end(&self) -> T;

    /// Returns a borrowed instance of the begin value.
    fn get_begin(&self) -> (r: &T)
        ensures
            *r == self.spec_begin(),
    ;

    /// Returns a borrowed instance of the end value.
    fn get_end(&self) -> (r: &T)
        ensures
            *r == self.spec_end(),
    ;

    /// Returns a tuple containing (self.get_begin(), self.get_end()).
    fn to_tuple_ref(&self) -> (r: (&T, &T))
        ensures
            *r.0 == self.spec_begin(),
            *r.1 == self.spec_end(),
    {
        (self.get_begin(), self.get_end())
    }

    /// Consumes self and returns a tuple containing (begin, end).
    fn to_tuple(self) -> (r: (T, T))
        ensures
            r.0 == self.spec_begin(),
            r.1 == self.spec_end(),
    ;
}

/// The begin and end of a range as a pair.
pub open spec fn pair_of<T, R: GetBeginEnd<T>>(r: R) -> (T, T) {
    (r.spec_begin(), r.spec_end())
}

/// The begin and end pairs of a sequence of ranges.
pub open spec fn pairs_of<T, R: GetBeginEnd<T>>(s: Seq<R>) -> Seq<(T, T)> {
    s.map_values(|r: R| pair_of(r))
}

/// `s` with the element at index `i` replaced by `a`.
pub open spec fn replaced_at<A>(s: Seq<A>, i: usize, a: A) -> Seq<A> {
    s.update(i as int, a)
}

/// [Mrs] **Minimal Range Span**: the minimal struct to represent a range.
pub struct Mrs<T> {
    a: T,
    z: T,
}

impl<T> Mrs<T> {
    /// Constructs a new [Mrs] instance.
    pub fn new(a: T, z: T) -> (r: Self)
        ensures
            r.spec_begin() == a,
            r.spec_end() == z,
    {
        Self { a, z }
    }
}

/// The bound of a std range (`std::ops::Bound`), carried through as an opaque value.
#[verifier::external_type_specification]
#[verifier::external_body]
#[verifier::reject_recursive_types(T)]
pub struct ExBound<T>(std::ops::Bound<T>);

/// Builds the std bound `Bound::Included(v)`; the bound is opaque, so nothing is claimed
/// of it here.
#[verifier::external_body]
fn included<T>(v: T) -> std::ops::Bound<T> {
    std::ops::Bound::Included(v)
}

impl<T> std::ops::RangeBounds<T> for Mrs<T> {
    /// The begin value, included.
    fn start_bound(&self) -> std::ops::Bound<&T> {
        included(&self.a)
    }

    /// The end value, included.
    fn end_bound(&self) -> std::ops::Bound<&T> {
        included(&self.z)
    }
}

impl<T> From<Mrs<T>> for RangeInclusive<T> {
    /// The inclusive range from the begin to the end of `value`.
    fn from(value: Mrs<T>) -> (res: Self)
        ensures
            res@.start == value.spec_begin(),
            res@.end == value.spec_end(),
            !res@.exhausted,
    {
        let (a, z) = value.to_tuple();
        RangeInclusive::new(a, z)
    }
}

/// Two std ranges with the same bounds are not known to be equal values, so the
/// conversion's result is stated by the `ensures` of `from` above, over the range's view.
impl<T> vstd::std_specs::convert::FromSpecImpl<Mrs<T>> for RangeInclusive<T> {
    open spec fn obeys_from_spec() -> bool {
        false
    }

    open spec fn from_spec(v: Mrs<T>) -> RangeInclusive<T> {
        choose|r: RangeInclusive<T>|
            r@.start == v.spec_begin() && r@.end == v.spec_end() && !r@.exhausted
    }
}

impl<T> From<RangeInclusive<T>> for Mrs<T> {
    /// The span from the start to the end of `value`.
    fn from(value: RangeInclusive<T>) -> (res: Self)
        ensures
            res.spec_begin() == value@.start,
            res.spec_end() == value@.end,
    {
        let (a, z) = value.to_tuple();
        Mrs::new(a, z)
    }
}

impl<T> vstd::std_specs::convert::FromSpecImpl<RangeInclusive<T>> for Mrs<T> {
    open spec fn obeys_from_spec() -> bool {
        true
    }

    closed spec fn from_spec(v: RangeInclusive<T>) -> Mrs<T> {
        Mrs { a: v@.start, z: v@.end }
    }
}

impl<T> From<Mrs<T>> for (T, T) {
    /// The pair (begin, end) of `value`.
    fn from(value: Mrs<T>) -> (res: Self)
        ensures
            res == pair_of(value),
    {
        value.to_tuple()
    }
}

impl<T> vstd::std_specs::convert::FromSpecImpl<Mrs<T>> for (T, T) {
    open spec fn obeys_from_spec() -> bool {
        true
    }

    open spec fn from_spec(v: Mrs<T>) -> (T, T) {
        pair_of(v)
    }
}

impl<T> From<(T, T)> for Mrs<T> {
    /// The span from `value.0` to `value.1`.
    fn from(value: (T, T)) -> (res: Mrs<T>)
        ensures
            pair_of(res) == value,
    {
        Mrs::new(value.0, value.1)
    }
}

impl<T> vstd::std_specs::convert::FromSpecImpl<(T, T)> for Mrs<T> {
    open spec fn obeys_from_spec() -> bool {
        true
    }

    closed spec fn from_spec(v: (T, T)) -> Mrs<T> {
        Mrs { a: v.0, z: v.1 }
    }
}

impl<T> GetBeginEnd<T> for Mrs<T> {
    closed spec fn spec_begin(&self) -> T {
        self.a
    }

    closed spec fn spec_end(&self) -> T {
        self.z
    }

    fn get_begin(&self) -> &T {
        &self.a
    }

    fn get_end(&self) -> &T {
        &self.z
    }

    fn to_tuple(self) -> (T, T) {
        (self.a, self.z)
    }
}

/// Proxy data structure: a range read through a reference to another range.
pub struct MrsP<'r, T, R: GetBeginEnd<T>> {
    r: &'r R,
    _t: core::marker::PhantomData<T>,
}

impl<'r, T, R: GetBeginEnd<T>> MrsP<'r, T, R> {
    /// The range the proxy reads.
    pub closed spec fn target(&self) -> R {
        *self.r
    }

    /// Creates a new instance of [MrsP].
    pub fn new(r: &'r R) -> (res: Self)
        ensures
            res.target() == *r,
    {
        Self { r, _t: core::marker::PhantomData }
    }
}

impl<'r, T: Copy, R: GetBeginEnd<T>> GetBeginEnd<T> for MrsP<'r, T, R> {
    open spec fn spec_begin(&self) -> T {
        self.target().spec_begin()
    }

    open spec fn spec_end(&self) -> T {
        self.target().spec_end()
    }

    fn get_begin(&self) -> &T {
        self.r.get_begin()
    }

    fn get_end(&self) -> &T {
        self.r.get_end()
    }

    /// Copies the values the proxy points at.
    fn to_tuple(self) -> (T, T) {
        (*self.r.get_begin(), *self.r.get_end())
    }
}

/// `RangeInclusive::start` returns a reference to the lower bound the range holds, the
/// `start` of vstd's view of the range (which `RangeInclusive::new` sets). std calls the
/// value unspecified once the range has been iterated to exhaustion; the view then holds
/// whatever the range holds.
pub assume_specification<Idx>[ RangeInclusive::<Idx>::start ](r: &RangeInclusive<Idx>) -> (s: &Idx)
    ensures
        *s == r@.start,
;

/// `RangeInclusive::end` returns a reference to the upper bound the range holds, the `end`
/// of vstd's view of the range (which `RangeInclusive::new` sets), with the same caveat on
/// exhausted ranges as `start`.
pub assume_specification<Idx>[ RangeInclusive::<Idx>::end ](r: &RangeInclusive<Idx>) -> (s: &Idx)
    ensures
        *s == r@.end,
;

/// `RangeInclusive::into_inner` destructures the range into (lower bound, upper bound), the
/// `start` and `end` of vstd's view of the range.
pub assume_specification<Idx>[ RangeInclusive::<Idx>::into_inner ](r: RangeInclusive<Idx>) -> (s: (Idx, Idx))
    ensures
        s.0 == r@.start,
        s.1 == r@.end,
;

impl<T> GetBeginEnd<T> for RangeInclusive<T> {
    open spec fn spec_begin(&self) -> T {
        self@.start
    }

    open spec fn spec_end(&self) -> T {
        self@.end
    }

    fn get_begin(&self) -> &T {
        self.start()
    }

    fn get_end(&self) -> &T {
        self.end()
    }

    fn to_tuple(self) -> (T, T) {
        self.into_inner()
    }
}

/// An owned group of consolidated ranges: the hull range and the source ranges with their
/// positions in the input. It acts as a normal instance of [GetBeginEnd] for the hull.
pub struct ConsolidateMrsP<T, R: GetBeginEnd<T>, S: GetBeginEnd<T>> {
    r: R,
    src: Vec<(usize, S)>,
    _t: core::marker::PhantomData<T>,
}

impl<T, R: GetBeginEnd<T>, S: GetBeginEnd<T>> ConsolidateMrsP<T, R, S> {
    /// The hull range.
    pub closed spec fn hull(&self) -> R {
        self.r
    }

    /// The source ranges with their positions.
    pub closed spec fn sources(&self) -> Seq<(usize, S)> {
        self.src@
    }

    /// Wraps the group and makes it operate as if it is the range src.0.
    pub fn new(src: (R, Vec<(usize, S)>)) -> (res: Self)
        ensures
            res.hull() == src.0,
            res.sources() == src.1@,
    {
        Self { r: src.0, src: src.1, _t: core::marker::PhantomData }
    }

    /// Converts back to the group used to create this instance.
    pub fn as_src(self) -> (res: (R, Vec<(usize, S)>))
        ensures
            res.0 == self.hull(),
            res.1@ == self.sources(),
    {
        (self.r, self.src)
    }

    /// Returns a ref to the source ranges.
    pub fn src(&self) -> (res: &Vec<(usize, S)>)
        ensures
            res@ == self.sources(),
    {
        &self.src
    }
}

impl<T, R: GetBeginEnd<T>, S: GetBeginEnd<T>> std::ops::RangeBounds<T> for ConsolidateMrsP<
    T,
    R,
    S,
> {
    /// The begin value of the hull, included.
    fn start_bound(&self) -> std::ops::Bound<&T> {
        included(self.r.get_begin())
    }

    /// The end value of the hull, included.
    fn end_bound(&self) -> std::ops::Bound<&T> {
        included(self.r.get_end())
    }
}

impl<T, R: GetBeginEnd<T>, S: GetBeginEnd<T>> GetBeginEnd<T> for ConsolidateMrsP<T, R, S> {
    open spec fn spec_begin(&self) -> T {
        self.hull().spec_begin()
    }

    open spec fn spec_end(&self) -> T {
        self.hull().spec_end()
    }

    fn get_begin(&self) -> &T {
        self.r.get_begin()
    }

    fn get_end(&self) -> &T {
        self.r.get_end()
    }

    /// Drops the sources; consider [ConsolidateMrsP::as_src] instead.
    fn to_tuple(self) -> (T, T) {
        self.r.to_tuple()
    }
}

} // verus!
