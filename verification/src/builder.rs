use vstd::prelude::*;

use crate::{GetBeginEnd, Mrs};

verus! {

/// One end of a range as the caller wrote it: included, excluded, or open.
pub enum RangeBound<T> {
    /// The value belongs to the range.
    Included(T),
    /// The value is just outside the range.
    Excluded(T),
    /// The range is open on this side.
    Unbounded,
}

/// **Copy and Compare Values**
///
/// The proxy through which the crate copies and compares the values of its ranges.
/// An implementation defines `spec_lt`, the order its `lt` computes, and proves that this
/// order is a strict total order.
pub trait CpCmp<T>: Sized {
    /// The order the comparator implements.
    spec fn spec_lt(&self, a: T, b: T) -> bool;

    /// The smallest begin value accepted (used for an unbounded start).
    spec fn spec_min(&self) -> T;

    /// The largest end value accepted (used for an unbounded end).
    spec fn spec_max(&self) -> T;

    /// Every implementation proves that its order is a strict total order:
    /// irreflexive, transitive, and total on distinct values.
    proof fn lemma_order(&self)
        ensures
            forall|a: T| !#[trigger] self.spec_lt(a, a),
            forall|a: T, b: T, c: T|
                #[trigger] self.spec_lt(a, b) && #[trigger] self.spec_lt(b, c) ==> self.spec_lt(
                    a,
                    c,
                ),
            forall|a: T, b: T| #![trigger self.spec_lt(a, b)]
                self.spec_lt(a, b) || self.spec_lt(b, a) || a == b,
    ;

    /// Returns a copy of `v`.
    fn cp(&self, v: &T) -> (r: T)
        ensures
            r == *v,
    ;

    /// Returns a ref to the minimum value.
    fn min_ref(&self) -> (r: &T)
        ensures
            *r == self.spec_min(),
    ;

    /// Returns a ref to the maximum value.
    fn max_ref(&self) -> (r: &T)
        ensures
            *r == self.spec_max(),
    ;

    /// Returns true if a lt b.
    fn lt(&self, a: &T, b: &T) -> (r: bool)
        ensures
            r == self.spec_lt(*a, *b),
    ;

    /// Returns the minimum begin value accepted when converting from an unbounded start.
    fn min(&self) -> (r: T)
        ensures
            r == self.spec_min(),
    ;

    /// Returns the maximum end value accepted when converting from an unbounded end.
    fn max(&self) -> (r: T)
        ensures
            r == self.spec_max(),
    ;

    /// Returns true if a gt b.
    fn gt(&self, a: &T, b: &T) -> (r: bool)
        ensures
            r == self.spec_lt(*b, *a),
    {
        self.lt(b, a)
    }

    /// Returns true if a eq b.
    fn eq(&self, a: &T, b: &T) -> (r: bool)
        ensures
            r == (!self.spec_lt(*a, *b) && !self.spec_lt(*b, *a)),
    {
        !self.lt(a, b) && !self.lt(b, a)
    }

    /// Returns true if a ne b.
    fn ne(&self, a: &T, b: &T) -> (r: bool)
        ensures
            r == (self.spec_lt(*a, *b) || self.spec_lt(*b, *a)),
    {
        self.lt(a, b) || self.lt(b, a)
    }

    /// Returns true if a le b.
    fn le(&self, a: &T, b: &T) -> (r: bool)
        ensures
            r == (self.spec_lt(*a, *b) || !self.spec_lt(*b, *a)),
    {
        self.lt(a, b) || !self.lt(b, a)
    }

    /// Returns true if a ge b.
    fn ge(&self, a: &T, b: &T) -> (r: bool)
        ensures
            r == (self.spec_lt(*b, *a) || !self.spec_lt(*a, *b)),
    {
        self.lt(b, a) || !self.lt(a, b)
    }

    /// Returns true if the span a..=b contains c.
    fn contains(&self, a: &T, b: &T, c: &T) -> (r: bool)
        ensures
            r == !(self.spec_lt(*c, *a) || self.spec_lt(*b, *c)),
    {
        !(self.lt(c, a) || self.lt(b, c))
    }

    /// Returns a new owned copy of the input ref tuple.
    fn cp_tpl_ref(&self, src: (&T, &T)) -> (r: (T, T))
        ensures
            r.0 == *src.0,
            r.1 == *src.1,
    {
        (self.cp(src.0), self.cp(src.1))
    }

    /// Returns true if any of the following are true
    /// - a and b contain c
    /// - a and b contain d
    /// - c and d contain a
    /// - c and d contain b
    fn overlap(&self, a: &T, b: &T, c: &T, d: &T) -> (r: bool)
        ensures
            r == (!(self.spec_lt(*c, *a) || self.spec_lt(*b, *c)) || !(self.spec_lt(*d, *a)
                || self.spec_lt(*b, *d)) || !(self.spec_lt(*a, *c) || self.spec_lt(*d, *a))
                || !(self.spec_lt(*b, *c) || self.spec_lt(*d, *b))),
    {
        self.contains(a, b, c) || self.contains(a, b, d) || self.contains(c, d, a)
            || self.contains(c, d, b)
    }

    /// Returns true if b lt a or a lt self.min_ref() or self.max_ref() lt b.
    fn is_invalid_set(&self, a: &T, b: &T) -> (r: bool)
        ensures
            r == (self.spec_lt(*b, *a) || self.spec_lt(*a, self.spec_min()) || self.spec_lt(
                self.spec_max(),
                *b,
            )),
    {
        self.lt(b, a) || self.lt(a, self.min_ref()) || self.lt(self.max_ref(), b)
    }
}

/// **Increment, Decrement, Copy, Compare Values and Ranges**
///
/// An increment never lowers a value and a decrement never raises one: when the step
/// would not move the value in its direction the result is `None`.
pub trait IncDecCpCmp<T, V>: CpCmp<T> {
    /// What `inc` returns.
    spec fn spec_inc(&self, a: T, b: V) -> Option<T>;

    /// What `dec` returns.
    spec fn spec_dec(&self, a: T, b: V) -> Option<T>;

    /// An increment goes strictly up, a decrement strictly down.
    proof fn lemma_inc_dec(&self)
        ensures
            forall|a: T, b: V| #[trigger]
                self.spec_inc(a, b) matches Some(c) ==> self.spec_lt(a, c),
            forall|a: T, b: V| #[trigger]
                self.spec_dec(a, b) matches Some(c) ==> self.spec_lt(c, a),
    ;

    /// Safely increments a by b.
    fn inc(&self, a: &T, b: &V) -> (r: Option<T>)
        ensures
            r == self.spec_inc(*a, *b),
    ;

    /// Safely decrements a by b.
    fn dec(&self, a: &T, b: &V) -> (r: Option<T>)
        ensures
            r == self.spec_dec(*a, *b),
    ;

    /// Returns a copy of v.
    fn cp_v(&self, v: &V) -> (r: V)
        ensures
            r == *v,
    ;

    /// Returns the adjusted start value.
    ///   - Unbounded becomes self.min()
    ///   - Included value is not changed
    ///   - Excluded value is incremented
    fn rebound_start(&self, start: RangeBound<&T>, rebound: &V) -> (r: Option<T>)
        ensures
            r == match start {
                RangeBound::Included(b) => Some(*b),
                RangeBound::Excluded(b) => self.spec_inc(*b, *rebound),
                RangeBound::Unbounded => Some(self.spec_min()),
            },
    {
        match start {
            RangeBound::Included(begin) => Some(self.cp(begin)),
            RangeBound::Excluded(begin) => self.inc(begin, rebound),
            RangeBound::Unbounded => Some(self.min()),
        }
    }

    /// Returns the adjusted end value.
    ///   - Unbounded becomes self.max()
    ///   - Included value is not changed
    ///   - Excluded value is decremented
    fn rebound_end(&self, end: RangeBound<&T>, rebound: &V) -> (r: Option<T>)
        ensures
            r == match end {
                RangeBound::Included(e) => Some(*e),
                RangeBound::Excluded(e) => self.spec_dec(*e, *rebound),
                RangeBound::Unbounded => Some(self.spec_max()),
            },
    {
        match end {
            RangeBound::Included(end) => Some(self.cp(end)),
            RangeBound::Excluded(end) => self.dec(end, rebound),
            RangeBound::Unbounded => Some(self.max()),
        }
    }
}

/// **Default values**
pub trait DefaultValues<T, V>: IncDecCpCmp<T, V> {
    /// The default step.
    spec fn spec_default_step(&self) -> V;

    /// The default rebound.
    spec fn spec_default_rebound(&self) -> V;

    /// The default minimum.
    spec fn spec_default_min() -> T;

    /// The default maximum.
    spec fn spec_default_max() -> T;

    /// Returns the default value used for progressing a begin or end value of a range.
    fn default_step(&self) -> (r: V)
        ensures
            r == self.spec_default_step(),
    ;

    /// Returns the value used to adjust an excluded start or end value.
    fn default_rebound(&self) -> (r: V)
        ensures
            r == self.spec_default_rebound(),
    ;

    /// Returns the default minimum value.
    fn default_min() -> (r: T)
        ensures
            r == Self::spec_default_min(),
    ;

    /// Returns the default maximum value.
    fn default_max() -> (r: T)
        ensures
            r == Self::spec_default_max(),
    ;
}

/// This trait represents how range factories are to be implemented:
/// a factory builds a range with exactly the begin and end it is given.
pub trait GetBeginEndOption<T, R: GetBeginEnd<T>> {
    /// Builds a range from `opt` when it holds a value.
    fn factory(&self, opt: Option<(T, T)>) -> (r: Option<R>)
        ensures
            match opt {
                Some(p) => r matches Some(x) && x.spec_begin() == p.0 && x.spec_end() == p.1,
                None => r is None,
            },
    ;

    /// Builds a range from `src`.
    fn new_range(&self, src: (T, T)) -> (r: R)
        ensures
            r.spec_begin() == src.0,
            r.spec_end() == src.1,
    ;
}

/// The **Number Implementation** of [IncDecCpCmp].
///
/// Acts as the general proxy layer for safely working with primitive integer types.
/// Increments and decrements are checked.
#[derive(Clone, Copy, Debug)]
pub struct NumberIncDecCpCmp<T> {
    min: T,
    max: T,
}

impl<T: Copy> NumberIncDecCpCmp<T> {
    /// The minimum value.
    pub closed spec fn min_value(&self) -> T {
        self.min
    }

    /// The maximum value.
    pub closed spec fn max_value(&self) -> T {
        self.max
    }

    /// Constructs a comparator with the given minimum and maximum.
    pub fn new(min: T, max: T) -> (r: Self)
        ensures
            r.min_value() == min,
            r.max_value() == max,
    {
        Self { min, max }
    }

    /// Constructs a comparator with the type's default minimum and maximum.
    pub fn defaults() -> (r: Self) where Self: DefaultValues<T, T>
        ensures
            r.min_value() == Self::spec_default_min(),
            r.max_value() == Self::spec_default_max(),
    {
        Self::new(Self::default_min(), Self::default_max())
    }

    /// Sets the values returned by self.min() and self.min_ref().
    pub fn set_min(&mut self, v: T)
        ensures
            final(self).min_value() == v,
            final(self).max_value() == old(self).max_value(),
    {
        self.min = v;
    }

    /// Sets the values returned by self.max() and self.max_ref().
    pub fn set_max(&mut self, v: T)
        ensures
            final(self).max_value() == v,
            final(self).min_value() == old(self).min_value(),
    {
        self.max = v;
    }
}

/// This is the factory implementation of [GetBeginEndOption] for [Mrs].
pub struct MrsFactory<T> {
    _t: core::marker::PhantomData<T>,
}

/// This is the factory implementation of [GetBeginEndOption] for [std::ops::RangeInclusive].
pub struct RiFactory<T> {
    _t: core::marker::PhantomData<T>,
}

impl<T> RiFactory<T> {
    /// Constructs the factory.
    pub fn new() -> Self {
        Self { _t: core::marker::PhantomData }
    }
}

impl<T> MrsFactory<T> {
    /// Constructs the factory.
    pub fn new() -> Self {
        Self { _t: core::marker::PhantomData }
    }
}

impl<T> Clone for MrsFactory<T> {
    fn clone(&self) -> Self {
        Self::new()
    }
}

impl<T> Copy for MrsFactory<T> {

}

impl<T> Clone for RiFactory<T> {
    fn clone(&self) -> Self {
        Self::new()
    }
}

impl<T> Copy for RiFactory<T> {

}

impl<T> GetBeginEndOption<T, Mrs<T>> for MrsFactory<T> {
    fn new_range(&self, src: (T, T)) -> Mrs<T> {
        Mrs::new(src.0, src.1)
    }

    fn factory(&self, opt: Option<(T, T)>) -> Option<Mrs<T>> {
        match opt {
            Some((a, z)) => Some(Mrs::new(a, z)),
            None => None,
        }
    }
}

impl<T> GetBeginEndOption<T, std::ops::RangeInclusive<T>> for RiFactory<T> {
    fn new_range(&self, src: (T, T)) -> (r: std::ops::RangeInclusive<T>)
        ensures
            !r@.exhausted,
    {
        std::ops::RangeInclusive::new(src.0, src.1)
    }

    fn factory(&self, opt: Option<(T, T)>) -> (r: Option<std::ops::RangeInclusive<T>>)
        ensures
            r matches Some(x) ==> !x@.exhausted,
    {
        match opt {
            Some((a, z)) => Some(std::ops::RangeInclusive::new(a, z)),
            None => None,
        }
    }
}

impl CpCmp<u8> for NumberIncDecCpCmp<u8> {
    open spec fn spec_lt(&self, a: u8, b: u8) -> bool {
        a < b
    }

    open spec fn spec_min(&self) -> u8 {
        self.min_value()
    }

    open spec fn spec_max(&self) -> u8 {
        self.max_value()
    }

    proof fn lemma_order(&self) {
    }

    fn cp(&self, v: &u8) -> u8 {
        *v
    }

    fn min_ref(&self) -> &u8 {
        &self.min
    }

    fn max_ref(&self) -> &u8 {
        &self.max
    }

    fn lt(&self, a: &u8, b: &u8) -> bool {
        *a < *b
    }

    fn min(&self) -> u8 {
        self.min
    }

    fn max(&self) -> u8 {
        self.max
    }
}

impl IncDecCpCmp<u8, u8> for NumberIncDecCpCmp<u8> {
    open spec fn spec_inc(&self, a: u8, b: u8) -> Option<u8> {
        if b == 0 || a + b > u8::MAX {
            None
        } else {
            Some((a + b) as u8)
        }
    }

    open spec fn spec_dec(&self, a: u8, b: u8) -> Option<u8> {
        if b == 0 || a - b < u8::MIN {
            None
        } else {
            Some((a - b) as u8)
        }
    }

    proof fn lemma_inc_dec(&self) {
    }

    fn inc(&self, a: &u8, b: &u8) -> Option<u8> {
        if *b == 0 {
            return None;
        }
        a.checked_add(*b)
    }

    fn dec(&self, a: &u8, b: &u8) -> Option<u8> {
        if *b == 0 {
            return None;
        }
        a.checked_sub(*b)
    }

    fn cp_v(&self, v: &u8) -> u8 {
        *v
    }
}

impl DefaultValues<u8, u8> for NumberIncDecCpCmp<u8> {
    open spec fn spec_default_step(&self) -> u8 {
        1
    }

    open spec fn spec_default_rebound(&self) -> u8 {
        1
    }

    open spec fn spec_default_min() -> u8 {
        u8::MIN
    }

    open spec fn spec_default_max() -> u8 {
        u8::MAX
    }

    fn default_step(&self) -> u8 {
        1
    }

    fn default_rebound(&self) -> u8 {
        1
    }

    fn default_min() -> u8 {
        u8::MIN
    }

    fn default_max() -> u8 {
        u8::MAX
    }
}

impl CpCmp<u16> for NumberIncDecCpCmp<u16> {
    open spec fn spec_lt(&self, a: u16, b: u16) -> bool {
        a < b
    }

    open spec fn spec_min(&self) -> u16 {
        self.min_value()
    }

    open spec fn spec_max(&self) -> u16 {
        self.max_value()
    }

    proof fn lemma_order(&self) {
    }

    fn cp(&self, v: &u16) -> u16 {
        *v
    }

    fn min_ref(&self) -> &u16 {
        &self.min
    }

    fn max_ref(&self) -> &u16 {
        &self.max
    }

    fn lt(&self, a: &u16, b: &u16) -> bool {
        *a < *b
    }

    fn min(&self) -> u16 {
        self.min
    }

    fn max(&self) -> u16 {
        self.max
    }
}

impl IncDecCpCmp<u16, u16> for NumberIncDecCpCmp<u16> {
    open spec fn spec_inc(&self, a: u16, b: u16) -> Option<u16> {
        if b == 0 || a + b > u16::MAX {
            None
        } else {
            Some((a + b) as u16)
        }
    }

    open spec fn spec_dec(&self, a: u16, b: u16) -> Option<u16> {
        if b == 0 || a - b < u16::MIN {
            None
        } else {
            Some((a - b) as u16)
        }
    }

    proof fn lemma_inc_dec(&self) {
    }

    fn inc(&self, a: &u16, b: &u16) -> Option<u16> {
        if *b == 0 {
            return None;
        }
        a.checked_add(*b)
    }

    fn dec(&self, a: &u16, b: &u16) -> Option<u16> {
        if *b == 0 {
            return None;
        }
        a.checked_sub(*b)
    }

    fn cp_v(&self, v: &u16) -> u16 {
        *v
    }
}

impl DefaultValues<u16, u16> for NumberIncDecCpCmp<u16> {
    open spec fn spec_default_step(&self) -> u16 {
        1
    }

    open spec fn spec_default_rebound(&self) -> u16 {
        1
    }

    open spec fn spec_default_min() -> u16 {
        u16::MIN
    }

    open spec fn spec_default_max() -> u16 {
        u16::MAX
    }

    fn default_step(&self) -> u16 {
        1
    }

    fn default_rebound(&self) -> u16 {
        1
    }

    fn default_min() -> u16 {
        u16::MIN
    }

    fn default_max() -> u16 {
        u16::MAX
    }
}

impl CpCmp<u32> for NumberIncDecCpCmp<u32> {
    open spec fn spec_lt(&self, a: u32, b: u32) -> bool {
        a < b
    }

    open spec fn spec_min(&self) -> u32 {
        self.min_value()
    }

    open spec fn spec_max(&self) -> u32 {
        self.max_value()
    }

    proof fn lemma_order(&self) {
    }

    fn cp(&self, v: &u32) -> u32 {
        *v
    }

    fn min_ref(&self) -> &u32 {
        &self.min
    }

    fn max_ref(&self) -> &u32 {
        &self.max
    }

    fn lt(&self, a: &u32, b: &u32) -> bool {
        *a < *b
    }

    fn min(&self) -> u32 {
        self.min
    }

    fn max(&self) -> u32 {
        self.max
    }
}

impl IncDecCpCmp<u32, u32> for NumberIncDecCpCmp<u32> {
    open spec fn spec_inc(&self, a: u32, b: u32) -> Option<u32> {
        if b == 0 || a + b > u32::MAX {
            None
        } else {
            Some((a + b) as u32)
        }
    }

    open spec fn spec_dec(&self, a: u32, b: u32) -> Option<u32> {
        if b == 0 || a - b < u32::MIN {
            None
        } else {
            Some((a - b) as u32)
        }
    }

    proof fn lemma_inc_dec(&self) {
    }

    fn inc(&self, a: &u32, b: &u32) -> Option<u32> {
        if *b == 0 {
            return None;
        }
        a.checked_add(*b)
    }

    fn dec(&self, a: &u32, b: &u32) -> Option<u32> {
        if *b == 0 {
            return None;
        }
        a.checked_sub(*b)
    }

    fn cp_v(&self, v: &u32) -> u32 {
        *v
    }
}

impl DefaultValues<u32, u32> for NumberIncDecCpCmp<u32> {
    open spec fn spec_default_step(&self) -> u32 {
        1
    }

    open spec fn spec_default_rebound(&self) -> u32 {
        1
    }

    open spec fn spec_default_min() -> u32 {
        u32::MIN
    }

    open spec fn spec_default_max() -> u32 {
        u32::MAX
    }

    fn default_step(&self) -> u32 {
        1
    }

    fn default_rebound(&self) -> u32 {
        1
    }

    fn default_min() -> u32 {
        u32::MIN
    }

    fn default_max() -> u32 {
        u32::MAX
    }
}

impl CpCmp<u64> for NumberIncDecCpCmp<u64> {
    open spec fn spec_lt(&self, a: u64, b: u64) -> bool {
        a < b
    }

    open spec fn spec_min(&self) -> u64 {
        self.min_value()
    }

    open spec fn spec_max(&self) -> u64 {
        self.max_value()
    }

    proof fn lemma_order(&self) {
    }

    fn cp(&self, v: &u64) -> u64 {
        *v
    }

    fn min_ref(&self) -> &u64 {
        &self.min
    }

    fn max_ref(&self) -> &u64 {
        &self.max
    }

    fn lt(&self, a: &u64, b: &u64) -> bool {
        *a < *b
    }

    fn min(&self) -> u64 {
        self.min
    }

    fn max(&self) -> u64 {
        self.max
    }
}

impl IncDecCpCmp<u64, u64> for NumberIncDecCpCmp<u64> {
    open spec fn spec_inc(&self, a: u64, b: u64) -> Option<u64> {
        if b == 0 || a + b > u64::MAX {
            None
        } else {
            Some((a + b) as u64)
        }
    }

    open spec fn spec_dec(&self, a: u64, b: u64) -> Option<u64> {
        if b == 0 || a - b < u64::MIN {
            None
        } else {
            Some((a - b) as u64)
        }
    }

    proof fn lemma_inc_dec(&self) {
    }

    fn inc(&self, a: &u64, b: &u64) -> Option<u64> {
        if *b == 0 {
            return None;
        }
        a.checked_add(*b)
    }

    fn dec(&self, a: &u64, b: &u64) -> Option<u64> {
        if *b == 0 {
            return None;
        }
        a.checked_sub(*b)
    }

    fn cp_v(&self, v: &u64) -> u64 {
        *v
    }
}

impl DefaultValues<u64, u64> for NumberIncDecCpCmp<u64> {
    open spec fn spec_default_step(&self) -> u64 {
        1
    }

    open spec fn spec_default_rebound(&self) -> u64 {
        1
    }

    open spec fn spec_default_min() -> u64 {
        u64::MIN
    }

    open spec fn spec_default_max() -> u64 {
        u64::MAX
    }

    fn default_step(&self) -> u64 {
        1
    }

    fn default_rebound(&self) -> u64 {
        1
    }

    fn default_min() -> u64 {
        u64::MIN
    }

    fn default_max() -> u64 {
        u64::MAX
    }
}

impl CpCmp<u128> for NumberIncDecCpCmp<u128> {
    open spec fn spec_lt(&self, a: u128, b: u128) -> bool {
        a < b
    }

    open spec fn spec_min(&self) -> u128 {
        self.min_value()
    }

    open spec fn spec_max(&self) -> u128 {
        self.max_value()
    }

    proof fn lemma_order(&self) {
    }

    fn cp(&self, v: &u128) -> u128 {
        *v
    }

    fn min_ref(&self) -> &u128 {
        &self.min
    }

    fn max_ref(&self) -> &u128 {
        &self.max
    }

    fn lt(&self, a: &u128, b: &u128) -> bool {
        *a < *b
    }

    fn min(&self) -> u128 {
        self.min
    }

    fn max(&self) -> u128 {
        self.max
    }
}

impl IncDecCpCmp<u128, u128> for NumberIncDecCpCmp<u128> {
    open spec fn spec_inc(&self, a: u128, b: u128) -> Option<u128> {
        if b == 0 || a + b > u128::MAX {
            None
        } else {
            Some((a + b) as u128)
        }
    }

    open spec fn spec_dec(&self, a: u128, b: u128) -> Option<u128> {
        if b == 0 || a - b < u128::MIN {
            None
        } else {
            Some((a - b) as u128)
        }
    }

    proof fn lemma_inc_dec(&self) {
    }

    fn inc(&self, a: &u128, b: &u128) -> Option<u128> {
        if *b == 0 {
            return None;
        }
        a.checked_add(*b)
    }

    fn dec(&self, a: &u128, b: &u128) -> Option<u128> {
        if *b == 0 {
            return None;
        }
        a.checked_sub(*b)
    }

    fn cp_v(&self, v: &u128) -> u128 {
        *v
    }
}

impl DefaultValues<u128, u128> for NumberIncDecCpCmp<u128> {
    open spec fn spec_default_step(&self) -> u128 {
        1
    }

    open spec fn spec_default_rebound(&self) -> u128 {
        1
    }

    open spec fn spec_default_min() -> u128 {
        u128::MIN
    }

    open spec fn spec_default_max() -> u128 {
        u128::MAX
    }

    fn default_step(&self) -> u128 {
        1
    }

    fn default_rebound(&self) -> u128 {
        1
    }

    fn default_min() -> u128 {
        u128::MIN
    }

    fn default_max() -> u128 {
        u128::MAX
    }
}

impl CpCmp<usize> for NumberIncDecCpCmp<usize> {
    open spec fn spec_lt(&self, a: usize, b: usize) -> bool {
        a < b
    }

    open spec fn spec_min(&self) -> usize {
        self.min_value()
    }

    open spec fn spec_max(&self) -> usize {
        self.max_value()
    }

    proof fn lemma_order(&self) {
    }

    fn cp(&self, v: &usize) -> usize {
        *v
    }

    fn min_ref(&self) -> &usize {
        &self.min
    }

    fn max_ref(&self) -> &usize {
        &self.max
    }

    fn lt(&self, a: &usize, b: &usize) -> bool {
        *a < *b
    }

    fn min(&self) -> usize {
        self.min
    }

    fn max(&self) -> usize {
        self.max
    }
}

impl IncDecCpCmp<usize, usize> for NumberIncDecCpCmp<usize> {
    open spec fn spec_inc(&self, a: usize, b: usize) -> Option<usize> {
        if b == 0 || a + b > usize::MAX {
            None
        } else {
            Some((a + b) as usize)
        }
    }

    open spec fn spec_dec(&self, a: usize, b: usize) -> Option<usize> {
        if b == 0 || a - b < usize::MIN {
            None
        } else {
            Some((a - b) as usize)
        }
    }

    proof fn lemma_inc_dec(&self) {
    }

    fn inc(&self, a: &usize, b: &usize) -> Option<usize> {
        if *b == 0 {
            return None;
        }
        a.checked_add(*b)
    }

    fn dec(&self, a: &usize, b: &usize) -> Option<usize> {
        if *b == 0 {
            return None;
        }
        a.checked_sub(*b)
    }

    fn cp_v(&self, v: &usize) -> usize {
        *v
    }
}

impl DefaultValues<usize, usize> for NumberIncDecCpCmp<usize> {
    open spec fn spec_default_step(&self) -> usize {
        1
    }

    open spec fn spec_default_rebound(&self) -> usize {
        1
    }

    open spec fn spec_default_min() -> usize {
        usize::MIN
    }

    open spec fn spec_default_max() -> usize {
        usize::MAX
    }

    fn default_step(&self) -> usize {
        1
    }

    fn default_rebound(&self) -> usize {
        1
    }

    fn default_min() -> usize {
        usize::MIN
    }

    fn default_max() -> usize {
        usize::MAX
    }
}

impl CpCmp<i8> for NumberIncDecCpCmp<i8> {
    open spec fn spec_lt(&self, a: i8, b: i8) -> bool {
        a < b
    }

    open spec fn spec_min(&self) -> i8 {
        self.min_value()
    }

    open spec fn spec_max(&self) -> i8 {
        self.max_value()
    }

    proof fn lemma_order(&self) {
    }

    fn cp(&self, v: &i8) -> i8 {
        *v
    }

    fn min_ref(&self) -> &i8 {
        &self.min
    }

    fn max_ref(&self) -> &i8 {
        &self.max
    }

    fn lt(&self, a: &i8, b: &i8) -> bool {
        *a < *b
    }

    fn min(&self) -> i8 {
        self.min
    }

    fn max(&self) -> i8 {
        self.max
    }
}

impl IncDecCpCmp<i8, i8> for NumberIncDecCpCmp<i8> {
    open spec fn spec_inc(&self, a: i8, b: i8) -> Option<i8> {
        if b <= 0 || a + b > i8::MAX {
            None
        } else {
            Some((a + b) as i8)
        }
    }

    open spec fn spec_dec(&self, a: i8, b: i8) -> Option<i8> {
        if b <= 0 || a - b < i8::MIN {
            None
        } else {
            Some((a - b) as i8)
        }
    }

    proof fn lemma_inc_dec(&self) {
    }

    fn inc(&self, a: &i8, b: &i8) -> Option<i8> {
        if *b <= 0 {
            return None;
        }
        a.checked_add(*b)
    }

    fn dec(&self, a: &i8, b: &i8) -> Option<i8> {
        if *b <= 0 {
            return None;
        }
        a.checked_sub(*b)
    }

    fn cp_v(&self, v: &i8) -> i8 {
        *v
    }
}

impl DefaultValues<i8, i8> for NumberIncDecCpCmp<i8> {
    open spec fn spec_default_step(&self) -> i8 {
        1
    }

    open spec fn spec_default_rebound(&self) -> i8 {
        1
    }

    open spec fn spec_default_min() -> i8 {
        i8::MIN
    }

    open spec fn spec_default_max() -> i8 {
        i8::MAX
    }

    fn default_step(&self) -> i8 {
        1
    }

    fn default_rebound(&self) -> i8 {
        1
    }

    fn default_min() -> i8 {
        i8::MIN
    }

    fn default_max() -> i8 {
        i8::MAX
    }
}

impl CpCmp<i16> for NumberIncDecCpCmp<i16> {
    open spec fn spec_lt(&self, a: i16, b: i16) -> bool {
        a < b
    }

    open spec fn spec_min(&self) -> i16 {
        self.min_value()
    }

    open spec fn spec_max(&self) -> i16 {
        self.max_value()
    }

    proof fn lemma_order(&self) {
    }

    fn cp(&self, v: &i16) -> i16 {
        *v
    }

    fn min_ref(&self) -> &i16 {
        &self.min
    }

    fn max_ref(&self) -> &i16 {
        &self.max
    }

    fn lt(&self, a: &i16, b: &i16) -> bool {
        *a < *b
    }

    fn min(&self) -> i16 {
        self.min
    }

    fn max(&self) -> i16 {
        self.max
    }
}

impl IncDecCpCmp<i16, i16> for NumberIncDecCpCmp<i16> {
    open spec fn spec_inc(&self, a: i16, b: i16) -> Option<i16> {
        if b <= 0 || a + b > i16::MAX {
            None
        } else {
            Some((a + b) as i16)
        }
    }

    open spec fn spec_dec(&self, a: i16, b: i16) -> Option<i16> {
        if b <= 0 || a - b < i16::MIN {
            None
        } else {
            Some((a - b) as i16)
        }
    }

    proof fn lemma_inc_dec(&self) {
    }

    fn inc(&self, a: &i16, b: &i16) -> Option<i16> {
        if *b <= 0 {
            return None;
        }
        a.checked_add(*b)
    }

    fn dec(&self, a: &i16, b: &i16) -> Option<i16> {
        if *b <= 0 {
            return None;
        }
        a.checked_sub(*b)
    }

    fn cp_v(&self, v: &i16) -> i16 {
        *v
    }
}

impl DefaultValues<i16, i16> for NumberIncDecCpCmp<i16> {
    open spec fn spec_default_step(&self) -> i16 {
        1
    }

    open spec fn spec_default_rebound(&self) -> i16 {
        1
    }

    open spec fn spec_default_min() -> i16 {
        i16::MIN
    }

    open spec fn spec_default_max() -> i16 {
        i16::MAX
    }

    fn default_step(&self) -> i16 {
        1
    }

    fn default_rebound(&self) -> i16 {
        1
    }

    fn default_min() -> i16 {
        i16::MIN
    }

    fn default_max() -> i16 {
        i16::MAX
    }
}

impl CpCmp<i32> for NumberIncDecCpCmp<i32> {
    open spec fn spec_lt(&self, a: i32, b: i32) -> bool {
        a < b
    }

    open spec fn spec_min(&self) -> i32 {
        self.min_value()
    }

    open spec fn spec_max(&self) -> i32 {
        self.max_value()
    }

    proof fn lemma_order(&self) {
    }

    fn cp(&self, v: &i32) -> i32 {
        *v
    }

    fn min_ref(&self) -> &i32 {
        &self.min
    }

    fn max_ref(&self) -> &i32 {
        &self.max
    }

    fn lt(&self, a: &i32, b: &i32) -> bool {
        *a < *b
    }

    fn min(&self) -> i32 {
        self.min
    }

    fn max(&self) -> i32 {
        self.max
    }
}

impl IncDecCpCmp<i32, i32> for NumberIncDecCpCmp<i32> {
    open spec fn spec_inc(&self, a: i32, b: i32) -> Option<i32> {
        if b <= 0 || a + b > i32::MAX {
            None
        } else {
            Some((a + b) as i32)
        }
    }

    open spec fn spec_dec(&self, a: i32, b: i32) -> Option<i32> {
        if b <= 0 || a - b < i32::MIN {
            None
        } else {
            Some((a - b) as i32)
        }
    }

    proof fn lemma_inc_dec(&self) {
    }

    fn inc(&self, a: &i32, b: &i32) -> Option<i32> {
        if *b <= 0 {
            return None;
        }
        a.checked_add(*b)
    }

    fn dec(&self, a: &i32, b: &i32) -> Option<i32> {
        if *b <= 0 {
            return None;
        }
        a.checked_sub(*b)
    }

    fn cp_v(&self, v: &i32) -> i32 {
        *v
    }
}

impl DefaultValues<i32, i32> for NumberIncDecCpCmp<i32> {
    open spec fn spec_default_step(&self) -> i32 {
        1
    }

    open spec fn spec_default_rebound(&self) -> i32 {
        1
    }

    open spec fn spec_default_min() -> i32 {
        i32::MIN
    }

    open spec fn spec_default_max() -> i32 {
        i32::MAX
    }

    fn default_step(&self) -> i32 {
        1
    }

    fn default_rebound(&self) -> i32 {
        1
    }

    fn default_min() -> i32 {
        i32::MIN
    }

    fn default_max() -> i32 {
        i32::MAX
    }
}

impl CpCmp<i64> for NumberIncDecCpCmp<i64> {
    open spec fn spec_lt(&self, a: i64, b: i64) -> bool {
        a < b
    }

    open spec fn spec_min(&self) -> i64 {
        self.min_value()
    }

    open spec fn spec_max(&self) -> i64 {
        self.max_value()
    }

    proof fn lemma_order(&self) {
    }

    fn cp(&self, v: &i64) -> i64 {
        *v
    }

    fn min_ref(&self) -> &i64 {
        &self.min
    }

    fn max_ref(&self) -> &i64 {
        &self.max
    }

    fn lt(&self, a: &i64, b: &i64) -> bool {
        *a < *b
    }

    fn min(&self) -> i64 {
        self.min
    }

    fn max(&self) -> i64 {
        self.max
    }
}

impl IncDecCpCmp<i64, i64> for NumberIncDecCpCmp<i64> {
    open spec fn spec_inc(&self, a: i64, b: i64) -> Option<i64> {
        if b <= 0 || a + b > i64::MAX {
            None
        } else {
            Some((a + b) as i64)
        }
    }

    open spec fn spec_dec(&self, a: i64, b: i64) -> Option<i64> {
        if b <= 0 || a - b < i64::MIN {
            None
        } else {
            Some((a - b) as i64)
        }
    }

    proof fn lemma_inc_dec(&self) {
    }

    fn inc(&self, a: &i64, b: &i64) -> Option<i64> {
        if *b <= 0 {
            return None;
        }
        a.checked_add(*b)
    }

    fn dec(&self, a: &i64, b: &i64) -> Option<i64> {
        if *b <= 0 {
            return None;
        }
        a.checked_sub(*b)
    }

    fn cp_v(&self, v: &i64) -> i64 {
        *v
    }
}

impl DefaultValues<i64, i64> for NumberIncDecCpCmp<i64> {
    open spec fn spec_default_step(&self) -> i64 {
        1
    }

    open spec fn spec_default_rebound(&self) -> i64 {
        1
    }

    open spec fn spec_default_min() -> i64 {
        i64::MIN
    }

    open spec fn spec_default_max() -> i64 {
        i64::MAX
    }

    fn default_step(&self) -> i64 {
        1
    }

    fn default_rebound(&self) -> i64 {
        1
    }

    fn default_min() -> i64 {
        i64::MIN
    }

    fn default_max() -> i64 {
        i64::MAX
    }
}

impl CpCmp<i128> for NumberIncDecCpCmp<i128> {
    open spec fn spec_lt(&self, a: i128, b: i128) -> bool {
        a < b
    }

    open spec fn spec_min(&self) -> i128 {
        self.min_value()
    }

    open spec fn spec_max(&self) -> i128 {
        self.max_value()
    }

    proof fn lemma_order(&self) {
    }

    fn cp(&self, v: &i128) -> i128 {
        *v
    }

    fn min_ref(&self) -> &i128 {
        &self.min
    }

    fn max_ref(&self) -> &i128 {
        &self.max
    }

    fn lt(&self, a: &i128, b: &i128) -> bool {
        *a < *b
    }

    fn min(&self) -> i128 {
        self.min
    }

    fn max(&self) -> i128 {
        self.max
    }
}

impl IncDecCpCmp<i128, i128> for NumberIncDecCpCmp<i128> {
    open spec fn spec_inc(&self, a: i128, b: i128) -> Option<i128> {
        if b <= 0 || a + b > i128::MAX {
            None
        } else {
            Some((a + b) as i128)
        }
    }

    open spec fn spec_dec(&self, a: i128, b: i128) -> Option<i128> {
        if b <= 0 || a - b < i128::MIN {
            None
        } else {
            Some((a - b) as i128)
        }
    }

    proof fn lemma_inc_dec(&self) {
    }

    fn inc(&self, a: &i128, b: &i128) -> Option<i128> {
        if *b <= 0 {
            return None;
        }
        a.checked_add(*b)
    }

    fn dec(&self, a: &i128, b: &i128) -> Option<i128> {
        if *b <= 0 {
            return None;
        }
        a.checked_sub(*b)
    }

    fn cp_v(&self, v: &i128) -> i128 {
        *v
    }
}

impl DefaultValues<i128, i128> for NumberIncDecCpCmp<i128> {
    open spec fn spec_default_step(&self) -> i128 {
        1
    }

    open spec fn spec_default_rebound(&self) -> i128 {
        1
    }

    open spec fn spec_default_min() -> i128 {
        i128::MIN
    }

    open spec fn spec_default_max() -> i128 {
        i128::MAX
    }

    fn default_step(&self) -> i128 {
        1
    }

    fn default_rebound(&self) -> i128 {
        1
    }

    fn default_min() -> i128 {
        i128::MIN
    }

    fn default_max() -> i128 {
        i128::MAX
    }
}

impl CpCmp<isize> for NumberIncDecCpCmp<isize> {
    open spec fn spec_lt(&self, a: isize, b: isize) -> bool {
        a < b
    }

    open spec fn spec_min(&self) -> isize {
        self.min_value()
    }

    open spec fn spec_max(&self) -> isize {
        self.max_value()
    }

    proof fn lemma_order(&self) {
    }

    fn cp(&self, v: &isize) -> isize {
        *v
    }

    fn min_ref(&self) -> &isize {
        &self.min
    }

    fn max_ref(&self) -> &isize {
        &self.max
    }

    fn lt(&self, a: &isize, b: &isize) -> bool {
        *a < *b
    }

    fn min(&self) -> isize {
        self.min
    }

    fn max(&self) -> isize {
        self.max
    }
}

impl IncDecCpCmp<isize, isize> for NumberIncDecCpCmp<isize> {
    open spec fn spec_inc(&self, a: isize, b: isize) -> Option<isize> {
        if b <= 0 || a + b > isize::MAX {
            None
        } else {
            Some((a + b) as isize)
        }
    }

    open spec fn spec_dec(&self, a: isize, b: isize) -> Option<isize> {
        if b <= 0 || a - b < isize::MIN {
            None
        } else {
            Some((a - b) as isize)
        }
    }

    proof fn lemma_inc_dec(&self) {
    }

    fn inc(&self, a: &isize, b: &isize) -> Option<isize> {
        if *b <= 0 {
            return None;
        }
        a.checked_add(*b)
    }

    fn dec(&self, a: &isize, b: &isize) -> Option<isize> {
        if *b <= 0 {
            return None;
        }
        a.checked_sub(*b)
    }

    fn cp_v(&self, v: &isize) -> isize {
        *v
    }
}

impl DefaultValues<isize, isize> for NumberIncDecCpCmp<isize> {
    open spec fn spec_default_step(&self) -> isize {
        1
    }

    open spec fn spec_default_rebound(&self) -> isize {
        1
    }

    open spec fn spec_default_min() -> isize {
        isize::MIN
    }

    open spec fn spec_default_max() -> isize {
        isize::MAX
    }

    fn default_step(&self) -> isize {
        1
    }

    fn default_rebound(&self) -> isize {
        1
    }

    fn default_min() -> isize {
        isize::MIN
    }

    fn default_max() -> isize {
        isize::MAX
    }
}

} // verus!
