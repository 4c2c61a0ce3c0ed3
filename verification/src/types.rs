//! Checked stepping of values that always moves them in one direction.
use vstd::prelude::*;

verus! {

/// Trait representing incrementing or decrementing via a checked value: `checked_inc`
/// returns a value strictly above `self` or nothing, `checked_dec` a value strictly below
/// `self` or nothing. Overflow, and a step that would not move the value, give nothing.
///
/// The trait is implemented for the integer primitives; its order is then `<`.
pub trait SafeIncDec: Sized {
    /// The order in which `checked_inc` goes up and `checked_dec` goes down.
    spec fn spec_below(self, other: Self) -> bool;

    /// Should capture overflow; a returned value is above self.
    fn checked_inc(self, rhs: Self) -> (r: Option<Self>)
        ensures
            r matches Some(x) ==> self.spec_below(x),
    ;

    /// Should capture overflow; a returned value is below self.
    fn checked_dec(self, rhs: Self) -> (r: Option<Self>)
        ensures
            r matches Some(x) ==> x.spec_below(self),
    ;
}

/// The minimum constraint for value of a RangeSet.
pub trait RangeValue: Clone + PartialOrd {

}

impl<T: Clone + PartialOrd<Self>> RangeValue for T {

}

/// The minimum constraint for value of a RangeSet value that can be incremented or
/// decremented.
pub trait RangeAddSubValue: RangeValue + SafeIncDec {

}

impl<T: RangeValue + SafeIncDec> RangeAddSubValue for T {

}

impl SafeIncDec for u8 {
    open spec fn spec_below(self, other: Self) -> bool {
        self < other
    }

    fn checked_inc(self, rhs: Self) -> (r: Option<Self>)
        ensures
            r == if rhs == 0 || self + rhs > u8::MAX {
                None
            } else {
                Some((self + rhs) as u8)
            },
    {
        if rhs == 0 {
            return None;
        }
        self.checked_add(rhs)
    }

    fn checked_dec(self, rhs: Self) -> (r: Option<Self>)
        ensures
            r == if rhs == 0 || self - rhs < u8::MIN {
                None
            } else {
                Some((self - rhs) as u8)
            },
    {
        if rhs == 0 {
            return None;
        }
        self.checked_sub(rhs)
    }
}

impl SafeIncDec for u16 {
    open spec fn spec_below(self, other: Self) -> bool {
        self < other
    }

    fn checked_inc(self, rhs: Self) -> (r: Option<Self>)
        ensures
            r == if rhs == 0 || self + rhs > u16::MAX {
                None
            } else {
                Some((self + rhs) as u16)
            },
    {
        if rhs == 0 {
            return None;
        }
        self.checked_add(rhs)
    }

    fn checked_dec(self, rhs: Self) -> (r: Option<Self>)
        ensures
            r == if rhs == 0 || self - rhs < u16::MIN {
                None
            } else {
                Some((self - rhs) as u16)
            },
    {
        if rhs == 0 {
            return None;
        }
        self.checked_sub(rhs)
    }
}

impl SafeIncDec for u32 {
    open spec fn spec_below(self, other: Self) -> bool {
        self < other
    }

    fn checked_inc(self, rhs: Self) -> (r: Option<Self>)
        ensures
            r == if rhs == 0 || self + rhs > u32::MAX {
                None
            } else {
                Some((self + rhs) as u32)
            },
    {
        if rhs == 0 {
            return None;
        }
        self.checked_add(rhs)
    }

    fn checked_dec(self, rhs: Self) -> (r: Option<Self>)
        ensures
            r == if rhs == 0 || self - rhs < u32::MIN {
                None
            } else {
                Some((self - rhs) as u32)
            },
    {
        if rhs == 0 {
            return None;
        }
        self.checked_sub(rhs)
    }
}

impl SafeIncDec for u64 {
    open spec fn spec_below(self, other: Self) -> bool {
        self < other
    }

    fn checked_inc(self, rhs: Self) -> (r: Option<Self>)
        ensures
            r == if rhs == 0 || self + rhs > u64::MAX {
                None
            } else {
                Some((self + rhs) as u64)
            },
    {
        if rhs == 0 {
            return None;
        }
        self.checked_add(rhs)
    }

    fn checked_dec(self, rhs: Self) -> (r: Option<Self>)
        ensures
            r == if rhs == 0 || self - rhs < u64::MIN {
                None
            } else {
                Some((self - rhs) as u64)
            },
    {
        if rhs == 0 {
            return None;
        }
        self.checked_sub(rhs)
    }
}

impl SafeIncDec for u128 {
    open spec fn spec_below(self, other: Self) -> bool {
        self < other
    }

    fn checked_inc(self, rhs: Self) -> (r: Option<Self>)
        ensures
            r == if rhs == 0 || self + rhs > u128::MAX {
                None
            } else {
                Some((self + rhs) as u128)
            },
    {
        if rhs == 0 {
            return None;
        }
        self.checked_add(rhs)
    }

    fn checked_dec(self, rhs: Self) -> (r: Option<Self>)
        ensures
            r == if rhs == 0 || self - rhs < u128::MIN {
                None
            } else {
                Some((self - rhs) as u128)
            },
    {
        if rhs == 0 {
            return None;
        }
        self.checked_sub(rhs)
    }
}

impl SafeIncDec for usize {
    open spec fn spec_below(self, other: Self) -> bool {
        self < other
    }

    fn checked_inc(self, rhs: Self) -> (r: Option<Self>)
        ensures
            r == if rhs == 0 || self + rhs > usize::MAX {
                None
            } else {
                Some((self + rhs) as usize)
            },
    {
        if rhs == 0 {
            return None;
        }
        self.checked_add(rhs)
    }

    fn checked_dec(self, rhs: Self) -> (r: Option<Self>)
        ensures
            r == if rhs == 0 || self - rhs < usize::MIN {
                None
            } else {
                Some((self - rhs) as usize)
            },
    {
        if rhs == 0 {
            return None;
        }
        self.checked_sub(rhs)
    }
}

impl SafeIncDec for i8 {
    open spec fn spec_below(self, other: Self) -> bool {
        self < other
    }

    fn checked_inc(self, rhs: Self) -> (r: Option<Self>)
        ensures
            r == if rhs <= 0 || self + rhs > i8::MAX {
                None
            } else {
                Some((self + rhs) as i8)
            },
    {
        if rhs <= 0 {
            return None;
        }
        self.checked_add(rhs)
    }

    fn checked_dec(self, rhs: Self) -> (r: Option<Self>)
        ensures
            r == if rhs <= 0 || self - rhs < i8::MIN {
                None
            } else {
                Some((self - rhs) as i8)
            },
    {
        if rhs <= 0 {
            return None;
        }
        self.checked_sub(rhs)
    }
}

impl SafeIncDec for i16 {
    open spec fn spec_below(self, other: Self) -> bool {
        self < other
    }

    fn checked_inc(self, rhs: Self) -> (r: Option<Self>)
        ensures
            r == if rhs <= 0 || self + rhs > i16::MAX {
                None
            } else {
                Some((self + rhs) as i16)
            },
    {
        if rhs <= 0 {
            return None;
        }
        self.checked_add(rhs)
    }

    fn checked_dec(self, rhs: Self) -> (r: Option<Self>)
        ensures
            r == if rhs <= 0 || self - rhs < i16::MIN {
                None
            } else {
                Some((self - rhs) as i16)
            },
    {
        if rhs <= 0 {
            return None;
        }
        self.checked_sub(rhs)
    }
}

impl SafeIncDec for i32 {
    open spec fn spec_below(self, other: Self) -> bool {
        self < other
    }

    fn checked_inc(self, rhs: Self) -> (r: Option<Self>)
        ensures
            r == if rhs <= 0 || self + rhs > i32::MAX {
                None
            } else {
                Some((self + rhs) as i32)
            },
    {
        if rhs <= 0 {
            return None;
        }
        self.checked_add(rhs)
    }

    fn checked_dec(self, rhs: Self) -> (r: Option<Self>)
        ensures
            r == if rhs <= 0 || self - rhs < i32::MIN {
                None
            } else {
                Some((self - rhs) as i32)
            },
    {
        if rhs <= 0 {
            return None;
        }
        self.checked_sub(rhs)
    }
}

impl SafeIncDec for i64 {
    open spec fn spec_below(self, other: Self) -> bool {
        self < other
    }

    fn checked_inc(self, rhs: Self) -> (r: Option<Self>)
        ensures
            r == if rhs <= 0 || self + rhs > i64::MAX {
                None
            } else {
                Some((self + rhs) as i64)
            },
    {
        if rhs <= 0 {
            return None;
        }
        self.checked_add(rhs)
    }

    fn checked_dec(self, rhs: Self) -> (r: Option<Self>)
        ensures
            r == if rhs <= 0 || self - rhs < i64::MIN {
                None
            } else {
                Some((self - rhs) as i64)
            },
    {
        if rhs <= 0 {
            return None;
        }
        self.checked_sub(rhs)
    }
}

impl SafeIncDec for i128 {
    open spec fn spec_below(self, other: Self) -> bool {
        self < other
    }

    fn checked_inc(self, rhs: Self) -> (r: Option<Self>)
        ensures
            r == if rhs <= 0 || self + rhs > i128::MAX {
                None
            } else {
                Some((self + rhs) as i128)
            },
    {
        if rhs <= 0 {
            return None;
        }
        self.checked_add(rhs)
    }

    fn checked_dec(self, rhs: Self) -> (r: Option<Self>)
        ensures
            r == if rhs <= 0 || self - rhs < i128::MIN {
                None
            } else {
                Some((self - rhs) as i128)
            },
    {
        if rhs <= 0 {
            return None;
        }
        self.checked_sub(rhs)
    }
}

impl SafeIncDec for isize {
    open spec fn spec_below(self, other: Self) -> bool {
        self < other
    }

    fn checked_inc(self, rhs: Self) -> (r: Option<Self>)
        ensures
            r == if rhs <= 0 || self + rhs > isize::MAX {
                None
            } else {
                Some((self + rhs) as isize)
            },
    {
        if rhs <= 0 {
            return None;
        }
        self.checked_add(rhs)
    }

    fn checked_dec(self, rhs: Self) -> (r: Option<Self>)
        ensures
            r == if rhs <= 0 || self - rhs < isize::MIN {
                None
            } else {
                Some((self - rhs) as isize)
            },
    {
        if rhs <= 0 {
            return None;
        }
        self.checked_sub(rhs)
    }
}

} // verus!
