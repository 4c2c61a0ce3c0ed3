use std::ops::{Bound, RangeBounds, RangeInclusive};

use common_range_tools::types::SafeIncDec;
use common_range_tools::{GetBeginEnd, Mrs};

#[test]
fn test_gets_begin_end() {
    assert_eq!(Mrs::new(0, 1).get_begin(), &0);
    assert_eq!(Mrs::new(0, 1).get_end(), &1);
}

#[test]
fn test_from() {
    assert_eq!(1..=3, RangeInclusive::from(Mrs::new(1, 3)));
    assert_eq!(1..=3, Mrs::new(1, 3).into());
}

#[test]
fn test_range_bounds() {
    assert!(matches!(Mrs::new(0, 1).start_bound(), Bound::Included(&0)));
    assert!(matches!(Mrs::new(0, 1).end_bound(), Bound::Included(&1)));
    assert!(Mrs::new(0, 1).contains(&1));
    assert!(Mrs::new(0, 1).contains(&0));
    assert!(!Mrs::new(0, 1).contains(&-1));
}

#[test]
fn test_from_pairs_and_back() {
    let m: Mrs<i32> = Mrs::from((4, 9));
    assert_eq!(m.to_tuple_ref(), (&4, &9));
    let p: (i32, i32) = Mrs::new(4, 9).into();
    assert_eq!(p, (4, 9));
    let r: Mrs<i32> = Mrs::from(2..=5);
    assert_eq!(r.to_tuple(), (2, 5));
}

#[test]
fn test_safe_add_sub_doc_example() {
    assert!(matches!(1.checked_inc(2), Some(3))); // Number went up by 2!
    assert!(matches!(0.checked_inc(0), None)); // Number did not go up
    assert!(matches!(0.checked_inc(-2), None)); // Number did not go up
    assert!(matches!(i32::MAX.checked_inc(1), None)); // Catch overflow

    // Decrement examples
    assert!(matches!(1.checked_dec(2), Some(-1))); // Number went down by 2!
    assert!(matches!(0.checked_dec(0), None)); // Number did not go down
    assert!(matches!(0.checked_dec(-2), None)); // Number did not go down
    assert!(matches!(i32::MIN.checked_dec(1), None)); // Catch undeflow

    assert!(matches!(1_u32.checked_inc(2), Some(3))); // Number went up by 2!
    assert!(matches!(0_u32.checked_inc(0), None)); // Number did not go up
    assert!(matches!(u32::MAX.checked_inc(1), None)); // Catch overflow

    assert!(matches!(3_u32.checked_dec(2), Some(1))); // Number went down by 2!
    assert!(matches!(0_u32.checked_dec(0), None)); // Number did not go down
    assert!(matches!(u32::MIN.checked_dec(1), None)); // Catch undeflow
}

#[test]
fn test_add_sub() {
    // int positive test
    let mut i: Option<u8> = 1.checked_inc(2);
    assert!(matches!(i, Some(3)));
    i = 1.checked_dec(1);
    assert!(matches!(i, Some(0)));

    // negative test
    for (a, b) in [(255, 1), (0, 0)] {
        i = a.checked_inc(b);
        assert!(matches!(i, None));
    }
    for (a, b) in [(0, 1), (0, 0)] {
        i = a.checked_dec(b);
        assert!(matches!(i, None));
    }

    let mut u: Option<i8> = 1.checked_inc(2);
    assert!(matches!(u, Some(3)));
    u = 1.checked_dec(1);
    assert!(matches!(u, Some(0)));
    u = (-1).checked_dec(1);
    assert!(matches!(u, Some(-2)));

    // negative test
    for (a, b) in [(127, 1), (0, 0)] {
        u = a.checked_inc(b);
        assert!(matches!(u, None));
    }
    for (a, b) in [(-128, 1), (0, 0), (1, -1)] {
        u = a.checked_dec(b);
        assert!(matches!(u, None));
    }
}

#[test]
fn safe_inc_dec_wide_types() {
    assert_eq!(u128::MAX.checked_inc(1), None);
    assert_eq!(5_u128.checked_dec(5), Some(0));
    assert_eq!(i128::MIN.checked_dec(1), None);
    assert_eq!((-5_i64).checked_inc(10), Some(5));
    assert_eq!(7_usize.checked_dec(0), None);
    assert_eq!((-7_isize).checked_dec(-1), None);
    assert_eq!(300_u16.checked_inc(65235), Some(65535));
    assert_eq!(300_u16.checked_inc(65236), None);
}
