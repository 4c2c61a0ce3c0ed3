use common_range_tools::{
    CpCmp, DefaultValues, GetBeginEnd, GetBeginEndOption, IncDecCpCmp, Mrs, MrsFactory,
    NumberIncDecCpCmp, RangeBound, RiFactory,
};

#[test]
fn inc_dec_behavior() {
    let l: NumberIncDecCpCmp<i32> = NumberIncDecCpCmp::defaults();

    // i32 Increment examples
    assert_eq!(l.inc(&1, &2), Some(3)); // Number went up by 2!
    assert_eq!(l.inc(&1, &0), None); // Number did not go up
    assert_eq!(l.inc(&0, &-2), None); // Number did not go up
    assert_eq!(l.inc(&i32::MAX, &1), None); // Catch overflow

    // i32 Decrement examples
    assert_eq!(l.dec(&1, &2), Some(-1)); // Number went down by 2!
    assert_eq!(l.dec(&0, &0), None); // Number did not go down
    assert_eq!(l.dec(&0, &-2), None); // Number did not go down
    assert_eq!(l.dec(&i32::MIN, &1), None); // Catch undeflow

    let u: NumberIncDecCpCmp<u32> = NumberIncDecCpCmp::defaults();
    // u32 Increment examples
    assert_eq!(u.inc(&1_u32, &2_u32), Some(3)); // Number went up by 2!
    assert_eq!(u.inc(&0_u32, &0), None); // Number did not go up
    assert_eq!(u.inc(&u32::MAX, &1), None); // Catch overflow

    // u32 Decrement examples
    assert_eq!(u.dec(&3_u32, &2), Some(1)); // Number went down by 2!
    assert_eq!(u.dec(&3_u32, &0), None); // Number did not go down
    assert_eq!(u.dec(&u32::MIN, &1), None); // Catch undeflow
}

#[test]
fn misc_tests() {
    let b: NumberIncDecCpCmp<u8> = NumberIncDecCpCmp::defaults();
    assert_eq!(u8::MAX, b.max());
    assert_eq!(u8::MIN, b.min());
    let t: NumberIncDecCpCmp<i32> = NumberIncDecCpCmp::defaults();
    assert_eq!(i32::MAX, t.max());
    assert_eq!(i32::MIN, t.min());
    assert_eq!(1_u8, b.cp(&1));
    assert_eq!(1, t.cp(&1));
    assert_eq!(1, t.default_step());
    assert_eq!(1, t.default_rebound());
    assert_eq!(1_u8, b.default_step());
    assert_eq!(1_u8, b.default_rebound());
    assert_eq!(Mrs::new(1, 2).to_tuple(), (1, 2));
}

#[test]
fn inc_dec_compare_all() {
    let l: NumberIncDecCpCmp<i32> = NumberIncDecCpCmp::defaults();

    // positive examples
    assert!(l.lt(&1, &2));
    assert!(l.le(&1, &2));
    assert!(l.eq(&2, &2));
    assert!(l.gt(&4, &3));
    assert!(l.ge(&4, &3));
    assert!(l.ne(&4, &3));

    // negative examples
    assert!(!l.ne(&4, &4));
    assert!(!l.eq(&3, &4));
    assert!(!l.le(&6, &5));
    assert!(!l.ge(&4, &5));
    assert!(!l.lt(&4, &3));
    assert!(!l.gt(&4, &5));

    let b: NumberIncDecCpCmp<u8> = NumberIncDecCpCmp::defaults();
    assert!(b.lt(&0_u8, &2));

    // Contains Examples
    assert!(l.contains(&1, &3, &1));
    assert!(!l.contains(&1, &2, &0));
    assert!(!l.contains(&0, &0, &1));
    assert!(!l.contains(&0, &0, &2));

    // Overlap Examples
    assert!(l.overlap(&1, &2, &0, &1));
    assert!(!l.overlap(&1, &2, &0, &0));
}

#[test]
fn test_rebound_start_and_end() {
    let l: NumberIncDecCpCmp<i32> = NumberIncDecCpCmp::defaults();

    assert_eq!(l.rebound_start(RangeBound::Excluded(&1), &1), Some(2));
    assert_eq!(l.rebound_start(RangeBound::Included(&1), &1), Some(1));
    assert_eq!(l.rebound_start(RangeBound::Unbounded, &1), Some(i32::MIN));
    assert_eq!(l.rebound_start(RangeBound::Excluded(&i32::MAX), &1), None);

    assert_eq!(l.rebound_end(RangeBound::Excluded(&1), &1), Some(0));
    assert_eq!(l.rebound_end(RangeBound::Included(&1), &1), Some(1));
    assert_eq!(l.rebound_end(RangeBound::Unbounded, &1), Some(i32::MAX));
    assert_eq!(l.rebound_end(RangeBound::Excluded(&i32::MIN), &1), None);
}

#[test]
fn min_max_setters_and_validity() {
    let mut l: NumberIncDecCpCmp<i32> = NumberIncDecCpCmp::new(0, 10);
    assert_eq!((l.min(), l.max()), (0, 10));
    assert!(l.is_invalid_set(&-1, &3));
    assert!(l.is_invalid_set(&3, &11));
    assert!(l.is_invalid_set(&4, &3));
    assert!(!l.is_invalid_set(&0, &10));
    l.set_min(-5);
    l.set_max(20);
    assert_eq!((*l.min_ref(), *l.max_ref()), (-5, 20));
    assert!(!l.is_invalid_set(&-1, &11));
    assert_eq!(l.cp_tpl_ref((&3, &4)), (3, 4));
    assert_eq!(l.rebound_start(RangeBound::Unbounded, &1), Some(-5));
    assert_eq!(l.rebound_end(RangeBound::Unbounded, &1), Some(20));
}

#[test]
fn factories_build_exact_ranges() {
    let r: RiFactory<i32> = RiFactory::new();
    assert_eq!(r.new_range((3, 7)), 3..=7);
    assert_eq!(r.factory(Some((1, 2))), Some(1..=2));
    assert_eq!(r.factory(None), None);
    let m: MrsFactory<i32> = MrsFactory::new();
    assert_eq!(m.new_range((3, 7)).to_tuple(), (3, 7));
    assert!(m.factory(None).is_none());
}

#[test]
fn inc_dec_step_larger_than_one() {
    let l: NumberIncDecCpCmp<u8> = NumberIncDecCpCmp::defaults();
    assert_eq!(l.inc(&250, &5), Some(255));
    assert_eq!(l.inc(&251, &5), None);
    assert_eq!(l.dec(&5, &5), Some(0));
    assert_eq!(l.dec(&4, &5), None);
}
