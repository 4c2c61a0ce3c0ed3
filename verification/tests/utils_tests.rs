use std::cmp::Ordering;
use std::ops::RangeInclusive;

use common_range_tools::{
    consolidate, first_range_begin_end, grow, last_range_begin_end, min_max, next_range_begin_end,
    next_smallest_range, previous_range_begin_end, previous_smallest_range, range_bounds_to_values,
    range_relation, reduce_next, reduce_previous, retool_begin, retool_end, sort_forward,
    sort_reverse, bounds_to_values, GetBeginEnd, Mrs, MrsFactory, NumberIncDecCpCmp, RangeBound,
    RangeRelation,
};

fn num() -> NumberIncDecCpCmp<i32> {
    NumberIncDecCpCmp::defaults()
}

fn mrs_set_a() -> Vec<Mrs<i32>> {
    vec![
        Mrs::new(0, 3),
        Mrs::new(1, 2),
        Mrs::new(4, 5),
        Mrs::new(4, 6),
        Mrs::new(8, 11),
        Mrs::new(13, 22),
        Mrs::new(15, 19),
    ]
}

fn mrs_set_b() -> Vec<Mrs<i32>> {
    vec![Mrs::new(15, 19), Mrs::new(13, 22), Mrs::new(8, 11), Mrs::new(11, 1)]
}

fn mrs_set_c() -> Vec<Mrs<i32>> {
    vec![Mrs::new(15, 15), Mrs::new(13, 13), Mrs::new(8, 8)]
}

fn mrs_set_d() -> Vec<Mrs<i32>> {
    vec![Mrs::new(0, 20), Mrs::new(13, 15), Mrs::new(13, 13)]
}

fn mrs_known_bad() -> Vec<Mrs<i32>> {
    vec![
        Mrs::new(5, 7),
        Mrs::new(0, 2),
        Mrs::new(0, 1),
        Mrs::new(0, 0),
        Mrs::new(2, -1), // this should be invalid
    ]
}

#[test]
fn tests_test_first_range() {
    let t = num();

    // Empty set test
    assert_eq!(
        first_range_begin_end::<i32, i32, NumberIncDecCpCmp<i32>, Mrs<i32>>(&[], &1, &t),
        None
    );
    assert_eq!(
        first_range_begin_end::<i32, i32, NumberIncDecCpCmp<i32>, Mrs<i32>>(&[Mrs::new(0, -1)], &1, &t),
        None
    );
    assert_eq!(first_range_begin_end(&[Mrs::new(1, 1), Mrs::new(6, 7)], &1, &t), Some((1, 1)));
    assert_eq!(first_range_begin_end(&[Mrs::new(1, 1)], &1, &t), Some((1, 1)));
    assert_eq!(first_range_begin_end(&[Mrs::new(5, 7), Mrs::new(4, 7)], &1, &t), Some((4, 4)));
    assert_eq!(first_range_begin_end(&[Mrs::new(5, 7), Mrs::new(6, 7)], &1, &t), Some((5, 5)));
    assert_eq!(first_range_begin_end(&mrs_known_bad(), &1, &t), Some((0, 0)));
    assert_eq!(first_range_begin_end(&mrs_set_a(), &1, &t), Some((0, 0)));
}

#[test]
fn tests_last_range_test() {
    let t = num();

    // Empty set test
    assert_eq!(
        last_range_begin_end::<i32, i32, NumberIncDecCpCmp<i32>, Mrs<i32>>(&[], &1, &t),
        None
    );
    assert_eq!(
        last_range_begin_end::<i32, i32, NumberIncDecCpCmp<i32>, Mrs<i32>>(&[Mrs::new(0, -1)], &1, &t),
        None
    );
    assert_eq!(last_range_begin_end(&mrs_known_bad(), &1, &t), Some((5, 7)));
    assert_eq!(last_range_begin_end(&[Mrs::new(5, 7), Mrs::new(4, 7)], &1, &t), Some((5, 7)));
    assert_eq!(last_range_begin_end(&[Mrs::new(4, 11), Mrs::new(4, 7)], &1, &t), Some((8, 11)));
    assert_eq!(last_range_begin_end(&[Mrs::new(4, 11)], &1, &t), Some((4, 11)));
    assert_eq!(last_range_begin_end(&mrs_set_a(), &1, &t), Some((20, 22)));
}

#[test]
fn tests_next_range_begin_end_tests() {
    let t = num();
    let checkset = vec![(3, 3), (4, 5), (6, 6), (8, 11), (13, 14), (15, 19), (20, 22)];
    let mut check = mrs_set_a();
    let mut point = 3;
    for (a, b) in checkset {
        assert_eq!(next_range_begin_end(&point, &check, &1, &t), Some((a, b)));
        point = b + 1;
    }
    assert_eq!(next_range_begin_end(&23, &check, &1, &t), None);

    // validate smallest default gap in reversal of
    point = 7;
    check = mrs_set_b();
    for (a, b) in vec![(8, 11), (13, 14), (15, 19), (20, 22)] {
        assert_eq!(next_range_begin_end(&point, &check, &1, &t), Some((a, b)));
        point = b + 1;
    }
    assert_eq!(next_range_begin_end(&23, &check, &1, &t), None);

    // validate single value set with gaps
    point = 8;
    check = mrs_set_c();
    for (a, b) in vec![(8, 8), (13, 13), (15, 15)] {
        assert_eq!(next_range_begin_end(&point, &check, &1, &t), Some((a, b)));
        point = b + 1;
    }
    assert_eq!(next_range_begin_end(&23, &check, &1, &t), None);

    // validate correct overlaps
    point = 0;
    check = mrs_set_d();
    for (a, b) in vec![(0, 12), (13, 13), (14, 15), (16, 20)] {
        assert_eq!(next_range_begin_end(&point, &check, &1, &t), Some((a, b)));
        point = b + 1;
    }
    assert_eq!(next_range_begin_end(&point, &check, &1, &t), None);
}

#[test]
fn tests_range_conversion() {
    let t = num();
    assert_eq!(range_bounds_to_values(&(1..=2), &1, &t), Some((1, 2)));
    assert_eq!(range_bounds_to_values(&(1..i32::MIN), &1, &t), None);
}

#[test]
fn tests_previous_smallest_range_test() {
    // With the step of 1 the last segment begins just after the end of 15..=19: (20, 22).
    // Without the step, reduce_previous stops at that end: (19, 22) (see
    // reduce_gives_the_unstepped_segments).
    let t = num();
    let src = mrs_set_b();
    let (begin, end) = previous_smallest_range(&0, &22, &src, &1, &t);
    assert_eq!((begin, end), (20, 22))
}

#[test]
fn tests_previous_range_begin_end_tests() {
    let t = num();
    let checked = vec![(15, 19), (13, 14), (8, 11), (6, 6), (4, 5), (3, 3), (1, 2), (0, 0)];
    let src = mrs_set_a();
    let mut end = 19;
    for (a, z) in checked {
        let res = previous_range_begin_end(&end, &src, &1, &t);
        assert_eq!(res, Some((a, z)));
        end = a - 1;
    }
}

#[test]
fn tests_next_smallest_range_test() {
    // With the step of 1 each segment ends just before the next range begins: (0, 0) and
    // (4, 4). Without the step, reduce_next stops at that begin: (0, 1) and (4, 5) (see
    // reduce_gives_the_unstepped_segments).
    let t = num();
    let src = mrs_set_a();
    let (mut begin, mut end) = next_smallest_range(&0, &22, &src, &1, &t);
    assert_eq!((begin, end), (0, 0));

    (begin, end) = next_smallest_range(&0, &1, &src, &1, &t);
    assert_eq!((begin, end), (0, 0));

    let src = vec![Mrs::new(5, 7), Mrs::new(4, 7)];
    (begin, end) = next_smallest_range(&4, &7, &src, &1, &t);
    assert_eq!((begin, end), (4, 4));
}

#[test]
fn utils_tests_test_first_range() {
    let t = num();
    assert_eq!(first_range_begin_end(&[0..=2, 1..=5], &1, &t).unwrap(), (0, 0));
    assert_eq!(
        first_range_begin_end::<i32, i32, NumberIncDecCpCmp<i32>, Mrs<i32>>(&[], &1, &t),
        None
    );
    assert_eq!(first_range_begin_end(&[Mrs::new(0, -1)], &1, &t), None);
    assert_eq!(first_range_begin_end(&[Mrs::new(1, 1), Mrs::new(6, 7)], &1, &t), Some((1, 1)));
    assert_eq!(first_range_begin_end(&[Mrs::new(1, 1)], &1, &t), Some((1, 1)));
    assert_eq!(first_range_begin_end(&[Mrs::new(5, 7), Mrs::new(4, 7)], &1, &t), Some((4, 4)));
    assert_eq!(first_range_begin_end(&[Mrs::new(5, 7), Mrs::new(6, 7)], &1, &t), Some((5, 5)));
    assert_eq!(first_range_begin_end(&mrs_known_bad(), &1, &t), Some((0, 0)));
    assert_eq!(first_range_begin_end(&mrs_set_a(), &1, &t), Some((0, 0)));
    assert_eq!(first_range_begin_end(&[Mrs::new(0, 7), Mrs::new(0, 0)], &1, &t), Some((0, 0)));
}

#[test]
fn utils_tests_last_range_test() {
    let t = num();
    assert_eq!(
        last_range_begin_end::<i32, i32, NumberIncDecCpCmp<i32>, Mrs<i32>>(&[], &1, &t),
        None
    );
    assert_eq!(last_range_begin_end(&[Mrs::new(0, -1)], &1, &t), None);
    assert_eq!(last_range_begin_end(&mrs_known_bad(), &1, &t), Some((5, 7)));
    assert_eq!(last_range_begin_end(&[Mrs::new(5, 7), Mrs::new(4, 7)], &1, &t), Some((5, 7)));
    assert_eq!(last_range_begin_end(&[Mrs::new(4, 11), Mrs::new(4, 7)], &1, &t), Some((8, 11)));
    assert_eq!(last_range_begin_end(&[Mrs::new(4, 11)], &1, &t), Some((4, 11)));
    assert_eq!(last_range_begin_end(&mrs_set_a(), &1, &t), Some((20, 22)));
}

#[test]
fn utils_tests_next_range_begin_end_tests() {
    let t = num();
    let checkset = vec![(3, 3), (4, 5), (6, 6), (8, 11), (13, 14), (15, 19), (20, 22)];
    let check = mrs_set_a();
    let mut point = 3;
    for (a, b) in checkset {
        assert_eq!(next_range_begin_end(&point, &check, &1, &t), Some((a, b)));
        point = b + 1;
    }
}

#[test]
fn utils_tests_range_conversion() {
    let t = num();
    assert_eq!(range_bounds_to_values(&(1_i32..=2), &1, &t), Some((1, 2)));
    assert_eq!(range_bounds_to_values(&(1_i32..), &1, &t), Some((1, i32::MAX)));
}

#[test]
fn utils_tests_previous_smallest_range_test() {
    let t = num();
    let src = mrs_set_b();
    let (begin, end) = previous_smallest_range(&0, &22, &src, &1, &t);
    assert_eq!((begin, end), (20, 22))
}

#[test]
fn utils_tests_previous_range_begin_end_tests() {
    let t = num();
    let checked = vec![
        (20, 21),
        (15, 19),
        (13, 14),
        (8, 11),
        (6, 6),
        (4, 5),
        (3, 3),
        (1, 2),
        (0, 0),
    ];
    let src = mrs_set_a();
    let mut end = 21;
    for (a, z) in checked {
        let res = previous_range_begin_end(&end, &src, &1, &t);
        assert_eq!(res, Some((a, z)));
        end = a - 1;
    }
}

#[test]
fn utils_tests_next_smallest_range_test() {
    let t = num();

    let src = vec![Mrs::new(5, 7), Mrs::new(4, 7)];
    let (mut begin, mut end) = next_smallest_range(&4, &7, &src, &1, &t);
    assert_eq!((begin, end), (4, 4));

    (begin, end) = next_smallest_range(&5, &7, &src, &1, &t);
    assert_eq!((begin, end), (5, 7));

    (begin, end) = next_smallest_range(&1, &5, &[0..=1, 1..=5], &1, &t);
    assert_eq!((begin, end), (1, 1));

    let src = [0..=2, 1..=5];
    let (start, finish) = min_max(&src, &t).unwrap();
    assert_eq!((start, finish), (&0, &5));
    (begin, end) = reduce_next(start, finish, &src, &t);
    assert_eq!((begin, end), (0, 1));
    (begin, end) = retool_end((begin, end), &src, &1, &t);
    assert_eq!((begin, end), (0, 0));
    assert_eq!(first_range_begin_end(&src, &1, &t).unwrap(), (0, 0));
}

fn mrs_set() -> Vec<Mrs<i32>> {
    vec![
        Mrs::new(0, 3),
        Mrs::new(1, 2),
        Mrs::new(4, 5),
        Mrs::new(4, 6),
        Mrs::new(8, 11),
        Mrs::new(13, 22),
        Mrs::new(15, 19),
    ]
}

#[test]
fn sort_more() {
    let mut set = mrs_set();
    set.push(Mrs::new(8, 11)); // force equal ctest
    let l = num();
    set.sort_by(|a, b| sort_forward(a, b, &l));
    let expected = vec![
        Mrs::new(0, 3),
        Mrs::new(1, 2),
        Mrs::new(4, 6),
        Mrs::new(4, 5),
        Mrs::new(8, 11),
        Mrs::new(8, 11),
        Mrs::new(13, 22),
        Mrs::new(15, 19),
    ];
    for (i, exp) in expected.iter().enumerate() {
        assert_eq!(exp.to_tuple_ref(), set[i].to_tuple_ref())
    }
}

#[test]
fn sort() {
    let l = num();
    let correct = vec![
        Mrs::new(8, 11),
        Mrs::new(8, 9),
        Mrs::new(13, 22),
        Mrs::new(15, 20),
        Mrs::new(15, 20),
        Mrs::new(15, 19),
    ];
    let mut check = vec![
        Mrs::new(15, 20),
        Mrs::new(15, 19),
        Mrs::new(13, 22),
        Mrs::new(8, 11),
        Mrs::new(15, 20),
        Mrs::new(8, 9),
    ];
    check.sort_by(|a, b| sort_forward(a, b, &l));
    for (i, good) in correct.iter().enumerate() {
        assert_eq!(check[i].to_tuple_ref(), good.to_tuple_ref());
    }
}

#[test]
fn sort_reverse_test() {
    let l = num();
    let correct = vec![
        Mrs::new(13, 22),
        Mrs::new(15, 20),
        Mrs::new(16, 20),
        Mrs::new(16, 20),
        Mrs::new(15, 19),
        Mrs::new(8, 11),
        Mrs::new(8, 9),
        Mrs::new(8, 9),
    ];
    let mut check = vec![
        Mrs::new(13, 22),
        Mrs::new(16, 20),
        Mrs::new(8, 11),
        Mrs::new(8, 9),
        Mrs::new(15, 19),
        Mrs::new(15, 20),
        Mrs::new(16, 20),
        Mrs::new(8, 9),
    ];
    check.sort_by(|a, b| sort_reverse(a, b, &l));
    for (i, good) in correct.iter().enumerate() {
        assert_eq!(check[i].to_tuple_ref(), good.to_tuple_ref());
    }
}

#[test]
fn sort_orders_exact_values() {
    let l = num();
    assert_eq!(sort_forward(&Mrs::new(1, 5), &Mrs::new(2, 3), &l), Ordering::Less);
    assert_eq!(sort_forward(&Mrs::new(1, 5), &Mrs::new(1, 6), &l), Ordering::Greater);
    assert_eq!(sort_forward(&Mrs::new(1, 5), &Mrs::new(1, 5), &l), Ordering::Equal);
    assert_eq!(sort_reverse(&Mrs::new(1, 5), &Mrs::new(2, 3), &l), Ordering::Less);
    assert_eq!(sort_reverse(&Mrs::new(2, 5), &Mrs::new(1, 5), &l), Ordering::Greater);
    assert_eq!(sort_reverse(&Mrs::new(2, 5), &Mrs::new(2, 5), &l), Ordering::Equal);
}

#[test]
fn relations_test() {
    let t = num();
    assert!(matches!(
        range_relation(&Mrs::new(1, 2), &Mrs::new(1, 2), &t),
        RangeRelation::Overlap(())
    ));
    assert!(matches!(
        range_relation(&Mrs::new(1, 1), &Mrs::new(1, 2), &t),
        RangeRelation::Overlap(())
    ));
    assert!(matches!(
        range_relation(&Mrs::new(2, 2), &Mrs::new(1, 2), &t),
        RangeRelation::Overlap(())
    ));
    assert!(matches!(
        range_relation(&Mrs::new(0, 0), &Mrs::new(1, 2), &t),
        RangeRelation::Before(())
    ));
    assert!(matches!(
        range_relation(&Mrs::new(3, 4), &Mrs::new(1, 2), &t),
        RangeRelation::After(())
    ));
    assert!(matches!(
        range_relation(&Mrs::new(4, 3), &Mrs::new(1, 2), &t),
        RangeRelation::Invalid(())
    ));
    assert_eq!(RangeRelation::Invalid(()).invalid(), ());
    assert!(RangeRelation::Invalid(()).is_invalid());
    assert!(RangeRelation::Last(()).is_last());
    assert!(RangeRelation::Before(()).is_before());
    assert!(RangeRelation::After(()).is_after());
    assert_eq!(RangeRelation::Last(7).last(), 7);
    assert_eq!(RangeRelation::Before(8).before(), 8);
    assert_eq!(RangeRelation::After(9).after(), 9);
    assert_eq!(RangeRelation::Overlap(10).unwrap(), 10);
}

fn known_bad_mrs() -> Vec<Mrs<i32>> {
    vec![Mrs::new(i32::MIN, 2), Mrs::new(1, 2), Mrs::new(3, 4), Mrs::new(3, i32::MAX)]
}

#[test]
fn inf_bounds() {
    let t = num();
    let bad = known_bad_mrs();
    assert_eq!(first_range_begin_end(&bad, &1, &t).unwrap(), (i32::MIN, 0));
    assert_eq!(next_range_begin_end(&2, &bad, &1, &t).unwrap(), (2, 2));
    assert_eq!(next_range_begin_end(&3, &bad, &1, &t).unwrap(), (3, 4));
    assert_eq!(next_range_begin_end(&5, &bad, &1, &t).unwrap(), (5, i32::MAX));
    assert_eq!(next_range_begin_end(&i32::MAX, &bad, &1, &t), Some((i32::MAX, i32::MAX)));
    assert_eq!(next_range_begin_end(&1, &bad, &1, &t).unwrap(), (1, 2));
    assert_eq!(last_range_begin_end(&bad, &1, &t).unwrap(), (5, i32::MAX));
}

#[test]
fn growth_tests() {
    let mut x = Mrs::new(1, 6);
    let mut y = Mrs::new(3, 9);
    let f = MrsFactory::new();
    let t = num();

    assert_eq!(grow(&x, &y, &t, &f).to_tuple(), Mrs::new(1, 9).to_tuple());
    assert_eq!(grow(&y, &x, &t, &f).to_tuple(), Mrs::new(1, 9).to_tuple());
    x = Mrs::new(1, 6);
    y = Mrs::new(1, 9);
    assert_eq!(grow(&y, &x, &t, &f).to_tuple(), Mrs::new(1, 9).to_tuple());
    assert_eq!(grow(&x, &y, &t, &f).to_tuple(), Mrs::new(1, 9).to_tuple());
    x = Mrs::new(0, 3);
    y = Mrs::new(1, 2);
    assert_eq!(grow(&x, &y, &t, &f).to_tuple(), Mrs::new(0, 3).to_tuple());
    assert_eq!(grow(&y, &x, &t, &f).to_tuple(), Mrs::new(0, 3).to_tuple());
    assert_eq!(grow(&x, &x, &t, &f).to_tuple(), Mrs::new(0, 3).to_tuple());
}

#[test]
fn consolidate_tests() {
    let f = MrsFactory::new();
    let t = num();
    let mut iter = vec![Mrs::new(1, 2)];
    let mut last: Option<(Mrs<i32>, Vec<(usize, Mrs<i32>)>)> = None;
    let (_, mut next) = consolidate(&mut last, &mut iter, &t, &f, 0);

    let mut res = next.unwrap();
    assert!(last.is_none());
    assert!(res.is_last());
    let (mut r, mut set) = res.last();
    assert_eq!(r.to_tuple(), (1, 2));
    assert_eq!(set.len(), 1);
    assert_eq!(&set[0].0, &0);
    assert_eq!(set[0].1.to_tuple_ref(), (&1, &2));
    iter = vec![
        // Block A
        Mrs::new(0, 3), // 0
        Mrs::new(1, 2), // 1
        // Block B
        Mrs::new(4, 4), // 2
        // Block C
        Mrs::new(1, 1), // 3
        // Block D
        Mrs::new(5, 6), // 4
        Mrs::new(6, 7), // 5
        // Block E
        Mrs::new(8, 8), // 6
    ];

    last = None;
    // Block A results
    let mut offset;
    (offset, next) = consolidate(&mut last, &mut iter, &t, &f, 0);
    assert!(!last.is_none());
    assert!(!next.is_none());
    res = next.unwrap();
    assert!(res.is_before());
    (r, set) = res.before();
    assert_eq!(r.to_tuple(), (0, 3));
    assert_eq!(set.len(), 2);
    assert_eq!(&set[0].0, &0);
    assert_eq!(set[0].1.to_tuple_ref(), (&0, &3));
    assert_eq!(&set[1].0, &1);
    assert_eq!(set[1].1.to_tuple_ref(), (&1, &2));

    // Block B
    (offset, next) = consolidate(&mut last, &mut iter, &t, &f, offset);
    assert!(!last.is_none());
    assert!(!next.is_none());
    res = next.unwrap();
    assert!(res.is_after());
    (r, set) = res.after();
    assert_eq!(r.to_tuple(), (4, 4));
    assert_eq!(set.len(), 1);
    assert_eq!(&set[0].0, &2);
    assert_eq!(set[0].1.to_tuple_ref(), (&4, &4));

    // Block C
    (offset, next) = consolidate(&mut last, &mut iter, &t, &f, offset);
    assert!(!last.is_none());
    assert!(!next.is_none());
    res = next.unwrap();
    assert!(res.is_before());
    (r, set) = res.before();
    assert_eq!(r.to_tuple(), (1, 1));
    assert_eq!(set.len(), 1);
    assert_eq!(set[0].1.to_tuple_ref(), (&1, &1));
    assert_eq!(&set[0].0, &3);

    // Block D
    (offset, next) = consolidate(&mut last, &mut iter, &t, &f, offset);
    assert!(!last.is_none());
    assert!(!next.is_none());
    res = next.unwrap();
    assert!(res.is_before());
    (r, set) = res.before();
    assert_eq!(r.to_tuple(), (5, 7));
    assert_eq!(set.len(), 2);
    assert_eq!(&set[0].0, &4);
    assert_eq!(set[0].1.to_tuple_ref(), (&5, &6));
    assert_eq!(&set[1].0, &5);
    assert_eq!(set[1].1.to_tuple_ref(), (&6, &7));

    (_, next) = consolidate(&mut last, &mut iter, &t, &f, offset);
    assert!(last.is_none());
    assert!(!next.is_none());
    res = next.unwrap();
    assert!(res.is_last());
    (r, set) = res.last();
    assert_eq!(r.to_tuple(), (8, 8));
    assert_eq!(set.len(), 1);
    assert_eq!(&set[0].0, &6);
    assert_eq!(set[0].1.to_tuple_ref(), (&8, &8));
    (_, next) = consolidate(&mut last, &mut iter, &t, &f, offset);
    assert!(last.is_none());
    assert!(next.is_none());
}

#[test]
fn consolidate_invalid_growth() {
    let f = MrsFactory::new();
    let t: NumberIncDecCpCmp<i32> = NumberIncDecCpCmp::new(0, 5);
    let mut iter = vec![Mrs::new(0, 3), Mrs::new(2, 7)];
    let mut last: Option<(Mrs<i32>, Vec<(usize, Mrs<i32>)>)> = None;
    let (offset, next) = consolidate(&mut last, &mut iter, &t, &f, 0);
    assert_eq!(offset, 2);
    let res = next.unwrap();
    assert!(res.is_invalid());
    let (r, set) = res.invalid();
    assert_eq!(r.to_tuple(), (0, 7));
    assert_eq!(set.len(), 2);
    assert!(last.is_none());
}

#[test]
fn unpack_overlap() {
    assert!(RangeRelation::Overlap(()).is_overlap());
    assert_eq!(RangeRelation::Overlap(()).overlap(), ());
}

#[test]
fn retool_end_tests() {
    let mut src = [0..=1, 1..=5];
    let t = num();
    assert_eq!(retool_end((0, 1), &src, &1, &t), (0, 0));
    assert_eq!(retool_end((1, 5), &src, &1, &t), (1, 5));
    src = [0..=2, 1..=5];
    assert_eq!(retool_end((0, 1), &src, &1, &t), (0, 0));
    assert_eq!(retool_end((1, 2), &src, &1, &t), (1, 2));
    assert_eq!(retool_end((3, 5), &src, &1, &t), (3, 5));
    src = [0..=0, 1..=5];
    assert_eq!(retool_end((0, 0), &src, &1, &t), (0, 0));
    assert_eq!(retool_end((1, 5), &src, &1, &t), (1, 5));
}

#[test]
fn retool_begin_tests() {
    let mut src = [0..=4, 4..=5];
    let t = num();
    assert_eq!(retool_begin((4, 5), &src, &1, &t), (5, 5));
    assert_eq!(retool_begin((0, 4), &src, &1, &t), (0, 4));
    src = [0..=4, 1..=5];
    assert_eq!(retool_begin((4, 5), &src, &1, &t), (5, 5));
    assert_eq!(retool_begin((1, 4), &src, &1, &t), (1, 4));
    assert_eq!(retool_begin((0, 0), &src, &1, &t), (0, 0));
    src = [0..=0, 1..=5];
    assert_eq!(retool_begin((0, 0), &src, &1, &t), (0, 0));
    assert_eq!(retool_begin((1, 5), &src, &1, &t), (1, 5));
}

#[test]
fn reduce_previous_values() {
    let t = num();
    let src: [RangeInclusive<i32>; 2] = [0..=2, 1..=5];
    assert_eq!(reduce_previous(&0, &5, &src, &t), (2, 5));
    assert_eq!(previous_smallest_range(&0, &5, &src, &1, &t), (3, 5));
    assert_eq!(last_range_begin_end(&src, &1, &t), Some((3, 5)));
}

#[test]
fn bounds_conversion_values() {
    let t = num();
    assert_eq!(bounds_to_values(RangeBound::Excluded(&1), RangeBound::Excluded(&5), &1, &t), Some((2, 4)));
    assert_eq!(bounds_to_values(RangeBound::Unbounded, RangeBound::Included(&5), &1, &t), Some((i32::MIN, 5)));
    assert_eq!(bounds_to_values(RangeBound::Included(&5), RangeBound::Excluded(&5), &1, &t), None);
    assert_eq!(bounds_to_values(RangeBound::Excluded(&i32::MAX), RangeBound::Unbounded, &1, &t), None);
    assert_eq!(range_bounds_to_values(&(2..7), &1, &t), Some((2, 6)));
    assert_eq!(range_bounds_to_values(&(..=3), &1, &t), Some((i32::MIN, 3)));
}

#[test]
fn min_max_skips_invalid() {
    let t = num();
    let src = [Mrs::new(5, 1), Mrs::new(2, 3), Mrs::new(-4, 0)];
    assert_eq!(min_max(&src, &t), Some((&-4, &3)));
    let none: [Mrs<i32>; 1] = [Mrs::new(5, 1)];
    assert_eq!(min_max(&none, &t), None);
}

#[test]
fn reduce_gives_the_unstepped_segments() {
    let t = num();
    let src = mrs_set_b();
    assert_eq!(reduce_previous(&0, &22, &src, &t), (19, 22));
    let src = mrs_set_a();
    assert_eq!(reduce_next(&0, &22, &src, &t), (0, 1));
    assert_eq!(reduce_next(&0, &1, &src, &t), (0, 1));
    let src = vec![Mrs::new(5, 7), Mrs::new(4, 7)];
    assert_eq!(reduce_next(&4, &7, &src, &t), (4, 5));
}
