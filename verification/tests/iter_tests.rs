use std::ops::RangeInclusive;

use common_range_tools::{
    Column, Columns, Consolidate, ConsolidateChecker, ConsolidationOrder, CpCmp, DefaultValues,
    GetBeginEnd, IncDecCpCmp, Intersector, Mrs, MrsFactory, NumberIncDecCpCmp, OverlapIter,
    RangeRelation, RiFactory,
};

fn checkset() -> Vec<(i32, i32)> {
    vec![
        (0, 0),
        (1, 2),
        (3, 3),
        (4, 5),
        (6, 6),
        (8, 11),
        (13, 14),
        (15, 19),
        (20, 22),
    ]
}

fn checkset_rev() -> Vec<(i32, i32)> {
    let mut v = checkset();
    v.reverse();
    v
}

fn unordered_mrs_set() -> Vec<Mrs<i32>> {
    vec![
        Mrs::new(4, 5),
        Mrs::new(4, 6),
        Mrs::new(0, 3),
        Mrs::new(1, 2),
        // gap 1 is 7-7
        Mrs::new(8, 11),
        // gap 2 is 12-12
        Mrs::new(13, 22),
        Mrs::new(15, 19),
    ]
}

fn range_set() -> [RangeInclusive<i32>; 7] {
    [4..=5, 4..=6, 0..=3, 1..=2, 8..=11, 13..=22, 15..=19]
}

fn mrs_set() -> Vec<RangeInclusive<i32>> {
    vec![
        RangeInclusive::new(0, 3),
        RangeInclusive::new(1, 2),
        RangeInclusive::new(4, 5),
        RangeInclusive::new(4, 6),
        // gap 1 is 7-7
        RangeInclusive::new(8, 11),
        // gap 2 is 12-12
        RangeInclusive::new(13, 22),
        RangeInclusive::new(15, 19),
    ]
}

fn num() -> NumberIncDecCpCmp<i32> {
    NumberIncDecCpCmp::defaults()
}

fn walk_forward<R: GetBeginEnd<i32>, F: common_range_tools::GetBeginEndOption<i32, R>>(
    mut iter: OverlapIter<i32, i32, NumberIncDecCpCmp<i32>, R, F>,
) -> Vec<(i32, i32)> {
    let mut out = Vec::new();
    while let Some(r) = iter.next() {
        out.push(r.to_tuple());
    }
    out
}

fn walk_backward<R: GetBeginEnd<i32>, F: common_range_tools::GetBeginEndOption<i32, R>>(
    mut iter: OverlapIter<i32, i32, NumberIncDecCpCmp<i32>, R, F>,
) -> Vec<(i32, i32)> {
    let mut out = Vec::new();
    while let Some(r) = iter.next_back() {
        out.push(r.to_tuple());
    }
    out
}

#[test]
fn tests_iter_test() {
    let iter = OverlapIter::new(unordered_mrs_set(), 1, num(), MrsFactory::new());
    assert_eq!(walk_forward(iter), checkset());
}

#[test]
fn iter_from_vec_test() {
    let src = unordered_mrs_set();
    let iter = OverlapIter::new(src, 1, num(), MrsFactory::new());
    assert_eq!(walk_forward(iter), checkset());
}

#[test]
fn owned_iter_test() {
    let check = unordered_mrs_set();
    let t = num();
    let iter = OverlapIter::new(check, 1, t, MrsFactory::new());
    assert_eq!(walk_forward(iter), checkset());
}

#[test]
fn intersector_test() {
    let check = range_set();
    let t = num();
    let isec = Intersector::new(check.to_vec(), t.default_step(), t.default_rebound(), t, RiFactory::new());
    assert_eq!(walk_forward(isec.into_iter()), checkset());
}

#[test]
fn intersector_defaults_test() {
    let check = range_set();
    let iter = Intersector::num_from(&check);
    assert_eq!(walk_forward(iter), checkset());
}

#[test]
fn accumulate() {
    let mut a = Intersector::num_defaults();
    let src = range_set();
    for mrs in src {
        a.add_range(&mrs);
    }
    assert_eq!(walk_forward(a.into_iter()), checkset());
}

#[test]
fn iter_tests_iter_test() {
    let iter = OverlapIter::new(mrs_set(), 1, num(), RiFactory::new());
    let res = walk_forward(iter);
    assert_eq!(res, checkset());
    assert_eq!(res.len() - 1, 8);
}

#[test]
fn iter_test_rev() {
    let src: Vec<Mrs<i32>> = mrs_set().into_iter().map(|v| v.into()).collect();
    let iter = OverlapIter::new(src, 1, num(), MrsFactory::new());
    assert_eq!(walk_backward(iter), checkset_rev());
}

#[test]
fn iter_bi() {
    let fwd = checkset();
    let rev = checkset_rev();
    let mut iter = OverlapIter::new(mrs_set(), 1, num(), RiFactory::new());

    assert_eq!(iter.next().unwrap().to_tuple(), fwd[0]);
    assert_eq!(iter.next_back().unwrap().to_tuple(), rev[0]);
    assert_eq!(iter.next().unwrap().to_tuple(), fwd[1]);
    assert_eq!(iter.next_back().unwrap().to_tuple(), rev[1]);
    assert_eq!(iter.next().unwrap().to_tuple(), fwd[2]);
    assert_eq!(iter.next_back().unwrap().to_tuple(), rev[2]);
    assert_eq!(iter.next().unwrap().to_tuple(), fwd[3]);
}

#[test]
fn iter_bi_meets_in_the_middle() {
    let mut iter = OverlapIter::new(mrs_set(), 1, num(), RiFactory::new());
    let mut seen = Vec::new();
    loop {
        match iter.next() {
            Some(r) => seen.push(r.to_tuple()),
            None => break,
        }
        match iter.next_back() {
            Some(r) => seen.push(r.to_tuple()),
            None => break,
        }
    }
    seen.sort();
    seen.dedup();
    assert_eq!(seen, checkset());
}

#[test]
fn bi_tests_with_num_defalts() {
    let mut a = Intersector::num_defaults();
    for r in mrs_set() {
        let (_, check) = a.add_range(&r).unwrap();
        assert_eq!(check.to_tuple_ref(), r.to_tuple_ref());
    }
    let mut iter = a.into_iter();
    let fwd = checkset();
    let rev = checkset_rev();
    assert_eq!(iter.next().unwrap().to_tuple(), fwd[0]);
    assert_eq!(iter.next_back().unwrap().to_tuple(), rev[0]);
    assert_eq!(iter.next().unwrap().to_tuple(), fwd[1]);
    assert_eq!(iter.next_back().unwrap().to_tuple(), rev[1]);
    assert_eq!(iter.next().unwrap().to_tuple(), fwd[2]);
    assert_eq!(iter.next_back().unwrap().to_tuple(), rev[2]);
    assert_eq!(iter.next().unwrap().to_tuple(), fwd[3]);
}

#[test]
fn bi_tests_with_num() {
    let cmp = num();
    let mut a = Intersector::num(cmp.default_step(), cmp.default_rebound(), cmp.min(), cmp.max());
    assert_eq!(cmp.max(), a.get_cmp_mut().max());
    for r in mrs_set() {
        let (_, check) = a.add_range(&r).unwrap();
        assert_eq!(check.to_tuple_ref(), r.to_tuple_ref());
    }
    let mut iter = a.into_iter();
    let fwd = checkset();
    let rev = checkset_rev();
    assert_eq!(iter.next().unwrap().to_tuple(), fwd[0]);
    assert_eq!(iter.next_back().unwrap().to_tuple(), rev[0]);
    assert_eq!(iter.next().unwrap().to_tuple(), fwd[1]);
    assert_eq!(iter.next_back().unwrap().to_tuple(), rev[1]);
    assert_eq!(iter.next().unwrap().to_tuple(), fwd[2]);
    assert_eq!(iter.next_back().unwrap().to_tuple(), rev[2]);
    assert_eq!(iter.next().unwrap().to_tuple(), fwd[3]);
}

#[test]
fn accumulate_struct() {
    let t: NumberIncDecCpCmp<i32> = NumberIncDecCpCmp::defaults();
    assert_eq!(t.cp_v(&2), 2);
    let list: Vec<Mrs<i32>> = Vec::new();
    let mut a = Intersector::new(list, 1, 1, t, MrsFactory::new());

    a.add_range(&(..=2));
    a.add_range(&(1..=3));
    a.add_range(&(3..=4));
    a.add_range(&(3..));
    let mut i = a.into_iter();

    assert_eq!(i.next().unwrap().to_tuple(), (i32::MIN, 0));
    assert_eq!(i.next().unwrap().to_tuple(), (1, 2));
    assert_eq!(i.next().unwrap().to_tuple(), (3, 3));
    assert_eq!(i.next().unwrap().to_tuple(), (4, 4));
    assert_eq!(i.next().unwrap().to_tuple(), (5, i32::MAX));
    assert!(i.next().is_none());
    let mut a: Intersector<i32, i32, NumberIncDecCpCmp<i32>, Mrs<i32>, MrsFactory<i32>> =
        Intersector::new(Vec::new(), 1, 1, t, MrsFactory::new());

    a.set_rebound(2);
    assert_eq!(a.get_rebound(), &2);
    a.set_step(2);
    assert_eq!(a.get_step(), &2);
}

#[test]
fn consolidation_order_tests() {
    assert_eq!(
        ConsolidationOrder::Forward.check_direction(&RangeRelation::After(())),
        Err("Out of Forward Sequence, Expected: Before|Last|Overlap, got: After")
    );
    assert_eq!(
        ConsolidationOrder::Reverse.check_direction(&RangeRelation::Before(())),
        Err("Out of Reverse Sequence, Expected: After|Last|Overlap, got: Before")
    );

    for d in [ConsolidationOrder::Forward, ConsolidationOrder::Reverse] {
        for r in [RangeRelation::Overlap(()), RangeRelation::Last(())] {
            assert_eq!(d.check_direction(&r), Ok(()));
        }
    }

    let t = num();
    assert!(ConsolidationOrder::Forward.is_beyond(&Mrs::new(0, 2), &Mrs::new(0, 1), &t));
    assert!(!ConsolidationOrder::Forward.is_beyond(&Mrs::new(0, 2), &Mrs::new(0, 3), &t));

    assert!(ConsolidationOrder::Reverse.is_beyond(&Mrs::new(0, 2), &Mrs::new(1, 1), &t));
    assert!(!ConsolidationOrder::Reverse.is_beyond(&Mrs::new(0, 2), &Mrs::new(0, 3), &t));

    for rel in [ConsolidationOrder::Forward, ConsolidationOrder::Reverse] {
        assert!(rel.check_direction(&RangeRelation::Invalid(())).is_err());
    }

    assert!(ConsolidationOrder::Reverse.check_direction(&RangeRelation::After(())).is_ok());
    assert!(ConsolidationOrder::Forward.check_direction(&RangeRelation::After(())).is_err());
}

#[test]
fn consolidator_forward_num_tests() {
    let mut iter = Consolidate::num_defaults(mrs_set());

    assert_eq!(iter.next().unwrap().unwrap().0, 0..=3);
    assert_eq!(iter.next().unwrap().unwrap().0, 4..=6);
    assert_eq!(iter.next().unwrap().unwrap().0, 8..=11);
    assert_eq!(iter.next().unwrap().unwrap().0, 13..=22);
    assert!(iter.next().is_none());
}

#[test]
fn consolidate_check_tests() {
    let mut iter = Consolidate::num_defaults(mrs_set()).to_consolidate_checker(ConsolidationOrder::Forward);

    let inputs = vec![
        vec![RangeInclusive::new(0, 3), RangeInclusive::new(1, 2)],
        vec![RangeInclusive::new(4, 5), RangeInclusive::new(4, 6)],
        vec![RangeInclusive::new(8, 11)],
        vec![RangeInclusive::new(13, 22), RangeInclusive::new(15, 19)],
    ];

    let mut pos: usize = 0;
    for (i, check) in [0..=3, 4..=6, 8..=11, 13..=22].iter().enumerate() {
        let next = iter.next().unwrap();
        match next {
            Err(_) => panic!("Should not get an error"),
            Ok(raw) => {
                let (r, src) = raw.as_src();
                assert_eq!(r.to_tuple_ref(), check.to_tuple_ref());
                let check = &inputs[i];
                for (idx, cmp) in check.iter().enumerate() {
                    assert_eq!(src[idx].0, pos);
                    assert_eq!(src[idx].1.to_tuple_ref(), cmp.to_tuple_ref());
                    pos += 1;
                }
            }
        }
    }
    assert!(iter.next().is_none());
    iter = Consolidate::num_defaults(mrs_set()).to_consolidate_checker(ConsolidationOrder::Reverse);
    match iter.next().unwrap() {
        Err(_) => (),
        Ok(_) => panic!("Expected to error out"),
    }
}

#[test]
fn next_range_wanted_tests() {
    assert!(ConsolidationOrder::Forward.wants_next(&RangeRelation::Last(())));
    assert!(ConsolidationOrder::Forward.wants_next(&RangeRelation::Overlap(())));
    assert!(ConsolidationOrder::Forward.wants_next(&RangeRelation::Before(())));
    assert!(!ConsolidationOrder::Forward.wants_next(&RangeRelation::After(())));

    assert!(ConsolidationOrder::Reverse.wants_next(&RangeRelation::Last(())));
    assert!(ConsolidationOrder::Reverse.wants_next(&RangeRelation::Overlap(())));
    assert!(ConsolidationOrder::Reverse.wants_next(&RangeRelation::After(())));
    assert!(!ConsolidationOrder::Reverse.wants_next(&RangeRelation::Before(())));
}

#[test]
fn colums_forward_num_defaults() {
    let mut cols = Columns::num_defaults();
    assert!(cols.add_column(vec![Mrs::new(1, 2), Mrs::new(1, 1), Mrs::new(3, 3)]).is_ok());
    assert!(cols.add_column(vec![Mrs::new(2, 3), Mrs::new(2, 2)]).is_ok());

    let mut iter = cols.into_iter();

    let (mut range, _, mut src) = iter.next().unwrap();
    assert_eq!(range.to_tuple(), (1, 1));
    assert_eq!(src.len(), 2);
    match &src[0] {
        Ok(rows) => {
            assert_eq!(rows.len(), 1);
            let con = rows[0].as_ref();
            assert_eq!(con.to_tuple_ref(), (&1, &2));
            let src = con.src();
            assert_eq!(src.len(), 2);
            assert_eq!(src[0].0, 0);
            assert_eq!(src[1].0, 1);
            assert_eq!(src[0].1.to_tuple_ref(), (&1, &2));
            assert_eq!(src[1].1.to_tuple_ref(), (&1, &1));
        }
        Err(msg) => panic!("Did not expect error, got: {}", msg),
    }
    match &src[1] {
        Ok(rows) => {
            assert_eq!(rows.len(), 0);
        }
        Err(msg) => panic!("Did not expect error, got: {}", msg),
    }
    (range, _, src) = iter.next().unwrap();
    assert_eq!(range.to_tuple(), (2, 2));
    assert_eq!(src.len(), 2);
    match &src[0] {
        Ok(rows) => {
            let con = rows[0].as_ref();
            assert_eq!(con.to_tuple_ref(), (&1, &2));
            assert_eq!(rows.len(), 1);
            let src = con.src();
            assert_eq!(src.len(), 2);
            assert_eq!(src[0].0, 0);
            assert_eq!(src[0].1.to_tuple_ref(), (&1, &2));
            assert_eq!(src[1].0, 1);
            assert_eq!(src[1].1.to_tuple_ref(), (&1, &1));
        }
        Err(msg) => panic!("Did not expect error, got: {}", msg),
    }
    match &src[1] {
        Ok(rows) => {
            let con = rows[0].as_ref();
            assert_eq!(con.to_tuple_ref(), (&2, &3));
            assert_eq!(rows.len(), 1);
            let src = con.src();
            assert_eq!(src.len(), 2);
            assert_eq!(src[0].0, 0);
            assert_eq!(src[0].1.to_tuple_ref(), (&2, &3));
            assert_eq!(src[1].0, 1);
            assert_eq!(src[1].1.to_tuple_ref(), (&2, &2));
        }
        Err(msg) => panic!("Did not expect error, got: {}", msg),
    }
    (range, _, src) = iter.next().unwrap();
    assert_eq!(range.to_tuple(), (3, 3));
    assert_eq!(src.len(), 2);
    assert!(iter.next().is_none());
}

#[test]
fn column_tests_positive() {
    let t = num();
    let con = Consolidate::new(vec![Mrs::new(1, 2), Mrs::new(1, 1), Mrs::new(3, 3)], t, RiFactory::new());
    let checker = ConsolidateChecker::new(ConsolidationOrder::Forward, con);

    let mut isec = Intersector::new(Vec::new(), 1, 1, t, MrsFactory::new());
    let res = Column::new(&mut isec, checker);
    assert!(res.is_ok());
    let mut col = match res {
        Ok(c) => c,
        Err(_) => panic!("expected a column"),
    };
    let mut iter = isec.into_iter();
    let mut pos = iter.next().unwrap();
    assert_eq!(pos.to_tuple_ref(), (&1, &2));
    assert!(!col.update_column(&pos, &mut iter, false));
    let mut row = match col.filter_column(&pos) {
        Ok(r) => r,
        Err(e) => panic!("{}", e),
    };
    assert_eq!(row.len(), 1);
    assert_eq!(row[0].as_ref().to_tuple_ref(), (&1, &2));
    assert_eq!(row[0].src().len(), 2);
    assert_eq!(&row[0].src()[0].0, &0);
    assert_eq!(&row[0].src()[1].0, &1);

    assert_eq!(row[0].src()[0].1.to_tuple_ref(), (&1, &2));
    assert_eq!(row[0].src()[1].1.to_tuple_ref(), (&1, &1));
    assert!(iter.next().is_none());
    assert_eq!(iter.ln().1.unwrap().to_tuple_ref(), (&1, &2));

    assert!(col.update_column(&pos, &mut iter, true));
    pos = iter.recompute_next().unwrap();
    assert_eq!(pos.to_tuple_ref(), (&3, &3));
    row = match col.filter_column(&pos) {
        Ok(r) => r,
        Err(e) => panic!("{}", e),
    };
    assert_eq!(row.len(), 1);
    assert_eq!(row[0].as_ref().to_tuple_ref(), (&3, &3));
    assert_eq!(row[0].src().len(), 1);
    assert_eq!(&row[0].src()[0].0, &2);
    assert_eq!(row[0].src()[0].1.to_tuple_ref(), (&3, &3));
    assert!(iter.next().is_none());
    assert!(!col.in_err());
    let inner = col.to_inner();
    assert!(inner.0.is_ok());
}

#[test]
fn check_position_forward() {
    let t = num();
    assert_eq!(
        ConsolidationOrder::Forward.check_position(&Mrs::new(1, 2), &Mrs::new(1, 1), &t),
        (true, true)
    );
    assert_eq!(
        ConsolidationOrder::Forward.check_position(&Mrs::new(1, 2), &Mrs::new(1, 2), &t),
        (true, false)
    );
    assert_eq!(
        ConsolidationOrder::Forward.check_position(&Mrs::new(3, 3), &Mrs::new(1, 2), &t),
        (false, true)
    );
    assert_eq!(
        ConsolidationOrder::Forward.check_position(&Mrs::new(0, 0), &Mrs::new(1, 2), &t),
        (false, false)
    );
}

#[test]
fn check_position_reverse() {
    let t = num();
    assert_eq!(
        ConsolidationOrder::Reverse.check_position(&Mrs::new(1, 2), &Mrs::new(1, 1), &t),
        (true, false)
    );
    assert_eq!(
        ConsolidationOrder::Reverse.check_position(&Mrs::new(1, 2), &Mrs::new(1, 2), &t),
        (true, false)
    );
    assert_eq!(
        ConsolidationOrder::Reverse.check_position(&Mrs::new(3, 3), &Mrs::new(1, 2), &t),
        (false, false)
    );
    assert_eq!(
        ConsolidationOrder::Reverse.check_position(&Mrs::new(0, 0), &Mrs::new(1, 2), &t),
        (false, true)
    );
}

#[test]
fn constructor_num_sr_tests() {
    let i: Intersector<i32, i32, NumberIncDecCpCmp<i32>, RangeInclusive<i32>, RiFactory<i32>> =
        Intersector::num_sr(1);
    assert_eq!(i.get_step(), &1);
    assert_eq!(i.get_rebound(), &1);
}

#[test]
fn consoldaite_with_gap() {
    for (ia, ib, a, b) in [
        (vec![Mrs::new(3, 4), Mrs::new(5, 6)], vec![Mrs::new(1, 2), Mrs::new(7, 8)], 0, 1),
        (vec![Mrs::new(1, 2), Mrs::new(7, 8)], vec![Mrs::new(3, 4), Mrs::new(5, 6)], 1, 0),
    ] {
        let mut cols = Columns::num_defaults();
        assert!(cols.add_column(ia).is_ok());
        assert!(cols.add_column(ib).is_ok());
        let mut iter = cols.into_iter();

        let (mut range, _, mut cols) = iter.next().unwrap();
        assert_eq!(range.to_tuple(), (1, 2));
        assert_eq!(cols.len(), 2);
        if let Ok(col) = &cols[a] {
            assert_eq!(col.len(), 0);
        }
        if let Ok(col) = &cols[b] {
            assert_eq!(col.len(), 1);
            assert_eq!(col[0].as_ref().to_tuple_ref(), (&1, &2));
        }

        (range, _, cols) = iter.next().unwrap();
        assert_eq!(range.to_tuple(), (3, 4));
        if let Ok(col) = &cols[a] {
            assert_eq!(col.len(), 1);
            assert_eq!(col[0].as_ref().to_tuple_ref(), (&3, &4));
        }
        if let Ok(col) = &cols[b] {
            assert_eq!(col.len(), 0);
        }

        (range, _, cols) = iter.next().unwrap();
        assert_eq!(range.to_tuple(), (5, 6));
        if let Ok(col) = &cols[a] {
            assert_eq!(col.len(), 1);
            assert_eq!(col[0].as_ref().to_tuple_ref(), (&5, &6));
        }
        if let Ok(col) = &cols[b] {
            assert_eq!(col.len(), 0);
        }

        (range, _, cols) = iter.next().unwrap();
        assert_eq!(range.to_tuple(), (7, 8));
        if let Ok(col) = &cols[a] {
            assert_eq!(col.len(), 0);
        }
        if let Ok(col) = &cols[b] {
            assert_eq!(col.len(), 1);
            assert_eq!(col[0].as_ref().to_tuple_ref(), (&7, &8));
        }
        assert!(iter.next().is_none());
    }
}

#[test]
fn num_defaults_columns_rev() {
    for (ia, ib, a, b) in [
        (vec![Mrs::new(5, 6), Mrs::new(3, 4)], vec![Mrs::new(7, 8), Mrs::new(1, 2)], 0, 1),
        (vec![Mrs::new(7, 8), Mrs::new(1, 2)], vec![Mrs::new(5, 6), Mrs::new(3, 4)], 1, 0),
    ] {
        let mut cols = Columns::num_defaults_rev();
        assert!(cols.add_column(ia).is_ok());
        assert!(cols.add_column(ib).is_ok());
        let mut iter = cols.into_iter();

        let (mut range, _, mut cols) = iter.next().unwrap();
        assert_eq!(range.to_tuple(), (7, 8));
        assert_eq!(cols.len(), 2);
        if let Ok(col) = &cols[a] {
            assert_eq!(col.len(), 0);
        }
        if let Ok(col) = &cols[b] {
            assert_eq!(col.len(), 1);
            assert_eq!(col[0].as_ref().to_tuple_ref(), (&7, &8));
        }
        (range, _, cols) = iter.next().unwrap();
        assert_eq!(range.to_tuple(), (5, 6));
        if let Ok(col) = &cols[a] {
            assert_eq!(col.len(), 1);
            assert_eq!(col[0].as_ref().to_tuple_ref(), (&5, &6));
        }
        if let Ok(col) = &cols[b] {
            assert_eq!(col.len(), 0);
        }
        (range, _, cols) = iter.next().unwrap();
        assert_eq!(range.to_tuple(), (3, 4));
        if let Ok(col) = &cols[a] {
            assert_eq!(col.len(), 1);
            assert_eq!(col[0].as_ref().to_tuple_ref(), (&3, &4));
        }
        if let Ok(col) = &cols[b] {
            assert_eq!(col.len(), 0);
        }
        (range, _, cols) = iter.next().unwrap();
        assert_eq!(range.to_tuple(), (1, 2));
        if let Ok(col) = &cols[a] {
            assert_eq!(col.len(), 0);
        }
        if let Ok(col) = &cols[b] {
            assert_eq!(col.len(), 1);
            assert_eq!(col[0].as_ref().to_tuple_ref(), (&1, &2));
        }
        assert!(iter.next().is_none());
    }
}

#[test]
fn sticky_columns_test() {
    let mut cols = Columns::num_defaults();
    assert!(cols.add_column(vec![Mrs::new(0, 3)]).is_ok());
    assert!(cols
        .add_column(vec![Mrs::new(0, 0), Mrs::new(1, 1), Mrs::new(2, 2), Mrs::new(3, 3)])
        .is_ok());
    let mut iter = cols.into_iter();
    let mut i = 0;
    while let Some(row) = iter.next() {
        assert_eq!(row.0.to_tuple_ref(), (&i, &i));
        i += 1;
    }
    assert_eq!(i, 4);
    let mut cols = Columns::num_sr(1);
    assert!(cols.add_column(vec![Mrs::new(0, 3)]).is_ok());
    assert!(cols
        .add_column(vec![Mrs::new(0, 0), Mrs::new(1, 1), Mrs::new(2, 2), Mrs::new(3, 3)])
        .is_ok());
    let mut iter = cols.into_iter();
    let mut i = 0;
    while let Some(row) = iter.next() {
        assert_eq!(row.0.to_tuple_ref(), (&i, &i));
        i += 1;
    }
    assert_eq!(i, 4);
    let mut cols = Columns::num_sr(1);
    assert!(cols.add_column(vec![Mrs::new(0, 3)]).is_ok());
    let inner = cols.into_iter().into_inner();
    assert_eq!(inner.1.len(), 1);
    assert!(inner.3);
}

#[test]
fn test_redo_next() {
    let mut isec = Intersector::num_defaults();
    isec.add_range(&(1..=1));
    isec.add_range(&(1..=1));
    let mut iter = isec.into_iter();
    let mut next = iter.next();
    assert!(next.is_some());
    assert_eq!(next.unwrap().to_tuple(), (1, 1));
    next = iter.next();
    assert!(next.is_none());
    assert!(iter.update_column(1, 1..=2).is_ok());
    next = iter.recompute_next();
    assert!(next.is_some());
    assert_eq!(next.unwrap().to_tuple(), (2, 2));
    assert!(iter.next().is_none());
    assert!(iter.update_column(0, 3..=3).is_ok());
    next = iter.recompute_next();
    assert!(next.is_some());
    assert_eq!(next.unwrap().to_tuple(), (3, 3));
    assert!(iter.next().is_none());
}

#[test]
fn test_redo_next_rev() {
    let mut isec = Intersector::num_defaults();
    isec.add_range(&(3..=3));
    isec.add_range(&(3..=3));
    let mut iter = isec.into_iter();

    let mut back = iter.next_back();
    assert!(back.is_some());
    assert_eq!(back.unwrap().to_tuple(), (3, 3));
    assert!(iter.next_back().is_none());
    assert!(iter.update_column(1, 2..=3).is_ok());
    back = iter.recompute_back();
    assert!(back.is_some());
    assert_eq!(back.unwrap().to_tuple(), (2, 2));
    assert!(iter.next_back().is_none());
    assert!(iter.update_column(0, 1..=3).is_ok());
    back = iter.recompute_back();
    assert!(back.is_some());
    assert_eq!(back.unwrap().to_tuple(), (1, 1));
    assert!(iter.next_back().is_none());
}

#[test]
fn test_redo_next_overlaps() {
    let mut isec = Intersector::num_defaults();
    isec.add_range(&(2..=3));
    isec.add_range(&(1..=2));
    let mut iter = isec.into_iter();
    let mut next = iter.next();
    assert!(next.is_some());
    assert_eq!(next.unwrap().to_tuple(), (1, 1));
    assert!(iter.update_column(1, 2..=3).is_ok());
    next = iter.recompute_next();
    assert!(next.is_some());
    assert_eq!(next.unwrap().to_tuple(), (2, 3));
    assert!(iter.next().is_none());
}

#[test]
fn update_column_errors() {
    let mut isec = Intersector::num(1, 1, 0, 10);
    isec.add_range(&(2..=3));
    let mut iter = isec.into_iter();
    assert_eq!(iter.update_column(1, 2..=3), Err("No such Column"));
    assert_eq!(iter.update_column(0, 4..=3), Err("Invalid Range"));
    assert_eq!(iter.update_column(0, 4..=11), Err("Invalid Range"));
}

#[test]
fn from_tests() {
    let cmp = [(0, 0), (1, 2), (3, 5)];
    let got = walk_forward(Intersector::num_from(&[0..=2, 1..=5]));
    assert_eq!(got, cmp.to_vec());
    let got = walk_forward(Intersector::num_sr_from(1, &[0..=2, 1..=5]));
    assert_eq!(got, cmp.to_vec());
    let cmp = [(5, 5), (1, 4), (0, 0)];
    let got = walk_backward(Intersector::num_from(&[0..=4, 1..=5]));
    assert_eq!(got, cmp.to_vec());
}

#[test]
fn consolidate_error_tests() {
    let mut checker = ConsolidateChecker::new(
        ConsolidationOrder::Forward,
        Consolidate::num_defaults(vec![0..=3, 2..=5, 6..=6, 7..=7, 1..=1]),
    );
    let mut next = checker.next().unwrap();
    assert!(next.is_ok());
    let mut row = match next {
        Ok(r) => r,
        Err(_) => panic!("expected a group"),
    };
    assert_eq!(row.to_tuple_ref(), (&0, &5));
    next = checker.next().unwrap();
    assert!(next.is_ok());
    row = match next {
        Ok(r) => r,
        Err(_) => panic!("expected a group"),
    };
    assert_eq!(row.to_tuple_ref(), (&6, &6));

    next = checker.next().unwrap();
    assert!(next.is_err());
    (_, row) = match next {
        Ok(_) => panic!("expected an error"),
        Err(e) => e,
    };
    assert_eq!(row.to_tuple_ref(), (&1, &7));
    assert_eq!(row.src().len(), 2);
    assert_eq!(row.src()[0], (3, 7..=7));
    assert_eq!(row.src()[1], (4, 1..=1));
    assert!(checker.next().is_none());
}

#[test]
fn columns_negative_test_out_of_order() {
    let mut cols = Columns::num_defaults();
    assert!(cols.add_column(vec![0..=3, 2..=5, 6..=6, 7..=7, 1..=1, 8..=9]).is_ok());
    let mut iter = cols.into_iter();
    let mut row = iter.next().unwrap();
    assert_eq!(row.0, 0..=5);

    row = iter.next().unwrap();
    assert!(row.1.is_ok());
    assert_eq!(row.0, 6..=6);
    row = iter.next().unwrap();
    assert!(row.1.is_err());
    assert_eq!(row.0, 7..=7);
    assert!(row.2[0].is_err());
    assert!(row.1.is_err());
    assert_eq!(iter.get_column(0).unwrap().get_rows()[0].src().len(), 2);
    row = iter.next().unwrap();
    assert!(row.2[0].is_ok());
    assert!(row.1.is_ok());
    assert_eq!(row.0, 8..=9);
}

#[test]
fn columns_add_column_failures() {
    let mut cols = Columns::num(ConsolidationOrder::Forward, 1, 1, 1, 3);
    assert_eq!(cols.add_column(vec![Mrs::new(1, 2), Mrs::new(1, 1), Mrs::new(3, 3)]).ok(), Some(0));
    let mut cols = Columns::num(ConsolidationOrder::Forward, 1, 1, 1, 1);
    assert!(cols.add_column(vec![Mrs::new(1, 2), Mrs::new(1, 1), Mrs::new(3, 3)]).is_err());
    let mut cols = Columns::num(ConsolidationOrder::Reverse, 1, 1, 0, 9);
    assert!(cols.add_column(vec![Mrs::new(1, 2), Mrs::new(1, 1), Mrs::new(3, 3)]).is_err());

    let mut cols = Columns::num(ConsolidationOrder::Forward, 1, 1, 0, 9);
    assert_eq!(cols.add_column(vec![Mrs::new(1, 2), Mrs::new(1, 1), Mrs::new(3, 3)]).ok(), Some(0));
    match cols.add_column(vec![Mrs::new(-11, 2), Mrs::new(1, 1), Mrs::new(3, 3)]) {
        Ok(_) => panic!("expected an invalid column"),
        Err(c) => assert_eq!(c.get_column(), Err("Range Compare contained Invalid range(s)")),
    }
    match cols.add_column(vec![]) {
        Ok(_) => panic!("expected an empty column"),
        Err(c) => assert_eq!(c.get_column(), Err("checker has no next()")),
    }
    assert_eq!(cols.add_column(vec![Mrs::new(4, 5)]).ok(), Some(1));
    let mut cols = Columns::num(ConsolidationOrder::Forward, 1, 1, 0, 9);
    match cols.add_column(vec![Mrs::new(5, 12)]) {
        Ok(_) => panic!("expected a column out of bounds"),
        Err(c) => assert_eq!(c.get_column(), Err("Failed to add column from: checker")),
    }
}

#[test]
fn from_examples() {
    let mut isec = Intersector::num(1, 1, 0, 8);
    let range: std::ops::Range<i32> = 1..4;
    assert!(isec.add_range(&range).is_some());

    let range_inclusive: std::ops::RangeInclusive<i32> = 3..=5;
    assert!(isec.add_range(&range_inclusive).is_some());

    let min_to_end: std::ops::RangeToInclusive<i32> = ..=7;
    assert!(isec.add_range(&min_to_end).is_some());

    let min_max: std::ops::RangeFull = ..;
    assert!(isec.add_range(&min_max).is_some());
    let mut iter = isec.into_iter();

    assert_eq!(iter.next().unwrap().to_tuple_ref(), (&0, &0));
    assert_eq!(iter.next().unwrap().to_tuple_ref(), (&1, &2));
    assert_eq!(iter.next().unwrap().to_tuple_ref(), (&3, &3));
    assert_eq!(iter.next().unwrap().to_tuple_ref(), (&4, &5));
    assert_eq!(iter.next().unwrap().to_tuple_ref(), (&6, &7));
    assert_eq!(iter.next().unwrap().to_tuple_ref(), (&8, &8));
}

#[test]
fn reverse_iter_complex_test() {
    let mut isec = Intersector::num(1, 1, 0, 8);
    let range: std::ops::Range<i32> = 1..4;
    assert!(isec.add_range(&range).is_some());

    let range_inclusive: std::ops::RangeInclusive<i32> = 3..=5;
    assert!(isec.add_range(&range_inclusive).is_some());

    let min_to_end: std::ops::RangeToInclusive<i32> = ..=7;
    assert!(isec.add_range(&min_to_end).is_some());

    let min_max: std::ops::RangeFull = ..;
    assert!(isec.add_range(&min_max).is_some());
    let mut iter = isec.into_iter();
    assert_eq!(iter.next_back().unwrap().to_tuple_ref(), (&8, &8));
    assert_eq!(iter.next_back().unwrap().to_tuple_ref(), (&6, &7));
    assert_eq!(iter.next_back().unwrap().to_tuple_ref(), (&4, &5));
    assert_eq!(iter.next_back().unwrap().to_tuple_ref(), (&3, &3));
    assert_eq!(iter.next_back().unwrap().to_tuple_ref(), (&1, &2));
    assert_eq!(iter.next_back().unwrap().to_tuple_ref(), (&0, &0));
}

#[test]
fn readme_example() {
    let got = walk_forward(Intersector::num_from(&[1..=4, 0..=3, 3..=11, 10..=22]));
    assert_eq!(got, vec![(0, 0), (1, 2), (3, 3), (4, 4), (5, 9), (10, 11), (12, 22)]);
}

#[test]
fn add_range_rejects_invalid() {
    let mut isec = Intersector::num(1, 1, 0, 8);
    assert!(isec.add_range(&(5..=3)).is_none());
    assert!(isec.add_range(&(3..=9)).is_none());
    assert!(isec.add_tuple((1, 2)).is_some());
    assert!(isec.add_tuple((2, 1)).is_none());
    assert_eq!(isec.add_raw_range(4..=6).map(|p| p.0), Some(1));
    assert_eq!(isec.rebound(&(2..5)), Some((2, 4)));
}

#[test]
fn column_without_index_reports_its_message() {
    let t = num();
    let con = Consolidate::new(Vec::<Mrs<i32>>::new(), t, RiFactory::new());
    let checker = ConsolidateChecker::new(ConsolidationOrder::Forward, con);
    let mut isec = Intersector::new(Vec::new(), 1, 1, t, MrsFactory::new());
    let mut col = match Column::new(&mut isec, checker) {
        Ok(_) => panic!("an empty column has no index"),
        Err(c) => c,
    };
    assert!(col.in_err());
    assert_eq!(col.get_column(), Err("checker has no next()"));
    assert_eq!(col.filter_column(&Mrs::new(0, 1)).err(), Some("checker has no next()"));
    let mut iter = isec.into_iter();
    assert!(!col.update_column(&Mrs::new(0, 1), &mut iter, false));
    let (idx, rows, _) = col.to_inner();
    assert!(idx.is_err());
    assert_eq!(rows.len(), 0);
}

fn overlaps_of(
    walk: &mut common_range_tools::OverlapIterWithOverlaps<
        i32,
        i32,
        NumberIncDecCpCmp<i32>,
        RangeInclusive<i32>,
        RiFactory<i32>,
    >,
    forward: bool,
) -> Vec<((i32, i32), Vec<(i32, i32)>)> {
    let mut out = Vec::new();
    loop {
        let step = if forward { walk.next() } else { walk.next_back() };
        match step {
            None => break,
            Some((seg, mut list)) => {
                let mut found = Vec::new();
                while let Some(r) = list.next() {
                    found.push(r.clone().to_tuple());
                }
                out.push((seg.to_tuple(), found));
            }
        }
    }
    out
}

#[test]
fn segments_with_their_ranges() {
    let src = [1..=4, 0..=3, 3..=11, 10..=22];
    let mut walk = Intersector::num_from_ol(&src);
    let expected = vec![
        ((0, 0), vec![(0, 3)]),
        ((1, 2), vec![(1, 4), (0, 3)]),
        ((3, 3), vec![(1, 4), (0, 3), (3, 11)]),
        ((4, 4), vec![(1, 4), (3, 11)]),
        ((5, 9), vec![(3, 11)]),
        ((10, 11), vec![(3, 11), (10, 22)]),
        ((12, 22), vec![(10, 22)]),
    ];
    assert_eq!(overlaps_of(&mut walk, true), expected);
    walk.reset();
    let mut reversed = expected.clone();
    reversed.reverse();
    assert_eq!(overlaps_of(&mut walk, false), reversed);
}

#[test]
fn checker_reports_out_of_order_rows() {
    let mut checker = Consolidate::num_defaults(vec![1..=4, 3..=5, 10..=12, 10..=11, 13..=13, 1..=2])
        .to_consolidate_checker(ConsolidationOrder::Forward);
    let mut out = Vec::new();
    while let Some(item) = checker.next() {
        match item {
            Ok(row) => {
                let (outer, src) = row.as_src();
                out.push((Ok(outer.to_tuple()), src.iter().map(|p| (p.0, p.1.clone().to_tuple())).collect::<Vec<_>>()));
            }
            Err((msg, row)) => {
                let (outer, src) = row.as_src();
                out.push((Err((msg, outer.to_tuple())), src.iter().map(|p| (p.0, p.1.clone().to_tuple())).collect::<Vec<_>>()));
            }
        }
    }
    assert_eq!(
        out,
        vec![
            (Ok((1, 5)), vec![(0, (1, 4)), (1, (3, 5))]),
            (Ok((10, 12)), vec![(2, (10, 12)), (3, (10, 11))]),
            (
                Err(("Out of Forward Sequence, Expected: Before|Last|Overlap, got: After", (1, 13))),
                vec![(4, (13, 13)), (5, (1, 2))]
            ),
        ]
    );
}
