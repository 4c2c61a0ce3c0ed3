use common_range_tools::{
    consolidate, first_range_begin_end, grow, last_range_begin_end, sort_forward, sort_reverse,
    Consolidate, ConsolidationOrder, next_range_begin_end, next_smallest_range, previous_range_begin_end,
    previous_smallest_range, range_relation, Columns, GetBeginEnd, Intersector, Mrs, MrsFactory,
    NumberIncDecCpCmp, RangeRelation,
};

fn num() -> NumberIncDecCpCmp<i32> {
    NumberIncDecCpCmp::defaults()
}

fn set() -> Vec<Mrs<i32>> {
    vec![Mrs::new(1, 4), Mrs::new(0, 3), Mrs::new(3, 11), Mrs::new(10, 22), Mrs::new(30, 31)]
}

fn uniform(seg: (i32, i32), ranges: &[Mrs<i32>]) -> bool {
    ranges.iter().all(|r| {
        let (a, z) = (*r.get_begin(), *r.get_end());
        (a <= seg.0 && seg.1 <= z) || z < seg.0 || seg.1 < a
    })
}

#[test]
fn relation_mirrors() {
    let t = num();
    let pairs = [((0, 1), (2, 3)), ((0, 5), (2, 3)), ((4, 6), (1, 3)), ((1, 1), (1, 1))];
    for (a, b) in pairs {
        let ab = range_relation(&Mrs::new(a.0, a.1), &Mrs::new(b.0, b.1), &t);
        let ba = range_relation(&Mrs::new(b.0, b.1), &Mrs::new(a.0, a.1), &t);
        match ab {
            RangeRelation::Before(_) => assert!(ba.is_after()),
            RangeRelation::After(_) => assert!(ba.is_before()),
            RangeRelation::Overlap(_) => assert!(ba.is_overlap()),
            _ => panic!("valid ranges relate"),
        }
    }
}

#[test]
fn grown_range_holds_both() {
    let t = num();
    let f = MrsFactory::new();
    let g: Mrs<i32> = grow(&Mrs::new(4, 9), &Mrs::new(-2, 5), &t, &f);
    assert_eq!(g.to_tuple(), (-2, 9));
}

#[test]
fn groups_hold_their_sources() {
    let t = num();
    let f = MrsFactory::new();
    let mut input = vec![Mrs::new(0, 3), Mrs::new(2, 8), Mrs::new(1, 1), Mrs::new(9, 9)];
    let mut last: Option<(Mrs<i32>, Vec<(usize, Mrs<i32>)>)> = None;
    let mut offset = 0;
    loop {
        let (o, next) = consolidate(&mut last, &mut input, &t, &f, offset);
        offset = o;
        match next {
            None => break,
            Some(rel) => {
                let (hull, members) = rel.unwrap();
                for (_, m) in members.iter() {
                    assert!(hull.get_begin() <= m.get_begin() && m.get_end() <= hull.get_end());
                }
            }
        }
    }
    assert_eq!(offset, 4);
}

#[test]
fn segments_are_common_intersections() {
    let t = num();
    let src = set();
    let mut point = 0;
    let mut count = 0;
    while let Some(seg) = next_range_begin_end(&point, &src, &1, &t) {
        assert!(seg.0 <= seg.1);
        assert!(uniform(seg, &src));
        if seg.1 == i32::MAX {
            break;
        }
        point = seg.1 + 1;
        count += 1;
    }
    assert_eq!(count, 8);
    let seg = next_smallest_range(&0, &22, &src, &1, &t);
    assert_eq!(seg, (0, 0));
    assert!(uniform(seg, &src));
}

#[test]
fn segments_backward_are_common_intersections() {
    let t = num();
    let src = set();
    let mut end = 31;
    let mut seen = Vec::new();
    while let Some(seg) = previous_range_begin_end(&end, &src, &1, &t) {
        assert!(seg.0 <= seg.1 && seg.1 <= end);
        assert!(uniform(seg, &src));
        seen.push(seg);
        if seg.0 == i32::MIN {
            break;
        }
        end = seg.0 - 1;
    }
    assert_eq!(
        seen,
        vec![(30, 31), (12, 22), (10, 11), (5, 9), (4, 4), (3, 3), (1, 2), (0, 0)]
    );
    let seg = previous_smallest_range(&0, &22, &src, &1, &t);
    assert_eq!(seg, (12, 22));
}

#[test]
fn walk_moves_strictly_forward_and_backward() {
    let mut iter = Intersector::num_from(&[1..=4, 0..=3, 3..=11, 10..=22]);
    let mut prev: Option<(i32, i32)> = None;
    while let Some(r) = iter.next() {
        let cur = r.to_tuple();
        if let Some(p) = prev {
            assert!(p.1 < cur.0);
        }
        prev = Some(cur);
    }
    let mut iter = Intersector::num_from(&[1..=4, 0..=3, 3..=11, 10..=22]);
    let mut prev: Option<(i32, i32)> = None;
    while let Some(r) = iter.next_back() {
        let cur = r.to_tuple();
        if let Some(p) = prev {
            assert!(cur.1 < p.0);
        }
        prev = Some(cur);
    }
}

#[test]
fn columns_report_only_overlapping_groups() {
    let mut cols = Columns::num_defaults();
    assert!(cols.add_column(vec![Mrs::new(0, 4), Mrs::new(8, 9)]).is_ok());
    assert!(cols.add_column(vec![Mrs::new(2, 8)]).is_ok());
    let mut iter = cols.into_iter();
    let mut segments = Vec::new();
    while let Some((seg, err, cols)) = iter.next() {
        assert!(err.is_ok());
        for c in cols.iter() {
            if let Ok(rows) = c {
                for row in rows.iter() {
                    assert!(!(row.get_end() < seg.start() || seg.end() < row.get_begin()));
                }
            }
        }
        segments.push(seg.to_tuple());
    }
    assert_eq!(segments, vec![(0, 1), (2, 4), (5, 7), (8, 8), (9, 9)]);
}

#[test]
fn sorted_input_passes_the_check() {
    let t = num();
    let raw = vec![6..=9, 0..=11, 22..=33, 2..=3, 34..=39, 7..=9, 6..=7];

    let mut fwd = raw.clone();
    fwd.sort_by(|a, b| sort_forward(a, b, &t));
    let mut checker = Consolidate::num_defaults(fwd).to_consolidate_checker(ConsolidationOrder::Forward);
    let mut hulls = Vec::new();
    while let Some(item) = checker.next() {
        match item {
            Ok(g) => hulls.push(g.to_tuple()),
            Err((msg, _)) => panic!("{}", msg),
        }
    }
    assert_eq!(hulls, vec![(0, 11), (22, 33), (34, 39)]);

    let mut rev = raw.clone();
    rev.sort_by(|a, b| sort_reverse(a, b, &t));
    let mut checker = Consolidate::num_defaults(rev).to_consolidate_checker(ConsolidationOrder::Reverse);
    let mut hulls = Vec::new();
    while let Some(item) = checker.next() {
        match item {
            Ok(g) => hulls.push(g.to_tuple()),
            Err((msg, _)) => panic!("{}", msg),
        }
    }
    assert_eq!(hulls, vec![(34, 39), (22, 33), (0, 11)]);

    let mut checker = Consolidate::num_defaults(raw).to_consolidate_checker(ConsolidationOrder::Forward);
    let mut errors = 0;
    while let Some(item) = checker.next() {
        if item.is_err() {
            errors += 1;
        }
    }
    assert!(errors > 0);
}

#[test]
fn walk_begins_and_ends_with_the_ranges() {
    let t = num();
    let src = set();
    assert_eq!(first_range_begin_end(&src, &1, &t), Some((0, 0)));
    assert_eq!(last_range_begin_end(&src, &1, &t), Some((30, 31)));
    let none: Vec<Mrs<i32>> = vec![Mrs::new(3, 2)];
    assert_eq!(first_range_begin_end(&none, &1, &t), None);
    assert_eq!(last_range_begin_end(&none, &1, &t), None);
}

#[test]
fn no_covered_value_is_skipped() {
    let t = num();
    let src = set();
    // 23..=29 is covered by nothing: from 23 the walk goes on at 30.
    assert_eq!(next_range_begin_end(&23, &src, &1, &t), Some((30, 31)));
    assert_eq!(previous_range_begin_end(&29, &src, &1, &t), Some((12, 22)));
    assert_eq!(next_range_begin_end(&32, &src, &1, &t), None);
    assert_eq!(previous_range_begin_end(&-1, &src, &1, &t), None);
}

#[test]
fn segments_end_where_ranges_change() {
    let t = num();
    let src = set();
    let mut point = 0;
    while let Some(seg) = next_range_begin_end(&point, &src, &1, &t) {
        let at_end = src.iter().any(|r| *r.get_end() == seg.1);
        let before_begin = src.iter().any(|r| *r.get_begin() == seg.1 + 1);
        assert!(at_end || before_begin);
        point = seg.1 + 1;
    }
    let mut end = 31;
    while let Some(seg) = previous_range_begin_end(&end, &src, &1, &t) {
        let at_begin = src.iter().any(|r| *r.get_begin() == seg.0);
        let after_end = src.iter().any(|r| *r.get_end() + 1 == seg.0);
        assert!(at_begin || after_end);
        end = seg.0 - 1;
    }
}

#[test]
fn groups_list_their_sources_in_order() {
    let t = num();
    let f = MrsFactory::new();
    let whole = vec![Mrs::new(0, 3), Mrs::new(2, 8), Mrs::new(1, 1), Mrs::new(9, 9), Mrs::new(9, 12)];
    let mut input = vec![Mrs::new(0, 3), Mrs::new(2, 8), Mrs::new(1, 1), Mrs::new(9, 9), Mrs::new(9, 12)];
    let mut last: Option<(Mrs<i32>, Vec<(usize, Mrs<i32>)>)> = None;
    let mut offset = 0;
    let mut groups = Vec::new();
    loop {
        let (o, next) = consolidate(&mut last, &mut input, &t, &f, offset);
        offset = o;
        match next {
            None => break,
            Some(rel) => {
                let (_, members) = rel.unwrap();
                for (k, (pos, m)) in members.iter().enumerate() {
                    assert_eq!(*pos, members[0].0 + k);
                    assert_eq!(m.to_tuple_ref(), whole[*pos].to_tuple_ref());
                }
                groups.push(members.iter().map(|p| p.0).collect::<Vec<usize>>());
            }
        }
    }
    assert_eq!(groups, vec![vec![0, 1, 2], vec![3, 4]]);
}

fn holds_same(src: &[Mrs<i32>], x: i32, y: i32) -> bool {
    src.iter().all(|r| {
        let (a, z) = (*r.get_begin(), *r.get_end());
        (a <= x && x <= z) == (a <= y && y <= z)
    })
}

fn forward_segments(src: &[Mrs<i32>]) -> Vec<(i32, i32)> {
    let t = num();
    let mut out = Vec::new();
    let mut next = first_range_begin_end(src, &1, &t);
    while let Some(seg) = next {
        out.push(seg);
        next = next_range_begin_end(&(seg.1 + 1), src, &1, &t);
    }
    out
}

fn backward_segments(src: &[Mrs<i32>]) -> Vec<(i32, i32)> {
    let t = num();
    let mut out = Vec::new();
    let mut next = last_range_begin_end(src, &1, &t);
    while let Some(seg) = next {
        out.push(seg);
        next = previous_range_begin_end(&(seg.0 - 1), src, &1, &t);
    }
    out
}

#[test]
fn segments_are_as_long_as_they_can_be() {
    let src = set();
    for seg in forward_segments(&src) {
        assert!(!holds_same(&src, seg.1, seg.1 + 1));
        assert!(!holds_same(&src, seg.0, seg.0 - 1));
    }
    let t = num();
    // Within 0..=22 the first segment stops where 1..=4 begins.
    let seg = next_smallest_range(&0, &22, &src, &1, &t);
    assert_eq!(seg, (0, 0));
    assert!(!holds_same(&src, 0, 1));
}

#[test]
fn each_segment_is_found_both_ways() {
    let t = num();
    let src = set();
    for seg in forward_segments(&src) {
        assert_eq!(previous_range_begin_end(&seg.1, &src, &1, &t), Some(seg));
        assert_eq!(next_range_begin_end(&seg.0, &src, &1, &t), Some(seg));
    }
    // From 3..=7 backward to 0: the last segment of 0..=4 is 3..=3, found again forward.
    let seg = previous_smallest_range(&0, &3, &src, &1, &t);
    assert_eq!(seg, (3, 3));
    assert_eq!(next_smallest_range(&seg.0, &11, &src, &1, &t), seg);
}

#[test]
fn steps_forward_and_back_undo_each_other() {
    let t = num();
    let src = set();
    let fwd = forward_segments(&src);
    for pair in fwd.windows(2) {
        let (n, f) = (pair[0], pair[1]);
        assert_eq!(next_range_begin_end(&(n.1 + 1), &src, &1, &t), Some(f));
        assert_eq!(previous_range_begin_end(&(f.0 - 1), &src, &1, &t), Some(n));
    }
    let mut bwd = backward_segments(&src);
    bwd.reverse();
    assert_eq!(fwd, bwd);
    assert_eq!(
        fwd,
        vec![(0, 0), (1, 2), (3, 3), (4, 4), (5, 9), (10, 11), (12, 22), (30, 31)]
    );
}

#[test]
fn walk_backward_is_forward_reversed_and_elementary() {
    let src = [1..=4, 0..=3, 3..=11, 10..=22, 30..=31, 25..=25];
    let ranges: Vec<Mrs<i32>> = src.iter().map(|r| Mrs::new(*r.start(), *r.end())).collect();
    let mut fwd = Vec::new();
    let mut it = Intersector::num_from(&src);
    while let Some(r) = it.next() {
        fwd.push(r.to_tuple());
    }
    assert!(it.next().is_none());
    let mut bwd = Vec::new();
    let mut it = Intersector::num_from(&src);
    while let Some(r) = it.next_back() {
        bwd.push(r.to_tuple());
    }
    assert!(it.next_back().is_none());
    bwd.reverse();
    assert_eq!(fwd, bwd);
    assert!(fwd.len() <= 2 * src.len());
    for seg in fwd.iter() {
        assert!(seg.0 <= seg.1);
        assert!(uniform(*seg, &ranges));
        assert!(!holds_same(&ranges, seg.1, seg.1 + 1));
        assert!(!holds_same(&ranges, seg.0, seg.0 - 1));
    }
    for pair in fwd.windows(2) {
        assert!(pair[0].1 < pair[1].0);
    }
    for r in ranges.iter() {
        for p in *r.get_begin()..=*r.get_end() {
            assert!(fwd.iter().any(|s| s.0 <= p && p <= s.1));
        }
    }
}

#[test]
fn consolidation_loses_and_repeats_no_range() {
    let t = num();
    let f = MrsFactory::new();
    let pairs = [(0, 3), (2, 8), (1, 1), (9, 9), (9, 12), (3, 2)];
    let mut input: Vec<Mrs<i32>> = pairs.iter().map(|p| Mrs::new(p.0, p.1)).collect();
    let mut last: Option<(Mrs<i32>, Vec<(usize, Mrs<i32>)>)> = None;
    let mut offset = 0;
    let mut members = Vec::new();
    loop {
        let (o, next) = consolidate(&mut last, &mut input, &t, &f, offset);
        offset = o;
        match next {
            None => break,
            Some(rel) => {
                let (_, m) = rel.unwrap();
                for (pos, r) in m.iter() {
                    let (a, z) = r.to_tuple_ref();
                    members.push((*pos, (*a, *z)));
                }
            }
        }
    }
    let expected: Vec<(usize, (i32, i32))> = pairs.iter().copied().enumerate().collect();
    assert_eq!(members, expected);
}

#[test]
fn interleaved_walk_hands_out_each_segment_in_order() {
    let src = [1..=4, 0..=3, 3..=11, 10..=22, 30..=31, 25..=25];
    let mut all = Vec::new();
    let mut it = Intersector::num_from(&src);
    while let Some(r) = it.next() {
        all.push(r.to_tuple());
    }
    let count = all.len();
    // Alternate front and back steps until both ends are done.
    let mut it = Intersector::num_from(&src);
    let mut front = Vec::new();
    let mut back = Vec::new();
    loop {
        let a = it.next().map(|r| r.to_tuple());
        if let Some(r) = a {
            front.push(r);
        }
        let b = it.next_back().map(|r| r.to_tuple());
        if let Some(r) = b {
            back.push(r);
        }
        if a.is_none() && b.is_none() {
            break;
        }
    }
    assert_eq!(front.len() + back.len(), count + 1);
    assert_eq!(front[..], all[..front.len()]);
    let mut rev = back.clone();
    rev.reverse();
    assert_eq!(rev[..], all[count - back.len()..]);
    // The segment where the two ends met is handed out from both of them.
    assert_eq!(front.last(), back.last());
    // A walk of one segment hands it out from both ends.
    let mut it = Intersector::num_from(&[1..=1]);
    assert_eq!(it.next().map(|r| r.to_tuple()), Some((1, 1)));
    assert_eq!(it.next_back().map(|r| r.to_tuple()), Some((1, 1)));
    assert!(it.next().is_none());
    assert!(it.next_back().is_none());
}

#[test]
fn walk_laws_hold_at_the_ends_of_the_type() {
    let mut isec = Intersector::num_defaults();
    assert!(isec.add_range(&(1..4)).is_some());
    assert!(isec.add_range(&(3..=5)).is_some());
    assert!(isec.add_range(&(..=7)).is_some());
    assert!(isec.add_range(&(7..)).is_some());
    assert!(isec.add_range(&(..)).is_some());
    let ranges = vec![
        Mrs::new(1, 3),
        Mrs::new(3, 5),
        Mrs::new(i32::MIN, 7),
        Mrs::new(7, i32::MAX),
        Mrs::new(i32::MIN, i32::MAX),
    ];
    let same = |x: i32, y: i32| {
        ranges.iter().all(|r| {
            let (a, z) = (*r.get_begin(), *r.get_end());
            (a <= x && x <= z) == (a <= y && y <= z)
        })
    };
    let mut it = isec.into_iter();
    let mut fwd = Vec::new();
    while let Some(r) = it.next() {
        fwd.push(r.to_tuple());
    }
    assert!(it.next().is_none());
    assert_eq!(
        fwd,
        vec![(i32::MIN, 0), (1, 2), (3, 3), (4, 5), (6, 6), (7, 7), (8, i32::MAX)]
    );
    let mut isec = Intersector::num_defaults();
    for r in ranges.iter() {
        assert!(isec.add_tuple((*r.get_begin(), *r.get_end())).is_some());
    }
    let mut it = isec.into_iter();
    let mut bwd = Vec::new();
    while let Some(r) = it.next_back() {
        bwd.push(r.to_tuple());
    }
    bwd.reverse();
    assert_eq!(fwd, bwd);
    assert!(fwd.len() <= 2 * ranges.len());
    for seg in fwd.iter() {
        assert!(uniform(*seg, &ranges));
        if let Some(x) = seg.1.checked_add(1) {
            assert!(!same(seg.1, x));
        }
        if let Some(y) = seg.0.checked_sub(1) {
            assert!(!same(seg.0, y));
        }
    }
}

#[test]
fn each_group_is_the_hull_of_its_sources() {
    let t = num();
    let f = MrsFactory::new();
    let mut input = vec![Mrs::new(0, 3), Mrs::new(2, 8), Mrs::new(1, 1), Mrs::new(9, 9), Mrs::new(9, 12)];
    let mut last: Option<(Mrs<i32>, Vec<(usize, Mrs<i32>)>)> = None;
    let mut offset = 0;
    let mut hulls = Vec::new();
    loop {
        let (o, next) = consolidate(&mut last, &mut input, &t, &f, offset);
        offset = o;
        match next {
            None => break,
            Some(rel) => {
                let (hull, members) = rel.unwrap();
                let lo = members.iter().map(|m| *m.1.get_begin()).min().unwrap();
                let hi = members.iter().map(|m| *m.1.get_end()).max().unwrap();
                assert_eq!(hull.to_tuple(), (lo, hi));
                hulls.push((lo, hi));
            }
        }
    }
    assert_eq!(hulls, vec![(0, 8), (9, 12)]);
    assert!(last.is_none());
}

#[test]
fn columns_walk_goes_on_past_the_last_segment_when_a_column_has_more() {
    let mut cols = Columns::num_defaults();
    assert!(cols.add_column(vec![Mrs::new(1, 2)]).is_ok());
    assert!(cols.add_column(vec![Mrs::new(1, 2), Mrs::new(5, 6)]).is_ok());
    let mut iter = cols.into_iter();
    let mut segments = Vec::new();
    while let Some((seg, err, cols)) = iter.next() {
        assert!(err.is_ok());
        let rows: Vec<usize> = cols.iter().map(|c| c.as_ref().map(|r| r.len()).unwrap_or(0)).collect();
        segments.push((seg.to_tuple(), rows));
    }
    assert_eq!(segments, vec![((1, 2), vec![1, 1]), ((5, 6), vec![0, 1])]);
}
