# common_range_tools

Finds the common intersections of a set of ranges: the union of the ranges is cut into
segments such that every range holds either all of a segment or none of it. For the ranges
`1..=4, 0..=3, 3..=11, 10..=22` the segments are `0..=0, 1..=2, 3..=3, 4..=4, 5..=9,
10..=11, 12..=22`. The library also consolidates overlapping ranges into groups, checks
that the groups come in a given order, and steps through several columns of ranges at
once.

The library is written in Verus and its functions are proved against their contracts. The
few calls into std that Verus cannot read (`RangeInclusive::start`, `end` and `into_inner`,
`Bound::Included`, `RangeBounds::start_bound` and `end_bound`, `Rc::clone`) go through
trusted items whose contracts are taken as given.

## Layout

- `src/builder.rs`: the comparator traits (`CpCmp`, `IncDecCpCmp`, `DefaultValues`), the
  checked comparator for the integer types, and the range factories.
- `src/utils.rs`: how two ranges relate, the search for the first, last, next and previous
  segment, growth, bound conversion and one step of consolidation, each with the spec
  function it computes.
- `src/order.rs`: the forward and reverse consolidation orders.
- `src/types.rs`: checked stepping of integers.
- `src/iter.rs`: the walk over the segments (`OverlapIter`) and its factory
  (`Intersector`).
- `src/iter/consolidate*`: consolidation, its order check, columns and the column walk.
- `src/laws.rs`: what holds across functions: segments are common intersections, the walk
  skips no covered value and moves one way. With a step between neighbours (a step that
  moves to the next value and back, as the default step 1 on the integer types does; the
  ranges may reach the comparator's least and greatest values): each segment is as long
  as it can be, is found going either way, and a step back undoes a step forward; the
  whole walk hands out the elementary intervals of the ranges, at most twice as many as
  there are ranges, and run backward hands out the same ones reversed; stepped from both
  ends in any order it hands out each segment in turn from each end, the one where the
  ends meet from both of them. Groups hold their sources and each group's range is the
  hull of its sources; a run of consolidation loses and repeats no range; sorted input
  passes the order check.
- `app/lib.rs`: the comparator for any type with `PartialOrd`, `Add` and `Sub` (floats,
  times), which stays outside the proofs.
