//! Sets of half-open time intervals `[from, to)`: which part of a dataset is stored.
use vstd::prelude::*;
use crate::order;
use crate::order::{select_in_order, stable_order, SortKey};
use crate::units;
use crate::units::{larger, smaller};

verus! {

/// Whether the moment `t` lies in one of the intervals.
pub open spec fn covers(intervals: Seq<(u64, u64)>, t: int) -> bool {
    exists|i: int| 0 <= i < intervals.len() && (#[trigger] intervals[i]).0 <= t < intervals[i].1
}

/// Non-empty intervals in ascending order that neither overlap nor touch.
pub open spec fn disjoint_ascending(intervals: Seq<(u64, u64)>) -> bool {
    &&& forall|i: int| 0 <= i < intervals.len() ==> (#[trigger] intervals[i]).0 < intervals[i].1
    &&& forall|i: int, j: int|
        0 <= i < j < intervals.len() ==> (#[trigger] intervals[i]).1 < (#[trigger] intervals[j]).0
}

/// Whether stored coverage is well formed: every interval is non-empty and each
/// ends before the next begins.
pub fn valid_intervals(intervals: &Vec<(u64, u64)>) -> (r: bool)
    ensures
        r == disjoint_ascending(intervals@),
{
    let mut i: usize = 0;
    while i < intervals.len()
        invariant
            i <= intervals@.len(),
            disjoint_ascending(intervals@.take(i as int)),
        decreases intervals@.len() - i,
    {
        let (from, to) = intervals[i];
        if from >= to {
            assert(!disjoint_ascending(intervals@)) by {
                assert(intervals@[i as int].0 >= intervals@[i as int].1);
            }
            return false;
        }
        if i > 0 {
            let (_, previous_to) = intervals[i - 1];
            if previous_to >= from {
                assert(!disjoint_ascending(intervals@)) by {
                    assert(intervals@[i - 1].1 >= intervals@[i as int].0);
                }
                return false;
            }
        }
        proof {
            let shorter = intervals@.take(i as int);
            let longer = intervals@.take(i + 1);
            assert forall|a: int, b: int| 0 <= a < b < longer.len() implies (#[trigger] longer[a]).1
                < (#[trigger] longer[b]).0 by {
                if b < i {
                    assert(shorter[a].1 < shorter[b].0);
                } else if a < i - 1 {
                    assert(shorter[a].1 < shorter[i - 1].0);
                    assert(shorter[i - 1].0 < shorter[i - 1].1);
                }
            }
            assert forall|a: int| 0 <= a < longer.len() implies (#[trigger] longer[a]).0
                < longer[a].1 by {
                if a < i {
                    assert(shorter[a].0 < shorter[a].1);
                }
            }
        }
        i = i + 1;
    }
    assert(intervals@.take(intervals@.len() as int) =~= intervals@);
    true
}

/// Joins overlapping and touching intervals and drops empty ones.
pub fn merge_intervals(intervals: Vec<(u64, u64)>) -> (merged: Vec<(u64, u64)>)
    ensures
        disjoint_ascending(merged@),
        forall|t: int| covers(merged@, t) == covers(intervals@, t),
{
    let mut kept: Vec<(u64, u64)> = Vec::new();
    let mut keys: Vec<SortKey> = Vec::new();
    let ghost source = intervals@;
    for index in 0..intervals.len()
        invariant
            intervals@ == source,
            keys@.len() == kept@.len(),
            forall|k: int| 0 <= k < kept@.len() ==> (#[trigger] keys@[k]) == (kept@[k].0, 0u128),
            forall|k: int| 0 <= k < kept@.len() ==> (#[trigger] kept@[k]).0 < kept@[k].1,
            forall|t: int| covers(kept@, t) == covers(source.take(index as int), t),
    {
        let (from, to) = intervals[index];
        let ghost before = kept@;
        if from < to {
            kept.push((from, to));
            keys.push((from, 0));
        }
        proof {
            let shorter = source.take(index as int);
            let longer = source.take(index + 1);
            assert forall|t: int| covers(kept@, t) == covers(longer, t) by {
                lemma_covers_push(shorter, source[index as int], t);
                assert(longer =~= shorter.push(source[index as int]));
                if from < to {
                    lemma_covers_push(before, (from, to), t);
                }
            }
        }
    }
    assert(source.take(source.len() as int) =~= source);
    let order = stable_order(&keys);
    let ghost unsorted = kept@;
    proof {
        lemma_order_has_no_repeats(keys@, order@);
    }
    let sorted = select_in_order(kept, &order);
    proof {
        assert forall|t: int| covers(sorted@, t) == covers(unsorted, t) by {
            if covers(sorted@, t) {
                let i = choose|i: int|
                    0 <= i < sorted@.len() && (#[trigger] sorted@[i]).0 <= t < sorted@[i].1;
                assert(unsorted[order@[i] as int] == sorted@[i]);
            }
            if covers(unsorted, t) {
                let i = choose|i: int|
                    0 <= i < unsorted.len() && (#[trigger] unsorted[i]).0 <= t < unsorted[i].1;
                assert(order@.contains(i as usize));
                let k = choose|k: int| 0 <= k < order@.len() && order@[k] == i as usize;
                assert(sorted@[k] == unsorted[i]);
            }
        }
        assert forall|a: int, b: int| 0 <= a < b < sorted@.len() implies (#[trigger] sorted@[a]).0
            <= (#[trigger] sorted@[b]).0 by {
            assert(order::precedes(keys@, order@[a] as int, order@[b] as int));
        }
    }
    let mut merged: Vec<(u64, u64)> = Vec::new();
    for index in 0..sorted.len()
        invariant
            forall|a: int, b: int|
                0 <= a < b < sorted@.len() ==> (#[trigger] sorted@[a]).0 <= (
                #[trigger] sorted@[b]).0,
            forall|a: int| 0 <= a < sorted@.len() ==> (#[trigger] sorted@[a]).0 < sorted@[a].1,
            disjoint_ascending(merged@),
            forall|t: int| covers(merged@, t) == covers(sorted@.take(index as int), t),
            merged@.len() > 0 ==> index > 0 && merged@.last().0 <= sorted@[index - 1].0,
    {
        let (from, to) = sorted[index];
        let ghost before = merged@;
        let count: usize = merged.len();
        if count > 0 && from <= merged[count - 1].1 {
            let (last_from, last_to) = merged[count - 1];
            let joined: u64 = if last_to >= to {
                last_to
            } else {
                to
            };
            let _ = merged.pop();
            merged.push((last_from, joined));
            proof {
                let head = before.drop_last();
                let widened: (u64, u64) = (last_from, joined);
                assert(merged@ =~= head.push(widened));
                assert forall|t: int|
                    covers(merged@, t) == covers(sorted@.take(index + 1), t) by {
                    lemma_covers_push(head, widened, t);
                    lemma_covers_push(head, (last_from, last_to), t);
                    assert(before =~= head.push((last_from, last_to)));
                    lemma_covers_push(sorted@.take(index as int), (from, to), t);
                    assert(sorted@.take(index + 1) =~= sorted@.take(index as int).push((from, to)));
                }
                assert forall|a: int, b: int| 0 <= a < b < merged@.len() implies (
                #[trigger] merged@[a]).1 < (#[trigger] merged@[b]).0 by {
                    assert(before[a].1 < before[b].0);
                }
            }
        } else {
            merged.push((from, to));
            proof {
                assert forall|t: int|
                    covers(merged@, t) == covers(sorted@.take(index + 1), t) by {
                    lemma_covers_push(before, (from, to), t);
                    lemma_covers_push(sorted@.take(index as int), (from, to), t);
                    assert(sorted@.take(index + 1) =~= sorted@.take(index as int).push((from, to)));
                }
                assert forall|a: int, b: int| 0 <= a < b < merged@.len() implies (
                #[trigger] merged@[a]).1 < (#[trigger] merged@[b]).0 by {
                    if b < before.len() {
                        assert(before[a].1 < before[b].0);
                    } else {
                        let last = before.len() - 1;
                        if a < last {
                            assert(before[a].1 < before[last].0);
                            assert(before[last].0 < before[last].1);
                        }
                    }
                }
            }
        }
    }
    proof {
        assert(sorted@.take(sorted@.len() as int) =~= sorted@);
        assert forall|t: int| covers(merged@, t) == covers(intervals@, t) by {
            assert(covers(merged@, t) == covers(sorted@, t));
            assert(covers(sorted@, t) == covers(unsorted, t));
            assert(covers(unsorted, t) == covers(source, t));
        }
    }
    merged
}

pub proof fn lemma_covers_push(intervals: Seq<(u64, u64)>, added: (u64, u64), t: int)
    ensures
        covers(intervals.push(added), t) == (covers(intervals, t) || added.0 <= t < added.1),
{
    let longer = intervals.push(added);
    if covers(longer, t) {
        let i = choose|i: int| 0 <= i < longer.len() && (#[trigger] longer[i]).0 <= t < longer[i].1;
        if i < intervals.len() {
            assert(intervals[i].0 <= t < intervals[i].1);
        }
    }
    if covers(intervals, t) {
        let i = choose|i: int|
            0 <= i < intervals.len() && (#[trigger] intervals[i]).0 <= t < intervals[i].1;
        assert(longer[i].0 <= t < longer[i].1);
    }
    if added.0 <= t < added.1 {
        assert(longer[intervals.len() as int] == added);
    }
}

pub proof fn lemma_order_has_no_repeats(keys: Seq<SortKey>, order: Seq<usize>)
    requires
        order::is_stable_order(keys, 0, keys.len() as int, order),
    ensures
        forall|i: int, j: int| 0 <= i < j < order.len() ==> order[i] != order[j],
{
    assert forall|i: int, j: int| 0 <= i < j < order.len() implies order[i] != order[j] by {
        assert(order::precedes(keys, order[i] as int, order[j] as int));
    }
}

/// The part of one interval that lies in `[from, to_exclusive)`.
pub open spec fn clip(interval: (u64, u64), from: u64, to_exclusive: u64) -> (u64, u64) {
    (units::max_u64(from, interval.0), units::min_u64(to_exclusive, interval.1))
}

/// The non-empty clipped parts, in the order of the intervals.
pub open spec fn clipped(intervals: Seq<(u64, u64)>, from: u64, to_exclusive: u64) -> Seq<
    (u64, u64),
>
    decreases intervals.len(),
{
    if intervals.len() == 0 {
        seq![]
    } else {
        let head = clipped(intervals.drop_last(), from, to_exclusive);
        let part = clip(intervals.last(), from, to_exclusive);
        if part.0 < part.1 {
            head.push(part)
        } else {
            head
        }
    }
}

/// What clipping keeps: exactly the covered moments of the request, in well-formed
/// intervals where the intervals were well formed.
pub proof fn lemma_clipped(intervals: Seq<(u64, u64)>, from: u64, to_exclusive: u64)
    ensures
        forall|t: int| #[trigger]
            covers(clipped(intervals, from, to_exclusive), t) == (covers(intervals, t) && from <= t
                < to_exclusive),
        forall|i: int|
            0 <= i < clipped(intervals, from, to_exclusive).len() ==> from <= (
            #[trigger] clipped(intervals, from, to_exclusive)[i]).0 < clipped(
                intervals,
                from,
                to_exclusive,
            )[i].1 <= to_exclusive,
        disjoint_ascending(intervals) ==> disjoint_ascending(
            clipped(intervals, from, to_exclusive),
        ),
        disjoint_ascending(intervals) ==> forall|i: int|
            0 <= i < clipped(intervals, from, to_exclusive).len() ==> (#[trigger] clipped(
                intervals,
                from,
                to_exclusive,
            )[i]).1 <= intervals.last().1,
    decreases intervals.len(),
{
    let parts = clipped(intervals, from, to_exclusive);
    if intervals.len() == 0 {
        assert forall|t: int| #[trigger] covers(parts, t) == (covers(intervals, t) && from <= t
            < to_exclusive) by {}
    } else {
        let front = intervals.drop_last();
        let last = intervals.last();
        let head = clipped(front, from, to_exclusive);
        let part = clip(last, from, to_exclusive);
        lemma_clipped(front, from, to_exclusive);
        assert(intervals =~= front.push(last));
        assert forall|t: int| #[trigger] covers(parts, t) == (covers(intervals, t) && from <= t
            < to_exclusive) by {
            lemma_covers_push(front, last, t);
            lemma_covers_push(head, part, t);
        }
        if disjoint_ascending(intervals) {
            assert forall|i: int, j: int| 0 <= i < j < front.len() implies (#[trigger] front[i]).1
                < (#[trigger] front[j]).0 by {
                assert(intervals[i].1 < intervals[j].0);
            }
            assert forall|i: int| 0 <= i < front.len() implies (#[trigger] front[i]).0
                < front[i].1 by {
                assert(intervals[i].0 < intervals[i].1);
            }
            assert(disjoint_ascending(front));
            if front.len() > 0 {
                assert(intervals[front.len() - 1].1 < intervals[front.len() as int].0);
                assert(front.last() == intervals[front.len() - 1]);
            }
        }
    }
}

/// The part of each interval that lies in `[from, to_exclusive)`, empty parts left out.
pub fn coverage_intersections(
    intervals: &Vec<(u64, u64)>,
    from: u64,
    to_exclusive: u64,
) -> (parts: Vec<(u64, u64)>)
    ensures
        parts@ == clipped(intervals@, from, to_exclusive),
{
    let mut parts: Vec<(u64, u64)> = Vec::new();
    let mut index: usize = 0;
    while index < intervals.len()
        invariant
            index <= intervals@.len(),
            parts@ == clipped(intervals@.take(index as int), from, to_exclusive),
        decreases intervals@.len() - index,
    {
        let (covered_from, covered_to) = intervals[index];
        let part_from: u64 = larger(from, covered_from);
        let part_to: u64 = smaller(to_exclusive, covered_to);
        if part_from < part_to {
            parts.push((part_from, part_to));
        }
        assert(intervals@.take(index + 1).drop_last() =~= intervals@.take(index as int));
        index = index + 1;
    }
    assert(intervals@.take(intervals@.len() as int) =~= intervals@);
    parts
}

/// Where a sweep over `parts` that started at `from` stands: past every part seen.
pub open spec fn sweep_cursor(parts: Seq<(u64, u64)>, from: u64) -> u64
    decreases parts.len(),
{
    if parts.len() == 0 {
        from
    } else {
        units::max_u64(sweep_cursor(parts.drop_last(), from), parts.last().1)
    }
}

/// The stretches that a sweep over `parts` finds in front of each part.
pub open spec fn sweep_gaps(parts: Seq<(u64, u64)>, from: u64) -> Seq<(u64, u64)>
    decreases parts.len(),
{
    if parts.len() == 0 {
        seq![]
    } else {
        let head = sweep_gaps(parts.drop_last(), from);
        let cursor = sweep_cursor(parts.drop_last(), from);
        if cursor < parts.last().0 {
            head.push((cursor, parts.last().0))
        } else {
            head
        }
    }
}

/// The gaps of a request: what a sweep finds, and the rest up to its end.
pub open spec fn request_gaps(intervals: Seq<(u64, u64)>, from: u64, to_exclusive: u64) -> Seq<
    (u64, u64),
> {
    if from >= to_exclusive {
        seq![]
    } else {
        let parts = clipped(intervals, from, to_exclusive);
        let cursor = sweep_cursor(parts, from);
        if cursor < to_exclusive {
            sweep_gaps(parts, from).push((cursor, to_exclusive))
        } else {
            sweep_gaps(parts, from)
        }
    }
}

proof fn lemma_sweep(parts: Seq<(u64, u64)>, from: u64)
    requires
        disjoint_ascending(parts),
        forall|i: int| 0 <= i < parts.len() ==> from <= (#[trigger] parts[i]).0,
    ensures
        sweep_cursor(parts, from) == (if parts.len() == 0 {
            from
        } else {
            parts.last().1
        }),
        disjoint_ascending(sweep_gaps(parts, from)),
        forall|i: int|
            0 <= i < sweep_gaps(parts, from).len() ==> (#[trigger] sweep_gaps(parts, from)[i]).1
                < sweep_cursor(parts, from),
        forall|t: int| #[trigger]
            covers(sweep_gaps(parts, from), t) == (from <= t < sweep_cursor(parts, from)
                && !covers(parts, t)),
        forall|t: int| #[trigger] covers(parts, t) ==> t < sweep_cursor(parts, from),
    decreases parts.len(),
{
    if parts.len() > 0 {
        let front = parts.drop_last();
        let last = parts.last();
        assert forall|i: int, j: int| 0 <= i < j < front.len() implies (#[trigger] front[i]).1 < (
        #[trigger] front[j]).0 by {
            assert(parts[i].1 < parts[j].0);
        }
        assert forall|i: int| 0 <= i < front.len() implies from <= (#[trigger] front[i]).0
            < front[i].1 by {
            assert(parts[i].0 < parts[i].1);
        }
        lemma_sweep(front, from);
        let head = sweep_gaps(front, from);
        let cursor = sweep_cursor(front, from);
        assert(parts =~= front.push(last));
        assert(parts[parts.len() - 1] == last);
        if front.len() > 0 {
            assert(parts[front.len() - 1].1 < parts[front.len() as int].0);
        }
        assert forall|t: int| #[trigger] covers(sweep_gaps(parts, from), t) == (from <= t
            < sweep_cursor(parts, from) && !covers(parts, t)) by {
            lemma_covers_push(front, last, t);
            lemma_covers_push(head, (cursor, last.0), t);
        }
        assert forall|t: int| #[trigger] covers(parts, t) implies t < sweep_cursor(parts, from) by {
            lemma_covers_push(front, last, t);
        }
    }
}

/// On well-formed coverage the gaps of a request are exactly its uncovered moments.
pub proof fn gaps_are_the_uncovered_moments(
    intervals: Seq<(u64, u64)>,
    from: u64,
    to_exclusive: u64,
)
    requires
        disjoint_ascending(intervals),
    ensures
        disjoint_ascending(request_gaps(intervals, from, to_exclusive)),
        forall|t: int| #[trigger]
            covers(request_gaps(intervals, from, to_exclusive), t) == (from <= t < to_exclusive
                && !covers(intervals, t)),
{
    let gaps = request_gaps(intervals, from, to_exclusive);
    if from < to_exclusive {
        let parts = clipped(intervals, from, to_exclusive);
        lemma_clipped(intervals, from, to_exclusive);
        lemma_sweep(parts, from);
        let head = sweep_gaps(parts, from);
        let cursor = sweep_cursor(parts, from);
        if parts.len() > 0 {
            assert(parts[parts.len() - 1].1 <= to_exclusive);
        }
        assert forall|t: int| #[trigger] covers(gaps, t) == (from <= t < to_exclusive && !covers(
            intervals,
            t,
        )) by {
            assert(covers(parts, t) == (covers(intervals, t) && from <= t < to_exclusive));
            assert(covers(head, t) == (from <= t < cursor && !covers(parts, t)));
            lemma_covers_push(head, (cursor, to_exclusive), t);
        }
    } else {
        assert forall|t: int| #[trigger] covers(gaps, t) == (from <= t < to_exclusive && !covers(
            intervals,
            t,
        )) by {}
    }
}

/// The parts of `[from, to_exclusive)` that no interval covers, found by a sweep.
pub fn coverage_gaps(
    intervals: &Vec<(u64, u64)>,
    from: u64,
    to_exclusive: u64,
) -> (gaps: Vec<(u64, u64)>)
    ensures
        gaps@ == request_gaps(intervals@, from, to_exclusive),
{
    let mut gaps: Vec<(u64, u64)> = Vec::new();
    if from >= to_exclusive {
        return gaps;
    }
    let parts = coverage_intersections(intervals, from, to_exclusive);
    let mut cursor: u64 = from;
    let mut index: usize = 0;
    while index < parts.len()
        invariant
            index <= parts@.len(),
            cursor == sweep_cursor(parts@.take(index as int), from),
            gaps@ == sweep_gaps(parts@.take(index as int), from),
        decreases parts@.len() - index,
    {
        let (covered_from, covered_to) = parts[index];
        if cursor < covered_from {
            gaps.push((cursor, covered_from));
        }
        cursor = larger(cursor, covered_to);
        assert(parts@.take(index + 1).drop_last() =~= parts@.take(index as int));
        index = index + 1;
    }
    assert(parts@.take(parts@.len() as int) =~= parts@);
    if cursor < to_exclusive {
        gaps.push((cursor, to_exclusive));
    }
    gaps
}

/// Two well-formed interval lists that cover the same moments are equal, so the
/// merged form of a coverage is determined by what it covers.
pub proof fn coverage_form_is_unique(a: Seq<(u64, u64)>, b: Seq<(u64, u64)>)
    requires
        disjoint_ascending(a),
        disjoint_ascending(b),
        forall|t: int| covers(a, t) == covers(b, t),
    ensures
        a == b,
    decreases a.len() + b.len(),
{
    if a.len() == 0 || b.len() == 0 {
        if a.len() > 0 {
            assert(covers(a, a[0].0 as int));
        }
        if b.len() > 0 {
            assert(covers(b, b[0].0 as int));
        }
        assert(a =~= b);
    } else {
        lemma_first_interval_agrees(a, b);
        lemma_first_interval_agrees(b, a);
        assert(a[0] == b[0]);
        let rest_a = a.skip(1);
        let rest_b = b.skip(1);
        assert(disjoint_ascending(rest_a)) by {
            assert forall|i: int, j: int| 0 <= i < j < rest_a.len() implies (#[trigger] rest_a[i]).1
                < (#[trigger] rest_a[j]).0 by {
                assert(a[i + 1].1 < a[j + 1].0);
            }
            assert forall|i: int| 0 <= i < rest_a.len() implies (#[trigger] rest_a[i]).0
                < rest_a[i].1 by {
                assert(a[i + 1].0 < a[i + 1].1);
            }
        }
        assert(disjoint_ascending(rest_b)) by {
            assert forall|i: int, j: int| 0 <= i < j < rest_b.len() implies (#[trigger] rest_b[i]).1
                < (#[trigger] rest_b[j]).0 by {
                assert(b[i + 1].1 < b[j + 1].0);
            }
            assert forall|i: int| 0 <= i < rest_b.len() implies (#[trigger] rest_b[i]).0
                < rest_b[i].1 by {
                assert(b[i + 1].0 < b[i + 1].1);
            }
        }
        assert forall|t: int| covers(rest_a, t) == covers(rest_b, t) by {
            lemma_covers_rest(a, t);
            lemma_covers_rest(b, t);
        }
        coverage_form_is_unique(rest_a, rest_b);
        assert(a =~= seq![a[0]] + rest_a);
        assert(b =~= seq![b[0]] + rest_b);
    }
}

proof fn lemma_covers_rest(a: Seq<(u64, u64)>, t: int)
    requires
        disjoint_ascending(a),
        a.len() > 0,
    ensures
        covers(a.skip(1), t) == (covers(a, t) && t >= a[0].1),
{
    let rest = a.skip(1);
    if covers(rest, t) {
        let i = choose|i: int| 0 <= i < rest.len() && (#[trigger] rest[i]).0 <= t < rest[i].1;
        assert(a[i + 1].0 <= t < a[i + 1].1);
        assert(a[0].1 < a[i + 1].0);
    }
    if covers(a, t) && t >= a[0].1 {
        let i = choose|i: int| 0 <= i < a.len() && (#[trigger] a[i]).0 <= t < a[i].1;
        assert(rest[i - 1].0 <= t < rest[i - 1].1);
    }
}

proof fn lemma_first_interval_agrees(a: Seq<(u64, u64)>, b: Seq<(u64, u64)>)
    requires
        disjoint_ascending(a),
        disjoint_ascending(b),
        a.len() > 0,
        b.len() > 0,
        forall|t: int| covers(a, t) == covers(b, t),
    ensures
        a[0].0 >= b[0].0,
        a[0].1 <= b[0].1,
{
    let start = a[0].0 as int;
    assert(covers(a, start));
    assert(covers(b, start));
    let i = choose|i: int| 0 <= i < b.len() && (#[trigger] b[i]).0 <= start < b[i].1;
    if i > 0 {
        assert(b[0].1 < b[i].0);
    }
    assert(a[0].0 >= b[0].0);
    let first = b[0].0 as int;
    assert(covers(b, first));
    assert(covers(a, first));
    let j = choose|j: int| 0 <= j < a.len() && (#[trigger] a[j]).0 <= first < a[j].1;
    if j > 0 {
        assert(a[0].1 < a[j].0);
    }
    assert(a[0].0 == b[0].0);
    if a[0].1 > b[0].1 {
        let t = b[0].1 as int;
        assert(a[0].0 <= t < a[0].1);
        assert(covers(a, t));
        assert(covers(b, t));
        let k = choose|k: int| 0 <= k < b.len() && (#[trigger] b[k]).0 <= t < b[k].1;
        if k > 0 {
            assert(b[0].1 < b[k].0);
        }
        assert(false);
    }
}

/// Every moment of a request is either stored or reported as a gap, never both.
pub proof fn gaps_and_parts_split_the_request(
    intervals: Seq<(u64, u64)>,
    from: u64,
    to_exclusive: u64,
    t: int,
)
    requires
        disjoint_ascending(intervals),
    ensures
        (from <= t < to_exclusive) == (covers(clipped(intervals, from, to_exclusive), t) || covers(
            request_gaps(intervals, from, to_exclusive),
            t,
        )),
        !(covers(clipped(intervals, from, to_exclusive), t) && covers(
            request_gaps(intervals, from, to_exclusive),
            t,
        )),
{
    lemma_clipped(intervals, from, to_exclusive);
    gaps_are_the_uncovered_moments(intervals, from, to_exclusive);
}

/// A request that is covered throughout has no gaps.
pub proof fn covered_request_has_no_gaps(intervals: Seq<(u64, u64)>, from: u64, to_exclusive: u64)
    requires
        disjoint_ascending(intervals),
        forall|t: int| from <= t < to_exclusive ==> #[trigger] covers(intervals, t),
    ensures
        request_gaps(intervals, from, to_exclusive).len() == 0,
{
    gaps_are_the_uncovered_moments(intervals, from, to_exclusive);
    let gaps = request_gaps(intervals, from, to_exclusive);
    if gaps.len() > 0 {
        let t = gaps[0].0 as int;
        assert(gaps[0].0 < gaps[0].1);
        assert(covers(gaps, t));
        assert(covers(intervals, t));
    }
}

} // verus!
