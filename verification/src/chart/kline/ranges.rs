//! Which ranges of time are covered by fetched data, and which gap is to be fetched next.
//!
//! Covered ranges are half-open, ascending, and neither overlap nor touch.
use vstd::prelude::*;
use crate::connector::intervals;
use crate::connector::intervals::merge_intervals;
use crate::units::{larger, smaller};

verus! {

/// A tail of at most this length at the live edge can wait for the live stream.
pub const LIVE_TAIL_DEFER_MS: u64 = 60_000;

/// Every moment of `[from, to)` is covered.
pub open spec fn fully_covered(covered: Seq<(u64, u64)>, from: int, to: int) -> bool {
    forall|t: int| from <= t < to ==> #[trigger] intervals::covers(covered, t)
}

/// No moment of `[from, to)` is covered.
pub open spec fn uncovered(covered: Seq<(u64, u64)>, from: int, to: int) -> bool {
    forall|t: int| from <= t < to ==> !#[trigger] intervals::covers(covered, t)
}

/// `[gap.0, gap.1)` is a gap of `[from, to)`: not empty, inside it and not covered.
pub open spec fn is_gap(covered: Seq<(u64, u64)>, from: u64, to: u64, gap: (u64, u64)) -> bool {
    &&& from <= gap.0 < gap.1 <= to
    &&& uncovered(covered, gap.0 as int, gap.1 as int)
}

/// The oldest gap of `[from, to)`, as long as it can be, or none where there is no gap.
pub open spec fn is_oldest_gap(
    covered: Seq<(u64, u64)>,
    from: u64,
    to: u64,
    r: Option<(u64, u64)>,
) -> bool {
    match r {
        Some(gap) => {
            &&& is_gap(covered, from, to, gap)
            &&& fully_covered(covered, from as int, gap.0 as int)
            &&& gap.1 == to || intervals::covers(covered, gap.1 as int)
        },
        None => fully_covered(covered, from as int, to as int),
    }
}

/// The newest gap of `[from, to)`, as long as it can be, or none where there is no gap.
pub open spec fn is_newest_gap(
    covered: Seq<(u64, u64)>,
    from: u64,
    to: u64,
    r: Option<(u64, u64)>,
) -> bool {
    match r {
        Some(gap) => {
            &&& is_gap(covered, from, to, gap)
            &&& fully_covered(covered, gap.1 as int, to as int)
            &&& gap.0 == from || intervals::covers(covered, gap.0 - 1)
        },
        None => fully_covered(covered, from as int, to as int),
    }
}

/// The oldest gap of `[from, to)`.
pub open spec fn oldest_gap(covered: Seq<(u64, u64)>, from: u64, to: u64) -> Option<(u64, u64)> {
    choose|r: Option<(u64, u64)>| is_oldest_gap(covered, from, to, r)
}

/// The newest gap of `[from, to)`.
pub open spec fn newest_gap(covered: Seq<(u64, u64)>, from: u64, to: u64) -> Option<(u64, u64)> {
    choose|r: Option<(u64, u64)>| is_newest_gap(covered, from, to, r)
}

proof fn lemma_next_uncovered(covered: Seq<(u64, u64)>, from: int, to: int) -> (t: int)
    requires
        from <= to,
    ensures
        from <= t <= to,
        fully_covered(covered, from, t),
        t == to || !intervals::covers(covered, t),
    decreases to - from,
{
    if from == to || !intervals::covers(covered, from) {
        from
    } else {
        lemma_next_uncovered(covered, from + 1, to)
    }
}

proof fn lemma_next_covered(covered: Seq<(u64, u64)>, from: int, to: int) -> (t: int)
    requires
        from <= to,
    ensures
        from <= t <= to,
        uncovered(covered, from, t),
        t == to || intervals::covers(covered, t),
    decreases to - from,
{
    if from == to || intervals::covers(covered, from) {
        from
    } else {
        lemma_next_covered(covered, from + 1, to)
    }
}

proof fn lemma_last_uncovered(covered: Seq<(u64, u64)>, from: int, to: int) -> (t: int)
    requires
        from <= to,
    ensures
        from <= t <= to,
        fully_covered(covered, t, to),
        t == from || !intervals::covers(covered, t - 1),
    decreases to - from,
{
    if from == to || !intervals::covers(covered, to - 1) {
        to
    } else {
        lemma_last_uncovered(covered, from, to - 1)
    }
}

proof fn lemma_last_covered(covered: Seq<(u64, u64)>, from: int, to: int) -> (t: int)
    requires
        from <= to,
    ensures
        from <= t <= to,
        uncovered(covered, t, to),
        t == from || intervals::covers(covered, t - 1),
    decreases to - from,
{
    if from == to || intervals::covers(covered, to - 1) {
        to
    } else {
        lemma_last_covered(covered, from, to - 1)
    }
}

/// What is called the oldest and the newest gap is one, or there is none.
pub proof fn gaps_exist(covered: Seq<(u64, u64)>, from: u64, to: u64)
    ensures
        is_oldest_gap(covered, from, to, oldest_gap(covered, from, to)),
        is_newest_gap(covered, from, to, newest_gap(covered, from, to)),
        oldest_gap(covered, from, to) is Some <==> newest_gap(covered, from, to) is Some,
{
    if to <= from {
        assert(is_oldest_gap(covered, from, to, None));
        assert(is_newest_gap(covered, from, to, None));
        oldest_gap_is_unique(covered, from, to, None);
        newest_gap_is_unique(covered, from, to, None);
    } else {
        let a = lemma_next_uncovered(covered, from as int, to as int);
        if a == to {
            assert(is_oldest_gap(covered, from, to, None));
            assert(is_newest_gap(covered, from, to, None));
            oldest_gap_is_unique(covered, from, to, None);
            newest_gap_is_unique(covered, from, to, None);
        } else {
            let b = lemma_next_covered(covered, a, to as int);
            assert(is_oldest_gap(covered, from, to, Some((a as u64, b as u64))));
            oldest_gap_is_unique(covered, from, to, Some((a as u64, b as u64)));
            let d = lemma_last_uncovered(covered, from as int, to as int);
            assert(d > a) by {
                if d <= a {
                    assert(intervals::covers(covered, a));
                }
            }
            let c = lemma_last_covered(covered, from as int, d);
            assert(!intervals::covers(covered, d - 1));
            assert(is_newest_gap(covered, from, to, Some((c as u64, d as u64))));
            newest_gap_is_unique(covered, from, to, Some((c as u64, d as u64)));
        }
    }
}

/// There is one oldest gap.
pub proof fn oldest_gap_is_unique(
    covered: Seq<(u64, u64)>,
    from: u64,
    to: u64,
    r: Option<(u64, u64)>,
)
    requires
        is_oldest_gap(covered, from, to, r),
    ensures
        r == oldest_gap(covered, from, to),
{
    let other = oldest_gap(covered, from, to);
    assert(is_oldest_gap(covered, from, to, other));
    if r is Some {
        assert(!intervals::covers(covered, (r->0).0 as int));
    }
    if other is Some {
        assert(!intervals::covers(covered, (other->0).0 as int));
    }
    if r is Some && other is Some && (r->0).0 == (other->0).0 {
        if (r->0).1 < (other->0).1 {
            assert(!intervals::covers(covered, (r->0).1 as int));
        }
        if (other->0).1 < (r->0).1 {
            assert(!intervals::covers(covered, (other->0).1 as int));
        }
    }
}

/// There is one newest gap.
pub proof fn newest_gap_is_unique(
    covered: Seq<(u64, u64)>,
    from: u64,
    to: u64,
    r: Option<(u64, u64)>,
)
    requires
        is_newest_gap(covered, from, to, r),
    ensures
        r == newest_gap(covered, from, to),
{
    let other = newest_gap(covered, from, to);
    assert(is_newest_gap(covered, from, to, other));
    if r is Some {
        assert(!intervals::covers(covered, (r->0).1 - 1));
    }
    if other is Some {
        assert(!intervals::covers(covered, (other->0).1 - 1));
    }
    if r is Some && other is Some && (r->0).1 == (other->0).1 {
        if (r->0).0 < (other->0).0 {
            assert(!intervals::covers(covered, (other->0).0 - 1));
        }
        if (other->0).0 < (r->0).0 {
            assert(!intervals::covers(covered, (r->0).0 - 1));
        }
    }
}

/// Adds a range to the covered ones and joins what overlaps or touches. A range without a
/// moment changes nothing.
pub fn mark_range_covered(covered: Vec<(u64, u64)>, from: u64, to: u64) -> (r: Vec<(u64, u64)>)
    requires
        intervals::disjoint_ascending(covered@),
    ensures
        intervals::disjoint_ascending(r@),
        forall|t: int| #[trigger]
            intervals::covers(r@, t) == (intervals::covers(covered@, t) || from <= t < to),
{
    if to <= from {
        return covered;
    }
    let ghost before = covered@;
    let mut list = covered;
    list.push((from, to));
    let r = merge_intervals(list);
    assert forall|t: int| #[trigger]
        intervals::covers(r@, t) == (intervals::covers(before, t) || from <= t < to) by {
        intervals::lemma_covers_push(before, (from, to), t);
    }
    r
}

/// One covered range holds all of `[from, to]`.
pub open spec fn inside_one(covered: Seq<(u64, u64)>, from: u64, to: u64) -> bool {
    exists|i: int| 0 <= i < covered.len() && (#[trigger] covered[i]).0 <= from && to <= covered[i].1
}

/// Whether one covered range holds the whole range.
pub fn is_range_covered(covered: &Vec<(u64, u64)>, from: u64, to: u64) -> (r: bool)
    ensures
        r == inside_one(covered@, from, to),
{
    let mut i: usize = 0;
    while i < covered.len()
        invariant
            i <= covered@.len(),
            forall|j: int|
                0 <= j < i ==> !((#[trigger] covered@[j]).0 <= from && to <= covered@[j].1),
        decreases covered@.len() - i,
    {
        let (covered_from, covered_to) = covered[i];
        if from >= covered_from && to <= covered_to {
            assert(covered@[i as int].0 <= from);
            return true;
        }
        i = i + 1;
    }
    false
}

/// The oldest part of `[from, to)` that is not covered.
pub fn subtract_covered_ranges(covered: &Vec<(u64, u64)>, from: u64, to: u64) -> (r: Option<
    (u64, u64),
>)
    requires
        intervals::disjoint_ascending(covered@),
    ensures
        is_oldest_gap(covered@, from, to, r),
        r == oldest_gap(covered@, from, to),
{
    let r: Option<(u64, u64)> = find_oldest_gap(covered, from, to);
    proof {
        oldest_gap_is_unique(covered@, from, to, r);
    }
    r
}

fn find_oldest_gap(covered: &Vec<(u64, u64)>, from: u64, to: u64) -> (r: Option<(u64, u64)>)
    requires
        intervals::disjoint_ascending(covered@),
    ensures
        is_oldest_gap(covered@, from, to, r),
{
    if to <= from {
        return None;
    }
    let mut cursor: u64 = from;
    let mut i: usize = 0;
    while i < covered.len()
        invariant
            intervals::disjoint_ascending(covered@),
            i <= covered@.len(),
            from <= cursor < to,
            fully_covered(covered@, from as int, cursor as int),
            forall|j: int| 0 <= j < i ==> (#[trigger] covered@[j]).1 <= cursor,
        decreases covered@.len() - i,
    {
        let (covered_from, covered_to) = covered[i];
        if covered_to > cursor {
            if covered_from > cursor {
                let end: u64 = smaller(covered_from, to);
                proof {
                    assert forall|t: int| cursor <= t < end implies !#[trigger] intervals::covers(
                        covered@,
                        t,
                    ) by {
                        lemma_between(covered@, i as int, cursor as int, t);
                    }
                    if end != to {
                        assert(covered@[i as int].0 <= end < covered@[i as int].1);
                    }
                }
                return Some((cursor, end));
            }
            proof {
                assert forall|t: int| from <= t < covered_to implies #[trigger] intervals::covers(
                    covered@,
                    t,
                ) by {
                    if t >= cursor {
                        assert(covered@[i as int].0 <= t < covered@[i as int].1);
                    }
                }
            }
            cursor = covered_to;
            if cursor >= to {
                return None;
            }
        }
        i = i + 1;
    }
    proof {
        assert forall|t: int| cursor <= t < to implies !#[trigger] intervals::covers(covered@, t) by {
            lemma_between(covered@, i as int, cursor as int, t);
        }
    }
    Some((cursor, to))
}

/// A moment after all earlier ranges and before the range at `i` is not covered.
proof fn lemma_between(covered: Seq<(u64, u64)>, i: int, cursor: int, t: int)
    requires
        intervals::disjoint_ascending(covered),
        0 <= i <= covered.len(),
        forall|j: int| 0 <= j < i ==> (#[trigger] covered[j]).1 <= cursor,
        cursor <= t,
        i < covered.len() ==> t < covered[i].0,
    ensures
        !intervals::covers(covered, t),
{
    if intervals::covers(covered, t) {
        let k = choose|k: int|
            0 <= k < covered.len() && (#[trigger] covered[k]).0 <= t < covered[k].1;
        if k > i {
            assert(covered[i].1 < covered[k].0);
        }
    }
}

/// The newest part of `[from, to)` that is not covered.
pub fn subtract_covered_ranges_latest(covered: &Vec<(u64, u64)>, from: u64, to: u64) -> (r: Option<
    (u64, u64),
>)
    requires
        intervals::disjoint_ascending(covered@),
    ensures
        is_newest_gap(covered@, from, to, r),
        r == newest_gap(covered@, from, to),
{
    let r: Option<(u64, u64)> = find_newest_gap(covered, from, to);
    proof {
        newest_gap_is_unique(covered@, from, to, r);
    }
    r
}

fn find_newest_gap(covered: &Vec<(u64, u64)>, from: u64, to: u64) -> (r: Option<(u64, u64)>)
    requires
        intervals::disjoint_ascending(covered@),
    ensures
        is_newest_gap(covered@, from, to, r),
{
    if to <= from {
        return None;
    }
    let mut cursor: u64 = to;
    let mut rest: usize = covered.len();
    while rest > 0
        invariant
            intervals::disjoint_ascending(covered@),
            rest <= covered@.len(),
            from < cursor <= to,
            fully_covered(covered@, cursor as int, to as int),
            forall|j: int| rest <= j < covered@.len() ==> (#[trigger] covered@[j]).0 >= cursor,
        decreases rest,
    {
        let (covered_from, covered_to) = covered[rest - 1];
        if covered_from < cursor {
            if covered_to < cursor {
                let start: u64 = larger(covered_to, from);
                proof {
                    assert forall|t: int| start <= t < cursor implies !#[trigger] intervals::covers(
                        covered@,
                        t,
                    ) by {
                        lemma_above(covered@, rest as int, cursor as int, t);
                    }
                    if start != from {
                        assert(covered@[rest - 1].0 <= start - 1 < covered@[rest - 1].1);
                    }
                }
                return Some((start, cursor));
            }
            proof {
                assert forall|t: int| covered_from <= t < to implies #[trigger] intervals::covers(
                    covered@,
                    t,
                ) by {
                    if t < cursor {
                        assert(covered@[rest - 1].0 <= t < covered@[rest - 1].1);
                    }
                }
            }
            cursor = covered_from;
            if cursor <= from {
                return None;
            }
        }
        rest = rest - 1;
    }
    proof {
        assert forall|t: int| from <= t < cursor implies !#[trigger] intervals::covers(
            covered@,
            t,
        ) by {
            lemma_above(covered@, 0, cursor as int, t);
        }
    }
    Some((from, cursor))
}

/// A moment after the range before `rest` and before all later ranges is not covered.
proof fn lemma_above(covered: Seq<(u64, u64)>, rest: int, cursor: int, t: int)
    requires
        intervals::disjoint_ascending(covered),
        0 <= rest <= covered.len(),
        forall|j: int| rest <= j < covered.len() ==> (#[trigger] covered[j]).0 >= cursor,
        t < cursor,
        rest > 0 ==> covered[rest - 1].1 <= t,
    ensures
        !intervals::covers(covered, t),
{
    if intervals::covers(covered, t) {
        let k = choose|k: int|
            0 <= k < covered.len() && (#[trigger] covered[k]).0 <= t < covered[k].1;
        if k < rest - 1 {
            assert(covered[k].1 < covered[rest - 1].0);
        }
    }
}

/// Whether a gap is a short one at the live edge.
pub open spec fn is_live_tail(gap: (u64, u64), to: u64) -> bool {
    gap.1 == to && gap.1 - gap.0 <= LIVE_TAIL_DEFER_MS
}

/// The gap to fetch: the newest, unless that is a short tail at the live edge, which can
/// wait while the oldest gap is fetched.
pub open spec fn selected_gap(covered: Seq<(u64, u64)>, from: u64, to: u64) -> Option<(u64, u64)> {
    match newest_gap(covered, from, to) {
        Some(gap) => if is_live_tail(gap, to) {
            oldest_gap(covered, from, to)
        } else {
            Some(gap)
        },
        None => None,
    }
}

/// Keeps the moving live edge from starving a long historical backfill.
pub fn select_trade_fetch_gap(covered: &Vec<(u64, u64)>, from: u64, to: u64) -> (r: Option<
    (u64, u64),
>)
    requires
        intervals::disjoint_ascending(covered@),
    ensures
        r == selected_gap(covered@, from, to),
        r is Some ==> is_gap(covered@, from, to, r->0),
        r is None <==> fully_covered(covered@, from as int, to as int),
{
    let newest: Option<(u64, u64)> = subtract_covered_ranges_latest(covered, from, to);
    let oldest: Option<(u64, u64)> = subtract_covered_ranges(covered, from, to);
    proof {
        if newest is Some {
            assert(!intervals::covers(covered@, (newest->0).0 as int));
        }
        if oldest is Some {
            assert(!intervals::covers(covered@, (oldest->0).0 as int));
        }
    }
    match newest {
        Some((gap_from, gap_to)) => {
            if gap_to == to && gap_to - gap_from <= LIVE_TAIL_DEFER_MS {
                oldest
            } else {
                newest
            }
        },
        None => None,
    }
}

/// Once a range has been marked as covered, one covered range holds it and nothing of it
/// is selected again.
pub proof fn marked_range_has_no_gap(
    before: Seq<(u64, u64)>,
    after: Seq<(u64, u64)>,
    from: u64,
    to: u64,
)
    requires
        from < to,
        intervals::disjoint_ascending(after),
        forall|t: int| #[trigger]
            intervals::covers(after, t) == (intervals::covers(before, t) || from <= t < to),
    ensures
        inside_one(after, from, to),
        oldest_gap(after, from, to) is None,
        selected_gap(after, from, to) is None,
{
    assert(fully_covered(after, from as int, to as int));
    assert(is_newest_gap(after, from, to, None));
    newest_gap_is_unique(after, from, to, None);
    assert(is_oldest_gap(after, from, to, None));
    oldest_gap_is_unique(after, from, to, None);
    assert(intervals::covers(after, from as int));
    let i = choose|i: int| 0 <= i < after.len() && (#[trigger] after[i]).0 <= from < after[i].1;
    if after[i].1 < to {
        let t = after[i].1 as int;
        assert(intervals::covers(after, t));
        let k = choose|k: int| 0 <= k < after.len() && (#[trigger] after[k]).0 <= t < after[k].1;
        if k < i {
            assert(after[k].1 < after[i].0);
        } else if i < k {
            assert(after[i].1 < after[k].0);
        }
    }
    assert(after[i].0 <= from && to <= after[i].1);
}

} // verus!
