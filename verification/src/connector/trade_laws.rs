//! What a read gives back of stored trades.
use vstd::prelude::*;
use crate::connector::buckets;
use crate::connector::buckets::CacheKind;
use crate::connector::cache_store;
use crate::connector::coverage;
use crate::connector::dataset;
use crate::connector::persistent_cache;
use crate::connector::persistent_cache::{BucketPlan, FetchedBucket, ReadOutcome, StoredBucket};
use crate::connector::records;
use crate::connector::records::{CacheRecord, Timed, Trade};
use crate::order;

verus! {

proof fn lemma_precedes_is_transitive(keys: Seq<order::SortKey>, a: int, b: int, c: int)
    requires
        order::precedes(keys, a, b),
        order::precedes(keys, b, c),
    ensures
        order::precedes(keys, a, c),
{
}

/// Among the trades of an id in front of `n`, one comes before the others.
proof fn lemma_first_below(trades: Seq<Trade>, id: u64, n: int, p: int) -> (q: int)
    requires
        0 <= p < n <= trades.len(),
        trades[p].id == Some(id),
    ensures
        0 <= q < n,
        trades[q].id == Some(id),
        forall|j: int|
            0 <= j < n && j != q && (#[trigger] trades[j]).id == Some(id) ==> order::precedes(
                records::trade_keys(trades),
                q,
                j,
            ),
    decreases n,
{
    let keys = records::trade_keys(trades);
    let last = n - 1;
    if exists|j: int| 0 <= j < last && (#[trigger] trades[j]).id == Some(id) {
        let j = choose|j: int| 0 <= j < last && (#[trigger] trades[j]).id == Some(id);
        let q = lemma_first_below(trades, id, last, j);
        if trades[last].id != Some(id) || order::precedes(keys, q, last) {
            q
        } else {
            assert(order::precedes(keys, last, q));
            assert forall|k: int|
                0 <= k < n && k != last && (#[trigger] trades[k]).id == Some(id) implies
                order::precedes(keys, last, k) by {
                if k != q {
                    lemma_precedes_is_transitive(keys, last, q, k);
                }
            }
            last
        }
    } else {
        p
    }
}

/// Some trade of the list is the first of the id.
proof fn lemma_first_of_id(trades: Seq<Trade>, id: u64, p: int) -> (q: int)
    requires
        0 <= p < trades.len(),
        trades[p].id == Some(id),
    ensures
        0 <= q < trades.len(),
        trades[q].id == Some(id),
        records::is_first_of_id(trades, q),
{
    lemma_first_below(trades, id, trades.len() as int, p)
}

proof fn lemma_first_is_kept(source: Seq<Trade>, out: Seq<Trade>, i: int)
    requires
        records::ordered_without_repeats(source, out),
        0 <= i < source.len(),
        records::is_first_of_id(source, i),
    ensures
        out.contains(source[i]),
{
    let keep = |i: int| records::is_first_of_id(source, i);
    let before = |i: int, j: int| order::precedes(records::trade_keys(source), i, j);
    let at = choose|at: Seq<usize>| #[trigger]
        records::is_selection_at(source, out, keep, before, at);
    assert(keep(i));
    let k = choose|k: int| 0 <= k < at.len() && at[k] == i;
    assert(out[k] == source[at[k] as int]);
}

/// The normal form holds one trade of an id at most.
pub proof fn an_id_occurs_once(source: Seq<Trade>, out: Seq<Trade>, a: int, b: int)
    requires
        records::ordered_without_repeats(source, out),
        0 <= a < out.len(),
        0 <= b < out.len(),
        out[a].id is Some,
        out[a].id == out[b].id,
    ensures
        a == b,
{
    let keep = |i: int| records::is_first_of_id(source, i);
    let before = |i: int, j: int| order::precedes(records::trade_keys(source), i, j);
    let at = choose|at: Seq<usize>| #[trigger]
        records::is_selection_at(source, out, keep, before, at);
    assert(out[a] == source[at[a] as int]);
    assert(out[b] == source[at[b] as int]);
    if a < b {
        assert(before(at[a] as int, at[b] as int));
        assert(keep(at[b] as int));
    } else if b < a {
        assert(before(at[b] as int, at[a] as int));
        assert(keep(at[a] as int));
    }
}

proof fn lemma_group_keeps_first(list: Seq<Trade>, kind: CacheKind, start: u64, i: int)
    requires
        0 <= i < list.len(),
        records::is_first_of_id(list, i),
        buckets::bucket_of(kind, list[i].moment() as int) == start,
    ensures
        exists|p: int|
            0 <= p < cache_store::of_bucket(list, kind, start).len() && #[trigger]
                cache_store::of_bucket(list, kind, start)[p] == list[i] && records::is_first_of_id(
                cache_store::of_bucket(list, kind, start),
                p,
            ),
    decreases list.len(),
{
    let group = cache_store::of_bucket(list, kind, start);
    let front = list.drop_last();
    let head = cache_store::of_bucket(front, kind, start);
    let end = list.len() - 1;
    if i == end {
        let p = head.len() as int;
        assert(group =~= head.push(list.last()));
        assert(group[p] == list[i]);
        assert(records::is_first_of_id(group, p)) by {
            if let Some(id) = list[i].id {
                assert forall|j: int|
                    0 <= j < group.len() && j != p && (#[trigger] group[j]).id == Some(
                        id,
                    ) implies order::precedes(records::trade_keys(group), p, j) by {
                    assert(group[j] == head[j]);
                    dataset::lemma_group_members(front, kind, start, j);
                    let n = choose|n: int| 0 <= n < front.len() && front[n] == head[j];
                    assert(list[n].id == Some(id));
                    assert(order::precedes(records::trade_keys(list), i, n));
                }
            }
        }
    } else {
        assert(records::is_first_of_id(front, i)) by {
            if let Some(id) = list[i].id {
                assert forall|j: int|
                    0 <= j < front.len() && j != i && (#[trigger] front[j]).id == Some(
                        id,
                    ) implies order::precedes(records::trade_keys(front), i, j) by {
                    assert(list[j].id == Some(id));
                    assert(order::precedes(records::trade_keys(list), i, j));
                }
            }
        }
        lemma_group_keeps_first(front, kind, start, i);
        let p = choose|p: int|
            0 <= p < head.len() && #[trigger] head[p] == front[i] && records::is_first_of_id(
                head,
                p,
            );
        assert(group[p] == list[i]);
        assert(records::is_first_of_id(group, p)) by {
            if let Some(id) = list[i].id {
                assert forall|j: int|
                    0 <= j < group.len() && j != p && (#[trigger] group[j]).id == Some(
                        id,
                    ) implies order::precedes(records::trade_keys(group), p, j) by {
                    if j < head.len() {
                        assert(head[j].id == Some(id));
                        assert(order::precedes(records::trade_keys(head), p, j));
                    } else {
                        assert(group[j] == list[end]);
                        assert(order::precedes(records::trade_keys(list), i, end));
                    }
                }
            }
        }
    }
}

proof fn lemma_within_joined(a: Seq<Trade>, b: Seq<Trade>, from: u64, to_exclusive: u64)
    ensures
        persistent_cache::within(a + b, from, to_exclusive) == persistent_cache::within(
            a,
            from,
            to_exclusive,
        ) + persistent_cache::within(b, from, to_exclusive),
    decreases b.len(),
{
    if b.len() == 0 {
        assert(a + b =~= a);
        assert(persistent_cache::within(b, from, to_exclusive) =~= seq![]);
        assert(persistent_cache::within(a, from, to_exclusive) + Seq::<Trade>::empty()
            =~= persistent_cache::within(a, from, to_exclusive));
    } else {
        lemma_within_joined(a, b.drop_last(), from, to_exclusive);
        assert((a + b).drop_last() =~= a + b.drop_last());
        assert((a + b).last() == b.last());
        assert(persistent_cache::within(a + b, from, to_exclusive) =~= persistent_cache::within(
            a,
            from,
            to_exclusive,
        ) + persistent_cache::within(b, from, to_exclusive));
    }
}

proof fn lemma_within_first(list: Seq<Trade>, from: u64, to_exclusive: u64, i: int) -> (p: int)
    requires
        0 <= i < list.len(),
        records::is_first_of_id(list, i),
        from <= list[i].moment() < to_exclusive,
    ensures
        0 <= p < persistent_cache::within(list, from, to_exclusive).len(),
        persistent_cache::within(list, from, to_exclusive)[p] == list[i],
        records::is_first_of_id(persistent_cache::within(list, from, to_exclusive), p),
    decreases list.len(),
{
    let kept = persistent_cache::within(list, from, to_exclusive);
    let front = list.drop_last();
    let head = persistent_cache::within(front, from, to_exclusive);
    let end = list.len() - 1;
    if i == end {
        let p = head.len() as int;
        assert(kept =~= head.push(list.last()));
        assert(records::is_first_of_id(kept, p)) by {
            if let Some(id) = list[i].id {
                assert forall|j: int|
                    0 <= j < kept.len() && j != p && (#[trigger] kept[j]).id == Some(
                        id,
                    ) implies order::precedes(records::trade_keys(kept), p, j) by {
                    assert(kept[j] == head[j]);
                    dataset::lemma_within(front, from, to_exclusive);
                    assert(head.contains(head[j]));
                    let n = choose|n: int| 0 <= n < front.len() && front[n] == head[j];
                    assert(list[n].id == Some(id));
                    assert(order::precedes(records::trade_keys(list), i, n));
                }
            }
        }
        p
    } else {
        assert(records::is_first_of_id(front, i)) by {
            if let Some(id) = list[i].id {
                assert forall|j: int|
                    0 <= j < front.len() && j != i && (#[trigger] front[j]).id == Some(
                        id,
                    ) implies order::precedes(records::trade_keys(front), i, j) by {
                    assert(list[j].id == Some(id));
                    assert(order::precedes(records::trade_keys(list), i, j));
                }
            }
        }
        let p = lemma_within_first(front, from, to_exclusive, i);
        assert(kept[p] == list[i]);
        assert(records::is_first_of_id(kept, p)) by {
            if let Some(id) = list[i].id {
                assert forall|j: int|
                    0 <= j < kept.len() && j != p && (#[trigger] kept[j]).id == Some(
                        id,
                    ) implies order::precedes(records::trade_keys(kept), p, j) by {
                    if j < head.len() {
                        assert(head[j].id == Some(id));
                        assert(order::precedes(records::trade_keys(head), p, j));
                    } else {
                        assert(kept[j] == list[end]);
                        assert(order::precedes(records::trade_keys(list), i, end));
                    }
                }
            }
        }
        p
    }
}

/// Whether every trade of the id in the other fetched buckets that lies in the range is later
/// than `moment`.
spec fn others_are_later(
    fetched: Seq<FetchedBucket<Trade>>,
    k: int,
    from: u64,
    to_exclusive: u64,
    id: Option<u64>,
    moment: u64,
) -> bool {
    id is Some ==> forall|i: int, p: int|
        0 <= i < fetched.len() && i != k && 0 <= p < dataset::fetched_records(fetched[i]).len()
            && (#[trigger] dataset::fetched_records(fetched[i])[p]).id == id && from
            <= dataset::fetched_records(fetched[i])[p].moment() < to_exclusive ==> moment
            < dataset::fetched_records(fetched[i])[p].moment()
}

/// Where the trades of the id in every bucket are later, so are those that are gathered.
proof fn lemma_gathered_later(
    fetched: Seq<FetchedBucket<Trade>>,
    from: u64,
    to_exclusive: u64,
    id: u64,
    moment: u64,
    j: int,
)
    requires
        others_are_later(fetched, -1, from, to_exclusive, Some(id), moment),
        0 <= j < persistent_cache::within(
            persistent_cache::gathered(fetched),
            from,
            to_exclusive,
        ).len(),
        persistent_cache::within(persistent_cache::gathered(fetched), from, to_exclusive)[j].id
            == Some(id),
    ensures
        moment < persistent_cache::within(
            persistent_cache::gathered(fetched),
            from,
            to_exclusive,
        )[j].moment(),
{
    let whole = persistent_cache::gathered(fetched);
    let kept = persistent_cache::within(whole, from, to_exclusive);
    dataset::lemma_within(whole, from, to_exclusive);
    assert(kept.contains(kept[j]));
    let w = choose|w: int| 0 <= w < whole.len() && whole[w] == kept[j];
    dataset::lemma_gathered_member(fetched, w);
    let i = choose|i: int|
        0 <= i < fetched.len() && dataset::fetched_records(#[trigger] fetched[i]).contains(
            whole[w],
        );
    let list = dataset::fetched_records(fetched[i]);
    let p = choose|p: int| 0 <= p < list.len() && list[p] == whole[w];
    assert(dataset::fetched_records(fetched[i])[p].id == Some(id));
}

/// The first trade of an id in a bucket stays the first among all that is gathered of the
/// range where the other buckets hold later ones of the id only.
proof fn lemma_gathered_first(
    fetched: Seq<FetchedBucket<Trade>>,
    from: u64,
    to_exclusive: u64,
    k: int,
    m: int,
) -> (q: int)
    requires
        0 <= k < fetched.len(),
        0 <= m < dataset::fetched_records(fetched[k]).len(),
        records::is_first_of_id(dataset::fetched_records(fetched[k]), m),
        from <= dataset::fetched_records(fetched[k])[m].moment() < to_exclusive,
        others_are_later(
            fetched,
            k,
            from,
            to_exclusive,
            dataset::fetched_records(fetched[k])[m].id,
            dataset::fetched_records(fetched[k])[m].moment(),
        ),
    ensures
        0 <= q < persistent_cache::within(
            persistent_cache::gathered(fetched),
            from,
            to_exclusive,
        ).len(),
        persistent_cache::within(persistent_cache::gathered(fetched), from, to_exclusive)[q]
            == dataset::fetched_records(fetched[k])[m],
        records::is_first_of_id(
            persistent_cache::within(persistent_cache::gathered(fetched), from, to_exclusive),
            q,
        ),
    decreases fetched.len(),
{
    let trade = dataset::fetched_records(fetched[k])[m];
    let front = fetched.drop_last();
    let last = fetched.len() - 1;
    let list = dataset::fetched_records(fetched[last]);
    let head = persistent_cache::within(persistent_cache::gathered(front), from, to_exclusive);
    let tail = persistent_cache::within(list, from, to_exclusive);
    let kept = persistent_cache::within(persistent_cache::gathered(fetched), from, to_exclusive);
    assert(persistent_cache::gathered(fetched) =~= persistent_cache::gathered(front) + list);
    lemma_within_joined(persistent_cache::gathered(front), list, from, to_exclusive);
    assert(kept == head + tail);
    if k == last {
        let p = lemma_within_first(list, from, to_exclusive, m);
        let q = head.len() + p;
        assert(records::is_first_of_id(kept, q)) by {
            if let Some(id) = trade.id {
                assert forall|j: int|
                    0 <= j < kept.len() && j != q && (#[trigger] kept[j]).id == Some(
                        id,
                    ) implies order::precedes(records::trade_keys(kept), q, j) by {
                    if j < head.len() {
                        assert(others_are_later(
                            front,
                            -1,
                            from,
                            to_exclusive,
                            Some(id),
                            trade.moment(),
                        )) by {
                            assert forall|i: int, p: int|
                                0 <= i < front.len() && i != -1 && 0 <= p
                                    < dataset::fetched_records(front[i]).len() && (
                                #[trigger] dataset::fetched_records(front[i])[p]).id == Some(id)
                                    && from <= dataset::fetched_records(front[i])[p].moment()
                                    < to_exclusive implies trade.moment()
                                < dataset::fetched_records(front[i])[p].moment() by {
                                assert(front[i] == fetched[i]);
                                assert(dataset::fetched_records(fetched[i])[p].id == Some(id));
                            }
                        }
                        lemma_gathered_later(front, from, to_exclusive, id, trade.moment(), j);
                    } else {
                        let t = j - head.len();
                        assert(tail[t].id == Some(id));
                        assert(order::precedes(records::trade_keys(tail), p, t));
                    }
                }
            }
        }
        q
    } else {
        assert(front[k] == fetched[k]);
        assert(others_are_later(front, k, from, to_exclusive, trade.id, trade.moment())) by {
            if trade.id is Some {
                assert forall|i: int, p: int|
                    0 <= i < front.len() && i != k && 0 <= p < dataset::fetched_records(
                        front[i],
                    ).len() && (#[trigger] dataset::fetched_records(front[i])[p]).id == trade.id
                        && from <= dataset::fetched_records(front[i])[p].moment()
                        < to_exclusive implies trade.moment() < dataset::fetched_records(
                    front[i],
                )[p].moment() by {
                    assert(front[i] == fetched[i]);
                    assert(dataset::fetched_records(fetched[i])[p].id == trade.id);
                }
            }
        }
        let q = lemma_gathered_first(front, from, to_exclusive, k, m);
        assert(records::is_first_of_id(kept, q)) by {
            if let Some(id) = trade.id {
                assert forall|j: int|
                    0 <= j < kept.len() && j != q && (#[trigger] kept[j]).id == Some(
                        id,
                    ) implies order::precedes(records::trade_keys(kept), q, j) by {
                    if j < head.len() {
                        assert(head[j].id == Some(id));
                        assert(order::precedes(records::trade_keys(head), q, j));
                    } else {
                        let t = j - head.len();
                        dataset::lemma_within(list, from, to_exclusive);
                        assert(tail.contains(tail[t]));
                        let p = choose|p: int| 0 <= p < list.len() && list[p] == tail[t];
                        assert(dataset::fetched_records(fetched[last])[p].id == trade.id);
                    }
                }
            }
        }
        q
    }
}

/// Whether a bucket is among those of the plan.
pub open spec fn is_planned(plan: BucketPlan, start: u64) -> bool {
    exists|k: int| 0 <= k < plan.buckets@.len() && (#[trigger] plan.buckets@[k]).0 == start
}

/// A trade that lies in the cache and is asked for is read where it is the first of its id in
/// its bucket and no other bucket that is read holds an earlier one of the id in the range. A
/// trade without an id is always read.
pub proof fn cached_trades_are_read(
    covered: Seq<(u64, u64)>,
    stored: Map<u64, StoredBucket<Trade>>,
    kind: CacheKind,
    dataset_key: Seq<char>,
    from: u64,
    to_exclusive: u64,
    record_from: u64,
    plan: BucketPlan,
    fetched: Seq<FetchedBucket<Trade>>,
    outcome: ReadOutcome<Trade>,
    start: u64,
    m: int,
)
    requires
        dataset::is_sound(covered, stored, kind, dataset_key),
        dataset::is_read(
            covered,
            stored,
            kind,
            dataset_key,
            from,
            to_exclusive,
            record_from,
            plan,
            fetched,
            outcome,
        ),
        0 <= m < dataset::records_at(stored, start).len(),
        records::is_first_of_id(dataset::records_at(stored, start), m),
        dataset::is_asked_for(
            covered,
            from,
            to_exclusive,
            record_from,
            dataset::records_at(stored, start)[m].moment(),
        ),
        dataset::records_at(stored, start)[m].id is Some ==> forall|b: u64, p: int|
            b != start && is_planned(plan, b) && 0 <= p < dataset::records_at(stored, b).len() && (
            #[trigger] dataset::records_at(stored, b)[p]).id == dataset::records_at(
                stored,
                start,
            )[m].id && record_from <= dataset::records_at(stored, b)[p].moment() < to_exclusive
                ==> dataset::records_at(stored, start)[m].moment() < dataset::records_at(
                stored,
                b,
            )[p].moment(),
    ensures
        outcome matches ReadOutcome::Slice(slice) && slice.records@.contains(
            dataset::records_at(stored, start)[m],
        ),
{
    let trade = dataset::records_at(stored, start)[m];
    dataset::sound_datasets_are_read(
        covered,
        stored,
        kind,
        dataset_key,
        from,
        to_exclusive,
        record_from,
        plan,
        fetched,
        outcome,
    );
    dataset::lemma_fetched(covered, stored, kind, dataset_key, plan, fetched);
    dataset::lemma_plan(plan, kind, covered, from, to_exclusive, record_from);
    assert(buckets::bucket_of(kind, trade.moment() as int) == start);
    let k = dataset::lemma_asked_for_is_planned(
        plan,
        kind,
        covered,
        from,
        to_exclusive,
        record_from,
        trade.moment(),
    );
    assert(dataset::fetched_records(fetched[k]) == dataset::records_at(stored, start));
    assert(others_are_later(fetched, k, record_from, to_exclusive, trade.id, trade.moment())) by {
        if trade.id is Some {
            assert forall|i: int, p: int|
                0 <= i < fetched.len() && i != k && 0 <= p < dataset::fetched_records(
                    fetched[i],
                ).len() && (#[trigger] dataset::fetched_records(fetched[i])[p]).id == trade.id
                    && record_from <= dataset::fetched_records(fetched[i])[p].moment()
                    < to_exclusive implies trade.moment() < dataset::fetched_records(
                fetched[i],
            )[p].moment() by {
                let b = plan.buckets@[i].0;
                assert(is_planned(plan, b));
                assert(b != start) by {
                    if i < k {
                        assert(plan.buckets@[i].0 != plan.buckets@[k].0);
                    } else {
                        assert(plan.buckets@[k].0 != plan.buckets@[i].0);
                    }
                }
                assert(dataset::records_at(stored, b)[p].id == trade.id);
            }
        }
    }
    let q = lemma_gathered_first(fetched, record_from, to_exclusive, k, m);
    lemma_first_is_kept(
        persistent_cache::within(
            persistent_cache::gathered(fetched),
            record_from,
            to_exclusive,
        ),
        outcome->Slice_0.records@,
        q,
    );
}

/// Of a cached trade with an id that is asked for, exactly one trade of the id is read, and
/// it is no later one.
pub proof fn one_trade_of_an_id_is_read(
    covered: Seq<(u64, u64)>,
    stored: Map<u64, StoredBucket<Trade>>,
    kind: CacheKind,
    dataset_key: Seq<char>,
    from: u64,
    to_exclusive: u64,
    record_from: u64,
    plan: BucketPlan,
    fetched: Seq<FetchedBucket<Trade>>,
    outcome: ReadOutcome<Trade>,
    start: u64,
    m: int,
) -> (q: int)
    requires
        dataset::is_sound(covered, stored, kind, dataset_key),
        dataset::is_read(
            covered,
            stored,
            kind,
            dataset_key,
            from,
            to_exclusive,
            record_from,
            plan,
            fetched,
            outcome,
        ),
        0 <= m < dataset::records_at(stored, start).len(),
        dataset::records_at(stored, start)[m].id is Some,
        dataset::is_asked_for(
            covered,
            from,
            to_exclusive,
            record_from,
            dataset::records_at(stored, start)[m].moment(),
        ),
    ensures
        outcome is Slice,
        0 <= q < outcome->Slice_0.records@.len(),
        outcome->Slice_0.records@[q].id == dataset::records_at(stored, start)[m].id,
        outcome->Slice_0.records@[q].moment() <= dataset::records_at(stored, start)[m].moment(),
        forall|r: int|
            0 <= r < outcome->Slice_0.records@.len() && (
            #[trigger] outcome->Slice_0.records@[r]).id == dataset::records_at(stored, start)[m].id
                ==> r == q,
{
    let trade = dataset::records_at(stored, start)[m];
    let id = trade.id->0;
    dataset::sound_datasets_are_read(
        covered,
        stored,
        kind,
        dataset_key,
        from,
        to_exclusive,
        record_from,
        plan,
        fetched,
        outcome,
    );
    dataset::lemma_fetched(covered, stored, kind, dataset_key, plan, fetched);
    assert(buckets::bucket_of(kind, trade.moment() as int) == start);
    let k = dataset::lemma_asked_for_is_planned(
        plan,
        kind,
        covered,
        from,
        to_exclusive,
        record_from,
        trade.moment(),
    );
    assert(dataset::fetched_records(fetched[k])[m] == trade);
    dataset::lemma_gathered_contains(fetched, k, trade);
    let whole = persistent_cache::gathered(fetched);
    let kept = persistent_cache::within(whole, record_from, to_exclusive);
    dataset::lemma_within(whole, record_from, to_exclusive);
    assert(kept.contains(trade));
    let at = choose|at: int| 0 <= at < kept.len() && kept[at] == trade;
    let first = lemma_first_of_id(kept, id, at);
    if first != at {
        assert(order::precedes(records::trade_keys(kept), first, at));
    }
    let result = outcome->Slice_0.records@;
    lemma_first_is_kept(kept, result, first);
    let q = choose|q: int| 0 <= q < result.len() && result[q] == kept[first];
    assert forall|r: int| 0 <= r < result.len() && (#[trigger] result[r]).id == trade.id implies r
        == q by {
        an_id_occurs_once(kept, result, r, q);
    }
    q
}

/// What a bucket held and what a store brings it.
pub open spec fn held_and_new(
    before: Map<u64, StoredBucket<Trade>>,
    new_trades: Seq<Trade>,
    kind: CacheKind,
    start: u64,
) -> Seq<Trade> {
    dataset::records_at(before, start) + cache_store::of_bucket(new_trades, kind, start)
}

/// What lies in a bucket after a store was held there or is new, and the first of each id
/// among these lies there as the first of the id.
proof fn lemma_bucket_of_trades(
    covered_before: Seq<(u64, u64)>,
    before: Map<u64, StoredBucket<Trade>>,
    stored: Map<u64, StoredBucket<Trade>>,
    kind: CacheKind,
    dataset_key: Seq<char>,
    stored_from: u64,
    stored_to: u64,
    new_trades: Seq<Trade>,
    groups: Seq<(u64, Vec<Trade>)>,
    start: u64,
)
    requires
        dataset::is_sound(covered_before, before, kind, dataset_key),
        dataset::buckets_after_store(
            before,
            stored,
            kind,
            dataset_key,
            stored_from,
            stored_to,
            new_trades,
            groups,
        ),
    ensures
        forall|p: int|
            0 <= p < dataset::records_at(stored, start).len() ==> held_and_new(
                before,
                new_trades,
                kind,
                start,
            ).contains(#[trigger] dataset::records_at(stored, start)[p]),
        forall|s: int|
            0 <= s < held_and_new(before, new_trades, kind, start).len()
                && records::is_first_of_id(held_and_new(before, new_trades, kind, start), s)
                ==> exists|m: int|
                0 <= m < dataset::records_at(stored, start).len() && dataset::records_at(
                    stored,
                    start,
                )[m] == #[trigger] held_and_new(before, new_trades, kind, start)[s]
                    && #[trigger] records::is_first_of_id(dataset::records_at(stored, start), m),
{
    dataset::lemma_bucket_after_store(
        covered_before,
        before,
        stored,
        kind,
        dataset_key,
        stored_from,
        stored_to,
        new_trades,
        groups,
        start,
    );
    let source = held_and_new(before, new_trades, kind, start);
    let now = dataset::records_at(stored, start);
    if cache_store::is_touched(new_trades, kind, stored_from, stored_to, start) {
        assert forall|p: int| 0 <= p < now.len() implies source.contains(#[trigger] now[p]) by {
            Trade::normal_form_holds_source_records(source, now, p);
        }
        assert forall|s: int|
            0 <= s < source.len() && records::is_first_of_id(source, s) implies exists|m: int|
            0 <= m < now.len() && now[m] == #[trigger] source[s]
                && #[trigger] records::is_first_of_id(now, m) by {
            lemma_first_is_kept(source, now, s);
            let m = choose|m: int| 0 <= m < now.len() && now[m] == source[s];
            assert(records::is_first_of_id(now, m)) by {
                if let Some(id) = now[m].id {
                    assert forall|j: int|
                        0 <= j < now.len() && j != m && (#[trigger] now[j]).id == Some(
                            id,
                        ) implies order::precedes(records::trade_keys(now), m, j) by {
                        an_id_occurs_once(source, now, m, j);
                    }
                }
            }
        }
    } else {
        assert(source =~= now);
        assert forall|s: int|
            0 <= s < source.len() && records::is_first_of_id(source, s) implies exists|m: int|
            0 <= m < now.len() && now[m] == #[trigger] source[s]
                && #[trigger] records::is_first_of_id(now, m) by {
            assert(now[s] == source[s] && records::is_first_of_id(now, s));
        }
    }
}

/// After a store, the first trade of an id among what its bucket held and what is new there
/// is read back by every later read that asks for its moment, where no other bucket that is
/// read has an earlier one of the id in the range. A trade without an id is always read back.
/// The read may ask for any prefix or suffix of what was stored and be covered in part only.
pub proof fn first_trades_are_read_back(
    covered_before: Seq<(u64, u64)>,
    covered: Seq<(u64, u64)>,
    before: Map<u64, StoredBucket<Trade>>,
    stored: Map<u64, StoredBucket<Trade>>,
    kind: CacheKind,
    dataset_key: Seq<char>,
    stored_from: u64,
    stored_to: u64,
    new_trades: Seq<Trade>,
    groups: Seq<(u64, Vec<Trade>)>,
    from: u64,
    to_exclusive: u64,
    record_from: u64,
    plan: BucketPlan,
    fetched: Seq<FetchedBucket<Trade>>,
    outcome: ReadOutcome<Trade>,
    start: u64,
    s: int,
)
    requires
        dataset::is_sound(covered_before, before, kind, dataset_key),
        dataset::buckets_after_store(
            before,
            stored,
            kind,
            dataset_key,
            stored_from,
            stored_to,
            new_trades,
            groups,
        ),
        coverage::coverage_after_store(covered_before, covered, stored_from, stored_to),
        dataset::is_read(
            covered,
            stored,
            kind,
            dataset_key,
            from,
            to_exclusive,
            record_from,
            plan,
            fetched,
            outcome,
        ),
        0 <= s < held_and_new(before, new_trades, kind, start).len(),
        records::is_first_of_id(held_and_new(before, new_trades, kind, start), s),
        dataset::is_asked_for(
            covered,
            from,
            to_exclusive,
            record_from,
            held_and_new(before, new_trades, kind, start)[s].moment(),
        ),
        held_and_new(before, new_trades, kind, start)[s].id is Some ==> forall|b: u64, p: int|
            b != start && is_planned(plan, b) && 0 <= p < held_and_new(
                before,
                new_trades,
                kind,
                b,
            ).len() && (#[trigger] held_and_new(before, new_trades, kind, b)[p]).id == held_and_new(
                before,
                new_trades,
                kind,
                start,
            )[s].id && record_from <= held_and_new(before, new_trades, kind, b)[p].moment()
                < to_exclusive ==> held_and_new(before, new_trades, kind, start)[s].moment()
                < held_and_new(before, new_trades, kind, b)[p].moment(),
    ensures
        outcome matches ReadOutcome::Slice(slice) && slice.records@.contains(
            held_and_new(before, new_trades, kind, start)[s],
        ),
{
    let source = held_and_new(before, new_trades, kind, start);
    let trade = source[s];
    dataset::stores_keep_datasets_sound(
        covered_before,
        covered,
        before,
        stored,
        kind,
        dataset_key,
        stored_from,
        stored_to,
        new_trades,
        groups,
    );
    assert forall|b: u64| true implies #[trigger] is_bucket_of_trades(
        before,
        stored,
        kind,
        new_trades,
        b,
    ) by {
        lemma_bucket_of_trades(
            covered_before,
            before,
            stored,
            kind,
            dataset_key,
            stored_from,
            stored_to,
            new_trades,
            groups,
            b,
        );
    }
    lemma_bucket_of_trades(
        covered_before,
        before,
        stored,
        kind,
        dataset_key,
        stored_from,
        stored_to,
        new_trades,
        groups,
        start,
    );
    let now = dataset::records_at(stored, start);
    let m = choose|m: int|
        0 <= m < now.len() && now[m] == source[s] && #[trigger] records::is_first_of_id(now, m);
    if trade.id is Some {
        assert forall|b: u64, p: int|
            b != start && is_planned(plan, b) && 0 <= p < dataset::records_at(stored, b).len() && (
            #[trigger] dataset::records_at(stored, b)[p]).id == trade.id && record_from
                <= dataset::records_at(stored, b)[p].moment() < to_exclusive implies trade.moment()
            < dataset::records_at(stored, b)[p].moment() by {
            let found = dataset::records_at(stored, b)[p];
            let there = held_and_new(before, new_trades, kind, b);
            assert(is_bucket_of_trades(before, stored, kind, new_trades, b));
            assert(there.contains(found));
            let n = choose|n: int| 0 <= n < there.len() && there[n] == found;
            assert(held_and_new(before, new_trades, kind, b)[n].id == trade.id);
        }
    }
    cached_trades_are_read(
        covered,
        stored,
        kind,
        dataset_key,
        from,
        to_exclusive,
        record_from,
        plan,
        fetched,
        outcome,
        start,
        m,
    );
}

/// What lies in a bucket after a store was held there or is new.
spec fn is_bucket_of_trades(
    before: Map<u64, StoredBucket<Trade>>,
    stored: Map<u64, StoredBucket<Trade>>,
    kind: CacheKind,
    new_trades: Seq<Trade>,
    start: u64,
) -> bool {
    forall|p: int|
        0 <= p < dataset::records_at(stored, start).len() ==> held_and_new(
            before,
            new_trades,
            kind,
            start,
        ).contains(#[trigger] dataset::records_at(stored, start)[p])
}

/// A trade in a bucket was held there or is a new one.
proof fn lemma_held_or_new(
    before: Map<u64, StoredBucket<Trade>>,
    new_trades: Seq<Trade>,
    kind: CacheKind,
    b: u64,
    p: int,
)
    requires
        0 <= p < held_and_new(before, new_trades, kind, b).len(),
    ensures
        (p < dataset::records_at(before, b).len() && held_and_new(before, new_trades, kind, b)[p]
            == dataset::records_at(before, b)[p]) || (p >= dataset::records_at(before, b).len()
            && new_trades.contains(held_and_new(before, new_trades, kind, b)[p])
            && buckets::bucket_of(
            kind,
            held_and_new(before, new_trades, kind, b)[p].moment() as int,
        ) == b),
{
    let held = dataset::records_at(before, b);
    if p >= held.len() {
        dataset::lemma_group_members(new_trades, kind, b, p - held.len());
    }
}

/// A stored trade is read back when it is the first of its id among the stored ones and all
/// trades of the id that were held before are later. One whose id was not held before, or
/// that has no id, is such a trade.
pub proof fn stored_trades_are_read_back(
    covered_before: Seq<(u64, u64)>,
    covered: Seq<(u64, u64)>,
    before: Map<u64, StoredBucket<Trade>>,
    stored: Map<u64, StoredBucket<Trade>>,
    kind: CacheKind,
    dataset_key: Seq<char>,
    stored_from: u64,
    stored_to: u64,
    new_trades: Seq<Trade>,
    groups: Seq<(u64, Vec<Trade>)>,
    from: u64,
    to_exclusive: u64,
    record_from: u64,
    plan: BucketPlan,
    fetched: Seq<FetchedBucket<Trade>>,
    outcome: ReadOutcome<Trade>,
    i: int,
)
    requires
        dataset::is_sound(covered_before, before, kind, dataset_key),
        dataset::buckets_after_store(
            before,
            stored,
            kind,
            dataset_key,
            stored_from,
            stored_to,
            new_trades,
            groups,
        ),
        coverage::coverage_after_store(covered_before, covered, stored_from, stored_to),
        dataset::is_read(
            covered,
            stored,
            kind,
            dataset_key,
            from,
            to_exclusive,
            record_from,
            plan,
            fetched,
            outcome,
        ),
        0 <= i < new_trades.len(),
        records::is_first_of_id(new_trades, i),
        new_trades[i].id is Some ==> forall|b: u64, p: int|
            0 <= p < dataset::records_at(before, b).len() && (
            #[trigger] dataset::records_at(before, b)[p]).id == new_trades[i].id
                ==> new_trades[i].moment() < dataset::records_at(before, b)[p].moment(),
        dataset::is_asked_for(covered, from, to_exclusive, record_from, new_trades[i].moment()),
    ensures
        outcome matches ReadOutcome::Slice(slice) && slice.records@.contains(new_trades[i]),
{
    let trade = new_trades[i];
    buckets::lemma_bucket_of_holds(kind, trade.moment() as int);
    let start = buckets::bucket_of(kind, trade.moment() as int) as u64;
    let held = dataset::records_at(before, start);
    let added = cache_store::of_bucket(new_trades, kind, start);
    let source = held_and_new(before, new_trades, kind, start);
    lemma_group_keeps_first(new_trades, kind, start, i);
    let p = choose|p: int|
        0 <= p < added.len() && #[trigger] added[p] == trade && records::is_first_of_id(added, p);
    let s = held.len() + p;
    assert(source[s] == trade);
    assert(records::is_first_of_id(source, s)) by {
        if let Some(id) = trade.id {
            assert forall|j: int|
                0 <= j < source.len() && j != s && (#[trigger] source[j]).id == Some(id) implies
                order::precedes(records::trade_keys(source), s, j) by {
                if j < held.len() {
                    assert(dataset::records_at(before, start)[j].id == trade.id);
                } else {
                    assert(added[j - held.len()].id == Some(id));
                    assert(order::precedes(records::trade_keys(added), p, j - held.len()));
                }
            }
        }
    }
    if trade.id is Some {
        assert forall|b: u64, n: int|
            b != start && is_planned(plan, b) && 0 <= n < held_and_new(
                before,
                new_trades,
                kind,
                b,
            ).len() && (#[trigger] held_and_new(before, new_trades, kind, b)[n]).id == source[s].id
                && record_from <= held_and_new(before, new_trades, kind, b)[n].moment()
                < to_exclusive implies source[s].moment() < held_and_new(
            before,
            new_trades,
            kind,
            b,
        )[n].moment() by {
            let found = held_and_new(before, new_trades, kind, b)[n];
            lemma_held_or_new(before, new_trades, kind, b, n);
            if n < dataset::records_at(before, b).len() {
                assert(dataset::records_at(before, b)[n].id == trade.id);
            } else {
                let j = choose|j: int| 0 <= j < new_trades.len() && new_trades[j] == found;
                assert(j != i);
                assert(new_trades[j].id == trade.id);
                assert(order::precedes(records::trade_keys(new_trades), i, j));
                // Equal moments would lie in one bucket.
                assert(found.moment() != trade.moment());
            }
        }
    }
    first_trades_are_read_back(
        covered_before,
        covered,
        before,
        stored,
        kind,
        dataset_key,
        stored_from,
        stored_to,
        new_trades,
        groups,
        from,
        to_exclusive,
        record_from,
        plan,
        fetched,
        outcome,
        start,
        s,
    );
}

/// A trade that was held before a store is still read back after it when it is the first of
/// its id among the held ones and no new trade of the id is earlier. So a trade that is
/// delivered again does not replace the one that is held.
pub proof fn held_trades_are_read_back(
    covered_before: Seq<(u64, u64)>,
    covered: Seq<(u64, u64)>,
    before: Map<u64, StoredBucket<Trade>>,
    stored: Map<u64, StoredBucket<Trade>>,
    kind: CacheKind,
    dataset_key: Seq<char>,
    stored_from: u64,
    stored_to: u64,
    new_trades: Seq<Trade>,
    groups: Seq<(u64, Vec<Trade>)>,
    from: u64,
    to_exclusive: u64,
    record_from: u64,
    plan: BucketPlan,
    fetched: Seq<FetchedBucket<Trade>>,
    outcome: ReadOutcome<Trade>,
    start: u64,
    m: int,
)
    requires
        dataset::is_sound(covered_before, before, kind, dataset_key),
        dataset::buckets_after_store(
            before,
            stored,
            kind,
            dataset_key,
            stored_from,
            stored_to,
            new_trades,
            groups,
        ),
        coverage::coverage_after_store(covered_before, covered, stored_from, stored_to),
        dataset::is_read(
            covered,
            stored,
            kind,
            dataset_key,
            from,
            to_exclusive,
            record_from,
            plan,
            fetched,
            outcome,
        ),
        0 <= m < dataset::records_at(before, start).len(),
        records::is_first_of_id(dataset::records_at(before, start), m),
        dataset::records_at(before, start)[m].id is Some ==> forall|b: u64, p: int|
            b != start && 0 <= p < dataset::records_at(before, b).len() && (
            #[trigger] dataset::records_at(before, b)[p]).id == dataset::records_at(
                before,
                start,
            )[m].id ==> dataset::records_at(before, start)[m].moment() < dataset::records_at(
                before,
                b,
            )[p].moment(),
        dataset::records_at(before, start)[m].id is Some ==> forall|i: int|
            0 <= i < new_trades.len() && (#[trigger] new_trades[i]).id == dataset::records_at(
                before,
                start,
            )[m].id ==> dataset::records_at(before, start)[m].moment() <= new_trades[i].moment(),
        dataset::is_asked_for(
            covered,
            from,
            to_exclusive,
            record_from,
            dataset::records_at(before, start)[m].moment(),
        ),
    ensures
        outcome matches ReadOutcome::Slice(slice) && slice.records@.contains(
            dataset::records_at(before, start)[m],
        ),
{
    let held = dataset::records_at(before, start);
    let added = cache_store::of_bucket(new_trades, kind, start);
    let source = held_and_new(before, new_trades, kind, start);
    let trade = held[m];
    assert(before.contains_key(start));
    assert(before[start].records@[m] == trade);
    assert(buckets::bucket_of(kind, trade.moment() as int) == start);
    assert(source[m] == trade);
    assert(records::is_first_of_id(source, m)) by {
        if let Some(id) = trade.id {
            assert forall|j: int|
                0 <= j < source.len() && j != m && (#[trigger] source[j]).id == Some(id) implies
                order::precedes(records::trade_keys(source), m, j) by {
                if j < held.len() {
                    assert(held[j].id == Some(id));
                    assert(order::precedes(records::trade_keys(held), m, j));
                } else {
                    dataset::lemma_group_members(new_trades, kind, start, j - held.len());
                    let i = choose|i: int|
                        0 <= i < new_trades.len() && new_trades[i] == added[j - held.len()];
                    assert(new_trades[i].id == trade.id);
                }
            }
        }
    }
    if trade.id is Some {
        assert forall|b: u64, n: int|
            b != start && is_planned(plan, b) && 0 <= n < held_and_new(
                before,
                new_trades,
                kind,
                b,
            ).len() && (#[trigger] held_and_new(before, new_trades, kind, b)[n]).id == source[m].id
                && record_from <= held_and_new(before, new_trades, kind, b)[n].moment()
                < to_exclusive implies source[m].moment() < held_and_new(
            before,
            new_trades,
            kind,
            b,
        )[n].moment() by {
            let found = held_and_new(before, new_trades, kind, b)[n];
            lemma_held_or_new(before, new_trades, kind, b, n);
            if n < dataset::records_at(before, b).len() {
                assert(dataset::records_at(before, b)[n].id == trade.id);
            } else {
                let i = choose|i: int| 0 <= i < new_trades.len() && new_trades[i] == found;
                assert(new_trades[i].id == trade.id);
                assert(found.moment() != trade.moment());
            }
        }
    }
    first_trades_are_read_back(
        covered_before,
        covered,
        before,
        stored,
        kind,
        dataset_key,
        stored_from,
        stored_to,
        new_trades,
        groups,
        from,
        to_exclusive,
        record_from,
        plan,
        fetched,
        outcome,
        start,
        m,
    );
}

/// Of an id that was held before, is stored, or both, one trade is read back where the first
/// of it in some bucket is asked for: exactly one, and no later one than that first.
pub proof fn repeated_trades_are_read_back_once(
    covered_before: Seq<(u64, u64)>,
    covered: Seq<(u64, u64)>,
    before: Map<u64, StoredBucket<Trade>>,
    stored: Map<u64, StoredBucket<Trade>>,
    kind: CacheKind,
    dataset_key: Seq<char>,
    stored_from: u64,
    stored_to: u64,
    new_trades: Seq<Trade>,
    groups: Seq<(u64, Vec<Trade>)>,
    from: u64,
    to_exclusive: u64,
    record_from: u64,
    plan: BucketPlan,
    fetched: Seq<FetchedBucket<Trade>>,
    outcome: ReadOutcome<Trade>,
    start: u64,
    s: int,
) -> (q: int)
    requires
        dataset::is_sound(covered_before, before, kind, dataset_key),
        dataset::buckets_after_store(
            before,
            stored,
            kind,
            dataset_key,
            stored_from,
            stored_to,
            new_trades,
            groups,
        ),
        coverage::coverage_after_store(covered_before, covered, stored_from, stored_to),
        dataset::is_read(
            covered,
            stored,
            kind,
            dataset_key,
            from,
            to_exclusive,
            record_from,
            plan,
            fetched,
            outcome,
        ),
        0 <= s < held_and_new(before, new_trades, kind, start).len(),
        records::is_first_of_id(held_and_new(before, new_trades, kind, start), s),
        held_and_new(before, new_trades, kind, start)[s].id is Some,
        dataset::is_asked_for(
            covered,
            from,
            to_exclusive,
            record_from,
            held_and_new(before, new_trades, kind, start)[s].moment(),
        ),
    ensures
        outcome is Slice,
        0 <= q < outcome->Slice_0.records@.len(),
        outcome->Slice_0.records@[q].id == held_and_new(before, new_trades, kind, start)[s].id,
        outcome->Slice_0.records@[q].moment() <= held_and_new(
            before,
            new_trades,
            kind,
            start,
        )[s].moment(),
        forall|r: int|
            0 <= r < outcome->Slice_0.records@.len() && (
            #[trigger] outcome->Slice_0.records@[r]).id == held_and_new(
                before,
                new_trades,
                kind,
                start,
            )[s].id ==> r == q,
{
    dataset::stores_keep_datasets_sound(
        covered_before,
        covered,
        before,
        stored,
        kind,
        dataset_key,
        stored_from,
        stored_to,
        new_trades,
        groups,
    );
    lemma_bucket_of_trades(
        covered_before,
        before,
        stored,
        kind,
        dataset_key,
        stored_from,
        stored_to,
        new_trades,
        groups,
        start,
    );
    let source = held_and_new(before, new_trades, kind, start);
    let now = dataset::records_at(stored, start);
    let m = choose|m: int|
        0 <= m < now.len() && now[m] == source[s] && #[trigger] records::is_first_of_id(now, m);
    one_trade_of_an_id_is_read(
        covered,
        stored,
        kind,
        dataset_key,
        from,
        to_exclusive,
        record_from,
        plan,
        fetched,
        outcome,
        start,
        m,
    )
}

/// After a store a read returns trades of the range only, and each one was stored now or held
/// before.
pub proof fn read_returns_stored_trades_only(
    covered_before: Seq<(u64, u64)>,
    covered: Seq<(u64, u64)>,
    before: Map<u64, StoredBucket<Trade>>,
    stored: Map<u64, StoredBucket<Trade>>,
    kind: CacheKind,
    dataset_key: Seq<char>,
    stored_from: u64,
    stored_to: u64,
    new_trades: Seq<Trade>,
    groups: Seq<(u64, Vec<Trade>)>,
    from: u64,
    to_exclusive: u64,
    record_from: u64,
    plan: BucketPlan,
    fetched: Seq<FetchedBucket<Trade>>,
    outcome: ReadOutcome<Trade>,
    q: int,
)
    requires
        dataset::is_sound(covered_before, before, kind, dataset_key),
        dataset::buckets_after_store(
            before,
            stored,
            kind,
            dataset_key,
            stored_from,
            stored_to,
            new_trades,
            groups,
        ),
        coverage::coverage_after_store(covered_before, covered, stored_from, stored_to),
        dataset::is_read(
            covered,
            stored,
            kind,
            dataset_key,
            from,
            to_exclusive,
            record_from,
            plan,
            fetched,
            outcome,
        ),
        outcome is Slice,
        0 <= q < outcome->Slice_0.records@.len(),
    ensures
        record_from <= outcome->Slice_0.records@[q].moment() < to_exclusive,
        new_trades.contains(outcome->Slice_0.records@[q]) || exists|b: u64|
            (#[trigger] dataset::records_at(before, b)).contains(outcome->Slice_0.records@[q]),
{
    let trade = outcome->Slice_0.records@[q];
    dataset::stores_keep_datasets_sound(
        covered_before,
        covered,
        before,
        stored,
        kind,
        dataset_key,
        stored_from,
        stored_to,
        new_trades,
        groups,
    );
    let start = dataset::reads_return_stored_records_only(
        covered,
        stored,
        kind,
        dataset_key,
        from,
        to_exclusive,
        record_from,
        plan,
        fetched,
        outcome,
        q,
    );
    lemma_bucket_of_trades(
        covered_before,
        before,
        stored,
        kind,
        dataset_key,
        stored_from,
        stored_to,
        new_trades,
        groups,
        start,
    );
    let now = dataset::records_at(stored, start);
    let m = choose|m: int| 0 <= m < now.len() && now[m] == trade;
    let source = held_and_new(before, new_trades, kind, start);
    assert(source.contains(now[m]));
    let p = choose|p: int| 0 <= p < source.len() && source[p] == trade;
    lemma_held_or_new(before, new_trades, kind, start, p);
    if p < dataset::records_at(before, start).len() {
        assert(dataset::records_at(before, start).contains(trade));
    }
}

} // verus!
