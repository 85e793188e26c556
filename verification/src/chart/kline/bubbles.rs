//! Which bubbles of volume are shown, in which order, and which of them carry a label.
use vstd::prelude::*;
use crate::connector::records::{
    BubbleCandidate, BubbleVolumeSummary, BUBBLE_SUMMARY_ALGORITHM_VERSION,
};
use crate::order;
use crate::order::{ranked_order, select_in_order, SortRank};
use crate::text;
use crate::text::{char_list, ends_with, string_of};
use crate::units;
use crate::units::{larger, saturating_add_u64, saturating_sub_u64, smaller, Bits32, Bits64, UnixMs};

verus! {

/// Where the bubbles of a candle come from.
#[derive(Clone, Copy, Debug, PartialEq, Eq, Structural)]
pub enum BubbleSource {
    RawTrades,
    Summary,
    Nothing,
}

/// Raw trades where they are wanted and there are any, else a summary of the current
/// version.
pub open spec fn source_of(use_raw_trades: bool, raw_trades: usize, summary_version: u16) -> BubbleSource {
    if use_raw_trades && raw_trades > 0 {
        BubbleSource::RawTrades
    } else if summary_version == BUBBLE_SUMMARY_ALGORITHM_VERSION {
        BubbleSource::Summary
    } else {
        BubbleSource::Nothing
    }
}

pub fn bubble_source(use_raw_trades: bool, raw_trades: usize, summary_version: u16) -> (r: BubbleSource)
    ensures
        r == source_of(use_raw_trades, raw_trades, summary_version),
{
    if use_raw_trades && raw_trades > 0 {
        BubbleSource::RawTrades
    } else if summary_version == BUBBLE_SUMMARY_ALGORITHM_VERSION {
        BubbleSource::Summary
    } else {
        BubbleSource::Nothing
    }
}

/// The first moment of the window that thresholds adapt to, at least a minute long.
pub open spec fn adaptive_start(latest: u64, window_minutes: u64) -> u64 {
    let minutes = units::max_u64(window_minutes, 1);
    if minutes * 60_000 > u64::MAX {
        0
    } else {
        units::sat_sub(latest, (minutes * 60_000) as u64)
    }
}

pub fn baseline_from(latest: u64, window_minutes: u64) -> (r: u64)
    ensures
        r == adaptive_start(latest, window_minutes),
{
    match larger(window_minutes, 1).checked_mul(60_000) {
        Some(window) => saturating_sub_u64(latest, window),
        None => 0,
    }
}

/// A candle with what its bubbles can come from: the clusters of its raw trades and how many
/// of those there are, and a summary.
#[derive(Debug)]
pub struct BubbleCandle {
    pub time: UnixMs,
    pub raw_trades: usize,
    pub raw_clusters: Vec<BubbleCandidate>,
    pub summary: BubbleVolumeSummary,
}

/// The clusters that a candle contributes.
pub open spec fn clusters_of(candle: BubbleCandle, use_raw_trades: bool) -> Seq<BubbleCandidate> {
    match source_of(use_raw_trades, candle.raw_trades, candle.summary.algorithm_version) {
        BubbleSource::RawTrades => candle.raw_clusters@,
        BubbleSource::Summary => candle.summary.candidates@,
        BubbleSource::Nothing => seq![],
    }
}

/// The clusters of the candles from `from` to `to`, both included, candle by candle.
pub open spec fn clusters_between(
    candles: Seq<BubbleCandle>,
    from: u64,
    to: u64,
    use_raw_trades: bool,
) -> Seq<BubbleCandidate>
    decreases candles.len(),
{
    if candles.len() == 0 {
        seq![]
    } else {
        let head = clusters_between(candles.drop_last(), from, to, use_raw_trades);
        if from <= candles.last().time.ms <= to {
            head + clusters_of(candles.last(), use_raw_trades)
        } else {
            head
        }
    }
}

/// The clusters of the visible candles and of those that thresholds adapt to; none where
/// nothing is visible or no bubble may be shown.
pub open spec fn gathered(
    candles: Seq<BubbleCandle>,
    earliest: u64,
    latest: u64,
    window_minutes: u64,
    use_raw_trades: bool,
    max_bubbles_per_bar: usize,
) -> Seq<BubbleCandidate> {
    if latest < earliest || max_bubbles_per_bar == 0 {
        seq![]
    } else {
        clusters_between(
            candles,
            units::min_u64(earliest, adaptive_start(latest, window_minutes)),
            latest,
            use_raw_trades,
        )
    }
}

/// The clusters that bubbles are chosen from, in the order of the candles.
pub fn gather_clusters(
    candles: &Vec<BubbleCandle>,
    earliest: u64,
    latest: u64,
    window_minutes: u64,
    use_raw_trades: bool,
    max_bubbles_per_bar: usize,
) -> (r: Vec<BubbleCandidate>)
    ensures
        r@ == gathered(
            candles@,
            earliest,
            latest,
            window_minutes,
            use_raw_trades,
            max_bubbles_per_bar,
        ),
{
    let mut r: Vec<BubbleCandidate> = Vec::new();
    if latest < earliest || max_bubbles_per_bar == 0 {
        assert(r@ =~= seq![]);
        return r;
    }
    let from: u64 = smaller(earliest, baseline_from(latest, window_minutes));
    let mut i: usize = 0;
    while i < candles.len()
        invariant
            i <= candles@.len(),
            r@ == clusters_between(candles@.take(i as int), from, latest, use_raw_trades),
        decreases candles@.len() - i,
    {
        assert(candles@.take(i + 1).drop_last() =~= candles@.take(i as int));
        let candle = &candles[i];
        let ghost before = r@;
        if from <= candle.time.ms && candle.time.ms <= latest {
            match bubble_source(
                use_raw_trades,
                candle.raw_trades,
                candle.summary.algorithm_version,
            ) {
                BubbleSource::RawTrades => extend(&mut r, &candle.raw_clusters),
                BubbleSource::Summary => extend(&mut r, &candle.summary.candidates),
                BubbleSource::Nothing => {
                    assert(before + clusters_of(*candle, use_raw_trades) =~= before);
                },
            }
        }
        i = i + 1;
    }
    assert(candles@.take(candles@.len() as int) =~= candles@);
    r
}

fn extend(list: &mut Vec<BubbleCandidate>, added: &Vec<BubbleCandidate>)
    ensures
        final(list)@ == old(list)@ + added@,
{
    let ghost held = list@;
    let mut i: usize = 0;
    assert(list@ =~= held + added@.take(0));
    while i < added.len()
        invariant
            i <= added@.len(),
            list@ == held + added@.take(i as int),
        decreases added@.len() - i,
    {
        list.push(added[i]);
        assert(list@ =~= held + added@.take(i + 1));
        i = i + 1;
    }
    assert(added@.take(added@.len() as int) =~= added@);
}

/// The clusters of the window that thresholds adapt to, in order.
pub open spec fn in_baseline(clusters: Seq<BubbleCandidate>, from: u64) -> Seq<BubbleCandidate>
    decreases clusters.len(),
{
    if clusters.len() == 0 {
        seq![]
    } else if clusters.last().last_time.ms >= from {
        in_baseline(clusters.drop_last(), from).push(clusters.last())
    } else {
        in_baseline(clusters.drop_last(), from)
    }
}

pub fn baseline_clusters(clusters: &Vec<BubbleCandidate>, latest: u64, window_minutes: u64) -> (r: Vec<
    BubbleCandidate,
>)
    ensures
        r@ == in_baseline(clusters@, adaptive_start(latest, window_minutes)),
{
    let from: u64 = baseline_from(latest, window_minutes);
    let mut r: Vec<BubbleCandidate> = Vec::new();
    let mut i: usize = 0;
    while i < clusters.len()
        invariant
            i <= clusters@.len(),
            r@ == in_baseline(clusters@.take(i as int), from),
        decreases clusters@.len() - i,
    {
        assert(clusters@.take(i + 1).drop_last() =~= clusters@.take(i as int));
        let cluster: BubbleCandidate = clusters[i];
        if cluster.last_time.ms >= from {
            r.push(cluster);
        }
        i = i + 1;
    }
    assert(clusters@.take(clusters@.len() as int) =~= clusters@);
    r
}

/// Whether a cluster is shown: its candle is visible and its quantity reaches the threshold
/// of the side that traded more.
pub open spec fn is_shown(
    cluster: BubbleCandidate,
    total: Bits64,
    earliest: u64,
    latest: u64,
    buy_threshold: Bits64,
    sell_threshold: Bits64,
) -> bool {
    &&& earliest <= cluster.candle_time.ms <= latest
    &&& if cluster.buy_qty.units >= cluster.sell_qty.units {
        buy_threshold.at_most(total)
    } else {
        sell_threshold.at_most(total)
    }
}

pub open spec fn shown_clusters(
    clusters: Seq<BubbleCandidate>,
    totals: Seq<Bits64>,
    earliest: u64,
    latest: u64,
    buy_threshold: Bits64,
    sell_threshold: Bits64,
) -> Seq<BubbleCandidate>
    decreases clusters.len(),
{
    if clusters.len() == 0 {
        seq![]
    } else {
        let last = clusters.len() - 1;
        let head = shown_clusters(
            clusters.drop_last(),
            totals,
            earliest,
            latest,
            buy_threshold,
            sell_threshold,
        );
        if is_shown(
            clusters[last],
            totals[last],
            earliest,
            latest,
            buy_threshold,
            sell_threshold,
        ) {
            head.push(clusters[last])
        } else {
            head
        }
    }
}

/// The clusters that are shown, in order; `totals` are their quantities as figures.
pub fn retain_shown(
    clusters: &Vec<BubbleCandidate>,
    totals: &Vec<Bits64>,
    earliest: u64,
    latest: u64,
    buy_threshold: Bits64,
    sell_threshold: Bits64,
) -> (r: Vec<BubbleCandidate>)
    requires
        totals@.len() == clusters@.len(),
    ensures
        r@ == shown_clusters(
            clusters@,
            totals@,
            earliest,
            latest,
            buy_threshold,
            sell_threshold,
        ),
{
    let mut r: Vec<BubbleCandidate> = Vec::new();
    let mut i: usize = 0;
    while i < clusters.len()
        invariant
            totals@.len() == clusters@.len(),
            i <= clusters@.len(),
            r@ == shown_clusters(
                clusters@.take(i as int),
                totals@,
                earliest,
                latest,
                buy_threshold,
                sell_threshold,
            ),
        decreases clusters@.len() - i,
    {
        assert(clusters@.take(i + 1).drop_last() =~= clusters@.take(i as int));
        let cluster: BubbleCandidate = clusters[i];
        let threshold: Bits64 = if cluster.buy_qty.units >= cluster.sell_qty.units {
            buy_threshold
        } else {
            sell_threshold
        };
        if earliest <= cluster.candle_time.ms && cluster.candle_time.ms <= latest
            && threshold.is_at_most(totals[i]) {
            r.push(cluster);
        }
        i = i + 1;
    }
    assert(clusters@.take(clusters@.len() as int) =~= clusters@);
    r
}

/// The order of drawing: by candle, by time, by id.
#[derive(Clone, Copy, Debug)]
pub struct DrawRank {
    pub candle_time: u64,
    pub weighted_time: u64,
    pub id: u64,
}

impl SortRank for DrawRank {
    open spec fn before(&self, other: &Self) -> bool {
        self.candle_time < other.candle_time || (self.candle_time == other.candle_time && (
        self.weighted_time < other.weighted_time || (self.weighted_time == other.weighted_time
            && self.id < other.id)))
    }

    fn is_before(&self, other: &Self) -> (r: bool) {
        self.candle_time < other.candle_time || (self.candle_time == other.candle_time && (
        self.weighted_time < other.weighted_time || (self.weighted_time == other.weighted_time
            && self.id < other.id)))
    }

    proof fn order_laws(a: &Self, b: &Self, c: &Self) {
    }
}

/// The order of placement: the most important first, of equals the one with the lower id.
#[derive(Clone, Copy, Debug)]
pub struct PlaceRank {
    pub importance: Bits32,
    pub id: u64,
}

impl SortRank for PlaceRank {
    open spec fn before(&self, other: &Self) -> bool {
        self.importance.rank() > other.importance.rank() || (self.importance.rank()
            == other.importance.rank() && self.id < other.id)
    }

    fn is_before(&self, other: &Self) -> (r: bool) {
        let mine: u64 = self.importance.total_rank();
        let theirs: u64 = other.importance.total_rank();
        mine > theirs || (mine == theirs && self.id < other.id)
    }

    proof fn order_laws(a: &Self, b: &Self, c: &Self) {
    }
}

/// `out` lists the items in the stable order of their keys.
pub open spec fn is_sorted_by<T, K: SortRank>(items: Seq<T>, keys: Seq<K>, out: Seq<T>) -> bool {
    exists|at: Seq<usize>| #[trigger]
        order::is_ranked_order(keys, 0, keys.len() as int, at) && out.len() == at.len() && forall|
            k: int,
        |
            0 <= k < out.len() ==> #[trigger] out[k] == items[at[k] as int]
}

fn sort_by<T, K: SortRank>(items: Vec<T>, keys: &Vec<K>) -> (out: Vec<T>)
    requires
        items@.len() == keys@.len(),
    ensures
        is_sorted_by(items@, keys@, out@),
        out@.len() == items@.len(),
{
    let at = ranked_order(keys);
    proof {
        assert forall|i: int, j: int| 0 <= i < j < at@.len() implies at@[i] != at@[j] by {
            assert(order::rank_precedes(keys@, at@[i] as int, at@[j] as int));
            K::order_laws(
                &keys@[at@[i] as int],
                &keys@[at@[i] as int],
                &keys@[at@[i] as int],
            );
        }
    }
    let ghost source = items@;
    let out = select_in_order(items, &at);
    assert(order::is_ranked_order(keys@, 0, keys@.len() as int, at@));
    out
}

/// The keys of drawing.
pub open spec fn draw_ranks(clusters: Seq<BubbleCandidate>) -> Seq<DrawRank> {
    clusters.map_values(
        |c: BubbleCandidate|
            DrawRank {
                candle_time: c.candle_time.ms,
                weighted_time: c.weighted_time.ms,
                id: c.id,
            },
    )
}

/// The clusters in the order of drawing.
pub fn order_for_drawing(clusters: Vec<BubbleCandidate>) -> (r: Vec<BubbleCandidate>)
    ensures
        is_sorted_by(clusters@, draw_ranks(clusters@), r@),
        r@.len() == clusters@.len(),
{
    let mut keys: Vec<DrawRank> = Vec::new();
    let mut i: usize = 0;
    while i < clusters.len()
        invariant
            i <= clusters@.len(),
            keys@ == draw_ranks(clusters@).take(i as int),
        decreases clusters@.len() - i,
    {
        keys.push(
            DrawRank {
                candle_time: clusters[i].candle_time.ms,
                weighted_time: clusters[i].weighted_time.ms,
                id: clusters[i].id,
            },
        );
        assert(keys@ =~= draw_ranks(clusters@).take(i + 1));
        i = i + 1;
    }
    assert(keys@ =~= draw_ranks(clusters@));
    sort_by(clusters, &keys)
}

/// The keys of placement.
pub open spec fn place_ranks(clusters: Seq<BubbleCandidate>) -> Seq<PlaceRank> {
    clusters.map_values(
        |c: BubbleCandidate| PlaceRank { importance: c.importance_score, id: c.id },
    )
}

/// The places of the clusters in the order in which they are laid out: the most important
/// first.
pub fn order_for_placement(clusters: &Vec<BubbleCandidate>) -> (r: Vec<usize>)
    ensures
        order::is_ranked_order(place_ranks(clusters@), 0, clusters@.len() as int, r@),
{
    let mut keys: Vec<PlaceRank> = Vec::new();
    let mut i: usize = 0;
    while i < clusters.len()
        invariant
            i <= clusters@.len(),
            keys@ == place_ranks(clusters@).take(i as int),
        decreases clusters@.len() - i,
    {
        keys.push(PlaceRank { importance: clusters[i].importance_score, id: clusters[i].id });
        assert(keys@ =~= place_ranks(clusters@).take(i + 1));
        i = i + 1;
    }
    assert(keys@ =~= place_ranks(clusters@));
    ranked_order(&keys)
}

/// The places of the bubbles that have room, each with the place of its offset.
#[derive(Debug)]
pub struct CollisionLayout {
    pub accepted: Vec<(usize, usize)>,
}

/// The first offset at which a bubble has room.
pub open spec fn first_free(free: Seq<bool>) -> Option<usize>
    decreases free.len(),
{
    if free.len() == 0 {
        None
    } else {
        match first_free(free.drop_last()) {
            Some(at) => Some(at),
            None => if free.last() {
                Some((free.len() - 1) as usize)
            } else {
                None
            },
        }
    }
}

proof fn lemma_first_free(free: Seq<bool>, i: int)
    requires
        0 <= i < free.len(),
        free[i],
        first_free(free.take(i)) is None,
    ensures
        first_free(free) == Some(i as usize),
    decreases free.len(),
{
    if i == free.len() - 1 {
        assert(free.drop_last() =~= free.take(i));
    } else {
        assert(free.drop_last().take(i) =~= free.take(i));
        lemma_first_free(free.drop_last(), i);
    }
}

impl CollisionLayout {
    pub fn new() -> (r: Self)
        ensures
            r.accepted@ == Seq::<(usize, usize)>::empty(),
    {
        CollisionLayout { accepted: Vec::new() }
    }

    /// Places a bubble at the first offset at which it keeps its distance from all that
    /// were placed before; `free` tells that for each offset. A bubble without room is
    /// left out.
    pub fn place(&mut self, bubble: usize, free: &Vec<bool>) -> (r: Option<usize>)
        ensures
            r == first_free(free@),
            final(self).accepted@ == match first_free(free@) {
                Some(offset) => old(self).accepted@.push((bubble, offset)),
                None => old(self).accepted@,
            },
    {
        let mut i: usize = 0;
        assert(free@.take(0) =~= Seq::empty());
        while i < free.len()
            invariant
                i <= free@.len(),
                first_free(free@.take(i as int)) is None,
                self.accepted@ == old(self).accepted@,
            decreases free@.len() - i,
        {
            assert(free@.take(i + 1).drop_last() =~= free@.take(i as int));
            if free[i] {
                proof {
                    lemma_first_free(free@, i as int);
                }
                self.accepted.push((bubble, i));
                return Some(i);
            }
            i = i + 1;
        }
        assert(free@.take(free@.len() as int) =~= free@);
        None
    }
}

/// A bubble that may carry a label.
#[derive(Clone, Copy, Debug, PartialEq, Eq, Structural)]
pub struct LabelCandidate {
    pub labelled: bool,
    pub importance: Bits32,
}

/// Whether the label at `j` comes before the one at `i`: it is more important, or equally
/// and further in front.
pub open spec fn label_before(list: Seq<LabelCandidate>, j: int, i: int) -> bool {
    &&& list[j].labelled
    &&& list[j].importance.rank() > list[i].importance.rank() || (list[j].importance.rank()
        == list[i].importance.rank() && j < i)
}

/// How many of the first `n` labels come before the one at `i`.
pub open spec fn labels_before(list: Seq<LabelCandidate>, i: int, n: int) -> nat
    decreases n,
{
    if n <= 0 {
        0
    } else {
        labels_before(list, i, n - 1) + if label_before(list, n - 1, i) {
            1nat
        } else {
            0nat
        }
    }
}

/// Which bubbles keep their label: the most important ones, at most `budget`.
pub fn apply_label_budget(list: &Vec<LabelCandidate>, budget: usize) -> (r: Vec<bool>)
    ensures
        r@.len() == list@.len(),
        forall|i: int|
            0 <= i < r@.len() ==> #[trigger] r@[i] == (list@[i].labelled && labels_before(
                list@,
                i,
                list@.len() as int,
            ) < budget),
{
    let mut r: Vec<bool> = Vec::new();
    let mut i: usize = 0;
    while i < list.len()
        invariant
            i <= list@.len(),
            r@.len() == i,
            forall|k: int|
                0 <= k < i ==> #[trigger] r@[k] == (list@[k].labelled && labels_before(
                    list@,
                    k,
                    list@.len() as int,
                ) < budget),
        decreases list@.len() - i,
    {
        let mine: u64 = list[i].importance.total_rank();
        let mut before: usize = 0;
        let mut j: usize = 0;
        while j < list.len()
            invariant
                i < list@.len(),
                j <= list@.len(),
                mine == list@[i as int].importance.rank(),
                before <= j,
                before == labels_before(list@, i as int, j as int),
            decreases list@.len() - j,
        {
            let theirs: u64 = list[j].importance.total_rank();
            if list[j].labelled && (theirs > mine || (theirs == mine && j < i)) {
                before = before + 1;
            }
            j = j + 1;
        }
        r.push(list[i].labelled && before < budget);
        i = i + 1;
    }
    r
}

/// Labels that are kept are at least as important as every label that is not.
pub proof fn kept_labels_are_most_important(
    list: Seq<LabelCandidate>,
    budget: usize,
    kept: int,
    dropped: int,
)
    requires
        0 <= kept < list.len(),
        0 <= dropped < list.len(),
        list[kept].labelled && labels_before(list, kept, list.len() as int) < budget,
        list[dropped].labelled && labels_before(list, dropped, list.len() as int) >= budget,
    ensures
        list[kept].importance.rank() >= list[dropped].importance.rank(),
{
    if list[kept].importance.rank() < list[dropped].importance.rank() {
        lemma_more_before(list, kept, dropped, list.len() as int);
    }
}

proof fn lemma_more_before(list: Seq<LabelCandidate>, low: int, high: int, n: int)
    requires
        0 <= n <= list.len(),
        list[low].importance.rank() < list[high].importance.rank(),
    ensures
        labels_before(list, high, n) <= labels_before(list, low, n),
    decreases n,
{
    if n > 0 {
        lemma_more_before(list, low, high, n - 1);
    }
}

/// The currencies in which symbols are quoted, in the order in which they are looked for.
pub open spec fn quote_currencies() -> Seq<Seq<char>> {
    seq!["USDT"@, "USDC"@, "USD"@, "BTC"@, "ETH"@]
}

/// The symbol without the first of the currencies from `i` on in which it ends; units where
/// it ends in none of them or is nothing else.
pub open spec fn base_of(symbol: Seq<char>, i: int) -> Seq<char>
    decreases quote_currencies().len() - i,
{
    if i >= quote_currencies().len() {
        "units"@
    } else if text::ends_in(symbol, quote_currencies()[i]) {
        if symbol.len() == quote_currencies()[i].len() {
            "units"@
        } else {
            symbol.take(symbol.len() - quote_currencies()[i].len())
        }
    } else {
        base_of(symbol, i + 1)
    }
}

/// The unit in which the volume of a bubble is shown: what the symbol trades.
pub fn bubble_unit(symbol: &str) -> (r: String)
    ensures
        r@ == base_of(symbol@, 0),
{
    let chars: Vec<char> = char_list(symbol);
    let quotes: [&str; 5] = ["USDT", "USDC", "USD", "BTC", "ETH"];
    let mut i: usize = 0;
    while i < 5
        invariant
            i <= 5,
            chars@ == symbol@,
            quotes@ =~= seq!["USDT", "USDC", "USD", "BTC", "ETH"],
            base_of(symbol@, 0) == base_of(symbol@, i as int),
        decreases 5 - i,
    {
        let quote: Vec<char> = char_list(quotes[i]);
        assert(quote@ == quote_currencies()[i as int]);
        if ends_with(&chars, &quote) {
            if chars.len() == quote.len() {
                return "units".to_string();
            }
            let end: usize = chars.len() - quote.len();
            assert(chars@.subrange(0, end as int) =~= chars@.take(end as int));
            return string_of(&chars, 0, end);
        }
        i = i + 1;
    }
    "units".to_string()
}

/// The visually dominant one of the bubbles under the cursor: the most important, of
/// equals the one with the lower id, of those the last.
pub open spec fn is_dominant(hits: Seq<PlaceRank>, i: int) -> bool {
    &&& 0 <= i < hits.len()
    &&& forall|j: int| 0 <= j < hits.len() ==> !(#[trigger] hits[j]).before(&hits[i])
    &&& forall|j: int| i < j < hits.len() ==> hits[i].before(&#[trigger] hits[j])
}

pub fn dominant_bubble(hits: &Vec<PlaceRank>) -> (r: Option<usize>)
    ensures
        r is None <==> hits@.len() == 0,
        r is Some ==> is_dominant(hits@, r->0 as int),
{
    if hits.len() == 0 {
        return None;
    }
    let mut best: usize = 0;
    let mut i: usize = 1;
    while i < hits.len()
        invariant
            1 <= i <= hits@.len(),
            best < i,
            forall|j: int| 0 <= j < i ==> !(#[trigger] hits@[j]).before(&hits@[best as int]),
            forall|j: int| best < j < i ==> hits@[best as int].before(&#[trigger] hits@[j]),
        decreases hits@.len() - i,
    {
        if !hits[best].is_before(&hits[i]) {
            best = i;
        }
        i = i + 1;
    }
    Some(best)
}

/// The moment at which the response of the price to a cluster is judged.
pub open spec fn response_moment(last_time: u64, horizon_seconds: u32) -> u64 {
    units::sat_add(last_time, (horizon_seconds * 1_000) as u64)
}

/// The place of the first candle from a moment on.
pub open spec fn first_from(times: Seq<u64>, target: u64) -> Option<usize>
    decreases times.len(),
{
    if times.len() == 0 {
        None
    } else {
        match first_from(times.drop_last(), target) {
            Some(i) => Some(i),
            None => if times.last() >= target {
                Some((times.len() - 1) as usize)
            } else {
                None
            },
        }
    }
}

/// Whether the time to judge a response has come, and the candle whose close it is judged
/// by, if there is one.
pub fn response_candle(
    last_time: UnixMs,
    horizon_seconds: u32,
    now: UnixMs,
    times: &Vec<u64>,
) -> (r: (bool, Option<usize>))
    ensures
        r.0 == (now.ms >= response_moment(last_time.ms, horizon_seconds)),
        r.1 == (if r.0 {
            first_from(times@, response_moment(last_time.ms, horizon_seconds))
        } else {
            None
        }),
{
    let target: u64 = saturating_add_u64(last_time.ms, horizon_seconds as u64 * 1_000);
    if now.ms < target {
        return (false, None);
    }
    let mut found: Option<usize> = None;
    let mut i: usize = 0;
    while i < times.len()
        invariant
            i <= times@.len(),
            found == first_from(times@.take(i as int), target),
        decreases times@.len() - i,
    {
        assert(times@.take(i + 1).drop_last() =~= times@.take(i as int));
        if found.is_none() && times[i] >= target {
            found = Some(i);
        }
        i = i + 1;
    }
    assert(times@.take(times@.len() as int) =~= times@);
    (true, found)
}

} // verus!
