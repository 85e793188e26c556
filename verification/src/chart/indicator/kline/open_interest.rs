//! Open interest below a chart of candles: which source it has, what is missing of it, and
//! the candles that are drawn.
use vstd::prelude::*;
use crate::chart::kline::market::Basis;
use crate::connector::records::OpenInterest;
use crate::units;
use crate::units::{larger, saturating_add_u64, smaller, Bits64, Timeframe, UnixMs};

verus! {

/// The exchanges as far as their open interest differs.
#[derive(Clone, Copy, Debug, PartialEq, Eq, Structural)]
pub enum Exchange {
    HyperliquidLinear,
    MexcLinear,
    MexcInverse,
    OtherPerpetuals,
    OtherSpot,
}

#[derive(Clone, Copy, Debug, PartialEq, Eq, Structural)]
pub enum OpenInterestAvailability {
    Available,
    NotOnBasis(Basis),
    NotOnExchange(Exchange),
    NotOnTimeframe(Timeframe),
}

#[derive(Clone, Copy, Debug, PartialEq, Eq, Structural)]
pub struct OpenInterestCandle {
    pub open: Bits64,
    pub high: Bits64,
    pub low: Bits64,
    pub close: Bits64,
}

/// What is seen of the candles, and how far back data is fetched ahead.
#[derive(Clone, Copy, Debug)]
pub struct FetchContext {
    pub timeframe: Timeframe,
    pub exchange: Exchange,
    pub visible_earliest: UnixMs,
    pub prefetch_earliest: UnixMs,
    pub kline_latest: UnixMs,
}

/// A range of open interest to fetch.
#[derive(Clone, Copy, Debug, PartialEq, Eq, Structural)]
pub struct OpenInterestRange {
    pub from: UnixMs,
    pub to: UnixMs,
    pub timeframe: Timeframe,
}

pub open spec fn supports(exchange: Exchange) -> bool {
    exchange == Exchange::OtherPerpetuals
}

/// Whether open interest of an exchange can be had: perpetuals, but for some.
pub fn is_supported_exchange(exchange: Exchange) -> (r: bool)
    ensures
        r == supports(exchange),
{
    exchange == Exchange::OtherPerpetuals
}

pub open spec fn source_of(timeframe: Timeframe) -> Option<Timeframe> {
    match timeframe {
        Timeframe::M1 => Some(Timeframe::M5),
        Timeframe::M3 => Some(Timeframe::M5),
        Timeframe::M5 => Some(Timeframe::M5),
        Timeframe::M15 => Some(Timeframe::M15),
        Timeframe::M30 => Some(Timeframe::M30),
        Timeframe::H1 => Some(Timeframe::H1),
        Timeframe::H4 => Some(Timeframe::H4),
        _ => None,
    }
}

pub open spec fn availability(basis: Basis, exchange: Exchange) -> OpenInterestAvailability {
    match basis {
        Basis::Tick(_) => OpenInterestAvailability::NotOnBasis(basis),
        Basis::Time(timeframe) => if !supports(exchange) {
            OpenInterestAvailability::NotOnExchange(exchange)
        } else if source_of(timeframe) is None {
            OpenInterestAvailability::NotOnTimeframe(timeframe)
        } else {
            OpenInterestAvailability::Available
        },
    }
}

/// What is no number.
pub open spec fn is_nan(a: Bits64) -> bool {
    0x7ff0_0000_0000_0000 < a.bits < 0x8000_0000_0000_0000 || 0xfff0_0000_0000_0000 < a.bits
}

/// The place of a figure in the order of numbers.
pub open spec fn rank(a: Bits64) -> int {
    if a.bits < 0x8000_0000_0000_0000 {
        0x8000_0000_0000_0000 + a.bits
    } else {
        0xffff_ffff_ffff_ffff - a.bits
    }
}

/// The larger of two figures; a number before what is none.
pub open spec fn larger_figure(a: Bits64, b: Bits64) -> Bits64 {
    if is_nan(a) {
        b
    } else if is_nan(b) {
        a
    } else if rank(a) >= rank(b) {
        a
    } else {
        b
    }
}

/// The smaller of two figures; a number before what is none.
pub open spec fn smaller_figure(a: Bits64, b: Bits64) -> Bits64 {
    if is_nan(a) {
        b
    } else if is_nan(b) {
        a
    } else if rank(a) <= rank(b) {
        a
    } else {
        b
    }
}

fn no_number(a: Bits64) -> (r: bool)
    ensures
        r == is_nan(a),
{
    (0x7ff0_0000_0000_0000 < a.bits && a.bits < 0x8000_0000_0000_0000) || 0xfff0_0000_0000_0000
        < a.bits
}

fn place(a: Bits64) -> (r: u128)
    ensures
        r == rank(a),
{
    if a.bits < 0x8000_0000_0000_0000 {
        0x8000_0000_0000_0000u128 + a.bits as u128
    } else {
        0xffff_ffff_ffff_ffffu128 - a.bits as u128
    }
}

fn max_figure(a: Bits64, b: Bits64) -> (r: Bits64)
    ensures
        r == larger_figure(a, b),
{
    if no_number(a) {
        b
    } else if no_number(b) || place(a) >= place(b) {
        a
    } else {
        b
    }
}

fn min_figure(a: Bits64, b: Bits64) -> (r: Bits64)
    ensures
        r == smaller_figure(a, b),
{
    if no_number(a) {
        b
    } else if no_number(b) || place(a) <= place(b) {
        a
    } else {
        b
    }
}

/// The number of figures before a moment.
pub open spec fn place_in(data: Seq<(u64, Bits64)>, time: u64) -> int
    decreases data.len(),
{
    if data.len() == 0 || data[0].0 >= time {
        0
    } else {
        1 + place_in(data.skip(1), time)
    }
}

/// A figure taken in by its moment; of two with one moment the later one counts.
pub open spec fn recorded(data: Seq<(u64, Bits64)>, entry: OpenInterest) -> Seq<(u64, Bits64)> {
    let at = place_in(data, entry.time.ms);
    let figure = (entry.time.ms, entry.value);
    if at < data.len() && data[at].0 == entry.time.ms {
        data.update(at, figure)
    } else {
        data.insert(at, figure)
    }
}

pub open spec fn all_recorded(data: Seq<(u64, Bits64)>, entries: Seq<OpenInterest>) -> Seq<
    (u64, Bits64),
>
    decreases entries.len(),
{
    if entries.len() == 0 {
        data
    } else {
        recorded(all_recorded(data, entries.drop_last()), entries.last())
    }
}

/// The candle of a figure: it opens at the figure before.
pub open spec fn candle_of(data: Seq<(u64, Bits64)>, i: int) -> (u64, OpenInterestCandle) {
    let close = data[i].1;
    let open = if i > 0 {
        data[i - 1].1
    } else {
        close
    };
    (
        data[i].0,
        OpenInterestCandle {
            open,
            high: larger_figure(open, close),
            low: smaller_figure(open, close),
            close,
        },
    )
}

pub open spec fn candles_of(data: Seq<(u64, Bits64)>) -> Seq<(u64, OpenInterestCandle)> {
    Seq::new(data.len(), |i: int| candle_of(data, i))
}

/// The first moment with open interest, at most the last candle, and the last one, 0
/// where there is none.
pub open spec fn time_range(data: Seq<(u64, Bits64)>, latest_kline: u64) -> (u64, u64)
    decreases data.len(),
{
    if data.len() == 0 {
        (latest_kline, 0)
    } else {
        let before = time_range(data.drop_last(), latest_kline);
        (
            units::min_u64(before.0, data.last().0),
            units::max_u64(before.1, data.last().0),
        )
    }
}

#[verifier::ext_equal]
pub struct IndicatorModel {
    pub data: Seq<(u64, Bits64)>,
    pub candles: Seq<(u64, OpenInterestCandle)>,
    pub source_timeframe: Option<Timeframe>,
}

impl IndicatorModel {
    /// Turned to a source: figures of another source are dropped.
    pub open spec fn with_source(self, source: Timeframe) -> IndicatorModel {
        if self.source_timeframe == Some(source) {
            self
        } else {
            IndicatorModel {
                data: Seq::empty(),
                candles: Seq::empty(),
                source_timeframe: Some(source),
            }
        }
    }

    /// What is fetched next: first what is missing before the visible candles, then what
    /// has come up since the last figure.
    pub open spec fn missing(self, context: FetchContext, source: Timeframe) -> Option<
        OpenInterestRange,
    > {
        let range = time_range(self.data, context.kline_latest.ms);
        if context.visible_earliest.ms < range.0 {
            Some(
                OpenInterestRange {
                    from: context.prefetch_earliest,
                    to: UnixMs { ms: range.0 },
                    timeframe: source,
                },
            )
        } else if units::sat_add(range.1, source.ms()) <= context.kline_latest.ms {
            Some(
                OpenInterestRange {
                    from: UnixMs { ms: units::max_u64(range.1, context.prefetch_earliest.ms) },
                    to: context.kline_latest,
                    timeframe: source,
                },
            )
        } else {
            None
        }
    }
}

pub struct OpenInterestIndicator {
    data: Vec<(u64, Bits64)>,
    candles: Vec<(u64, OpenInterestCandle)>,
    source_timeframe: Option<Timeframe>,
}

impl View for OpenInterestIndicator {
    type V = IndicatorModel;

    closed spec fn view(&self) -> IndicatorModel {
        IndicatorModel {
            data: self.data@,
            candles: self.candles@,
            source_timeframe: self.source_timeframe,
        }
    }
}

fn insert_figure(data: &mut Vec<(u64, Bits64)>, entry: OpenInterest)
    ensures
        final(data)@ == recorded(old(data)@, entry),
{
    let mut at: usize = 0;
    let ghost all = data@;
    assert(all.skip(0) =~= all);
    while at < data.len() && data[at].0 < entry.time.ms
        invariant
            data@ == all,
            at <= all.len(),
            place_in(all, entry.time.ms) == at + place_in(all.skip(at as int), entry.time.ms),
        decreases all.len() - at,
    {
        assert(all.skip(at as int).skip(1) =~= all.skip(at + 1));
        at = at + 1;
    }
    if at < data.len() && data[at].0 == entry.time.ms {
        data.set(at, (entry.time.ms, entry.value));
    } else {
        data.insert(at, (entry.time.ms, entry.value));
    }
}

impl OpenInterestIndicator {
    /// An indicator without data.
    pub fn new() -> (r: OpenInterestIndicator)
        ensures
            r@ == (IndicatorModel {
                data: Seq::empty(),
                candles: Seq::empty(),
                source_timeframe: None,
            }),
    {
        OpenInterestIndicator { data: Vec::new(), candles: Vec::new(), source_timeframe: None }
    }

    pub fn data(&self) -> (r: &Vec<(u64, Bits64)>)
        ensures
            r@ == self@.data,
    {
        &self.data
    }

    pub fn candles(&self) -> (r: &Vec<(u64, OpenInterestCandle)>)
        ensures
            r@ == self@.candles,
    {
        &self.candles
    }

    /// The duration of the figures for candles of a duration.
    pub fn source_timeframe(timeframe: Timeframe) -> (r: Option<Timeframe>)
        ensures
            r == source_of(timeframe),
    {
        match timeframe {
            Timeframe::M1 => Some(Timeframe::M5),
            Timeframe::M3 => Some(Timeframe::M5),
            Timeframe::M5 => Some(Timeframe::M5),
            Timeframe::M15 => Some(Timeframe::M15),
            Timeframe::M30 => Some(Timeframe::M30),
            Timeframe::H1 => Some(Timeframe::H1),
            Timeframe::H4 => Some(Timeframe::H4),
            _ => None,
        }
    }

    /// Whether open interest can be shown below a chart.
    pub fn availability_for(basis: Basis, exchange: Exchange) -> (r: OpenInterestAvailability)
        ensures
            r == availability(basis, exchange),
    {
        match basis {
            Basis::Tick(_) => OpenInterestAvailability::NotOnBasis(basis),
            Basis::Time(timeframe) => {
                if !is_supported_exchange(exchange) {
                    OpenInterestAvailability::NotOnExchange(exchange)
                } else if Self::source_timeframe(timeframe).is_none() {
                    OpenInterestAvailability::NotOnTimeframe(timeframe)
                } else {
                    OpenInterestAvailability::Available
                }
            },
        }
    }

    /// The first moment with open interest, at most the last candle, and the last one.
    fn oi_timerange(&self, latest_kline: UnixMs) -> (r: (u64, u64))
        ensures
            r == time_range(self@.data, latest_kline.ms),
    {
        let mut from: u64 = latest_kline.ms;
        let mut to: u64 = 0;
        let mut i: usize = 0;
        assert(self.data@.take(0) =~= Seq::<(u64, Bits64)>::empty());
        while i < self.data.len()
            invariant
                i <= self.data@.len(),
                (from, to) == time_range(self.data@.take(i as int), latest_kline.ms),
            decreases self.data@.len() - i,
        {
            assert(self.data@.take(i + 1).drop_last() =~= self.data@.take(i as int));
            assert(self.data@.take(i + 1).last() == self.data@[i as int]);
            from = smaller(from, self.data[i].0);
            to = larger(to, self.data[i].0);
            i = i + 1;
        }
        assert(self.data@.take(self.data@.len() as int) =~= self.data@);
        (from, to)
    }

    /// What is fetched next; nothing where open interest cannot be had.
    pub fn fetch_range(&mut self, context: FetchContext) -> (r: Option<OpenInterestRange>)
        ensures
            match availability(Basis::Time(context.timeframe), context.exchange) {
                OpenInterestAvailability::Available => {
                    let source = source_of(context.timeframe)->0;
                    &&& final(self)@ == old(self)@.with_source(source)
                    &&& r == old(self)@.with_source(source).missing(context, source)
                },
                _ => final(self)@ == old(self)@ && r is None,
            },
    {
        if !is_supported_exchange(context.exchange) {
            return None;
        }
        let source: Timeframe = match Self::source_timeframe(context.timeframe) {
            Some(source) => source,
            None => {
                return None;
            },
        };
        let same: bool = match self.source_timeframe {
            Some(current) => current == source,
            None => false,
        };
        let ghost before = self@;
        if !same {
            self.source_timeframe = Some(source);
            self.data = Vec::new();
            self.candles = Vec::new();
        }
        assert(self@ =~= before.with_source(source));
        let (earliest, latest): (u64, u64) = self.oi_timerange(context.kline_latest);
        if context.visible_earliest.ms < earliest {
            return Some(
                OpenInterestRange {
                    from: context.prefetch_earliest,
                    to: UnixMs::new(earliest),
                    timeframe: source,
                },
            );
        }
        if saturating_add_u64(latest, source.to_milliseconds()) <= context.kline_latest.ms {
            return Some(
                OpenInterestRange {
                    from: UnixMs::new(larger(latest, context.prefetch_earliest.ms)),
                    to: context.kline_latest,
                    timeframe: source,
                },
            );
        }
        None
    }

    fn rebuild_candles(&mut self)
        ensures
            final(self)@ == (IndicatorModel {
                candles: candles_of(old(self)@.data),
                ..old(self)@
            }),
    {
        let mut candles: Vec<(u64, OpenInterestCandle)> = Vec::new();
        let mut i: usize = 0;
        while i < self.data.len()
            invariant
                i <= self.data@.len(),
                candles@ == candles_of(self.data@).take(i as int),
            decreases self.data@.len() - i,
        {
            let (time, close): (u64, Bits64) = self.data[i];
            let open: Bits64 = if i > 0 {
                self.data[i - 1].1
            } else {
                close
            };
            candles.push(
                (
                    time,
                    OpenInterestCandle {
                        open,
                        high: max_figure(open, close),
                        low: min_figure(open, close),
                        close,
                    },
                ),
            );
            assert(candles@ =~= candles_of(self.data@).take(i + 1));
            i = i + 1;
        }
        assert(candles@ =~= candles_of(self.data@));
        self.candles = candles;
    }

    /// Takes figures in and makes the candles anew.
    pub fn on_open_interest(&mut self, entries: &Vec<OpenInterest>)
        ensures
            final(self)@ == (IndicatorModel {
                data: all_recorded(old(self)@.data, entries@),
                candles: candles_of(all_recorded(old(self)@.data, entries@)),
                ..old(self)@
            }),
    {
        let ghost before = self@;
        let mut i: usize = 0;
        assert(entries@.take(0) =~= Seq::<OpenInterest>::empty());
        while i < entries.len()
            invariant
                i <= entries@.len(),
                self@ == (IndicatorModel {
                    data: all_recorded(before.data, entries@.take(i as int)),
                    ..before
                }),
            decreases entries@.len() - i,
        {
            assert(entries@.take(i + 1).drop_last() =~= entries@.take(i as int));
            assert(entries@.take(i + 1).last() == entries@[i as int]);
            insert_figure(&mut self.data, entries[i]);
            i = i + 1;
        }
        assert(entries@.take(entries@.len() as int) =~= entries@);
        self.rebuild_candles();
    }
}

/// Figures in ascending order of their moments, each moment once.
pub open spec fn is_ascending(data: Seq<(u64, Bits64)>) -> bool {
    forall|i: int, j: int|
        0 <= i < j < data.len() ==> (#[trigger] data[i]).0 < (#[trigger] data[j]).0
}

/// Figures stay in ascending order, and a figure is found at its own moment.
pub proof fn figures_keep_their_moments(data: Seq<(u64, Bits64)>, entry: OpenInterest)
    requires
        is_ascending(data),
    ensures
        is_ascending(recorded(data, entry)),
        recorded(data, entry).contains((entry.time.ms, entry.value)),
{
    lemma_place(data, entry.time.ms);
    let at = place_in(data, entry.time.ms);
    let after = recorded(data, entry);
    assert(after[at] == (entry.time.ms, entry.value));
}

proof fn lemma_place(data: Seq<(u64, Bits64)>, time: u64)
    requires
        is_ascending(data),
    ensures
        0 <= place_in(data, time) <= data.len(),
        forall|i: int| 0 <= i < place_in(data, time) ==> (#[trigger] data[i]).0 < time,
        forall|i: int| place_in(data, time) <= i < data.len() ==> (#[trigger] data[i]).0 >= time,
    decreases data.len(),
{
    if data.len() > 0 && data[0].0 < time {
        let rest = data.skip(1);
        assert forall|i: int, j: int| 0 <= i < j < rest.len() implies (#[trigger] rest[i]).0 < (
        #[trigger] rest[j]).0 by {
            assert(data[i + 1].0 < data[j + 1].0);
        }
        lemma_place(rest, time);
        assert forall|i: int| 0 <= i < place_in(data, time) implies (#[trigger] data[i]).0
            < time by {
            if i > 0 {
                assert(rest[i - 1] == data[i]);
            }
        }
        assert forall|i: int| place_in(data, time) <= i < data.len() implies (#[trigger] data[i]).0
            >= time by {
            assert(rest[i - 1] == data[i]);
        }
    } else if data.len() > 0 {
        assert forall|i: int| 0 <= i < data.len() implies (#[trigger] data[i]).0 >= time by {
            if i > 0 {
                assert(data[0].0 < data[i].0);
            }
        }
    }
}

/// Every candle opens where the one before closed, and stands at the moment of its figure.
pub proof fn candles_continue_each_other(data: Seq<(u64, Bits64)>, i: int)
    requires
        0 < i < data.len(),
    ensures
        candles_of(data)[i].1.open == candles_of(data)[i - 1].1.close,
        candles_of(data)[i].0 == data[i].0,
{
}

} // verus!
