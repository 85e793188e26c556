//! What a candle keeps of the market beside its prices.
use vstd::prelude::*;
use crate::chart::indicator::kline::cumulative_delta::TradeCoverage;
use crate::chart::kline::profiles::PriceLevel;
use crate::connector::records::{BubbleVolumeSummary, Trade};
use crate::units::UnixMs;

verus! {

/// The market data of a candle: its traded prices, its trades, the summary of its bubbles and
/// how many of its trades are known.
#[derive(Debug)]
pub struct CandleData {
    pub time: UnixMs,
    pub levels: Vec<PriceLevel>,
    pub trade_sequence: Vec<Trade>,
    pub bubble_summary: Option<BubbleVolumeSummary>,
    pub trade_coverage: TradeCoverage,
}

impl CandleData {
    /// The candle keeps no trades and no summary.
    pub open spec fn is_empty(self) -> bool {
        &&& self.levels@.len() == 0
        &&& self.trade_sequence@.len() == 0
        &&& self.bubble_summary is None
        &&& self.trade_coverage == TradeCoverage::Unknown
    }

    /// A candle of which nothing is known but its time.
    pub fn unknown(time: UnixMs) -> (r: Self)
        ensures
            r.time == time,
            r.is_empty(),
    {
        CandleData {
            time,
            levels: Vec::new(),
            trade_sequence: Vec::new(),
            bubble_summary: None,
            trade_coverage: TradeCoverage::Unknown,
        }
    }
}

/// The same candles, of which each is empty.
pub open spec fn are_emptied(before: Seq<CandleData>, after: Seq<CandleData>) -> bool {
    &&& after.len() == before.len()
    &&& forall|i: int|
        0 <= i < after.len() ==> (#[trigger] after[i]).is_empty() && after[i].time
            == before[i].time
}

/// Empties every candle.
pub fn empty_candles(candles: &Vec<CandleData>) -> (r: Vec<CandleData>)
    ensures
        are_emptied(candles@, r@),
{
    let mut r: Vec<CandleData> = Vec::new();
    for i in 0..candles.len()
        invariant
            r@.len() == i,
            forall|k: int|
                0 <= k < i ==> (#[trigger] r@[k]).is_empty() && r@[k].time == candles@[k].time,
    {
        r.push(CandleData::unknown(candles[i].time));
    }
    r
}

} // verus!
