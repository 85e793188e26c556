//! The chart of candles: trades, ranges, sessions, overlays and fetching.
use flowsurface::chart::indicator::kline::cumulative_delta::TradeCoverage;
use flowsurface::chart::indicator::kline::open_interest::OpenInterestRange;
use flowsurface::chart::kline::bubbles::{
    apply_label_budget, baseline_clusters, baseline_from, bubble_source, bubble_unit, dominant_bubble,
    gather_clusters, order_for_drawing, order_for_placement, response_candle, retain_shown,
    BubbleCandle, BubbleSource, LabelCandidate, PlaceRank,
};
use flowsurface::chart::kline::candles::CandleData;
use flowsurface::chart::kline::crosshair::{
    crosshair_candle, crosshair_content, CandleAxis, CrosshairContent,
};
use flowsurface::chart::kline::footprint::{
    build_clusters, configure_study, imbalance_study, individual_max, max_bubble_qty, npoc_lines,
    toggle_study, BubbleQuantities, ClusterKind, FootprintStudy, ImbalanceRule, ImbalanceSide,
    LevelFigures, NPoc, NPocLine, PointOfControl,
};
use flowsurface::chart::kline::layers::{draw_layers, Layer, LayerInput};
use flowsurface::chart::kline::market::{
    integrity_range, open_interest_request, Basis, ChartKind, Config, FetchRange, FetchStep,
    FetchView, KlineChart, Overlays, TradeFetchOutcome, VolumeBubbleConfig,
};
use flowsurface::chart::kline::moments::moment_label;
use flowsurface::chart::kline::profiles::{
    build_session_profiles, build_vwap_sessions, plan_profile, session_bins, FootprintCandle,
    PriceLevel, ProfileBin, ProfileFigures, SessionProfile,
};
use flowsurface::chart::kline::ranges::{
    is_range_covered, mark_range_covered, select_trade_fetch_gap, subtract_covered_ranges,
    subtract_covered_ranges_latest,
};
use flowsurface::chart::kline::sessions::{
    align_session_start, current_volume_bubble_session_start_ms, historical_trade_target_to,
    volume_bubble_effective_range, vwap_required_from, VolumeBubbleSession,
};
use flowsurface::chart::kline::trades::{
    append_retained, deduplicate_incoming_trades, exclude_historical_overlap_with_live,
    trades_of_bucket, MAX_RAW_TRADES,
};
use flowsurface::chart::kline::summaries::CandleClusters;
use flowsurface::connector::records::{BubbleCandidate, BubbleVolumeSummary, Trade};
use flowsurface::units::{Bits32, Bits64, Price, PriceStep, Qty, Timeframe, UnixMs};
use rustc_hash::FxHashSet;

const SCALE: i64 = 100_000_000_000;
const DAY: u64 = 86_400_000;

fn at(ms: u64) -> UnixMs {
    UnixMs::new(ms)
}

fn test_trade(id: u64, time: u64, qty: i64) -> Trade {
    Trade {
        id: Some(id),
        time: at(time),
        is_sell: false,
        price: Price::from_units(100 * SCALE),
        qty: Qty::from_units(qty),
    }
}

fn ids(trades: &[Trade]) -> Vec<Option<u64>> {
    trades.iter().map(|trade| trade.id).collect()
}

#[test]
fn retained_trade_ids_prevent_bubble_reaggregation() {
    let trade = test_trade(42, 61_000, 10);
    assert!(deduplicate_incoming_trades(&vec![trade], &vec![trade]).is_empty());
}

#[test]
fn non_positive_trade_price_cannot_poison_footprint_autoscale() {
    let valid = test_trade(1, 61_000, 1);
    let mut zero = test_trade(2, 61_001, 1);
    zero.price = Price::from_units(0);

    let filtered = deduplicate_incoming_trades(&vec![], &vec![zero, valid]);
    assert_eq!(filtered.len(), 1);
    assert_eq!(filtered[0].id, valid.id);
    assert_eq!(filtered[0].price, valid.price);
}

#[test]
fn historical_aggtrades_do_not_double_a_live_raw_bucket() {
    let live_buckets = FxHashSet::from_iter([60_000]);
    let overlapping = test_trade(10, 61_000, 5);
    let historical_only = test_trade(11, 121_000, 7);

    let (filtered, discarded) = exclude_historical_overlap_with_live(
        vec![overlapping, historical_only],
        &live_buckets,
        Timeframe::M1,
    );

    assert_eq!(discarded, 1);
    assert_eq!(filtered.len(), 1);
    assert_eq!(filtered[0].id, historical_only.id);
}

#[test]
fn redelivered_trades_are_accepted_once() {
    let batch = vec![test_trade(1, 10, 1), test_trade(1, 10, 1), test_trade(2, 11, 1)];
    let first = deduplicate_incoming_trades(&vec![], &batch);
    assert_eq!(ids(&first), vec![Some(1), Some(2)]);
    assert!(deduplicate_incoming_trades(&first, &batch).is_empty());
}

#[test]
fn only_the_newest_trades_are_retained() {
    let old: Vec<Trade> =
        (0..MAX_RAW_TRADES as u64).map(|id| test_trade(id, id, 1)).collect();
    let kept = append_retained(old, &vec![test_trade(999_999, 1, 1)]);
    assert_eq!(kept.len(), MAX_RAW_TRADES);
    assert_eq!(kept[0].id, Some(1));
    assert_eq!(kept.last().unwrap().id, Some(999_999));
    let of_bucket = trades_of_bucket(
        &vec![test_trade(1, 59_999, 1), test_trade(2, 60_000, 1), test_trade(3, 119_999, 1)],
        60_000,
        Timeframe::M1,
    );
    assert_eq!(ids(&of_bucket), vec![Some(2), Some(3)]);
}

#[test]
fn latest_uncovered_range_starts_from_the_newest_gap() {
    let covered = vec![(120, 140), (160, 180)];
    assert_eq!(subtract_covered_ranges_latest(&covered, 100, 200), Some((180, 200)));
}

#[test]
fn latest_uncovered_range_moves_back_after_the_tail_is_covered() {
    let covered = vec![(120, 140), (160, 200)];
    assert_eq!(subtract_covered_ranges_latest(&covered, 100, 200), Some((140, 160)));
}

#[test]
fn latest_uncovered_range_returns_none_when_fully_covered() {
    assert_eq!(subtract_covered_ranges_latest(&vec![(90, 210)], 100, 200), None);
}

#[test]
fn covered_ranges_merge_and_leave_the_oldest_gap() {
    let covered = mark_range_covered(vec![(0, 10), (20, 30)], 10, 20);
    assert_eq!(covered, vec![(0, 30)]);
    let covered = mark_range_covered(covered, 50, 60);
    assert!(is_range_covered(&covered, 5, 25));
    assert!(!is_range_covered(&covered, 5, 55));
    assert_eq!(subtract_covered_ranges(&covered, 0, 100), Some((30, 50)));
    assert_eq!(subtract_covered_ranges(&covered, 51, 60), None);
}

#[test]
fn vwap_daily_always_starts_at_current_session_open() {
    let target_to = at(2 * DAY + 12 * 60 * 60_000);
    assert_eq!(
        vwap_required_from(target_to, at(2 * DAY + 10 * 60 * 60_000), DAY),
        at(2 * DAY)
    );
}

#[test]
fn vwap_covers_visible_previous_session_from_its_open() {
    assert_eq!(
        vwap_required_from(
            at(2 * DAY + 12 * 60 * 60_000),
            at(DAY + 18 * 60 * 60_000),
            DAY,
        ),
        at(DAY)
    );
}

#[test]
fn bubble_window_uses_latest_candle_end_and_fixed_history() {
    // 2026-01-15 12:00:00 UTC
    let now = at(1_768_478_400_000);
    let range = volume_bubble_effective_range(
        now.saturating_sub(30_000),
        60_000,
        now,
        30,
        VolumeBubbleSession::Auto,
    )
    .unwrap();
    assert_eq!(range.1, now);
    assert_eq!(range.0, now.saturating_sub(30 * 60_000));
}

#[test]
fn sessions_open_by_the_clock_of_rome() {
    // 2026-01-15 12:00:00 UTC is 13:00 in Rome, which is an hour ahead in winter.
    let winter = 1_768_478_400_000;
    let start = |millis, session| {
        current_volume_bubble_session_start_ms(millis, session).unwrap().as_u64() as i64
    };
    let asian = start(winter, VolumeBubbleSession::Asian);
    assert!(asian <= winter && winter - asian < 86_400_000);
    let london = start(winter, VolumeBubbleSession::London);
    assert!(asian < london && london <= winter);
    // 2026-07-15 12:00:00 UTC is 14:00 in Rome.
    let summer = 1_784_116_800_000;
    let summer_london = start(summer, VolumeBubbleSession::London);
    assert_eq!((london - summer_london).rem_euclid(86_400_000), 3_600_000);
}

#[test]
fn weekly_sessions_begin_on_monday() {
    let week = 7 * DAY;
    // 1970-01-05 was the first Monday.
    assert_eq!(align_session_start(4 * DAY + 5, week), 4 * DAY);
    assert_eq!(align_session_start(11 * DAY - 1, week), 4 * DAY);
    assert_eq!(align_session_start(11 * DAY, week), 11 * DAY);
    assert_eq!(align_session_start(3 * DAY + 7, DAY), 3 * DAY);
}

#[test]
fn short_live_trade_tail_does_not_starve_historical_gap() {
    assert_eq!(select_trade_fetch_gap(&vec![(100, 900)], 0, 1_000), Some((0, 100)));
}

#[test]
fn grown_live_trade_tail_is_refreshed_before_history() {
    assert_eq!(
        select_trade_fetch_gap(&vec![(100, 61_000)], 0, 122_000),
        Some((61_000, 122_000))
    );
}

#[test]
fn historical_trade_fetch_does_not_chase_open_candle() {
    let candle_open = at(600_000);
    assert_eq!(historical_trade_target_to(candle_open, 60_000, at(630_000)), candle_open);
    assert_eq!(historical_trade_target_to(candle_open, 60_000, at(660_000)), at(660_000));
}

fn importance(value: f32) -> Bits32 {
    Bits32 { bits: value.to_bits() }
}

#[test]
fn label_budget_keeps_only_most_important() {
    let bubbles: Vec<LabelCandidate> = [1.0, 3.0, 2.0]
        .into_iter()
        .map(|value| LabelCandidate { labelled: true, importance: importance(value) })
        .collect();
    let kept = apply_label_budget(&bubbles, 1);
    assert_eq!(kept.iter().filter(|kept| **kept).count(), 1);
    assert!(kept[1]);
}

fn candidate(id: u64, weighted: u64, total: i64, delta: i64, score: f32) -> BubbleCandidate {
    BubbleCandidate {
        id,
        candle_time: at(60_000),
        first_time: at(weighted),
        last_time: at(weighted),
        weighted_time: at(weighted),
        vwap_price: Price::from_units(100 * SCALE),
        total_qty: Qty::from_units(total),
        buy_qty: Qty::from_units((total + delta) / 2),
        sell_qty: Qty::from_units((total - delta) / 2),
        delta_qty: Qty::from_units(delta),
        trade_count: 2,
        largest_trade_qty: Qty::from_units(total),
        percentile_rank: importance(98.7),
        importance_score: importance(score),
    }
}

#[test]
fn bubbles_are_ordered_for_drawing_and_placement() {
    let clusters = vec![
        candidate(1, 62_000, 10, 10, 2.0),
        candidate(2, 61_000, 10, 10, 1.0),
        candidate(3, 61_500, 10, 10, 5.0),
    ];
    assert_eq!(order_for_placement(&clusters), vec![2, 0, 1]);
    let drawn: Vec<u64> = order_for_drawing(clusters).iter().map(|c| c.id).collect();
    assert_eq!(drawn, vec![2, 3, 1]);
    let hits = vec![
        PlaceRank { importance: importance(1.0), id: 1 },
        PlaceRank { importance: importance(2.0), id: 2 },
    ];
    assert_eq!(dominant_bubble(&hits), Some(1));
    assert_eq!(dominant_bubble(&vec![]), None);
}

#[test]
fn moments_are_written_with_day_and_time() {
    assert_eq!(moment_label(at(0)), "1970-01-01 00:00:00.000 UTC");
    assert_eq!(moment_label(at(1_700_000_000_042)), "2023-11-14 22:13:20.042 UTC");
    assert_eq!(moment_label(at(u64::MAX)), u64::MAX.to_string());
}

#[test]
fn volumes_are_in_what_the_symbol_trades() {
    assert_eq!(bubble_unit("BTCUSDT"), "BTC");
    assert_eq!(bubble_unit("ETHUSD"), "ETH");
    assert_eq!(bubble_unit("ETHBTC"), "ETH");
    assert_eq!(bubble_unit("USDT"), "units");
    assert_eq!(bubble_unit("BTCUSDT.P"), "units");
    assert_eq!(bubble_unit(""), "units");
}

#[test]
fn bubbles_below_their_threshold_are_dropped() {
    let clusters = vec![
        candidate(1, 61_000, 10, 10, 1.0),
        candidate(2, 61_000, 30, 30, 1.0),
        candidate(3, 61_000, 30, -30, 1.0),
        BubbleCandidate { candle_time: at(120_000), ..candidate(4, 61_000, 90, 90, 1.0) },
    ];
    let totals: Vec<Bits64> = clusters.iter().map(|c| wide(c.total_qty.units as f64)).collect();
    let shown = |buy: f64, sell: f64| -> Vec<u64> {
        retain_shown(&clusters, &totals, 60_000, 70_000, wide(buy), wide(sell))
            .iter()
            .map(|c| c.id)
            .collect()
    };
    assert_eq!(shown(20.0, 40.0), vec![2]);
    assert_eq!(shown(30.0, 30.0), vec![2, 3]);
    assert_eq!(shown(30.1, 30.0), vec![3]);
    assert!(shown(f64::NAN, f64::NAN).is_empty());
}

#[test]
fn bubbles_come_from_raw_trades_where_there_are_any() {
    assert_eq!(bubble_source(true, 3, 0), BubbleSource::RawTrades);
    assert_eq!(bubble_source(true, 0, 2), BubbleSource::Summary);
    assert_eq!(bubble_source(false, 3, 1), BubbleSource::Nothing);
    assert_eq!(baseline_from(600_000, 5), 300_000);
    assert_eq!(baseline_from(600_000, 0), 540_000);
    let times = vec![60_000, 120_000, 180_000];
    assert_eq!(response_candle(at(70_000), 30, at(99_999), &times), (false, None));
    assert_eq!(response_candle(at(70_000), 30, at(100_000), &times), (true, Some(1)));
}

#[test]
fn clusters_are_gathered_from_the_window() {
    let candle = |time: u64, raw_trades: usize, version: u16| BubbleCandle {
        time: at(time),
        raw_trades,
        raw_clusters: vec![candidate(time, time, 10, 10, 1.0)],
        summary: BubbleVolumeSummary {
            candle_time: at(time),
            algorithm_version: version,
            candidates: vec![candidate(time + 1, time, 20, 20, 1.0)],
        },
    };
    let candles = vec![
        candle(0, 1, 2),
        candle(60_000, 1, 2),
        candle(120_000, 0, 2),
        candle(180_000, 0, 1),
        candle(240_000, 1, 2),
    ];
    let ids = |list: Vec<BubbleCandidate>| list.iter().map(|c| c.id).collect::<Vec<_>>();
    assert_eq!(
        ids(gather_clusters(&candles, 120_000, 180_000, 2, true, 3)),
        vec![60_000, 120_001]
    );
    assert_eq!(
        ids(gather_clusters(&candles, 0, 240_000, 1, false, 3)),
        vec![1, 60_001, 120_001, 240_001]
    );
    assert!(gather_clusters(&candles, 120_000, 119_999, 2, true, 3).is_empty());
    assert!(gather_clusters(&candles, 0, 240_000, 2, true, 0).is_empty());
    let clusters = gather_clusters(&candles, 0, 240_000, 1, true, 3);
    assert_eq!(ids(baseline_clusters(&clusters, 240_000, 2)), vec![120_001, 240_000]);
}

fn level(price: i64, buy: i64, sell: i64) -> PriceLevel {
    PriceLevel {
        price: Price::from_units(price),
        buy: Qty::from_units(buy),
        sell: Qty::from_units(sell),
    }
}

fn wide(value: f64) -> Bits64 {
    Bits64 { bits: value.to_bits() }
}

fn figures(levels: &[PriceLevel], threshold: f64) -> Vec<LevelFigures> {
    let over = |qty: f64| wide(qty * (100.0 + threshold) / 100.0);
    levels
        .iter()
        .map(|level| {
            let (buy, sell) = (level.buy.units as f64, level.sell.units as f64);
            LevelFigures {
                buy: wide(buy),
                sell: wide(sell),
                over_buy: over(buy),
                over_sell: over(sell),
            }
        })
        .collect()
}

#[test]
fn imbalances_are_judged_by_rounded_figures() {
    let levels = vec![level(10, 0, 57), level(20, 171, 0)];
    let scaled = |qty: f64| qty * 300.0 / 100.0;
    let figures = vec![
        LevelFigures {
            buy: wide(0.0),
            sell: wide(0.57),
            over_buy: wide(0.0),
            over_sell: wide(scaled(0.57)),
        },
        LevelFigures {
            buy: wide(1.71),
            sell: wide(0.0),
            over_buy: wide(scaled(1.71)),
            over_sell: wide(0.0),
        },
    ];
    let rule = Some(ImbalanceRule { ignore_zeros: true });
    let step = PriceStep { units: 10 };
    let cells = build_clusters(&levels, &figures, ClusterKind::BidAsk, step, rule);
    assert_eq!(cells[0].marker.is_some(), 1.71 > scaled(0.57));
    assert_eq!(cells[1].marker, None);
}

#[test]
fn the_first_study_of_imbalances_counts() {
    let study = |threshold| FootprintStudy::Imbalance {
        threshold,
        color_scale: Some(40),
        ignore_zeros: true,
    };
    let studies = vec![FootprintStudy::NPoC { lookback: 5 }, study(200), study(300)];
    assert_eq!(imbalance_study(&studies), Some((200, Some(40), true)));
    assert_eq!(imbalance_study(&studies[..1].to_vec()), None);
}

#[test]
fn clusters_mark_the_outweighing_side() {
    let levels = vec![level(10, 50, 10), level(20, 90, 4)];
    let figures = figures(&levels, 200.0);
    let step = PriceStep { units: 10 };
    let rule = Some(ImbalanceRule { ignore_zeros: true });
    let cells = build_clusters(&levels, &figures, ClusterKind::BidAsk, step, rule);
    assert_eq!(cells.len(), 2);
    let marked = cells.iter().find_map(|cell| cell.marker).unwrap();
    assert_eq!(marked.side, ImbalanceSide::Buy);
    assert_eq!(marked.price, Price::from_units(20));
    assert_eq!(marked.dominant, wide(90.0));
    assert_eq!(marked.required, wide(30.0));
    let table = build_clusters(&levels, &figures, ClusterKind::Table, step, rule);
    assert_eq!(table[0].buy_imbalance, None);
    assert_eq!(table[1].buy_imbalance.unwrap().required, wide(30.0));
    assert_eq!(table[1].sell_imbalance, None);
    let zeros = Some(ImbalanceRule { ignore_zeros: false });
    let table = build_clusters(&levels, &figures, ClusterKind::Table, step, zeros);
    assert!(table[0].buy_imbalance.unwrap().unbounded);
    assert!(table[1].sell_imbalance.unwrap().unbounded);
    let delta = build_clusters(&levels, &vec![], ClusterKind::DeltaProfile, step, None);
    assert_eq!((delta[0].figure, delta[0].buy, delta[0].sell), (Some(40), None, None));
    let volume = build_clusters(&levels, &vec![], ClusterKind::VolumeProfile, step, None);
    assert_eq!(volume[0].figure, Some(60));
    assert_eq!(volume[0].buy, Some(Qty::from_units(50)));
    assert_eq!(volume[0].sell, Some(Qty::from_units(10)));
    assert_eq!(individual_max(&levels, ClusterKind::VolumeProfile), 94);
    assert_eq!(individual_max(&levels, ClusterKind::BidAsk), 90);
}

#[test]
fn studies_are_toggled_and_configured_by_kind() {
    let study = FootprintStudy::NPoC { lookback: 5 };
    let on = toggle_study(vec![], study, true);
    assert_eq!(on, vec![study]);
    let other = FootprintStudy::NPoC { lookback: 9 };
    assert_eq!(configure_study(on.clone(), other), vec![other]);
    assert!(toggle_study(on, other, false).is_empty());
}

#[test]
fn points_of_control_reach_to_where_they_were_filled() {
    let poc = |price, status| Some(PointOfControl { price: Price::from_units(price), status });
    let entries = vec![
        (1, poc(100, NPoc::Naked)),
        (2, poc(200, NPoc::Filled { at: 4 })),
        (3, None),
        (4, poc(300, NPoc::Unset)),
    ];
    let studies = vec![FootprintStudy::NPoC { lookback: 3 }];
    assert_eq!(
        npoc_lines(&entries, &studies),
        vec![NPocLine { interval: 2, price: Price::from_units(200), filled_at: Some(4) }]
    );
    assert!(npoc_lines(&entries, &vec![]).is_empty());
    let quantities = vec![BubbleQuantities { traded: vec![5, 9], candidates: vec![7] }];
    assert_eq!(max_bubble_qty(&quantities, true), Some(9));
    assert_eq!(max_bubble_qty(&vec![], true), None);
}

fn profiles(
    candles: &Vec<FootprintCandle>,
    visible: (u64, u64),
    percent: f64,
) -> (Vec<SessionProfile>, Vec<Vec<f64>>) {
    let sessions = session_bins(candles, visible.0, visible.1, 10, 1, DAY);
    let volumes: Vec<Vec<f64>> = sessions
        .iter()
        .map(|session| {
            let total = |bin: &ProfileBin| {
                bin.levels.iter().map(|l| (l.buy.units + l.sell.units) as f64).sum()
            };
            session.bins.iter().map(total).collect()
        })
        .collect();
    let figures = volumes.iter().map(|rows| figures_of(rows, percent)).collect();
    (build_session_profiles(&sessions, &figures, 10, 1), volumes)
}

fn figures_of(rows: &[f64], percent: f64) -> ProfileFigures {
    let volumes: Vec<Bits64> = rows.iter().copied().map(wide).collect();
    let mut included = Vec::new();
    let mut sum = 0.0;
    if let Some(plan) = plan_profile(&volumes) {
        for row in plan.order {
            sum += rows[plan.rows[row]];
            included.push(wide(sum));
        }
    }
    ProfileFigures { volumes, included, target: wide(sum * (percent / 100.0)) }
}

#[test]
fn profiles_follow_the_sums_of_their_rows() {
    let plan = |rows: &[f64]| plan_profile(&rows.iter().copied().map(wide).collect());
    assert!(plan(&[]).is_none());
    assert!(plan(&[0.0, -0.0, -1.0, f64::NAN]).is_none());
    let ties = plan(&[3.0, 0.0, 5.0, 3.0, 5.0, 3.0]).unwrap();
    assert_eq!(ties.rows, vec![0, 2, 3, 4, 5]);
    assert_eq!(ties.poc, 3);
    assert_eq!(ties.order, vec![3, 4, 2, 1, 0]);
    // 0.1 + 0.2 is above 0.3 in floating point, and so the larger row.
    assert_eq!(plan(&[0.1 + 0.2, 0.3]).unwrap().poc, 0);
}

#[test]
fn session_profiles_hold_their_value_area() {
    let candle = |time, levels: Vec<PriceLevel>| FootprintCandle {
        time: at(time),
        high: Price::from_units(30),
        low: Price::from_units(10),
        levels,
    };
    let candles = vec![
        candle(0, vec![level(10, 5, 5), level(20, 40, 10)]),
        candle(60_000, vec![level(20, 10, 10), level(30, 10, 10)]),
        candle(DAY, vec![level(10, 1, 0)]),
    ];
    let (profiles, volumes) = profiles(&candles, (60_000, DAY), 70.0);
    assert_eq!(profiles.len(), 2);
    assert_eq!((profiles[0].start, profiles[0].end), (0, DAY));
    assert_eq!(profiles[1].session, 1);
    let rows = &profiles[0].rows;
    let prices: Vec<i64> = rows.iter().map(|row| row.price.units).collect();
    assert_eq!(prices, vec![15, 25, 35]);
    assert_eq!(volumes[0], vec![10.0, 70.0, 20.0]);
    assert_eq!(profiles[0].poc, 1);
    assert_eq!((profiles[0].value_area_low, profiles[0].value_area_high), (1, 1));
    let vwap = build_vwap_sessions(&candles, 60_000, DAY, DAY);
    assert_eq!(vwap.len(), 2);
    assert_eq!((vwap[0].start, vwap[0].volume, vwap[0].points.len()), (0, 100, 2));
    let later = build_vwap_sessions(&candles, DAY, DAY, DAY);
    assert_eq!((later.len(), later[0].points.clone()), (1, vec![2]));
    let (bounded, _) = self::profiles(&candles, (0, 59_999), 70.0);
    assert_eq!(bounded.len(), 1);
    assert_eq!(bounded[0].rows.len(), 2);
    let sessions = session_bins(&candles, 0, DAY, 10, 1, DAY);
    assert_eq!(sessions[0].bins[1].levels, vec![level(20, 40, 10), level(20, 10, 10)]);
}

#[test]
fn the_value_area_grows_to_its_target() {
    let candles = vec![FootprintCandle {
        time: at(0),
        high: Price::from_units(30),
        low: Price::from_units(10),
        levels: (1..=200).map(|row| level(10 * row, 1, 0)).collect(),
    }];
    let area = |percent: f64| {
        let (profiles, _) = profiles(&candles, (0, 0), percent);
        (profiles[0].value_area_low, profiles[0].value_area_high)
    };
    assert_eq!(area(1.0), (198, 199));
    assert_eq!(area(100.0), (0, 199));
    assert_eq!(area(200.0), (0, 199));
    assert_eq!(area(50.0), (100, 199));
}

#[test]
fn the_crosshair_finds_its_candle() {
    let axis = CandleAxis::Time(vec![0, 60_000, 120_000]);
    assert_eq!(crosshair_candle(&axis, Some(60_000), (0, 200_000)), Some(1));
    assert_eq!(crosshair_candle(&axis, Some(119_999), (0, 200_000)), Some(1));
    assert_eq!(crosshair_candle(&axis, Some(500_000), (0, 200_000)), Some(2));
    assert_eq!(crosshair_candle(&CandleAxis::Time(vec![]), Some(5), (0, 10)), None);
    assert_eq!(
        crosshair_content(true, true, true, true, true, false),
        CrosshairContent::Bubble
    );
    assert_eq!(
        crosshair_content(true, false, true, true, true, false),
        CrosshairContent::GexLevels
    );
    assert_eq!(
        crosshair_content(true, false, true, false, true, false),
        CrosshairContent::Candle
    );
    assert_eq!(
        crosshair_content(false, false, false, false, false, true),
        CrosshairContent::LatestCandle
    );
}

#[test]
fn layers_lie_from_back_to_front() {
    let input = LayerInput {
        kind: ChartKind::Candles,
        overlays: Overlays { volume_bubbles: true, vwap: true, session_volume_profile: false },
        bubbles_enabled: true,
        gex_levels_enabled: true,
        has_gex_snapshot: false,
        has_gex_proxy: true,
        earliest: 10,
        latest: 90,
        bubble_window: Some((at(20), at(100))),
    };
    assert_eq!(
        draw_layers(&input),
        vec![
            Layer::GexBackground,
            Layer::Vwap,
            Layer::Candles,
            Layer::Bubbles(20, 90),
            Layer::LastPrice
        ]
    );
    let footprint = LayerInput { kind: ChartKind::Footprint, ..input };
    assert_eq!(
        draw_layers(&footprint),
        vec![Layer::PointsOfControl, Layer::Clusters, Layer::LastPrice]
    );
}

fn config() -> Config {
    Config {
        volume_bubbles: VolumeBubbleConfig {
            enabled: true,
            session: VolumeBubbleSession::Auto,
            history_window_minutes: 30,
            max_candidates_per_candle: 8,
            max_bubbles_per_bar: 3,
            use_raw_trades_when_available: true,
            cluster_window_ms: 500,
            cluster_price_ticks: 2,
        },
        session_volume_profile_interval_ms: DAY,
        vwap_anchor_ms: DAY,
    }
}

fn chart(basis: Basis, kind: ChartKind) -> KlineChart {
    let none = Overlays { volume_bubbles: false, vwap: false, session_volume_profile: false };
    KlineChart::new(basis, PriceStep { units: 10 }, kind, true, &vec![], none, config())
}

fn view(visible: Option<(u64, u64)>) -> FetchView {
    FetchView {
        now: at(1_000_000_000),
        empty: false,
        kline_earliest: at(900_000_000),
        kline_latest: at(999_960_000),
        visible,
        trade_fetch_enabled: true,
        trade_request_pending: true,
        suggested_trades: None,
        indicator_ranges: vec![],
        missing_klines: None,
    }
}

#[test]
fn candles_before_the_visible_range_are_requested() {
    let mut chart = chart(Basis::Time(Timeframe::M1), ChartKind::Candles);
    let steps = chart.fetch_missing_data(&view(Some((800_000_000, 950_000_000))));
    assert!(matches!(
        steps[0],
        FetchStep::Request(FetchRange::Kline(_, to)) if to == at(900_000_000)
    ));
    let mut tick = self::chart(Basis::Tick(50), ChartKind::Candles);
    assert!(tick.fetch_missing_data(&view(Some((0, 10)))).is_empty());
}

#[test]
fn requests_of_indicators_follow_in_their_order() {
    let mut chart = chart(Basis::Time(Timeframe::M1), ChartKind::Candles);
    let mut view = view(Some((950_000_000, 999_960_000)));
    let asked = |from: u64, to: u64| {
        let (from, to) = (at(from), at(to));
        open_interest_request(OpenInterestRange { from, to, timeframe: Timeframe::M5 })
    };
    let first = asked(1, 2);
    let second = asked(3, 4);
    assert_eq!(
        first,
        FetchRange::OpenInterest { from: at(1), to: at(2), timeframe: Timeframe::M5 }
    );
    view.indicator_ranges = vec![first, second];
    let steps = chart.fetch_missing_data(&view);
    let wanted = [FetchStep::Request(first), FetchStep::Request(second)];
    assert!(steps.windows(2).any(|pair| pair == wanted));
}

#[test]
fn candles_around_missing_ones_are_requested() {
    let mut chart = chart(Basis::Time(Timeframe::M1), ChartKind::Candles);
    let mut view = view(Some((950_000_000, 999_960_000)));
    view.missing_klines = Some(vec![at(960_000_000), at(958_020_000), at(959_040_000)]);
    assert_eq!(
        chart.fetch_missing_data(&view).last(),
        Some(&FetchStep::Request(FetchRange::Kline(at(957_960_000), at(960_060_000))))
    );
    view.missing_klines = Some(vec![]);
    assert_eq!(
        chart.fetch_missing_data(&view).last(),
        Some(&FetchStep::Request(FetchRange::Kline(at(949_940_000), at(1_000_020_000))))
    );
    assert_eq!(
        integrity_range(at(0), (950_000_000, 999_960_000), Timeframe::M1),
        (at(900_040_000), at(1_000_020_000))
    );
    assert_eq!(
        integrity_range(at(940_000_000), (950_000_000, 999_960_000), Timeframe::M1).0,
        at(940_000_000)
    );
}

#[test]
fn trades_are_requested_once_at_a_time() {
    let mut chart = chart(Basis::Time(Timeframe::M1), ChartKind::Footprint);
    let mut view = view(Some((950_000_000, 999_960_000)));
    view.suggested_trades = Some((at(960_000_000), at(999_999_999)));
    let trades = FetchRange::Trades(at(960_000_000), at(999_960_000));
    assert_eq!(chart.fetch_missing_data(&view), vec![FetchStep::Request(trades)]);
    chart.request_accepted(FetchRange::Kline(at(0), at(1)));
    assert!(!chart.is_fetching_trades());
    chart.request_accepted(trades);
    assert!(chart.fetch_missing_data(&view).is_empty());
    view.trade_request_pending = false;
    assert_eq!(chart.fetch_missing_data(&view), vec![FetchStep::Request(trades)]);
    assert!(!chart.is_fetching_trades());
}

#[test]
fn held_trades_are_summarized_by_candle() {
    let none = Overlays { volume_bubbles: false, vwap: false, session_volume_profile: false };
    let held: Vec<Trade> = [130_000, 59_999, 60_000, 125_000, 119_999, 180_001]
        .into_iter()
        .enumerate()
        .map(|(id, time)| Trade {
            id: Some(id as u64),
            time: at(time),
            is_sell: false,
            price: Price::from_units(100),
            qty: Qty { units: 1 },
        })
        .collect();
    let basis = Basis::Time(Timeframe::M1);
    let chart = KlineChart::new(
        basis,
        PriceStep { units: 10 },
        ChartKind::Candles,
        true,
        &held,
        none,
        config(),
    );
    let groups = chart.bubble_trades(at(60_000), at(180_000), Timeframe::M1);
    let found: Vec<(u64, Vec<Option<u64>>)> = groups
        .iter()
        .map(|group| (group.candle_time.ms, group.trades.iter().map(|trade| trade.id).collect()))
        .collect();
    assert_eq!(
        found,
        vec![(60_000, vec![Some(2), Some(4)]), (120_000, vec![Some(0), Some(3)])]
    );
    let clusters = vec![CandleClusters {
        candle_time: at(60_000),
        candidates: (0..10).map(|id| candidate(id, 61_000, (id % 5) as i64, 0, 1.0)).collect(),
    }];
    let summaries = chart.bubble_summaries(&clusters);
    assert_eq!(summaries.len(), 1);
    assert_eq!(summaries[0].candle_time, at(60_000));
    let kept: Vec<u64> = summaries[0].candidates.iter().map(|candidate| candidate.id).collect();
    assert_eq!(kept, vec![4, 9, 3, 8, 2, 7, 1, 6]);
}

#[test]
fn a_new_chart_keeps_the_newest_trades() {
    let none = Overlays { volume_bubbles: false, vwap: false, session_volume_profile: false };
    let trades: Vec<Trade> =
        (0..MAX_RAW_TRADES as u64 + 3).map(|id| test_trade(id, 60_000 + id, 1)).collect();
    let basis = Basis::Time(Timeframe::M1);
    let kind = ChartKind::Candles;
    let chart =
        KlineChart::new(basis, PriceStep { units: 10 }, kind, true, &trades, none, config());
    assert_eq!(chart.raw_trades().len(), MAX_RAW_TRADES);
    assert_eq!(chart.raw_trades()[0].id, Some(3));
}

#[test]
fn dropped_market_data_is_missing_again() {
    let mut chart = chart(Basis::Time(Timeframe::M1), ChartKind::Candles);
    chart.insert_trades(&vec![test_trade(1, 60_000, 1)]);
    chart.mark_trade_range_covered(at(1_000), at(9_000));
    chart.mark_bubble_summary_range_covered(at(1_000), at(9_000));
    assert_eq!(chart.missing_trade_range(at(1_000), at(9_000)), None);
    let candle = || CandleData {
        time: at(60_000),
        levels: vec![level(10, 1, 2)],
        trade_sequence: vec![test_trade(1, 60_000, 1)],
        bubble_summary: Some(BubbleVolumeSummary::new(at(60_000), vec![])),
        trade_coverage: TradeCoverage::Complete,
    };
    let candles = chart.invalidate_market_data_cache(vec![candle()]);
    assert_eq!(candles.len(), 1);
    assert_eq!(candles[0].time, at(60_000));
    assert!(candles[0].levels.is_empty() && candles[0].trade_sequence.is_empty());
    assert!(candles[0].bubble_summary.is_none());
    assert_eq!(candles[0].trade_coverage, TradeCoverage::Unknown);
    let mut ticks = self::chart(Basis::Tick(50), ChartKind::Candles);
    assert_eq!(ticks.invalidate_market_data_cache(vec![candle()])[0].levels.len(), 1);
    assert!(chart.raw_trades().is_empty());
    assert_eq!(
        chart.missing_trade_range(at(1_000), at(9_000)),
        Some((at(1_000), at(9_000)))
    );
    assert_eq!(
        chart.subtract_covered_bubble_summary_ranges(at(1_000), at(9_000)),
        Some((at(1_000), at(9_000)))
    );
}

#[test]
fn an_unreached_tail_stays_open() {
    let mut chart = chart(Basis::Time(Timeframe::M1), ChartKind::Footprint);
    chart.request_accepted(FetchRange::Trades(at(0), at(100)));
    let outcome = TradeFetchOutcome {
        unfilled_tail: Some((at(80), at(100))),
        empty_tail: Some((at(90), at(100))),
    };
    let noted = chart.complete_trade_fetch(Some(FetchRange::Trades(at(0), at(100))), outcome);
    assert_eq!(noted.verified, Some((at(0), at(79))));
    assert_eq!(noted.empty, Some((at(90), at(100))));
    assert!(!chart.is_fetching_trades());
    assert!(chart.is_trade_range_covered(at(0), at(79)));
    assert!(!chart.is_trade_range_covered(at(0), at(80)));
    assert_eq!(chart.missing_trade_range(at(0), at(100)), Some((at(79), at(100))));
}

#[test]
fn live_trades_keep_their_buckets_from_history() {
    let mut chart = chart(Basis::Time(Timeframe::M1), ChartKind::Footprint);
    let live = chart.insert_trades(&vec![test_trade(5, 61_000, 1)]);
    assert_eq!(live.len(), 1);
    let historical =
        chart.insert_raw_trades(&vec![test_trade(7, 62_000, 1), test_trade(8, 10, 1)], true);
    assert_eq!(ids(&historical), vec![Some(8)]);
    chart.set_basis(Basis::Tick(50));
    assert!(chart.raw_trades().is_empty());
}

#[test]
fn settings_that_need_more_candidates_drop_summaries() {
    let mut chart = chart(Basis::Time(Timeframe::M1), ChartKind::Candles);
    chart.set_overlays(Overlays {
        volume_bubbles: true,
        vwap: false,
        session_volume_profile: false,
    });
    chart.mark_bubble_summary_range_covered(at(0), at(100));
    let mut wider = config();
    wider.volume_bubbles.max_candidates_per_candle = 12;
    let change = chart.set_visual_config(wider);
    assert!(change.drop_summaries && change.wake);
    assert_eq!(
        chart.subtract_covered_bubble_summary_ranges(at(0), at(100)),
        Some((at(0), at(100)))
    );
    let same = chart.set_visual_config(wider);
    assert!(!same.drop_summaries && !same.wake);
}

#[test]
fn a_profile_is_ready_once_its_trades_are_covered() {
    let mut chart = chart(Basis::Time(Timeframe::M1), ChartKind::Candles);
    let (first, second) = (at(600_000), at(0));
    let (latest, now) = (at(600_000), at(630_000));
    assert!(chart.fixed_volume_profile_loading(first, second, latest, now));
    chart.mark_trade_range_covered(at(0), at(600_000));
    assert!(!chart.fixed_volume_profile_loading(first, second, latest, now));
    assert!(chart.fixed_volume_profile_ready(at(700_000), at(800_000), latest, now));
    let mut tick = self::chart(Basis::Tick(50), ChartKind::Candles);
    assert!(tick.fixed_volume_profile_loading(first, second, latest, now));
}
