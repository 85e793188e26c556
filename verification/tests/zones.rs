//! Gamma zones, rails and markers, and which candles are drawn.
use flowsurface::chart::kline::bubbles::CollisionLayout;
use flowsurface::chart::kline::crosshair::CandleAxis;
use flowsurface::chart::kline::gex_zones::{
    draw_gex_zone_background, draw_gex_zone_cores, draw_gex_zone_markers, draw_gex_zone_tooltip,
    hit_test_gex_proxy_geometry, hovered_zone, nearest_strike, zone_title, FrameSight, GexRenderCache,
    GexZone, GexZoneFrame, GexZoneSign, ZoneHover, ZoneKeyParts, ZonePlace, ZoneStep,
};
use flowsurface::chart::kline::layers::render_data_source;
use flowsurface::chart::kline::proxy_rails::gex_deribit_markers;
use flowsurface::connector::gex_proxy::GexFreshness;
use flowsurface::units::{Bits32, Bits64, UnixMs};

fn wide(value: f64) -> Bits64 {
    Bits64 { bits: value.to_bits() }
}

fn narrow(value: f32) -> Bits32 {
    Bits32 { bits: value.to_bits() }
}

fn zone(id: u64, lower: f64, upper: f64, alpha: f32) -> GexZone {
    GexZone {
        id,
        lower_price: wide(lower),
        upper_price: wide(upper),
        sign: GexZoneSign::Positive,
        alpha: narrow(alpha),
        fading: false,
    }
}

fn frame(start: u64, zones: Vec<GexZone>) -> GexZoneFrame {
    GexZoneFrame { bucket_start: UnixMs::new(start), zones }
}

fn frames() -> Vec<GexZoneFrame> {
    vec![
        frame(0, vec![zone(1, 10.0, 20.0, 0.5), zone(2, 30.0, 40.0, 0.9)]),
        frame(60, vec![zone(2, 30.0, 41.0, 0.9), zone(3, 90.0, 95.0, 0.1)]),
        frame(180, vec![zone(2, 30.0, 42.0, 0.9)]),
    ]
}

const SEEN: FrameSight = FrameSight { seen: true, starts_inside: true };

#[test]
fn figures_compare_as_numbers_do() {
    for a in [f64::NEG_INFINITY, -2.0, -0.0, 0.0, 1e-310, 1.0, f64::INFINITY, f64::NAN] {
        for b in [f64::NEG_INFINITY, -2.0, -0.0, 0.0, 1e-310, 1.0, f64::INFINITY, f64::NAN] {
            assert_eq!(wide(a).is_at_most(wide(b)), a <= b);
            let ranks = wide(a).total_rank() < wide(b).total_rank();
            assert_eq!(ranks, a.total_cmp(&b).is_lt());
        }
    }
    assert_eq!(narrow(-0.0).number_place(), Some(0));
    assert_eq!(narrow(4.0).number_place(), Some(0x4080_0000));
    assert_eq!(narrow(f32::NAN).number_place(), None);
}

#[test]
fn zones_are_drawn_and_connected_without_gaps() {
    let background = draw_gex_zone_background(
        &frames(),
        &vec![SEEN, SEEN, SEEN],
        60,
        wide(20.0),
        wide(50.0),
        true,
        true,
        GexFreshness::Fresh,
    );
    assert_eq!(
        background.zones,
        vec![
            ZonePlace { frame: 0, zone: 0 },
            ZonePlace { frame: 0, zone: 1 },
            ZonePlace { frame: 1, zone: 0 },
            ZonePlace { frame: 2, zone: 0 },
        ]
    );
    // The third frame does not follow the second one directly.
    assert_eq!(background.steps, vec![ZoneStep { frame: 1, before: 1, after: 0 }]);
    assert_eq!(background.projected, Some(2));

    let hidden = FrameSight { seen: false, starts_inside: false };
    let stale = draw_gex_zone_background(
        &frames(),
        &vec![hidden, hidden, SEEN],
        60,
        wide(20.0),
        wide(50.0),
        true,
        true,
        GexFreshness::Stale,
    );
    assert_eq!(stale.zones, vec![ZonePlace { frame: 2, zone: 0 }]);
    assert!(stale.steps.is_empty());
    assert_eq!(stale.projected, None);
    let off = draw_gex_zone_background(
        &frames(),
        &vec![SEEN, SEEN, SEEN],
        60,
        wide(20.0),
        wide(50.0),
        false,
        false,
        GexFreshness::Fresh,
    );
    assert!(off.zones.is_empty() && off.steps.is_empty() && off.projected.is_none());
}

#[test]
fn cores_of_the_past_can_be_hidden() {
    assert_eq!(draw_gex_zone_cores(&vec![SEEN, SEEN], true), vec![0, 1]);
    assert_eq!(draw_gex_zone_cores(&vec![SEEN, SEEN], false), vec![1]);
}

#[test]
fn the_strongest_zone_under_the_pointer_is_described() {
    let zones = vec![zone(1, 0.0, 9.0, 0.5), zone(2, 5.0, 9.0, 0.5), zone(3, 8.0, 9.0, 0.1)];
    assert_eq!(hovered_zone(&zones, wide(8.5)), Some(1));
    assert_eq!(hovered_zone(&zones, wide(1.0)), Some(0));
    assert_eq!(hovered_zone(&zones, wide(f64::NAN)), None);
    assert_eq!(zone_title(GexZoneSign::Negative), "Negative Gamma Zone");

    let observed = vec![10, 59, 130];
    let hover = |bucket, over_profile, price| {
        draw_gex_zone_tooltip(&frames(), &observed, bucket, 60, over_profile, wide(price))
    };
    assert_eq!(hover(60, false, 92.0), ZoneHover::Zone(ZonePlace { frame: 1, zone: 1 }));
    assert_eq!(hover(60, false, 50.0), ZoneHover::Nothing);
    assert_eq!(hover(61, false, 35.0), ZoneHover::Nothing);
    assert_eq!(hover(60, true, 35.0), ZoneHover::Profile(1));
    assert_eq!(
        draw_gex_zone_tooltip(&frames(), &vec![], 60, 60, false, wide(35.0)),
        ZoneHover::Nothing
    );
    assert_eq!(nearest_strike(&vec![wide(3.0), wide(1.0), wide(1.0)]), Some(1));
    assert_eq!(nearest_strike(&vec![]), None);
}

#[test]
fn the_nearest_rail_in_reach_is_hit() {
    let hit = |distances: Vec<Option<f32>>| {
        hit_test_gex_proxy_geometry(&distances.iter().map(|d| d.map(narrow)).collect())
    };
    assert_eq!(hit(vec![Some(5.0), Some(4.0), Some(2.0), Some(2.0)]), Some(2));
    assert_eq!(hit(vec![Some(4.5), None, Some(f32::NAN)]), None);
}

#[test]
fn markers_are_drawn_from_the_top_down() {
    let (call, put, flip) = gex_deribit_markers(
        true,
        true,
        false,
        Some(wide(10.0)),
        Some(wide(5.0)),
        Some(wide(7.0)),
    );
    let markers = vec![call, put, flip];
    let ys = vec![Some(narrow(80.0)), Some(narrow(-3.0)), Some(narrow(40.0))];
    assert_eq!(draw_gex_zone_markers(&markers, &ys), vec![1, 0]);
    assert_eq!(draw_gex_zone_markers(&markers, &vec![None, None, None]), Vec::<usize>::new());
}

#[test]
fn zone_frames_are_kept_while_nothing_changes() {
    let parts = ZoneKeyParts {
        last_observed: 1_800_000_000_000,
        snapshots: 3,
        bucket_ms: 60_000,
        viewport_x: narrow(1.0),
        viewport_y: narrow(2.0),
        viewport_width: narrow(300.0),
        viewport_height: narrow(200.0),
        minimum_zone_strength: narrow(0.1),
        max_positive_zones: 3,
        max_negative_zones: 3,
        fade_buckets: 2,
        persistent_lookback_minutes: 60,
        expiry_filter: 1,
        gamma_source: 0,
        minimum_open_interest: wide(0.0),
        minimum_absolute_gex: wide(0.0),
    };
    let mut cache = GexRenderCache { key: None };
    assert!(cache.cached_gex_zone_frames(parts));
    assert!(!cache.cached_gex_zone_frames(parts));
    let expected = 1_800_000_000_000u64
        ^ 3u64.rotate_left(7)
        ^ 60_000u64.rotate_left(17)
        ^ u64::from(1.0f32.to_bits()).rotate_left(23)
        ^ u64::from(2.0f32.to_bits()).rotate_left(29)
        ^ u64::from(300.0f32.to_bits()).rotate_left(37)
        ^ u64::from(200.0f32.to_bits()).rotate_left(43)
        ^ u64::from(0.1f32.to_bits()).rotate_left(49)
        ^ 3u64.rotate_left(53)
        ^ 3u64.rotate_left(57)
        ^ 2u64.rotate_left(61)
        ^ 60
        ^ 1u64.rotate_left(11);
    assert_eq!(cache.key, Some(expected));
    assert!(cache.cached_gex_zone_frames(ZoneKeyParts { snapshots: 4, ..parts }));
}

#[test]
fn bubbles_take_the_first_free_offset() {
    let mut layout = CollisionLayout::new();
    assert_eq!(layout.place(4, &vec![true, true, true, true, true]), Some(0));
    assert_eq!(layout.place(2, &vec![false, false, true, true, true]), Some(2));
    assert_eq!(layout.place(9, &vec![false, false, false, false, false]), None);
    assert_eq!(layout.accepted, vec![(4, 0), (2, 2)]);
}

#[test]
fn candles_of_the_visible_range_are_drawn() {
    let time = CandleAxis::Time(vec![0, 60, 120, 180]);
    assert_eq!(render_data_source(&time, 60, 120), vec![1, 2]);
    assert!(render_data_source(&time, 120, 60).is_empty());
    let tick = CandleAxis::Tick { count: 4, interval: 50 };
    assert_eq!(render_data_source(&tick, 0, 1), vec![3, 2]);
}
