//! The rails of a remote series of gamma levels on a chart of candles.
use flowsurface::chart::kline::proxy_rails::{
    build_gex_proxy_geometry, gex_deribit_markers, gex_proxy_handoff_timestamp,
    GexProxyHistoryPoint, GexProxyRailSegment, GexProxyRailSeries,
};
use flowsurface::units::Bits64;

const MINUTE: u64 = 60_000;

fn figure(value: f64) -> Bits64 {
    Bits64 { bits: value.to_bits() }
}

fn point(observed_at: u64) -> GexProxyHistoryPoint {
    point_with_levels(observed_at, Some(105.0), None, Some(95.0), None, Some(100.0))
}

fn point_with_levels(
    observed_at: u64,
    positive_level_1: Option<f64>,
    positive_level_2: Option<f64>,
    negative_level_1: Option<f64>,
    negative_level_2: Option<f64>,
    flip_level: Option<f64>,
) -> GexProxyHistoryPoint {
    GexProxyHistoryPoint {
        observed_at: observed_at as i64,
        flip_level: flip_level.map(figure),
        call_wall: Some(figure(110.0)),
        put_wall: Some(figure(90.0)),
        positive_level_1: positive_level_1.map(figure),
        positive_level_2: positive_level_2.map(figure),
        negative_level_1: negative_level_1.map(figure),
        negative_level_2: negative_level_2.map(figure),
        slot: 0,
    }
}

fn of_series(
    segments: &[GexProxyRailSegment],
    series: GexProxyRailSeries,
) -> Vec<&GexProxyRailSegment> {
    segments.iter().filter(|segment| segment.series == series).collect()
}

#[test]
fn proxy_grouping_respects_one_five_and_larger_timeframes() {
    let points = vec![point(0), point(5 * MINUTE), point(10 * MINUTE)];
    let one = build_gex_proxy_geometry(&points, &vec![], MINUTE, 20 * MINUTE, true);
    let one_p1 = of_series(&one.segments, GexProxyRailSeries::Positive1);
    assert_eq!((one_p1[0].start, one_p1[0].end), (0, 5 * MINUTE));

    let five = build_gex_proxy_geometry(&points, &vec![], 5 * MINUTE, 20 * MINUTE, true);
    assert_eq!(of_series(&five.segments, GexProxyRailSeries::Positive1).len(), 3);

    let fifteen = build_gex_proxy_geometry(&points, &vec![], 15 * MINUTE, 20 * MINUTE, true);
    let fifteen_p1 = of_series(&fifteen.segments, GexProxyRailSeries::Positive1);
    assert_eq!(fifteen_p1.len(), 1);
    assert_eq!((fifteen_p1[0].start, fifteen_p1[0].end), (10 * MINUTE, 15 * MINUTE));
}

#[test]
fn proxy_stops_at_first_deribit_bucket_and_never_fills_internal_gaps() {
    let points = vec![point(0), point(5 * MINUTE), point(10 * MINUTE), point(20 * MINUTE)];
    let deribit = vec![7 * MINUTE, 20 * MINUTE];
    let geometry = build_gex_proxy_geometry(&points, &deribit, MINUTE, 30 * MINUTE, true);
    assert!(geometry.segments.iter().all(|segment| segment.end <= 7 * MINUTE));
    assert!(geometry
        .segments
        .iter()
        .all(|segment| segment.point.observed_at < 7 * MINUTE as i64));
    assert!(!geometry.segments.iter().any(|segment| segment.start >= 7 * MINUTE));
    assert!(!geometry.transitions.iter().any(|transition| transition.at >= 7 * MINUTE));
}

#[test]
fn proxy_never_projects_beyond_last_chart_bucket() {
    let geometry =
        build_gex_proxy_geometry(&vec![point(10 * MINUTE)], &vec![], 5 * MINUTE, 10 * MINUTE, true);
    assert!(geometry.segments.iter().all(|segment| segment.end <= 15 * MINUTE));
}

#[test]
fn proxy_has_no_terminal_or_handoff_vertical_segment() {
    let points = vec![
        point_with_levels(0, Some(105.0), None, None, None, None),
        point_with_levels(5 * MINUTE, Some(106.0), None, None, None, None),
    ];
    let no_handoff = build_gex_proxy_geometry(&points, &vec![], MINUTE, 10 * MINUTE, true);
    assert_eq!(no_handoff.transitions.len(), 1);
    assert_eq!(no_handoff.transitions[0].at, 5 * MINUTE);
    assert!(!no_handoff.transitions.iter().any(|transition| transition.at == 10 * MINUTE));

    let at_handoff =
        build_gex_proxy_geometry(&points, &vec![5 * MINUTE], MINUTE, 10 * MINUTE, true);
    assert!(at_handoff.transitions.is_empty());
    assert!(at_handoff.segments.iter().all(|segment| segment.end <= 5 * MINUTE));
}

#[test]
fn proxy_does_not_connect_across_missing_source_bucket() {
    let points = vec![
        point_with_levels(0, Some(105.0), None, None, None, None),
        point_with_levels(8 * MINUTE, Some(106.0), None, None, None, None),
    ];
    let geometry = build_gex_proxy_geometry(&points, &vec![], MINUTE, 15 * MINUTE, true);
    assert!(geometry.transitions.is_empty());
    let p1 = of_series(&geometry.segments, GexProxyRailSeries::Positive1);
    assert_eq!(p1[0].end, 5 * MINUTE);
    assert_eq!(p1[1].start, 8 * MINUTE);
}

#[test]
fn proxy_five_minute_grouping_does_not_connect_across_missing_chart_bucket() {
    let points = vec![
        point_with_levels(4 * MINUTE + 59_000, Some(105.0), None, None, None, None),
        point_with_levels(10 * MINUTE + 1_000, Some(106.0), None, None, None, None),
    ];
    let geometry = build_gex_proxy_geometry(&points, &vec![], 5 * MINUTE, 20 * MINUTE, true);
    assert!(geometry.transitions.is_empty());
}

#[test]
fn proxy_series_are_isolated_open_lines_without_rectangular_closure() {
    let points = vec![
        point_with_levels(0, Some(105.0), None, Some(95.0), None, None),
        point_with_levels(5 * MINUTE, Some(106.0), None, Some(94.0), None, None),
    ];
    let geometry = build_gex_proxy_geometry(&points, &vec![], MINUTE, 10 * MINUTE, true);
    assert_eq!(geometry.transitions.len(), 2);
    assert!(geometry.transitions.iter().all(|transition| {
        matches!(
            transition.series,
            GexProxyRailSeries::Positive1 | GexProxyRailSeries::Negative1
        )
    }));
    assert!(!geometry.transitions.iter().any(|transition| {
        (transition.from_level == figure(105.0) && transition.to_level == figure(95.0))
            || (transition.from_level == figure(95.0) && transition.to_level == figure(105.0))
    }));
    let last_end = 10 * MINUTE;
    assert!(!geometry.transitions.iter().any(|transition| transition.at == last_end));
}

#[test]
fn proxy_segments_are_marked_where_the_handoff_cuts_them() {
    let geometry =
        build_gex_proxy_geometry(&vec![point(0)], &vec![5 * MINUTE], MINUTE, 10 * MINUTE, true);
    let segment = of_series(&geometry.segments, GexProxyRailSeries::Positive1)[0];
    assert_eq!(segment.end, 5 * MINUTE);
    assert!(segment.clipped_by_handoff);
}

#[test]
fn proxy_one_minute_fixture_has_no_vertical_column_at_handoff() {
    let points = vec![
        point_with_levels(0, Some(105.0), Some(107.0), Some(95.0), Some(93.0), Some(100.0)),
        point_with_levels(
            5 * MINUTE,
            Some(106.0),
            Some(108.0),
            Some(94.0),
            Some(92.0),
            Some(101.0),
        ),
    ];
    let handoff = 7 * MINUTE;
    let geometry = build_gex_proxy_geometry(&points, &vec![handoff], MINUTE, 15 * MINUTE, true);
    assert!(geometry.segments.iter().all(|segment| segment.end <= handoff));
    assert!(!geometry.transitions.iter().any(|transition| transition.at == handoff));
    let screen_end = |segment: &GexProxyRailSegment| {
        segment.end as f32 / 60_000.0 - if segment.clipped_by_handoff { 1.0 } else { 0.0 }
    };
    assert!(geometry
        .segments
        .iter()
        .filter(|segment| segment.end == handoff)
        .all(|segment| screen_end(segment) <= 6.0));
}

#[test]
fn remote_call_and_put_walls_are_not_proxy_geometry() {
    let point = point_with_levels(0, None, None, None, None, None);
    assert_eq!(point.call_wall, Some(figure(110.0)));
    assert_eq!(point.put_wall, Some(figure(90.0)));
    let geometry = build_gex_proxy_geometry(&vec![point], &vec![], MINUTE, 0, true);
    assert!(geometry.segments.is_empty());
    assert!(geometry.transitions.is_empty());
}

#[test]
fn deribit_current_markers_keep_call_put_and_flip_values() {
    let (call, put, flip) = (Some(figure(110.0)), Some(figure(90.0)), Some(figure(100.0)));
    let markers = gex_deribit_markers(true, true, true, call, put, flip);
    assert_eq!(markers.0.label, "CW");
    assert_eq!(markers.0.level, call);
    assert_eq!(markers.1.label, "PW");
    assert_eq!(markers.1.level, put);
    assert_eq!(markers.2.label, "GF");
    assert_eq!(markers.2.level, flip);
}

#[test]
fn rails_have_names_and_hide_the_flip_on_demand() {
    assert_eq!(GexProxyRailSeries::GammaFlip.level(&point(0)), Some(figure(100.0)));
    assert!(!GexProxyRailSeries::Negative2.label().is_empty());
    assert_ne!(
        GexProxyRailSeries::Positive1.label(),
        GexProxyRailSeries::Positive2.label()
    );
    let hidden = build_gex_proxy_geometry(&vec![point(0)], &vec![], MINUTE, MINUTE, false);
    assert!(of_series(&hidden.segments, GexProxyRailSeries::GammaFlip).is_empty());
    assert_eq!(gex_proxy_handoff_timestamp(&vec![9 * MINUTE, 7 * MINUTE + 5], MINUTE), Some(7 * MINUTE));
    assert_eq!(gex_proxy_handoff_timestamp(&vec![], MINUTE), None);
}
