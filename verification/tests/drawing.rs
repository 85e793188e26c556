//! The drawing tools.
use flowsurface::chart::kline::drawing::geometry::{
    normalize_fixed_range, snap_timestamp_to_candle, translate_anchor, DrawingAnchor,
    DrawingGeometry, DrawingTool, DrawingX, MAX_FIXED_VOLUME_PROFILE_RANGE_MS,
};
use flowsurface::chart::kline::drawing::labels::{
    drawing_position, ellipsize, list_entry, parse_horizontal_line_price, price_label, x_label,
};
use flowsurface::chart::kline::drawing::listing::{
    draw_draft, drawing_handles, DraftPreview, PaintedDrawing,
};
use flowsurface::chart::kline::drawing::panels::{
    drawing_handle_hit, CanvasAction, CanvasEvent, CanvasState, OverlayLayer, Pointer,
    SettingsControl, ToolbarItem,
};
use flowsurface::chart::kline::drawing::state::DrawingState;
use flowsurface::chart::kline::drawing::style::{
    sanitize_volume_profile_config, DrawingColor, DrawingLook, DrawingStyle, FibonacciLevel,
    FixedRangeVolumeProfileConfig, StyleChange,
};
use flowsurface::chart::kline::drawing::transitions::{
    Draft, Drawing, DrawingMessage, FocusTarget, ScreenPoint, MAX_FIXED_VOLUME_PROFILES,
};
use flowsurface::units::{Bits32, Price, UnixMs};

const SCALE: i64 = 100_000_000_000;

fn bits(value: f32) -> Bits32 {
    Bits32 { bits: value.to_bits() }
}

fn profile_config() -> FixedRangeVolumeProfileConfig {
    FixedRangeVolumeProfileConfig {
        placement: 0,
        mode: 0,
        width_percent: bits(30.0),
        value_area_percent: bits(70.0),
        row_size_ticks: 1,
        show_poc: true,
        show_value_area: true,
        show_vwap: false,
        show_range_high_low: false,
    }
}

fn style() -> DrawingStyle {
    let white = DrawingColor { r: bits(1.0), g: bits(1.0), b: bits(1.0), a: bits(1.0) };
    DrawingStyle {
        look: DrawingLook {
            color: white,
            fill_color: white,
            stroke_width: bits(2.0),
            opacity: bits(1.0),
            fill_opacity: bits(0.2),
            text_size: bits(14.0),
            text_scale: bits(1.0),
            show_labels: true,
            fixed_range_volume_profile: profile_config(),
        },
        fibonacci_levels: vec![
            FibonacciLevel { value: bits(0.0), visible: true },
            FibonacciLevel { value: bits(0.5), visible: false },
        ],
    }
}

fn state() -> DrawingState {
    DrawingState::new(style())
}

fn anchor(ms: u64, price: i64) -> DrawingAnchor {
    DrawingAnchor { x: DrawingX::Time(UnixMs::new(ms)), price: Price::from_units(price * SCALE) }
}

fn screen() -> ScreenPoint {
    ScreenPoint { x: bits(3.0), y: bits(4.0) }
}

fn minutes(count: u64) -> Vec<u64> {
    (0..count).map(|minute| minute * 60_000).collect()
}

fn send(state: &mut DrawingState, message: DrawingMessage) -> Option<FocusTarget> {
    let effect = state.handle_drawing(message, true, &minutes(100), 2);
    assert!(effect.handled);
    effect.focus
}

fn select(state: &mut DrawingState, tool: DrawingTool) {
    send(state, DrawingMessage::ToolSelected(tool));
}

fn press(state: &mut DrawingState, at: DrawingAnchor) {
    send(state, DrawingMessage::PointerPressed(at, screen()));
}

fn draw_line(state: &mut DrawingState, price: i64) -> u64 {
    select(state, DrawingTool::HorizontalLine);
    press(state, anchor(0, price));
    state.drawings.last().unwrap().id
}

#[test]
fn horizontal_line_price_parser_accepts_grouped_separators() {
    let parse = |input: &str| {
        parse_horizontal_line_price(input).and_then(|number| number.parse::<f64>().ok())
    };
    for input in ["63,000", "63.000"] {
        assert_eq!(parse(input), Some(63_000.0));
    }
    for input in ["63,000.5", "63.000,5"] {
        assert_eq!(parse(input), Some(63_000.5));
    }
}

#[test]
fn price_parser_keeps_signs_and_drops_fillers() {
    let parse = parse_horizontal_line_price;
    assert_eq!(parse(" -1 234'567_8.25 "), Some("-12345678.25".to_string()));
    assert_eq!(parse("+7"), Some("7".to_string()));
    assert_eq!(parse(".5"), Some(".5".to_string()));
    assert_eq!(parse("1,234,567"), Some("1234567".to_string()));
    assert_eq!(parse("1,2,3"), Some("12.3".to_string()));
    assert_eq!(parse("12.3456"), Some("12.3456".to_string()));
    for input in ["", "-", "abc", "5.", "1,23,456", ",123", "1e5", "--4"] {
        assert_eq!(parse(input), None, "{input}");
    }
}

#[test]
fn prices_are_cut_to_their_decimals() {
    assert_eq!(price_label(Price::from_units(1_239_999_999_999), 2), "12.39");
    assert_eq!(price_label(Price::from_units(-1_239_999_999_999), 0), "-12");
    assert_eq!(price_label(Price::from_units(50_000_000), 5), "0.00050");
    assert_eq!(price_label(Price::from_units(1), 11), "0.00000000001");
    assert_eq!(price_label(Price::from_units(i64::MIN), 0), "-92233720");
}

#[test]
fn positions_are_written_as_times_and_prices() {
    assert_eq!(x_label(DrawingX::Time(UnixMs::new(3_723_000))), "01:02:03");
    assert_eq!(x_label(DrawingX::Time(UnixMs::new(1_700_000_000_000))), "22:13:20");
    assert_eq!(x_label(DrawingX::Time(UnixMs::new(u64::MAX))), u64::MAX.to_string());
    assert_eq!(x_label(DrawingX::Time(UnixMs::new(8_210_266_876_799_999))), "23:59:59");
    assert_eq!(
        x_label(DrawingX::Time(UnixMs::new(8_210_266_876_800_000))),
        "8210266876800000"
    );
    assert_eq!(x_label(DrawingX::Tick(77)), "77");
    let trend = DrawingGeometry::TrendLine { first: anchor(0, 5), second: anchor(60_000, 6) };
    assert_eq!(drawing_position(&trend, 1), "00:00:00 @ 5.0 → 00:01:00 @ 6.0");
    assert_eq!(drawing_position(&DrawingGeometry::Freehand { points: vec![] }, 1), "Empty");
    assert_eq!(list_entry(&trend, 1), "Trend line - 00:00:00...");
}

#[test]
fn long_texts_are_shortened() {
    assert_eq!(ellipsize("abcdef", 6), "abcdef");
    assert_eq!(ellipsize("abcdefg", 6), "abc...");
    assert_eq!(ellipsize("abcdefg", 2), "...");
}

#[test]
fn moments_are_tied_to_the_closest_candle() {
    let keys = vec![100, 200, 300];
    let snap = |ms| snap_timestamp_to_candle(&keys, UnixMs::new(ms)).unwrap().as_u64();
    assert_eq!(snap(0), 100);
    assert_eq!(snap(149), 100);
    assert_eq!(snap(150), 100);
    assert_eq!(snap(151), 200);
    assert_eq!(snap(999), 300);
    assert_eq!(snap_timestamp_to_candle(&vec![], UnixMs::new(5)), None);
}

#[test]
fn profiles_are_limited_in_time_and_candles() {
    let keys = minutes(30_000);
    let range = |first, second| {
        let (a, b) =
            normalize_fixed_range(&keys, UnixMs::new(first), UnixMs::new(second)).unwrap();
        (a.as_u64() / 60_000, b.as_u64() / 60_000)
    };
    assert_eq!(range(0, 120_000), (0, 2));
    assert_eq!(range(0, u64::MAX), (0, 9_999));
    assert_eq!(range(29_999 * 60_000, 0), (29_999, 20_000));
    let hours: Vec<u64> = (0..500).map(|hour| hour * 3_600_000).collect();
    let (first, second) =
        normalize_fixed_range(&hours, UnixMs::new(0), UnixMs::new(u64::MAX)).unwrap();
    assert_eq!(second.as_u64() - first.as_u64(), MAX_FIXED_VOLUME_PROFILE_RANGE_MS);
}

#[test]
fn moving_there_and_back_restores_an_anchor() {
    let start = anchor(1_000, 5);
    let end = anchor(4_000, 2);
    let moved = translate_anchor(anchor(2_000, 9), start, end);
    assert_eq!(moved, anchor(5_000, 6));
    assert_eq!(translate_anchor(moved, end, start), anchor(2_000, 9));
    assert_eq!(translate_anchor(anchor(0, 9), end, start), anchor(0, 12));
}

#[test]
fn two_presses_draw_a_rectangle_and_select_it() {
    let mut state = state();
    select(&mut state, DrawingTool::Rectangle);
    press(&mut state, anchor(0, 1));
    assert!(state.drawings.is_empty());
    send(&mut state, DrawingMessage::PointerMoved(anchor(30_000, 2), bits(1.0)));
    press(&mut state, anchor(60_000, 3));
    assert_eq!(state.drawings.len(), 1);
    assert_eq!(state.controls.selected, Some(1));
    assert_eq!(state.controls.active_tool, DrawingTool::Select);
    assert!(matches!(
        state.drawings[0].geometry,
        DrawingGeometry::Rectangle { first, second }
            if first == anchor(0, 1) && second == anchor(60_000, 3)
    ));
}

#[test]
fn ids_are_given_once() {
    let mut state = state();
    let first = draw_line(&mut state, 1);
    let second = draw_line(&mut state, 2);
    send(&mut state, DrawingMessage::DeleteDrawing(first));
    let third = draw_line(&mut state, 3);
    assert_eq!((first, second, third), (1, 2, 3));
    let ids: Vec<u64> = state.drawings.iter().map(|drawing| drawing.id).collect();
    assert_eq!(ids, vec![2, 3]);
    send(&mut state, DrawingMessage::DeleteSelected);
    assert_eq!(state.drawings.len(), 1);
    assert_eq!(state.controls.selected, None);
}

#[test]
fn volume_profiles_are_limited() {
    let mut state = state();
    for _ in 0..MAX_FIXED_VOLUME_PROFILES + 3 {
        select(&mut state, DrawingTool::FixedRangeVolumeProfile);
        press(&mut state, anchor(10_000, 1));
        press(&mut state, anchor(130_000, 1));
    }
    assert_eq!(state.drawings.len(), MAX_FIXED_VOLUME_PROFILES);
    assert!(state.has_fixed_volume_profiles());
    let profiles = state.fixed_volume_profiles(60_000);
    assert_eq!(profiles.len(), MAX_FIXED_VOLUME_PROFILES);
    assert_eq!((profiles[0].0.as_u64(), profiles[0].1.as_u64()), (0, 180_000));
    send(&mut state, DrawingMessage::ToggleDrawingsVisibility);
    assert!(state.fixed_volume_profiles(60_000).is_empty());
}

#[test]
fn volume_profiles_need_candles() {
    let mut state = state();
    select(&mut state, DrawingTool::FixedRangeVolumeProfile);
    let pressed = DrawingMessage::PointerPressed(anchor(10_000, 1), screen());
    let effect = state.handle_drawing(pressed, true, &vec![], 2);
    assert!(effect.handled && !effect.redraw && !effect.refetch);
    assert!(state.draft.is_none());
}

#[test]
fn moving_and_resizing_follow_the_pointer() {
    let mut state = state();
    select(&mut state, DrawingTool::TrendLine);
    press(&mut state, anchor(0, 1));
    press(&mut state, anchor(60_000, 3));
    send(&mut state, DrawingMessage::MoveStarted(anchor(0, 0)));
    send(&mut state, DrawingMessage::PointerMoved(anchor(60_000, 10), bits(1.0)));
    send(&mut state, DrawingMessage::MoveFinished);
    assert!(matches!(
        state.drawings[0].geometry,
        DrawingGeometry::TrendLine { first, second }
            if first == anchor(60_000, 11) && second == anchor(120_000, 13)
    ));
    send(&mut state, DrawingMessage::ResizeStarted(screen(), 0));
    send(&mut state, DrawingMessage::PointerMoved(anchor(5_000, 2), bits(1.0)));
    send(&mut state, DrawingMessage::MoveFinished);
    assert!(matches!(
        state.drawings[0].geometry,
        DrawingGeometry::TrendLine { first, second }
            if first == anchor(5_000, 2) && second == anchor(120_000, 13)
    ));
}

#[test]
fn texts_are_scaled_and_blank_ones_dropped() {
    let mut state = state();
    select(&mut state, DrawingTool::Text);
    press(&mut state, anchor(0, 1));
    assert_eq!(state.controls.text_editor_position, Some(screen()));
    send(&mut state, DrawingMessage::TextChanged(" \u{3000}\t".to_string()));
    send(&mut state, DrawingMessage::TextCommitted);
    assert!(state.drawings.is_empty());
    select(&mut state, DrawingTool::Text);
    press(&mut state, anchor(0, 1));
    send(&mut state, DrawingMessage::TextChanged("note".to_string()));
    assert!(state.drawing_text_input());
    send(&mut state, DrawingMessage::CancelOrCommit);
    assert_eq!(state.drawings.len(), 1);
    send(&mut state, DrawingMessage::ResizeStarted(screen(), 1));
    send(&mut state, DrawingMessage::PointerMoved(anchor(5_000, 2), bits(2.5)));
    assert_eq!(state.drawings[0].style.look.text_scale, bits(2.5));
}

#[test]
fn freehand_lines_need_two_points() {
    let mut state = state();
    select(&mut state, DrawingTool::Pen);
    press(&mut state, anchor(0, 1));
    send(&mut state, DrawingMessage::PointerMoved(anchor(0, 1), bits(1.0)));
    send(&mut state, DrawingMessage::PointerReleased);
    assert!(state.drawings.is_empty());
    select(&mut state, DrawingTool::Pen);
    press(&mut state, anchor(0, 1));
    send(&mut state, DrawingMessage::PointerMoved(anchor(0, 2), bits(1.0)));
    send(&mut state, DrawingMessage::PointerReleased);
    assert_eq!(state.drawings.len(), 1);
}

#[test]
fn a_typed_price_moves_the_selected_line() {
    let mut state = state();
    let id = draw_line(&mut state, 5);
    send(&mut state, DrawingMessage::OpenDrawingSettings(id));
    assert_eq!(state.horizontal_line_price_input.as_deref(), Some("5.00"));
    let price = Price::from_units(7 * SCALE);
    send(&mut state, DrawingMessage::HorizontalLinePriceChanged("7".to_string()));
    send(&mut state, DrawingMessage::CommitHorizontalLinePrice(Some(price)));
    assert_eq!(state.horizontal_line_price_input.as_deref(), Some("7.00"));
    assert!(matches!(
        state.drawings[0].geometry,
        DrawingGeometry::HorizontalLine { price: moved } if moved == price
    ));
    send(&mut state, DrawingMessage::CloseSettings);
    assert_eq!(state.horizontal_line_price_input, None);
}

#[test]
fn a_changed_style_is_kept_for_its_tool() {
    let mut state = state();
    draw_line(&mut state, 5);
    send(&mut state, DrawingMessage::ChangeStyle(StyleChange::SetStrokeWidth(bits(6.0))));
    draw_line(&mut state, 6);
    assert_eq!(state.drawings[1].style.look.stroke_width, bits(6.0));
    assert_eq!(
        state.style_for_tool(DrawingTool::Rectangle).look.stroke_width,
        bits(2.0)
    );
    send(&mut state, DrawingMessage::ChangeStyle(StyleChange::ToggleFibonacciLevel(1)));
    assert!(state.drawings[1].style.fibonacci_levels[1].visible);
    send(&mut state, DrawingMessage::ChangeStyle(StyleChange::ToggleFibonacciLevel(9)));
}

#[test]
fn profile_settings_are_brought_within_their_bounds() {
    let wild = FixedRangeVolumeProfileConfig {
        width_percent: bits(f32::NAN),
        value_area_percent: bits(99.0),
        row_size_ticks: 0,
        ..profile_config()
    };
    let clean = sanitize_volume_profile_config(wild, profile_config());
    assert_eq!(clean.width_percent, bits(30.0));
    assert_eq!(clean.value_area_percent, bits(95.0));
    assert_eq!(clean.row_size_ticks, 1);
    let low = FixedRangeVolumeProfileConfig {
        width_percent: bits(-3.0),
        value_area_percent: bits(10.0),
        row_size_ticks: 400,
        ..profile_config()
    };
    let clean = sanitize_volume_profile_config(low, profile_config());
    assert_eq!(clean.width_percent, bits(10.0));
    assert_eq!(clean.value_area_percent, bits(50.0));
    assert_eq!(clean.row_size_ticks, 50);
    let wide = FixedRangeVolumeProfileConfig { width_percent: bits(91.0), ..profile_config() };
    assert_eq!(sanitize_volume_profile_config(wide, profile_config()).width_percent, bits(90.0));
}

#[test]
fn focusing_selects_and_names_the_place() {
    let mut state = state();
    let id = draw_line(&mut state, 5);
    send(&mut state, DrawingMessage::PointerPressed(anchor(0, 0), screen()));
    assert_eq!(state.controls.selected, None);
    let price = Price::from_units(5 * SCALE);
    assert_eq!(
        send(&mut state, DrawingMessage::FocusDrawing(id)),
        Some(FocusTarget::AtPrice(price))
    );
    assert_eq!(state.controls.selected, Some(id));
    assert_eq!(send(&mut state, DrawingMessage::FocusDrawing(99)), None);
    select(&mut state, DrawingTool::TrendLine);
    press(&mut state, anchor(0, 1));
    press(&mut state, anchor(60_000, 4));
    let middle = DrawingAnchor {
        x: DrawingX::Time(UnixMs::new(30_000)),
        price: Price::from_units(5 * SCALE / 2),
    };
    assert_eq!(
        send(&mut state, DrawingMessage::FocusDrawing(2)),
        Some(FocusTarget::AtAnchor(middle))
    );
}

#[test]
fn saved_drawings_continue_their_ids() {
    let mut state = state();
    draw_line(&mut state, 5);
    let saved = |id| Drawing {
        id,
        geometry: DrawingGeometry::VerticalLine { x: DrawingX::Tick(4) },
        style: style(),
        visible: true,
    };
    state.set_drawings(vec![saved(40), saved(7)]);
    assert_eq!(state.controls.selected, None);
    assert_eq!(draw_line(&mut state, 1), 41);
}

#[test]
fn other_charts_ignore_drawing_messages() {
    let mut state = state();
    let message = DrawingMessage::ToolSelected(DrawingTool::Pen);
    let effect = state.handle_drawing(message, false, &vec![], 2);
    assert!(!effect.handled && !effect.redraw);
    assert_eq!(state.controls.active_tool, DrawingTool::Select);
}

#[test]
fn panels_follow_the_pointer_once_grabbed() {
    let mut state = state();
    let at = |x: f32| ScreenPoint { x: bits(x), y: bits(x) };
    send(&mut state, DrawingMessage::FloatingPanelDragged(at(1.0), at(2.0)));
    assert_eq!(state.controls.toolbar_position, at(8.0));
    send(&mut state, DrawingMessage::ToolbarDragStarted);
    assert_eq!(state.drawing_overlay(), vec![OverlayLayer::Toolbar, OverlayLayer::DragArea]);
    send(&mut state, DrawingMessage::FloatingPanelDragged(at(1.0), at(2.0)));
    assert_eq!(state.controls.toolbar_position, at(8.0));
    send(&mut state, DrawingMessage::FloatingPanelDragged(at(3.0), at(10.0)));
    assert_eq!(state.controls.toolbar_position, at(10.0));
    assert_eq!(state.controls.drawing_list_position, at(48.0));
    send(&mut state, DrawingMessage::FloatingPanelDragEnded);
    assert_eq!(state.controls.drag_grab_offset, None);
}

#[test]
fn toolbar_and_settings_list_their_controls() {
    let mut state = state();
    let items = state.toolbar();
    let pressed: Vec<_> = items.iter().map(|item| item.message()).collect();
    assert!(pressed[0].is_none());
    assert!(matches!(pressed[pressed.len() - 2], Some(DrawingMessage::ToggleDrawingsVisibility)));
    assert!(matches!(pressed[pressed.len() - 1], Some(DrawingMessage::ClearAllDrawings)));
    assert!(ToolbarItem::Arrow { open: true }
        .message()
        .is_some_and(|message| matches!(message, DrawingMessage::ToggleToolbar)));
    assert_eq!(items.len(), 13);
    assert_eq!(state.toolbar_button_count(), 12);
    assert_eq!(items[0], ToolbarItem::DragHandle);
    assert_eq!(items[2], ToolbarItem::Tool { tool: DrawingTool::Select, selected: true });
    assert!(state.settings().is_empty());
    draw_line(&mut state, 4);
    send(&mut state, DrawingMessage::ToggleToolbar);
    send(&mut state, DrawingMessage::ToggleDrawingList);
    assert_eq!(
        state.toolbar(),
        vec![
            ToolbarItem::DragHandle,
            ToolbarItem::ListButton { open: true },
            ToolbarItem::Arrow { open: false }
        ]
    );
    assert_eq!(
        state.settings(),
        vec![
            SettingsControl::Close,
            SettingsControl::ColorPicker,
            SettingsControl::StrokeSlider,
            SettingsControl::OpacitySlider,
            SettingsControl::PriceInput,
            SettingsControl::ApplyPrice,
            SettingsControl::Delete
        ]
    );
    select(&mut state, DrawingTool::Fibonacci);
    press(&mut state, anchor(0, 1));
    press(&mut state, anchor(60_000, 4));
    let settings = state.settings();
    assert_eq!(settings[5], SettingsControl::LevelButton { index: 0, visible: true });
    assert_eq!(settings[6], SettingsControl::LevelButton { index: 1, visible: false });
    send(&mut state, DrawingMessage::ClearAllDrawings);
    assert!(!state.controls.drawing_list_open);
}

fn pressed(hit: Option<u64>, double: bool, handle: Option<u8>) -> CanvasEvent {
    let pointer = Pointer { anchor: anchor(0, 1), screen: screen() };
    CanvasEvent::Pressed { pointer: Some(pointer), hit, double, handle }
}

#[test]
fn the_canvas_tells_clicks_apart() {
    let mut state = state();
    let mut canvas = CanvasState { previous_hit: None };
    let id = draw_line(&mut state, 4);
    let update = |state: &DrawingState, canvas: &mut CanvasState, event| {
        state.drawing_canvas_update(canvas, event)
    };
    assert!(matches!(
        update(&state, &mut canvas, pressed(Some(id), false, Some(1))),
        CanvasAction::Publish(DrawingMessage::ResizeStarted(_, 1))
    ));
    assert!(matches!(
        update(&state, &mut canvas, pressed(Some(id), true, None)),
        CanvasAction::Publish(DrawingMessage::DoubleClicked(_))
    ));
    assert!(matches!(
        update(&state, &mut canvas, pressed(Some(id), false, None)),
        CanvasAction::Publish(DrawingMessage::MoveStarted(_))
    ));
    assert!(matches!(
        update(&state, &mut canvas, pressed(None, false, None)),
        CanvasAction::Publish(DrawingMessage::CancelOrCommit)
    ));
    assert_eq!(canvas.previous_hit, None);
    send(&mut state, DrawingMessage::CancelOrCommit);
    assert!(matches!(
        update(&state, &mut canvas, pressed(Some(id), false, None)),
        CanvasAction::Navigate
    ));
    assert_eq!(canvas.previous_hit, Some(id));
    let outside = CanvasEvent::Pressed { pointer: None, hit: None, double: false, handle: None };
    assert!(matches!(update(&state, &mut canvas, outside), CanvasAction::Ignore));
    assert!(matches!(
        update(&state, &mut canvas, CanvasEvent::Released { pointer: None }),
        CanvasAction::Navigate
    ));
    select(&mut state, DrawingTool::Pen);
    assert!(matches!(
        update(&state, &mut canvas, pressed(Some(id), false, None)),
        CanvasAction::Publish(DrawingMessage::PointerPressed(_, _))
    ));
    press(&mut state, anchor(0, 1));
    assert!(matches!(
        update(&state, &mut canvas, CanvasEvent::Released { pointer: None }),
        CanvasAction::Capture
    ));
    assert!(matches!(
        update(&state, &mut canvas, CanvasEvent::DeleteKey),
        CanvasAction::Publish(DrawingMessage::DeleteSelected)
    ));
}

#[test]
fn the_topmost_visible_drawing_is_hit() {
    let mut state = state();
    let low = draw_line(&mut state, 4);
    let high = draw_line(&mut state, 5);
    assert_eq!(state.drawing_hit_test(&vec![true, true]), Some(high));
    send(&mut state, DrawingMessage::ToggleDrawingVisibility(high));
    assert_eq!(state.drawing_hit_test(&vec![true, true]), Some(low));
    assert_eq!(state.drawing_hit_test(&vec![false, true]), None);
    let text = DrawingGeometry::Text { anchor: anchor(0, 1), content: "a".to_string() };
    assert_eq!(drawing_handle_hit(&text, (false, false), &vec![true, true]), Some(1));
    assert_eq!(drawing_handle_hit(&text, (false, false), &vec![true, false]), None);
    let profile = DrawingGeometry::FixedRangeVolumeProfile {
        first: UnixMs::new(0),
        second: UnixMs::new(1),
    };
    assert_eq!(drawing_handle_hit(&profile, (false, true), &vec![true]), Some(1));
    assert_eq!(drawing_handle_hit(&profile, (false, false), &vec![false, true]), Some(1));
}

#[test]
fn lines_are_marked_on_the_axes_and_all_drawings_are_listed() {
    let mut state = state();
    let drawing = |id: u64, geometry: DrawingGeometry, visible: bool| Drawing {
        id,
        geometry,
        style: style(),
        visible,
    };
    state.set_drawings(vec![
        drawing(1, DrawingGeometry::HorizontalLine { price: Price::from_units(12 * SCALE) }, true),
        drawing(2, DrawingGeometry::VerticalLine { x: DrawingX::Tick(7) }, true),
        drawing(3, DrawingGeometry::VerticalLine { x: DrawingX::Tick(8) }, false),
    ]);
    let (x, y) = state.axis_drawing_labels(2);
    assert_eq!(x.len(), 1);
    assert_eq!((x[0].id, x[0].content.as_str()), (2, "7"));
    assert_eq!(y.len(), 1);
    assert_eq!((y[0].id, y[0].content.as_str()), (1, "12.00"));

    state.controls.selected = Some(2);
    let painted = state.draw_drawings();
    assert_eq!(
        painted,
        vec![
            PaintedDrawing { position: 0, selected: false },
            PaintedDrawing { position: 1, selected: true },
        ]
    );
    let rows = state.drawing_list(2);
    assert_eq!(rows.len(), 3);
    assert_eq!(rows[0].title, "Horizontal line - 12.00");
    assert!(!rows[2].visible);

    state.controls.visible = false;
    assert!(state.draw_drawings().is_empty());
    assert!(state.axis_drawing_labels(2).0.is_empty());
}

#[test]
fn a_draft_shows_what_it_will_become() {
    let from = anchor(60_000, 10);
    let to = anchor(120_000, 20);
    let draft = |tool| Draft::TwoPoint { tool, first: from, preview: to };
    assert!(matches!(
        draw_draft(&draft(DrawingTool::Rectangle)),
        DraftPreview::Shape(DrawingTool::Rectangle, DrawingGeometry::Rectangle { first, second })
            if first == from && second == to
    ));
    assert!(matches!(
        draw_draft(&draft(DrawingTool::FixedRangeVolumeProfile)),
        DraftPreview::Guides(first, second)
            if first == UnixMs::new(60_000) && second == UnixMs::new(120_000)
    ));
    assert!(matches!(
        draw_draft(&Draft::Text { anchor: from, value: "note".to_string() }),
        DraftPreview::Shape(DrawingTool::Text, DrawingGeometry::Text { content, .. })
            if content == "note"
    ));
    let moved = DrawingGeometry::VerticalLine { x: DrawingX::Tick(1) };
    assert!(matches!(
        draw_draft(&Draft::Moving { id: 1, original: moved, start: from }),
        DraftPreview::Nothing
    ));
}

#[test]
fn shapes_have_handles_at_their_corners() {
    let from = anchor(60_000, 10);
    let to = anchor(120_000, 20);
    assert_eq!(
        drawing_handles(&DrawingGeometry::Rectangle { first: from, second: to }),
        vec![from, anchor(120_000, 10), anchor(60_000, 20), to]
    );
    assert_eq!(
        drawing_handles(&DrawingGeometry::Freehand { points: vec![from, to, from] }),
        vec![from, from]
    );
    assert!(drawing_handles(&DrawingGeometry::HorizontalLine { price: from.price }).is_empty());
}
