//! The state of the drawing tools.
use vstd::prelude::*;
use crate::chart::kline::drawing::geometry;
use crate::chart::kline::drawing::geometry::{
    copy_geometry, drawing_focus_anchor, geometry_tool, normalize_fixed_range, resize_geometry,
    snap_timestamp_to_candle, translate_geometry, DrawingAnchor, DrawingGeometry, DrawingTool,
    DrawingX, GeometryModel,
};
use crate::chart::kline::drawing::labels::price_label;
use crate::chart::kline::drawing::style;
use crate::chart::kline::drawing::style::{
    sanitize_volume_profile_config, DrawingStyle, FixedRangeVolumeProfileConfig, StyleChange,
    StyleModel,
};
use crate::chart::kline::drawing::transitions;
use crate::chart::kline::drawing::transitions::{
    Controls, Draft, DraftModel, Drawing, DrawingMessage, DrawingModel, FloatingPanel, FocusTarget,
    ScreenPoint, StateModel, MAX_FIXED_VOLUME_PROFILES,
};
use crate::text;
use crate::text::is_blank;
use crate::units;
use crate::units::{larger, saturating_add_u64, smaller, Bits32, Price, UnixMs};

verus! {

/// The bits of 8, where the toolbar stands at first.
pub const TOOLBAR_PLACE_BITS: u32 = 0x4100_0000;

/// The bits of 48, where the list of drawings stands at first.
pub const DRAWING_LIST_PLACE_BITS: u32 = 0x4240_0000;

pub struct DrawingState {
    pub controls: Controls,
    pub drawings: Vec<Drawing>,
    pub draft: Option<Draft>,
    pub horizontal_line_price_input: Option<String>,
    pub tool_styles: Vec<(DrawingTool, DrawingStyle)>,
    pub default_style: DrawingStyle,
}

/// What a message asks of the chart.
#[derive(Clone, Copy, Debug)]
pub struct DrawingEffect {
    /// Whether the message was for this kind of chart.
    pub handled: bool,
    pub redraw: bool,
    /// Whether missing trades are looked for at once.
    pub refetch: bool,
    pub focus: Option<FocusTarget>,
}

pub open spec fn models(drawings: Seq<Drawing>) -> Seq<DrawingModel> {
    drawings.map_values(|drawing: Drawing| drawing@)
}

pub open spec fn style_models(styles: Seq<(DrawingTool, DrawingStyle)>) -> Seq<
    (DrawingTool, StyleModel),
> {
    styles.map_values(|entry: (DrawingTool, DrawingStyle)| (entry.0, entry.1@))
}

pub open spec fn draft_model(draft: Option<Draft>) -> Option<DraftModel> {
    match draft {
        Some(draft) => Some(draft@),
        None => None,
    }
}

pub open spec fn text_model(value: Option<String>) -> Option<Seq<char>> {
    match value {
        Some(value) => Some(value@),
        None => None,
    }
}

impl View for DrawingState {
    type V = StateModel;

    open spec fn view(&self) -> StateModel {
        StateModel {
            controls: self.controls,
            drawings: models(self.drawings@),
            draft: draft_model(self.draft),
            price_input: text_model(self.horizontal_line_price_input),
            tool_styles: style_models(self.tool_styles@),
            default_style: self.default_style@,
        }
    }
}

/// The tools that leave a drawing, in the order of the toolbar.
pub open spec fn drawing_tools() -> Seq<DrawingTool> {
    seq![
        DrawingTool::Pen,
        DrawingTool::HorizontalLine,
        DrawingTool::VerticalLine,
        DrawingTool::Rectangle,
        DrawingTool::Fibonacci,
        DrawingTool::TrendLine,
        DrawingTool::Text,
        DrawingTool::FixedRangeVolumeProfile,
    ]
}

fn tool_at(index: usize) -> (r: DrawingTool)
    requires
        index < 8,
    ensures
        r == drawing_tools()[index as int],
{
    match index {
        0 => DrawingTool::Pen,
        1 => DrawingTool::HorizontalLine,
        2 => DrawingTool::VerticalLine,
        3 => DrawingTool::Rectangle,
        4 => DrawingTool::Fibonacci,
        5 => DrawingTool::TrendLine,
        6 => DrawingTool::Text,
        _ => DrawingTool::FixedRangeVolumeProfile,
    }
}

/// The state at the start, with one style for all tools.
pub open spec fn initial(style: StyleModel) -> StateModel {
    let at = |bits: u32| ScreenPoint { x: Bits32 { bits }, y: Bits32 { bits } };
    StateModel {
        controls: Controls {
            active_tool: DrawingTool::Select,
            selected: None,
            settings_open: false,
            visible: true,
            text_editor_position: None,
            toolbar_open: true,
            toolbar_position: at(TOOLBAR_PLACE_BITS),
            drawing_list_open: false,
            drawing_list_position: at(DRAWING_LIST_PLACE_BITS),
            dragging_panel: None,
            drag_grab_offset: None,
            next_id: 1,
        },
        drawings: Seq::empty(),
        draft: None,
        price_input: None,
        tool_styles: drawing_tools().map_values(|tool: DrawingTool| (tool, style)),
        default_style: style,
    }
}

/// The largest id of the drawings, 0 where there are none.
pub open spec fn largest_id(drawings: Seq<DrawingModel>) -> u64
    decreases drawings.len(),
{
    if drawings.len() == 0 {
        0
    } else {
        units::max_u64(largest_id(drawings.drop_last()), drawings.last().id)
    }
}

/// A volume profile that is drawn: its range from the first candle to the end of the last
/// one, and its settings.
pub open spec fn shown_profile(
    drawing: DrawingModel,
    timeframe_ms: u64,
    fallback: FixedRangeVolumeProfileConfig,
) -> Option<
    (UnixMs, UnixMs, FixedRangeVolumeProfileConfig),
> {
    match drawing.geometry {
        GeometryModel::FixedRangeVolumeProfile(first, second) => if drawing.visible {
            Some(
                (
                    UnixMs { ms: units::min_u64(first.ms, second.ms) },
                    UnixMs {
                        ms: units::sat_add(
                            units::max_u64(first.ms, second.ms),
                            timeframe_ms,
                        ),
                    },
                    style::sanitized(
                        drawing.style.look.fixed_range_volume_profile,
                        fallback,
                    ),
                ),
            )
        } else {
            None
        },
        _ => None,
    }
}

pub open spec fn shown_profiles(
    drawings: Seq<DrawingModel>,
    timeframe_ms: u64,
    fallback: FixedRangeVolumeProfileConfig,
) -> Seq<(UnixMs, UnixMs, FixedRangeVolumeProfileConfig)>
    decreases drawings.len(),
{
    if drawings.len() == 0 {
        Seq::empty()
    } else {
        let before = shown_profiles(drawings.drop_last(), timeframe_ms, fallback);
        match shown_profile(drawings.last(), timeframe_ms, fallback) {
            Some(profile) => before.push(profile),
            None => before,
        }
    }
}

proof fn lemma_place_of(drawings: Seq<DrawingModel>, id: u64, at: int)
    requires
        0 <= at < drawings.len(),
        drawings[at].id == id,
        forall|k: int| 0 <= k < at ==> (#[trigger] drawings[k]).id != id,
    ensures
        transitions::place_of(drawings, id) == at,
    decreases at,
{
    if at > 0 {
        assert(drawings[0].id != id);
        assert forall|k: int| 0 <= k < at - 1 implies (#[trigger] drawings.skip(1)[k]).id != id by {
            assert(drawings[k + 1].id != id);
        }
        lemma_place_of(drawings.skip(1), id, at - 1);
    }
}

proof fn lemma_no_place(drawings: Seq<DrawingModel>, id: u64)
    requires
        forall|k: int| 0 <= k < drawings.len() ==> (#[trigger] drawings[k]).id != id,
    ensures
        transitions::place_of(drawings, id) == drawings.len(),
    decreases drawings.len(),
{
    if drawings.len() > 0 {
        assert(drawings[0].id != id);
        assert forall|k: int| 0 <= k < drawings.len() - 1 implies (#[trigger] drawings.skip(1)[k]).id
            != id by {
            assert(drawings[k + 1].id != id);
        }
        lemma_no_place(drawings.skip(1), id);
    }
}

proof fn lemma_line_place(drawings: Seq<DrawingModel>, id: u64, at: int)
    requires
        0 <= at <= drawings.len(),
        at < drawings.len() ==> drawings[at].id == id && drawings[at].geometry is HorizontalLine,
        forall|k: int|
            0 <= k < at ==> !((#[trigger] drawings[k]).id == id && drawings[k].geometry
                is HorizontalLine),
    ensures
        transitions::line_place(drawings, id) == at,
    decreases at,
{
    if at > 0 {
        assert(!(drawings[0].id == id && drawings[0].geometry is HorizontalLine));
        assert forall|k: int| 0 <= k < at - 1 implies !((#[trigger] drawings.skip(1)[k]).id == id
            && drawings.skip(1)[k].geometry is HorizontalLine) by {
            assert(!(drawings[k + 1].id == id && drawings[k + 1].geometry is HorizontalLine));
        }
        lemma_line_place(drawings.skip(1), id, at - 1);
    }
}

proof fn lemma_style_place(styles: Seq<(DrawingTool, StyleModel)>, tool: DrawingTool, at: int)
    requires
        0 <= at <= styles.len(),
        at < styles.len() ==> styles[at].0 == tool,
        forall|k: int| 0 <= k < at ==> (#[trigger] styles[k]).0 != tool,
    ensures
        transitions::style_place(styles, tool) == at,
    decreases at,
{
    if at > 0 {
        assert(styles[0].0 != tool);
        assert forall|k: int| 0 <= k < at - 1 implies (#[trigger] styles.skip(1)[k]).0 != tool by {
            assert(styles[k + 1].0 != tool);
        }
        lemma_style_place(styles.skip(1), tool, at - 1);
    }
}

impl DrawingState {
    /// The state at the start; `style` is what a drawing looks like unless told otherwise.
    pub fn new(style: DrawingStyle) -> (r: DrawingState)
        ensures
            r@ == initial(style@),
    {
        let mut tool_styles: Vec<(DrawingTool, DrawingStyle)> = Vec::new();
        let ghost target = drawing_tools().map_values(|tool: DrawingTool| (tool, style@));
        let mut i: usize = 0;
        assert(style_models(tool_styles@) =~= target.take(0));
        while i < 8
            invariant
                i <= 8,
                target == drawing_tools().map_values(|tool: DrawingTool| (tool, style@)),
                style_models(tool_styles@) == target.take(i as int),
            decreases 8 - i,
        {
            let ghost before = style_models(tool_styles@);
            let entry = (tool_at(i), style.duplicate());
            let ghost entry_model = (entry.0, entry.1@);
            assert(target[i as int] == entry_model);
            tool_styles.push(entry);
            assert(style_models(tool_styles@) =~= before.push(entry_model));
            i = i + 1;
            assert(target.take(i as int) =~= before.push(entry_model));
        }
        assert(target.take(8) =~= target);
        let toolbar = Bits32 { bits: TOOLBAR_PLACE_BITS };
        let list = Bits32 { bits: DRAWING_LIST_PLACE_BITS };
        let r = DrawingState {
            controls: Controls {
                active_tool: DrawingTool::Select,
                selected: None,
                settings_open: false,
                visible: true,
                text_editor_position: None,
                toolbar_open: true,
                toolbar_position: ScreenPoint { x: toolbar, y: toolbar },
                drawing_list_open: false,
                drawing_list_position: ScreenPoint { x: list, y: list },
                dragging_panel: None,
                drag_grab_offset: None,
                next_id: 1,
            },
            drawings: Vec::new(),
            draft: None,
            horizontal_line_price_input: None,
            tool_styles,
            default_style: style,
        };
        assert(r@ =~= initial(style@));
        r
    }

    /// The place of the first drawing with an id.
    pub fn find(&self, id: u64) -> (r: Option<usize>)
        ensures
            match r {
                Some(at) => at < self.drawings@.len() && transitions::place_of(self@.drawings, id)
                    == at,
                None => transitions::place_of(self@.drawings, id) == self@.drawings.len(),
            },
    {
        let mut i: usize = 0;
        while i < self.drawings.len()
            invariant
                i <= self.drawings@.len(),
                forall|k: int| 0 <= k < i ==> (#[trigger] self@.drawings[k]).id != id,
            decreases self.drawings@.len() - i,
        {
            assert(self@.drawings[i as int].id == self.drawings@[i as int].id);
            if self.drawings[i].id == id {
                proof {
                    lemma_place_of(self@.drawings, id, i as int);
                }
                return Some(i);
            }
            i = i + 1;
        }
        proof {
            lemma_no_place(self@.drawings, id);
        }
        None
    }

    fn find_line(&self, id: u64) -> (r: Option<usize>)
        ensures
            match r {
                Some(at) => at < self.drawings@.len() && transitions::line_place(self@.drawings, id)
                    == at,
                None => transitions::line_place(self@.drawings, id) == self@.drawings.len(),
            },
    {
        let mut i: usize = 0;
        while i < self.drawings.len()
            invariant
                i <= self.drawings@.len(),
                forall|k: int|
                    0 <= k < i ==> !((#[trigger] self@.drawings[k]).id == id
                        && self@.drawings[k].geometry is HorizontalLine),
            decreases self.drawings@.len() - i,
        {
            assert(self@.drawings[i as int] == self.drawings@[i as int]@);
            let is_line: bool = match &self.drawings[i].geometry {
                DrawingGeometry::HorizontalLine { .. } => true,
                _ => false,
            };
            if self.drawings[i].id == id && is_line {
                proof {
                    lemma_line_place(self@.drawings, id, i as int);
                }
                return Some(i);
            }
            i = i + 1;
        }
        proof {
            lemma_line_place(self@.drawings, id, self@.drawings.len() as int);
        }
        None
    }

    fn find_style(&self, tool: DrawingTool) -> (r: Option<usize>)
        ensures
            match r {
                Some(at) => at < self.tool_styles@.len() && transitions::style_place(
                    self@.tool_styles,
                    tool,
                ) == at,
                None => transitions::style_place(self@.tool_styles, tool)
                    == self@.tool_styles.len(),
            },
    {
        let mut i: usize = 0;
        while i < self.tool_styles.len()
            invariant
                i <= self.tool_styles@.len(),
                forall|k: int| 0 <= k < i ==> (#[trigger] self@.tool_styles[k]).0 != tool,
            decreases self.tool_styles@.len() - i,
        {
            assert(self@.tool_styles[i as int].0 == self.tool_styles@[i as int].0);
            if self.tool_styles[i].0 == tool {
                proof {
                    lemma_style_place(self@.tool_styles, tool, i as int);
                }
                return Some(i);
            }
            i = i + 1;
        }
        proof {
            lemma_style_place(self@.tool_styles, tool, self@.tool_styles.len() as int);
        }
        None
    }

    /// The style that a new drawing of a tool gets.
    pub fn style_for_tool(&self, tool: DrawingTool) -> (r: DrawingStyle)
        ensures
            r@ == self@.style_for_tool(tool),
    {
        match self.find_style(tool) {
            Some(at) => {
                assert(self@.tool_styles[at as int].1 == self.tool_styles@[at as int].1@);
                self.tool_styles[at].1.duplicate()
            },
            None => self.default_style.duplicate(),
        }
    }

    fn profile_count(&self) -> (r: usize)
        ensures
            r == transitions::profile_count(self@.drawings),
    {
        let mut i: usize = 0;
        let mut count: usize = 0;
        assert(self@.drawings.take(0) =~= Seq::<DrawingModel>::empty());
        while i < self.drawings.len()
            invariant
                i <= self.drawings@.len(),
                count <= i,
                count == transitions::profile_count(self@.drawings.take(i as int)),
            decreases self.drawings@.len() - i,
        {
            assert(self@.drawings.take(i + 1).drop_last() =~= self@.drawings.take(i as int));
            assert(self@.drawings.take(i + 1).last() == self.drawings@[i as int]@);
            if let DrawingGeometry::FixedRangeVolumeProfile { .. } = &self.drawings[i].geometry {
                count = count + 1;
            }
            i = i + 1;
        }
        assert(self@.drawings.take(self.drawings@.len() as int) =~= self@.drawings);
        count
    }

    /// Whether any drawing is a volume profile.
    pub fn has_fixed_volume_profiles(&self) -> (r: bool)
        ensures
            r == self@.has_fixed_volume_profiles(),
    {
        let mut i: usize = 0;
        while i < self.drawings.len()
            invariant
                i <= self.drawings@.len(),
                forall|k: int|
                    0 <= k < i ==> !((#[trigger] self@.drawings[k]).geometry
                        is FixedRangeVolumeProfile),
            decreases self.drawings@.len() - i,
        {
            assert(self@.drawings[i as int] == self.drawings@[i as int]@);
            if let DrawingGeometry::FixedRangeVolumeProfile { .. } = &self.drawings[i].geometry {
                return true;
            }
            i = i + 1;
        }
        false
    }

    /// Adds a drawing.
    fn commit(&mut self, shape: DrawingGeometry)
        ensures
            final(self)@ == old(self)@.committed(shape@),
    {
        let limited: bool = match &shape {
            DrawingGeometry::FixedRangeVolumeProfile { .. } => self.profile_count()
                >= MAX_FIXED_VOLUME_PROFILES,
            _ => false,
        };
        if limited {
            self.controls.active_tool = DrawingTool::Select;
            return ;
        }
        let ghost before = self@;
        let id: u64 = self.controls.next_id;
        let style: DrawingStyle = self.style_for_tool(geometry_tool(&shape));
        let drawing = Drawing { id, geometry: shape, style, visible: true };
        let ghost added = drawing@;
        self.drawings.push(drawing);
        self.controls.next_id =
        if id < u64::MAX {
            id + 1
        } else {
            id
        };
        self.controls.selected = Some(id);
        self.controls.active_tool = DrawingTool::Select;
        assert(self@.drawings =~= before.drawings.push(added));
        assert(self@ =~= before.committed(shape@));
    }

    fn take_draft(&mut self) -> (r: Option<Draft>)
        ensures
            final(self)@ == old(self)@.with_draft(None),
            draft_model(r) == old(self)@.draft,
    {
        let mut draft: Option<Draft> = None;
        std::mem::swap(&mut draft, &mut self.draft);
        draft
    }
}

fn snap_profile_time(keys: &Vec<u64>, x: DrawingX) -> (r: Option<UnixMs>)
    requires
        geometry::ascending(keys@),
    ensures
        r == transitions::profile_time(keys@, x),
{
    match x {
        DrawingX::Time(requested) => snap_timestamp_to_candle(keys, requested),
        DrawingX::Tick(_) => None,
    }
}

fn complete(
    tool: DrawingTool,
    first: DrawingAnchor,
    second: DrawingAnchor,
    keys: &Vec<u64>,
) -> (r: Option<DrawingGeometry>)
    requires
        geometry::ascending(keys@),
    ensures
        match r {
            Some(shape) => StateModel::completed(tool, first, second, keys@) == Some(shape@),
            None => StateModel::completed(tool, first, second, keys@) is None,
        },
{
    match tool {
        DrawingTool::Rectangle => Some(DrawingGeometry::Rectangle { first, second }),
        DrawingTool::Fibonacci => Some(DrawingGeometry::Fibonacci { first, second }),
        DrawingTool::FixedRangeVolumeProfile => match (first.x, second.x) {
            (DrawingX::Time(from), DrawingX::Time(to)) => match normalize_fixed_range(
                keys,
                from,
                to,
            ) {
                Some(range) => Some(
                    DrawingGeometry::FixedRangeVolumeProfile { first: range.0, second: range.1 },
                ),
                None => None,
            },
            _ => None,
        },
        _ => Some(DrawingGeometry::TrendLine { first, second }),
    }
}

impl DrawingState {
    /// A press of a two-point tool; tells whether the chart is drawn anew.
    fn press_two_point(&mut self, pressed: DrawingAnchor, keys: &Vec<u64>) -> (redraw: bool)
        requires
            geometry::ascending(keys@),
        ensures
            final(self)@ == old(self)@.pressed_two_point(pressed, keys@).state,
            redraw == old(self)@.pressed_two_point(pressed, keys@).redraw,
    {
        let ghost before = self@;
        let tool: DrawingTool = self.controls.active_tool;
        let mut anchor: DrawingAnchor = pressed;
        if tool == DrawingTool::FixedRangeVolumeProfile {
            match snap_profile_time(keys, pressed.x) {
                Some(time) => {
                    anchor.x = DrawingX::Time(time);
                },
                None => {
                    return false;
                },
            }
        }
        match self.take_draft() {
            Some(Draft::TwoPoint { tool: drafted, first, .. }) => {
                match complete(drafted, first, anchor, keys) {
                    Some(shape) => {
                        self.commit(shape);
                        true
                    },
                    None => false,
                }
            },
            _ => {
                self.draft = Some(Draft::TwoPoint { tool, first: anchor, preview: anchor });
                assert(self@ =~= before.pressed_two_point(pressed, keys@).state);
                true
            },
        }
    }

    /// A press of the pointer; tells whether the chart is drawn anew.
    fn press(&mut self, anchor: DrawingAnchor, screen: ScreenPoint, keys: &Vec<u64>) -> (redraw:
        bool)
        requires
            geometry::ascending(keys@),
        ensures
            final(self)@ == old(self)@.pressed(anchor, screen, keys@).state,
            redraw == old(self)@.pressed(anchor, screen, keys@).redraw,
            old(self)@.pressed(anchor, screen, keys@).focus is None,
    {
        let ghost before = self@;
        match self.controls.active_tool {
            DrawingTool::Select => {
                self.controls.selected = None;
                self.controls.settings_open = false;
            },
            DrawingTool::HorizontalLine => {
                self.commit(DrawingGeometry::HorizontalLine { price: anchor.price });
            },
            DrawingTool::VerticalLine => {
                self.commit(DrawingGeometry::VerticalLine { x: anchor.x });
            },
            DrawingTool::Pen => {
                let mut points: Vec<DrawingAnchor> = Vec::new();
                points.push(anchor);
                assert(points@ =~= seq![anchor]);
                self.draft = Some(Draft::Freehand { points });
            },
            DrawingTool::Text => {
                let value: String = String::new();
                assert(value@ =~= Seq::<char>::empty());
                self.draft = Some(Draft::Text { anchor, value });
                self.controls.text_editor_position = Some(screen);
            },
            _ => {
                return self.press_two_point(anchor, keys);
            },
        }
        assert(self@ =~= before.pressed(anchor, screen, keys@).state);
        true
    }

    /// Puts another shape in place of that of a drawing.
    fn reshape(&mut self, at: usize, shape: DrawingGeometry)
        requires
            at < old(self).drawings@.len(),
        ensures
            final(self)@ == (StateModel {
                drawings: old(self)@.drawings.update(
                    at as int,
                    old(self)@.drawings[at as int].with_geometry(shape@),
                ),
                ..old(self)@
            }),
            final(self).drawings@.len() == old(self).drawings@.len(),
    {
        let ghost before = self@;
        self.drawings[at].geometry = shape;
        assert(self@.drawings =~= before.drawings.update(
            at as int,
            before.drawings[at as int].with_geometry(shape@),
        ));
    }

    /// A movement of the pointer.
    fn move_pointer(&mut self, anchor: DrawingAnchor, text_scale: Bits32, keys: &Vec<u64>)
        requires
            geometry::ascending(keys@),
        ensures
            final(self)@ == old(self)@.moved(anchor, text_scale, keys@),
    {
        let ghost before = self@;
        match self.take_draft() {
            Some(Draft::TwoPoint { tool, first, .. }) => {
                let mut preview: DrawingAnchor = anchor;
                if tool == DrawingTool::FixedRangeVolumeProfile {
                    if let Some(time) = snap_profile_time(keys, anchor.x) {
                        preview.x = DrawingX::Time(time);
                    }
                }
                self.draft = Some(Draft::TwoPoint { tool, first, preview });
            },
            Some(Draft::Freehand { points }) => {
                let mut points: Vec<DrawingAnchor> = points;
                let count: usize = points.len();
                if count == 0 || points[count - 1] != anchor {
                    points.push(anchor);
                }
                self.draft = Some(Draft::Freehand { points });
            },
            Some(Draft::Moving { id, original, start }) => {
                if let Some(at) = self.find(id) {
                    self.reshape(at, translate_geometry(&original, start, anchor));
                }
                self.draft = Some(Draft::Moving { id, original, start });
            },
            Some(Draft::Resizing { id, original, start_screen, handle, original_text_scale }) => {
                if let Some(at) = self.find(id) {
                    self.reshape(at, resize_geometry(&original, anchor, handle));
                    if let DrawingGeometry::Text { .. } = &original {
                        let ghost resized = self@;
                        self.drawings[at].style.look.text_scale = text_scale;
                        assert(self@.drawings =~= resized.drawings.update(
                            at as int,
                            resized.drawings[at as int].with_text_scale(text_scale),
                        ));
                    }
                }
                self.draft = Some(
                    Draft::Resizing { id, original, start_screen, handle, original_text_scale },
                );
            },
            other => {
                self.draft = other;
            },
        }
        assert(self@ =~= before.moved(anchor, text_scale, keys@));
    }

    fn release(&mut self)
        ensures
            final(self)@ == old(self)@.released(),
    {
        if let Some(Draft::Freehand { points }) = self.take_draft() {
            if points.len() > 1 {
                self.commit(DrawingGeometry::Freehand { points });
            } else {
                self.controls.active_tool = DrawingTool::Select;
            }
        }
    }

    /// Opens the settings of a drawing.
    fn open_settings(&mut self, id: u64, decimals: usize)
        ensures
            final(self)@ == old(self)@.opened(id, decimals as nat),
    {
        let ghost before = self@;
        let mut input: Option<String> = None;
        if let Some(at) = self.find(id) {
            assert(self@.drawings[at as int] == self.drawings@[at as int]@);
            if let DrawingGeometry::HorizontalLine { price } = &self.drawings[at].geometry {
                input = Some(price_label(*price, decimals));
            }
        }
        self.controls.selected = Some(id);
        self.controls.settings_open = true;
        self.controls.active_tool = DrawingTool::Select;
        self.horizontal_line_price_input = input;
        assert(self@ =~= before.opened(id, decimals as nat));
    }

    fn take_up(&mut self, start: Option<DrawingAnchor>, screen: ScreenPoint, handle: u8)
        ensures
            final(self)@ == old(self)@.taken_up(start, screen, handle),
    {
        let ghost before = self@;
        if let Some(id) = self.controls.selected {
            if let Some(at) = self.find(id) {
                assert(self@.drawings[at as int] == self.drawings@[at as int]@);
                let original: DrawingGeometry = copy_geometry(&self.drawings[at].geometry);
                let original_text_scale: Bits32 = self.drawings[at].style.look.text_scale;
                self.draft =
                match start {
                    Some(start) => Some(Draft::Moving { id, original, start }),
                    None => Some(
                        Draft::Resizing {
                            id,
                            original,
                            start_screen: screen,
                            handle,
                            original_text_scale,
                        },
                    ),
                };
            }
        }
        assert(self@ =~= before.taken_up(start, screen, handle));
    }

    fn tie_profiles(&mut self, keys: &Vec<u64>)
        requires
            geometry::ascending(keys@),
        ensures
            final(self)@ == (StateModel {
                drawings: old(self)@.drawings.map_values(
                    |drawing: DrawingModel|
                        drawing.with_geometry(
                            transitions::tied_to_candles(drawing.geometry, keys@),
                        ),
                ),
                ..old(self)@
            }),
    {
        let ghost before = self@;
        let ghost tied = before.drawings.map_values(
            |drawing: DrawingModel|
                drawing.with_geometry(transitions::tied_to_candles(drawing.geometry, keys@)),
        );
        let mut i: usize = 0;
        while i < self.drawings.len()
            invariant
                i <= self.drawings@.len(),
                self.drawings@.len() == before.drawings.len(),
                geometry::ascending(keys@),
                tied == before.drawings.map_values(
                    |drawing: DrawingModel|
                        drawing.with_geometry(
                            transitions::tied_to_candles(drawing.geometry, keys@),
                        ),
                ),
                self@ == (StateModel {
                    drawings: tied.take(i as int) + before.drawings.skip(i as int),
                    ..before
                }),
            decreases self.drawings@.len() - i,
        {
            let ghost current = self@.drawings;
            assert(current[i as int] == before.drawings[i as int]);
            assert(current[i as int] == self.drawings@[i as int]@);
            if let DrawingGeometry::FixedRangeVolumeProfile { first, second } =
                &self.drawings[i].geometry {
                let (first, second): (UnixMs, UnixMs) = (*first, *second);
                if let Some(range) = normalize_fixed_range(keys, first, second) {
                    self.reshape(
                        i,
                        DrawingGeometry::FixedRangeVolumeProfile {
                            first: range.0,
                            second: range.1,
                        },
                    );
                }
            }
            assert(self@.drawings =~= tied.take(i + 1) + before.drawings.skip(i + 1)) by {
                assert(tied[i as int] == before.drawings[i as int].with_geometry(
                    transitions::tied_to_candles(before.drawings[i as int].geometry, keys@),
                ));
            }
            i = i + 1;
        }
        assert(self@.drawings =~= tied);
    }

    fn finish_move(&mut self, keys: &Vec<u64>)
        requires
            geometry::ascending(keys@),
        ensures
            final(self)@ == old(self)@.move_finished(keys@),
    {
        let moving: bool = match &self.draft {
            Some(Draft::Moving { .. }) => true,
            Some(Draft::Resizing { .. }) => true,
            _ => false,
        };
        if moving {
            self.draft = None;
            self.tie_profiles(keys);
        }
    }

    fn commit_text(&mut self, anchor: DrawingAnchor, value: String)
        ensures
            final(self)@ == (if text::blank(value@) {
                old(self)@
            } else {
                old(self)@.committed(GeometryModel::Text(anchor, value@))
            }),
    {
        if !is_blank(value.as_str()) {
            self.commit(DrawingGeometry::Text { anchor, content: value });
        }
    }

    fn cancel(&mut self)
        ensures
            final(self)@ == old(self)@.cancelled(),
    {
        match self.take_draft() {
            Some(Draft::Text { anchor, value }) => {
                self.commit_text(anchor, value);
            },
            Some(_) => {},
            None => {
                self.controls.selected = None;
                self.controls.settings_open = false;
            },
        }
    }

    fn finish_text(&mut self)
        ensures
            final(self)@ == old(self)@.text_committed(),
    {
        if let Some(Draft::Text { anchor, value }) = self.take_draft() {
            self.commit_text(anchor, value);
        }
        self.controls.text_editor_position = None;
    }

    fn change_text(&mut self, text: String)
        ensures
            final(self)@ == (match old(self)@.draft {
                Some(DraftModel::Text(anchor, _)) => old(self)@.with_draft(
                    Some(DraftModel::Text(anchor, text@)),
                ),
                _ => old(self)@,
            }),
    {
        match self.take_draft() {
            Some(Draft::Text { anchor, .. }) => {
                self.draft = Some(Draft::Text { anchor, value: text });
            },
            other => {
                self.draft = other;
            },
        }
    }

    fn commit_price(&mut self, price: Price, decimals: usize)
        ensures
            final(self)@ == old(self)@.price_committed(price, decimals as nat),
    {
        if let Some(id) = self.controls.selected {
            if let Some(at) = self.find_line(id) {
                self.reshape(at, DrawingGeometry::HorizontalLine { price });
                self.horizontal_line_price_input = Some(price_label(price, decimals));
            }
        }
    }

    /// Removes the drawings with an id.
    fn remove(&mut self, id: u64)
        ensures
            final(self)@ == (StateModel {
                drawings: transitions::without_id(old(self)@.drawings, id),
                ..old(self)@
            }),
    {
        let ghost before = self@;
        let mut all: Vec<Drawing> = Vec::new();
        std::mem::swap(&mut all, &mut self.drawings);
        let ghost source = all@;
        let mut kept: Vec<Drawing> = Vec::new();
        assert(models(source).take(0) =~= Seq::<DrawingModel>::empty());
        assert(models(kept@) =~= Seq::<DrawingModel>::empty());
        for drawing in it: all
            invariant
                it.seq() == source,
                models(kept@) == transitions::without_id(models(source).take(it.index()), id),
        {
            let ghost n = it.index();
            assert(models(source).take(n + 1).drop_last() =~= models(source).take(n));
            assert(models(source).take(n + 1).last() == drawing@);
            let ghost shown = drawing@;
            let ghost earlier = kept@;
            if drawing.id != id {
                kept.push(drawing);
                assert(models(kept@) =~= models(earlier).push(shown));
            }
        }
        assert(models(source).take(source.len() as int) =~= models(source));
        self.drawings = kept;
    }

    fn delete_selected(&mut self)
        ensures
            final(self)@ == old(self)@.selected_deleted(),
    {
        if let Some(id) = self.controls.selected {
            self.remove(id);
        }
        self.controls.selected = None;
        self.controls.settings_open = false;
        self.horizontal_line_price_input = None;
    }

    fn delete(&mut self, id: u64)
        ensures
            final(self)@ == old(self)@.deleted(id),
    {
        let ghost before = self@;
        self.remove(id);
        let was_selected: bool = match self.controls.selected {
            Some(selected) => selected == id,
            None => false,
        };
        if was_selected {
            self.controls.selected = None;
            self.controls.settings_open = false;
        }
        if self.drawings.len() == 0 {
            self.controls.drawing_list_open = false;
        }
        assert(self@.drawings.len() == self.drawings@.len());
        assert(self@ =~= before.deleted(id));
    }

    /// Changes the style of the selected drawing and of its tool.
    fn restyle(&mut self, change: StyleChange)
        ensures
            final(self)@ == old(self)@.restyled(change),
    {
        let ghost before = self@;
        if let Some(id) = self.controls.selected {
            if let Some(at) = self.find(id) {
                assert(self@.drawings[at as int] == self.drawings@[at as int]@);
                let tool: DrawingTool = geometry_tool(&self.drawings[at].geometry);
                let mut style: DrawingStyle = self.drawings[at].style.duplicate();
                style.change(change, self.default_style.look.fixed_range_volume_profile);
                if let Some(place) = self.find_style(tool) {
                    let entry = (self.tool_styles[place].0, style.duplicate());
                    let ghost entry_model = (entry.0, entry.1@);
                    assert(entry.0 == before.tool_styles[place as int].0);
                    self.tool_styles.set(place, entry);
                    assert(self@.tool_styles =~= before.tool_styles.update(
                        place as int,
                        entry_model,
                    ));
                }
                let ghost style_model = style@;
                self.drawings[at].style = style;
                assert(self@.drawings =~= before.drawings.update(
                    at as int,
                    DrawingModel { style: style_model, ..before.drawings[at as int] },
                ));
            }
        }
        assert(self@ =~= before.restyled(change));
    }

    fn toggle_visibility(&mut self, id: u64)
        ensures
            final(self)@ == old(self)@.visibility_toggled(id),
    {
        let ghost before = self@;
        if let Some(at) = self.find(id) {
            assert(self@.drawings[at as int] == self.drawings@[at as int]@);
            let visible: bool = self.drawings[at].visible;
            self.drawings[at].visible = !visible;
            assert(self@.drawings =~= before.drawings.update(
                at as int,
                DrawingModel { visible: !visible, ..before.drawings[at as int] },
            ));
        }
        assert(self@ =~= before.visibility_toggled(id));
    }

    /// Selects a drawing and tells where the view is moved to.
    fn focus(&mut self, id: u64) -> (target: Option<FocusTarget>)
        ensures
            final(self)@ == old(self)@.focused(id).state,
            target == old(self)@.focused(id).focus,
            old(self)@.focused(id).redraw,
    {
        let at: usize = match self.find(id) {
            Some(at) => at,
            None => {
                return None;
            },
        };
        assert(self@.drawings[at as int] == self.drawings@[at as int]@);
        let anchor: DrawingAnchor = match drawing_focus_anchor(&self.drawings[at].geometry) {
            Some(anchor) => anchor,
            None => {
                return None;
            },
        };
        let target: FocusTarget = match &self.drawings[at].geometry {
            DrawingGeometry::HorizontalLine { .. } => FocusTarget::AtPrice(anchor.price),
            DrawingGeometry::VerticalLine { .. } => FocusTarget::AtX(anchor.x),
            DrawingGeometry::FixedRangeVolumeProfile { .. } => FocusTarget::AtX(anchor.x),
            _ => FocusTarget::AtAnchor(anchor),
        };
        self.controls.selected = Some(id);
        self.controls.active_tool = DrawingTool::Select;
        Some(target)
    }

    fn drag_panel(&mut self, pointer: ScreenPoint, place: ScreenPoint)
        ensures
            final(self)@ == old(self)@.panel_dragged(pointer, place),
    {
        if let Some(panel) = self.controls.dragging_panel {
            if self.controls.drag_grab_offset.is_some() {
                match panel {
                    FloatingPanel::Toolbar => {
                        self.controls.toolbar_position = place;
                    },
                    FloatingPanel::DrawingList => {
                        self.controls.drawing_list_position = place;
                    },
                }
            }
            self.controls.drag_grab_offset = Some(pointer);
        }
    }

    fn take_panel(&mut self, panel: Option<FloatingPanel>)
        ensures
            final(self)@ == old(self)@.panel_taken(panel),
    {
        self.controls.dragging_panel = panel;
        self.controls.drag_grab_offset = None;
    }

    fn clear_all(&mut self)
        ensures
            final(self)@ == old(self)@.step(
                DrawingMessage::ClearAllDrawings,
                Seq::empty(),
                0,
            ).state,
    {
        self.drawings = Vec::new();
        self.draft = None;
        self.controls.drawing_list_open = false;
        self.controls.selected = None;
        self.controls.settings_open = false;
        self.controls.active_tool = DrawingTool::Select;
        self.controls.text_editor_position = None;
        assert(self@.drawings =~= Seq::<DrawingModel>::empty());
    }

    /// What a message does; the flag tells whether the chart is drawn anew.
    fn apply(&mut self, message: DrawingMessage, keys: &Vec<u64>, decimals: usize) -> (r: (
        bool,
        Option<FocusTarget>,
    ))
        requires
            geometry::ascending(keys@),
        ensures
            final(self)@ == old(self)@.step(message, keys@, decimals as nat).state,
            r.0 == old(self)@.step(message, keys@, decimals as nat).redraw,
            r.1 == old(self)@.step(message, keys@, decimals as nat).focus,
    {
        let mut focus: Option<FocusTarget> = None;
        match message {
            DrawingMessage::ToolSelected(tool) => {
                self.controls.active_tool = tool;
                self.draft = None;
                self.controls.selected = None;
                self.controls.settings_open = false;
                self.horizontal_line_price_input = None;
            },
            DrawingMessage::PointerPressed(anchor, screen) => {
                let redraw: bool = self.press(anchor, screen, keys);
                return (redraw, None);
            },
            DrawingMessage::PointerMoved(anchor, text_scale) => {
                self.move_pointer(anchor, text_scale, keys);
            },
            DrawingMessage::PointerReleased => {
                self.release();
            },
            DrawingMessage::DoubleClicked(id) => {
                self.open_settings(id, decimals);
            },
            DrawingMessage::OpenDrawingSettings(id) => {
                self.open_settings(id, decimals);
            },
            DrawingMessage::MoveStarted(anchor) => {
                let origin = Bits32 { bits: 0 };
                self.take_up(Some(anchor), ScreenPoint { x: origin, y: origin }, 0);
            },
            DrawingMessage::ResizeStarted(screen, handle) => {
                self.take_up(None, screen, handle);
            },
            DrawingMessage::MoveFinished => {
                self.finish_move(keys);
            },
            DrawingMessage::CancelOrCommit => {
                self.cancel();
            },
            DrawingMessage::TextChanged(value) => {
                self.change_text(value);
            },
            DrawingMessage::TextCommitted => {
                self.finish_text();
            },
            DrawingMessage::HorizontalLinePriceChanged(value) => {
                self.horizontal_line_price_input = Some(value);
            },
            DrawingMessage::CommitHorizontalLinePrice(entered) => {
                if self.horizontal_line_price_input.is_none() {
                    return (false, None);
                }
                match entered {
                    Some(price) => {
                        self.commit_price(price, decimals);
                    },
                    None => {
                        return (false, None);
                    },
                }
            },
            DrawingMessage::CloseSettings => {
                self.controls.settings_open = false;
                self.horizontal_line_price_input = None;
            },
            DrawingMessage::DeleteSelected => {
                self.delete_selected();
            },
            DrawingMessage::DeleteDrawing(id) => {
                self.delete(id);
            },
            DrawingMessage::ToggleDrawingsVisibility => {
                self.controls.visible = !self.controls.visible;
                self.controls.selected = None;
                self.controls.settings_open = false;
                self.draft = None;
                self.controls.text_editor_position = None;
            },
            DrawingMessage::ClearAllDrawings => {
                self.clear_all();
            },
            DrawingMessage::ChangeStyle(change) => {
                self.restyle(change);
            },
            DrawingMessage::ToggleToolbar => {
                self.controls.toolbar_open = !self.controls.toolbar_open;
            },
            DrawingMessage::ToggleDrawingVisibility(id) => {
                self.toggle_visibility(id);
            },
            DrawingMessage::FocusDrawing(id) => {
                focus = self.focus(id);
            },
            DrawingMessage::ToggleDrawingList => {
                self.controls.drawing_list_open =
                self.drawings.len() > 0 && !self.controls.drawing_list_open;
            },
            DrawingMessage::ToolbarDragStarted => {
                self.take_panel(Some(FloatingPanel::Toolbar));
            },
            DrawingMessage::DrawingListDragStarted => {
                self.take_panel(Some(FloatingPanel::DrawingList));
            },
            DrawingMessage::ToolbarDragged => {},
            DrawingMessage::DrawingListDragged => {},
            DrawingMessage::ToolbarDragEnded => {
                self.take_panel(None);
            },
            DrawingMessage::DrawingListDragEnded => {
                self.take_panel(None);
            },
            DrawingMessage::FloatingPanelDragEnded => {
                self.take_panel(None);
            },
            DrawingMessage::FloatingPanelDragged(pointer, place) => {
                self.drag_panel(pointer, place);
            },
        }
        (true, focus)
    }

    /// Hands a message to the drawing tools. Only charts of candles have them; `keys` are
    /// the moments of the candles, none on a chart of ticks.
    pub fn handle_drawing(
        &mut self,
        message: DrawingMessage,
        of_candles: bool,
        keys: &Vec<u64>,
        decimals: usize,
    ) -> (r: DrawingEffect)
        requires
            geometry::ascending(keys@),
        ensures
            r.handled == of_candles,
            !of_candles ==> final(self)@ == old(self)@ && !r.redraw && !r.refetch && r.focus
                is None,
            of_candles ==> {
                let outcome = old(self)@.step(message, keys@, decimals as nat);
                &&& final(self)@ == outcome.state
                &&& r.redraw == outcome.redraw
                &&& r.focus == outcome.focus
                &&& r.refetch == (outcome.redraw && outcome.state.has_fixed_volume_profiles())
            },
    {
        if !of_candles {
            return DrawingEffect { handled: false, redraw: false, refetch: false, focus: None };
        }
        let (redraw, focus): (bool, Option<FocusTarget>) = self.apply(message, keys, decimals);
        DrawingEffect {
            handled: true,
            redraw,
            refetch: redraw && self.has_fixed_volume_profiles(),
            focus,
        }
    }

    /// The volume profiles that are drawn, each with the range from its first candle to the
    /// end of its last one.
    pub fn fixed_volume_profiles(&self, timeframe_ms: u64) -> (r: Vec<
        (UnixMs, UnixMs, FixedRangeVolumeProfileConfig),
    >)
        ensures
            r@ == (if self@.controls.visible {
                shown_profiles(
                    self@.drawings,
                    timeframe_ms,
                    self@.default_style.look.fixed_range_volume_profile,
                )
            } else {
                Seq::empty()
            }),
    {
        let mut r: Vec<(UnixMs, UnixMs, FixedRangeVolumeProfileConfig)> = Vec::new();
        if !self.controls.visible {
            return r;
        }
        let fallback: FixedRangeVolumeProfileConfig =
            self.default_style.look.fixed_range_volume_profile;
        let mut i: usize = 0;
        assert(self@.drawings.take(0) =~= Seq::<DrawingModel>::empty());
        while i < self.drawings.len()
            invariant
                i <= self.drawings@.len(),
                r@ == shown_profiles(self@.drawings.take(i as int), timeframe_ms, fallback),
            decreases self.drawings@.len() - i,
        {
            assert(self@.drawings.take(i + 1).drop_last() =~= self@.drawings.take(i as int));
            assert(self@.drawings.take(i + 1).last() == self.drawings@[i as int]@);
            if self.drawings[i].visible {
                if let DrawingGeometry::FixedRangeVolumeProfile { first, second } =
                    &self.drawings[i].geometry {
                    let from: u64 = smaller(first.ms, second.ms);
                    let last: u64 = larger(first.ms, second.ms);
                    r.push(
                        (
                            UnixMs::new(from),
                            UnixMs::new(saturating_add_u64(last, timeframe_ms)),
                            sanitize_volume_profile_config(
                                self.drawings[i].style.look.fixed_range_volume_profile,
                                fallback,
                            ),
                        ),
                    );
                }
            }
            i = i + 1;
        }
        assert(self@.drawings.take(self.drawings@.len() as int) =~= self@.drawings);
        r
    }

    /// Puts saved drawings in place of all drawings.
    pub fn set_drawings(&mut self, drawings: Vec<Drawing>)
        ensures
            final(self)@ == (StateModel {
                controls: Controls {
                    next_id: units::sat_add(largest_id(models(drawings@)), 1),
                    selected: None,
                    ..old(self)@.controls
                },
                drawings: models(drawings@),
                draft: None,
                ..old(self)@
            }),
    {
        let mut largest: u64 = 0;
        let mut i: usize = 0;
        assert(models(drawings@).take(0) =~= Seq::<DrawingModel>::empty());
        while i < drawings.len()
            invariant
                i <= drawings@.len(),
                largest == largest_id(models(drawings@).take(i as int)),
            decreases drawings@.len() - i,
        {
            assert(models(drawings@).take(i + 1).drop_last() =~= models(drawings@).take(i as int));
            assert(models(drawings@).take(i + 1).last() == drawings@[i as int]@);
            largest = larger(largest, drawings[i].id);
            i = i + 1;
        }
        assert(models(drawings@).take(drawings@.len() as int) =~= models(drawings@));
        self.controls.next_id = saturating_add_u64(largest, 1);
        self.controls.selected = None;
        self.drawings = drawings;
        self.draft = None;
    }
}

} // verus!
