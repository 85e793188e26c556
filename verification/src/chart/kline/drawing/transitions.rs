//! What every message does to the state of the drawing tools.
use vstd::prelude::*;
use crate::chart::kline::drawing::geometry;
use crate::chart::kline::drawing::geometry::{
    DrawingAnchor, DrawingGeometry, DrawingTool, DrawingX, GeometryModel,
};
use crate::chart::kline::drawing::labels;
use crate::chart::kline::drawing::style::{DrawingLook, DrawingStyle, StyleChange, StyleModel};
use crate::text;
use crate::units::{Bits32, Price, UnixMs};

verus! {

/// The most volume profiles on a chart.
pub const MAX_FIXED_VOLUME_PROFILES: usize = 16;

/// A point of the screen.
#[derive(Clone, Copy, Debug, PartialEq, Eq, Structural)]
pub struct ScreenPoint {
    pub x: Bits32,
    pub y: Bits32,
}

#[derive(Clone, Copy, Debug, PartialEq, Eq, Structural)]
pub enum FloatingPanel {
    Toolbar,
    DrawingList,
}

#[derive(Debug)]
pub struct Drawing {
    pub id: u64,
    pub geometry: DrawingGeometry,
    pub style: DrawingStyle,
    pub visible: bool,
}

#[verifier::ext_equal]
pub struct DrawingModel {
    pub id: u64,
    pub geometry: GeometryModel,
    pub style: StyleModel,
    pub visible: bool,
}

impl View for Drawing {
    type V = DrawingModel;

    open spec fn view(&self) -> DrawingModel {
        DrawingModel {
            id: self.id,
            geometry: self.geometry@,
            style: self.style@,
            visible: self.visible,
        }
    }
}

/// A drawing that is being made, moved or resized.
#[derive(Debug)]
pub enum Draft {
    TwoPoint { tool: DrawingTool, first: DrawingAnchor, preview: DrawingAnchor },
    Freehand { points: Vec<DrawingAnchor> },
    Text { anchor: DrawingAnchor, value: String },
    Moving { id: u64, original: DrawingGeometry, start: DrawingAnchor },
    Resizing {
        id: u64,
        original: DrawingGeometry,
        start_screen: ScreenPoint,
        handle: u8,
        original_text_scale: Bits32,
    },
}

#[verifier::ext_equal]
pub enum DraftModel {
    TwoPoint(DrawingTool, DrawingAnchor, DrawingAnchor),
    Freehand(Seq<DrawingAnchor>),
    Text(DrawingAnchor, Seq<char>),
    Moving(u64, GeometryModel, DrawingAnchor),
    Resizing(u64, GeometryModel, ScreenPoint, u8, Bits32),
}

impl View for Draft {
    type V = DraftModel;

    open spec fn view(&self) -> DraftModel {
        match self {
            Draft::TwoPoint { tool, first, preview } => DraftModel::TwoPoint(
                *tool,
                *first,
                *preview,
            ),
            Draft::Freehand { points } => DraftModel::Freehand(points@),
            Draft::Text { anchor, value } => DraftModel::Text(*anchor, value@),
            Draft::Moving { id, original, start } => DraftModel::Moving(*id, original@, *start),
            Draft::Resizing { id, original, start_screen, handle, original_text_scale } => {
                DraftModel::Resizing(
                    *id,
                    original@,
                    *start_screen,
                    *handle,
                    *original_text_scale,
                )
            },
        }
    }
}

/// The switches and positions of the drawing tools.
#[derive(Clone, Copy, Debug)]
pub struct Controls {
    pub active_tool: DrawingTool,
    pub selected: Option<u64>,
    pub settings_open: bool,
    pub visible: bool,
    pub text_editor_position: Option<ScreenPoint>,
    pub toolbar_open: bool,
    pub toolbar_position: ScreenPoint,
    pub drawing_list_open: bool,
    pub drawing_list_position: ScreenPoint,
    pub dragging_panel: Option<FloatingPanel>,
    pub drag_grab_offset: Option<ScreenPoint>,
    pub next_id: u64,
}

/// The state of the drawing tools.
#[verifier::ext_equal]
pub struct StateModel {
    pub controls: Controls,
    pub drawings: Seq<DrawingModel>,
    pub draft: Option<DraftModel>,
    pub price_input: Option<Seq<char>>,
    pub tool_styles: Seq<(DrawingTool, StyleModel)>,
    pub default_style: StyleModel,
}

#[derive(Debug)]
pub enum DrawingMessage {
    ToolSelected(DrawingTool),
    /// The place on the chart and on the screen.
    PointerPressed(DrawingAnchor, ScreenPoint),
    /// The place on the chart, and the scale of a text that is resized to that place.
    PointerMoved(DrawingAnchor, Bits32),
    PointerReleased,
    DoubleClicked(u64),
    OpenDrawingSettings(u64),
    MoveStarted(DrawingAnchor),
    ResizeStarted(ScreenPoint, u8),
    MoveFinished,
    CancelOrCommit,
    TextChanged(String),
    TextCommitted,
    HorizontalLinePriceChanged(String),
    /// The typed price rounded to the price step, where the text is a price.
    CommitHorizontalLinePrice(Option<Price>),
    CloseSettings,
    DeleteSelected,
    DeleteDrawing(u64),
    ToggleDrawingsVisibility,
    ClearAllDrawings,
    ChangeStyle(StyleChange),
    ToggleToolbar,
    ToggleDrawingVisibility(u64),
    FocusDrawing(u64),
    ToggleDrawingList,
    ToolbarDragStarted,
    ToolbarDragged,
    ToolbarDragEnded,
    DrawingListDragStarted,
    DrawingListDragged,
    DrawingListDragEnded,
    /// The pointer, and where the panel stands when it has followed it.
    FloatingPanelDragged(ScreenPoint, ScreenPoint),
    FloatingPanelDragEnded,
}

/// Where the view is moved to.
#[derive(Clone, Copy, Debug, PartialEq, Eq, Structural)]
pub enum FocusTarget {
    AtPrice(Price),
    AtX(DrawingX),
    AtAnchor(DrawingAnchor),
}

/// The state after a message, whether the chart is drawn anew, and where the view is
/// moved to.
pub struct Outcome {
    pub state: StateModel,
    pub redraw: bool,
    pub focus: Option<FocusTarget>,
}

/// The place of the first drawing with an id; the number of drawings where there is none.
pub open spec fn place_of(drawings: Seq<DrawingModel>, id: u64) -> int
    decreases drawings.len(),
{
    if drawings.len() == 0 || drawings[0].id == id {
        0
    } else {
        1 + place_of(drawings.skip(1), id)
    }
}

/// The number of volume profiles.
pub open spec fn profile_count(drawings: Seq<DrawingModel>) -> nat
    decreases drawings.len(),
{
    if drawings.len() == 0 {
        0
    } else {
        profile_count(drawings.drop_last()) + if drawings.last().geometry
            is FixedRangeVolumeProfile {
            1nat
        } else {
            0
        }
    }
}

/// The drawings but those with an id.
pub open spec fn without_id(drawings: Seq<DrawingModel>, id: u64) -> Seq<DrawingModel>
    decreases drawings.len(),
{
    if drawings.len() == 0 {
        Seq::empty()
    } else if drawings.last().id == id {
        without_id(drawings.drop_last(), id)
    } else {
        without_id(drawings.drop_last(), id).push(drawings.last())
    }
}

/// The place of the first style of a tool; the number of styles where there is none.
pub open spec fn style_place(styles: Seq<(DrawingTool, StyleModel)>, tool: DrawingTool) -> int
    decreases styles.len(),
{
    if styles.len() == 0 || styles[0].0 == tool {
        0
    } else {
        1 + style_place(styles.skip(1), tool)
    }
}

/// The place on the time axis of a candle next to `x`; none on a tick axis and where
/// there are no candles.
pub open spec fn profile_time(keys: Seq<u64>, x: DrawingX) -> Option<UnixMs> {
    match x {
        DrawingX::Time(requested) => geometry::snapped(keys, requested),
        DrawingX::Tick(_) => None,
    }
}

/// A volume profile tied to candles; other shapes stay.
pub open spec fn tied_to_candles(shape: GeometryModel, keys: Seq<u64>) -> GeometryModel {
    match shape {
        GeometryModel::FixedRangeVolumeProfile(first, second) => match geometry::normalized(
            keys,
            first,
            second,
        ) {
            Some(range) => GeometryModel::FixedRangeVolumeProfile(range.0, range.1),
            None => shape,
        },
        _ => shape,
    }
}

impl DrawingModel {
    pub open spec fn with_geometry(self, geometry: GeometryModel) -> DrawingModel {
        DrawingModel { geometry, ..self }
    }

    pub open spec fn with_text_scale(self, scale: Bits32) -> DrawingModel {
        DrawingModel {
            style: StyleModel {
                look: DrawingLook { text_scale: scale, ..self.style.look },
                ..self.style
            },
            ..self
        }
    }
}

/// Where the view is moved to when a shape is focused.
pub open spec fn focus_target(shape: GeometryModel) -> Option<FocusTarget> {
    match shape {
        GeometryModel::HorizontalLine(price) => Some(FocusTarget::AtPrice(price)),
        GeometryModel::VerticalLine(x) => Some(FocusTarget::AtX(x)),
        GeometryModel::FixedRangeVolumeProfile(first, second) => Some(
            FocusTarget::AtX(
                DrawingX::Time(UnixMs { ms: geometry::middle(first.ms, second.ms) }),
            ),
        ),
        _ => match shape.focus() {
            Some(anchor) => Some(FocusTarget::AtAnchor(anchor)),
            None => None,
        },
    }
}

impl StateModel {
    pub open spec fn has_fixed_volume_profiles(self) -> bool {
        exists|i: int|
            0 <= i < self.drawings.len() && (#[trigger] self.drawings[i]).geometry
                is FixedRangeVolumeProfile
    }

    pub open spec fn style_for_tool(self, tool: DrawingTool) -> StyleModel {
        let at = style_place(self.tool_styles, tool);
        if at < self.tool_styles.len() {
            self.tool_styles[at].1
        } else {
            self.default_style
        }
    }

    pub open spec fn with_tool(self, tool: DrawingTool) -> StateModel {
        StateModel { controls: Controls { active_tool: tool, ..self.controls }, ..self }
    }

    pub open spec fn with_draft(self, draft: Option<DraftModel>) -> StateModel {
        StateModel { draft, ..self }
    }

    /// The state with a new drawing, selected and on top of the others. A volume profile
    /// beyond the limit is not added.
    pub open spec fn committed(self, shape: GeometryModel) -> StateModel {
        if shape is FixedRangeVolumeProfile && profile_count(self.drawings)
            >= MAX_FIXED_VOLUME_PROFILES {
            self.with_tool(DrawingTool::Select)
        } else {
            let id = self.controls.next_id;
            StateModel {
                drawings: self.drawings.push(
                    DrawingModel {
                        id,
                        geometry: shape,
                        style: self.style_for_tool(shape.tool()),
                        visible: true,
                    },
                ),
                controls: Controls {
                    next_id: if id < u64::MAX {
                        (id + 1) as u64
                    } else {
                        id
                    },
                    selected: Some(id),
                    active_tool: DrawingTool::Select,
                    ..self.controls
                },
                ..self
            }
        }
    }

    /// The shape that the second point of a two-point tool completes.
    pub open spec fn completed(
        tool: DrawingTool,
        first: DrawingAnchor,
        second: DrawingAnchor,
        keys: Seq<u64>,
    ) -> Option<GeometryModel> {
        match tool {
            DrawingTool::Rectangle => Some(GeometryModel::Rectangle(first, second)),
            DrawingTool::Fibonacci => Some(GeometryModel::Fibonacci(first, second)),
            DrawingTool::FixedRangeVolumeProfile => match (first.x, second.x) {
                (DrawingX::Time(from), DrawingX::Time(to)) => match geometry::normalized(
                    keys,
                    from,
                    to,
                ) {
                    Some(range) => Some(
                        GeometryModel::FixedRangeVolumeProfile(range.0, range.1),
                    ),
                    None => None,
                },
                _ => None,
            },
            _ => Some(GeometryModel::TrendLine(first, second)),
        }
    }

    /// A press of a two-point tool: the first one begins a draft, the second one completes
    /// it.
    pub open spec fn pressed_two_point(self, anchor: DrawingAnchor, keys: Seq<u64>) -> Outcome {
        let tool = self.controls.active_tool;
        let time = profile_time(keys, anchor.x);
        if tool == DrawingTool::FixedRangeVolumeProfile && time is None {
            Outcome { state: self, redraw: false, focus: None }
        } else {
            let anchor = if tool == DrawingTool::FixedRangeVolumeProfile {
                DrawingAnchor { x: DrawingX::Time(time->0), ..anchor }
            } else {
                anchor
            };
            match self.draft {
                Some(DraftModel::TwoPoint(drafted, first, _)) => match Self::completed(
                    drafted,
                    first,
                    anchor,
                    keys,
                ) {
                    Some(shape) => Outcome {
                        state: self.with_draft(None).committed(shape),
                        redraw: true,
                        focus: None,
                    },
                    None => Outcome { state: self.with_draft(None), redraw: false, focus: None },
                },
                _ => Outcome {
                    state: self.with_draft(Some(DraftModel::TwoPoint(tool, anchor, anchor))),
                    redraw: true,
                    focus: None,
                },
            }
        }
    }

    /// A press of the pointer at a place of the chart.
    pub open spec fn pressed(
        self,
        anchor: DrawingAnchor,
        screen: ScreenPoint,
        keys: Seq<u64>,
    ) -> Outcome {
        match self.controls.active_tool {
            DrawingTool::Select => Outcome {
                state: StateModel {
                    controls: Controls { selected: None, settings_open: false, ..self.controls },
                    ..self
                },
                redraw: true,
                focus: None,
            },
            DrawingTool::HorizontalLine => Outcome {
                state: self.committed(GeometryModel::HorizontalLine(anchor.price)),
                redraw: true,
                focus: None,
            },
            DrawingTool::VerticalLine => Outcome {
                state: self.committed(GeometryModel::VerticalLine(anchor.x)),
                redraw: true,
                focus: None,
            },
            DrawingTool::Pen => Outcome {
                state: self.with_draft(Some(DraftModel::Freehand(seq![anchor]))),
                redraw: true,
                focus: None,
            },
            DrawingTool::Text => Outcome {
                state: StateModel {
                    draft: Some(DraftModel::Text(anchor, Seq::empty())),
                    controls: Controls { text_editor_position: Some(screen), ..self.controls },
                    ..self
                },
                redraw: true,
                focus: None,
            },
            _ => self.pressed_two_point(anchor, keys),
        }
    }

    /// A movement of the pointer to a place of the chart.
    pub open spec fn moved(
        self,
        anchor: DrawingAnchor,
        text_scale: Bits32,
        keys: Seq<u64>,
    ) -> StateModel {
        match self.draft {
            Some(DraftModel::TwoPoint(tool, first, _)) => {
                let time = profile_time(keys, anchor.x);
                let preview = if tool == DrawingTool::FixedRangeVolumeProfile && time is Some {
                    DrawingAnchor { x: DrawingX::Time(time->0), ..anchor }
                } else {
                    anchor
                };
                self.with_draft(Some(DraftModel::TwoPoint(tool, first, preview)))
            },
            Some(DraftModel::Freehand(points)) => if points.len() == 0 || points.last() != anchor {
                self.with_draft(Some(DraftModel::Freehand(points.push(anchor))))
            } else {
                self
            },
            Some(DraftModel::Moving(id, original, start)) => {
                let at = place_of(self.drawings, id);
                if at < self.drawings.len() {
                    StateModel {
                        drawings: self.drawings.update(
                            at,
                            self.drawings[at].with_geometry(original.translated(start, anchor)),
                        ),
                        ..self
                    }
                } else {
                    self
                }
            },
            Some(DraftModel::Resizing(id, original, _, handle, _)) => {
                let at = place_of(self.drawings, id);
                if at < self.drawings.len() {
                    let resized = self.drawings[at].with_geometry(original.resized(anchor, handle));
                    StateModel {
                        drawings: self.drawings.update(
                            at,
                            if original is Text {
                                resized.with_text_scale(text_scale)
                            } else {
                                resized
                            },
                        ),
                        ..self
                    }
                } else {
                    self
                }
            },
            _ => self,
        }
    }

    /// The end of a press: a line of two points or more becomes a drawing, any other draft
    /// is given up.
    pub open spec fn released(self) -> StateModel {
        match self.draft {
            Some(DraftModel::Freehand(points)) => if points.len() > 1 {
                self.with_draft(None).committed(GeometryModel::Freehand(points))
            } else {
                self.with_draft(None).with_tool(DrawingTool::Select)
            },
            _ => self.with_draft(None),
        }
    }

    /// The settings of a drawing opened.
    pub open spec fn opened(self, id: u64, decimals: nat) -> StateModel {
        let at = place_of(self.drawings, id);
        StateModel {
            controls: Controls {
                selected: Some(id),
                settings_open: true,
                active_tool: DrawingTool::Select,
                ..self.controls
            },
            price_input: if at < self.drawings.len() && self.drawings[at].geometry
                is HorizontalLine {
                Some(labels::price_text(self.drawings[at].geometry->HorizontalLine_0, decimals))
            } else {
                None
            },
            ..self
        }
    }

    /// The selected drawing taken up: for moving where a starting place is given, otherwise
    /// for resizing.
    pub open spec fn taken_up(
        self,
        start: Option<DrawingAnchor>,
        screen: ScreenPoint,
        handle: u8,
    ) -> StateModel {
        match self.controls.selected {
            Some(id) => {
                let at = place_of(self.drawings, id);
                if at < self.drawings.len() {
                    let shape = self.drawings[at].geometry;
                    self.with_draft(
                        Some(
                            match start {
                                Some(anchor) => DraftModel::Moving(id, shape, anchor),
                                None => DraftModel::Resizing(
                                    id,
                                    shape,
                                    screen,
                                    handle,
                                    self.drawings[at].style.look.text_scale,
                                ),
                            },
                        ),
                    )
                } else {
                    self
                }
            },
            None => self,
        }
    }

    /// The end of a movement: volume profiles are tied to candles.
    pub open spec fn move_finished(self, keys: Seq<u64>) -> StateModel {
        match self.draft {
            Some(DraftModel::Moving(_, _, _)) | Some(DraftModel::Resizing(_, _, _, _, _)) => {
                StateModel {
                    draft: None,
                    drawings: self.drawings.map_values(
                        |drawing: DrawingModel|
                            drawing.with_geometry(tied_to_candles(drawing.geometry, keys)),
                    ),
                    ..self
                }
            },
            _ => self,
        }
    }

    /// A text that is not blank becomes a drawing, any other draft is given up; without a
    /// draft nothing stays selected.
    pub open spec fn cancelled(self) -> StateModel {
        match self.draft {
            Some(DraftModel::Text(anchor, value)) => if text::blank(value) {
                self.with_draft(None)
            } else {
                self.with_draft(None).committed(GeometryModel::Text(anchor, value))
            },
            Some(_) => self.with_draft(None),
            None => StateModel {
                controls: Controls { selected: None, settings_open: false, ..self.controls },
                ..self
            },
        }
    }

    pub open spec fn text_committed(self) -> StateModel {
        let done = match self.draft {
            Some(DraftModel::Text(anchor, value)) => if text::blank(value) {
                self.with_draft(None)
            } else {
                self.with_draft(None).committed(GeometryModel::Text(anchor, value))
            },
            _ => self.with_draft(None),
        };
        StateModel {
            controls: Controls { text_editor_position: None, ..done.controls },
            ..done
        }
    }

    /// The selected horizontal line moved to a typed price.
    pub open spec fn price_committed(self, price: Price, decimals: nat) -> StateModel {
        match self.controls.selected {
            Some(id) => {
                let at = line_place(self.drawings, id);
                if at < self.drawings.len() {
                    StateModel {
                        drawings: self.drawings.update(
                            at,
                            self.drawings[at].with_geometry(GeometryModel::HorizontalLine(price)),
                        ),
                        price_input: Some(labels::price_text(price, decimals)),
                        ..self
                    }
                } else {
                    self
                }
            },
            None => self,
        }
    }

    pub open spec fn selected_deleted(self) -> StateModel {
        StateModel {
            drawings: match self.controls.selected {
                Some(id) => without_id(self.drawings, id),
                None => self.drawings,
            },
            controls: Controls { selected: None, settings_open: false, ..self.controls },
            price_input: None,
            ..self
        }
    }

    pub open spec fn deleted(self, id: u64) -> StateModel {
        let left = without_id(self.drawings, id);
        let was_selected = self.controls.selected == Some(id);
        StateModel {
            drawings: left,
            controls: Controls {
                selected: if was_selected {
                    None
                } else {
                    self.controls.selected
                },
                settings_open: self.controls.settings_open && !was_selected,
                drawing_list_open: self.controls.drawing_list_open && left.len() > 0,
                ..self.controls
            },
            ..self
        }
    }

    /// The style of the selected drawing changed, which is then the style of its tool.
    pub open spec fn restyled(self, change: StyleChange) -> StateModel {
        match self.controls.selected {
            Some(id) => {
                let at = place_of(self.drawings, id);
                if at < self.drawings.len() {
                    let style = self.drawings[at].style.changed(
                        change,
                        self.default_style.look.fixed_range_volume_profile,
                    );
                    let tool = self.drawings[at].geometry.tool();
                    let place = style_place(self.tool_styles, tool);
                    StateModel {
                        drawings: self.drawings.update(
                            at,
                            DrawingModel { style, ..self.drawings[at] },
                        ),
                        tool_styles: if place < self.tool_styles.len() {
                            self.tool_styles.update(place, (self.tool_styles[place].0, style))
                        } else {
                            self.tool_styles
                        },
                        ..self
                    }
                } else {
                    self
                }
            },
            None => self,
        }
    }

    pub open spec fn visibility_toggled(self, id: u64) -> StateModel {
        let at = place_of(self.drawings, id);
        if at < self.drawings.len() {
            StateModel {
                drawings: self.drawings.update(
                    at,
                    DrawingModel { visible: !self.drawings[at].visible, ..self.drawings[at] },
                ),
                ..self
            }
        } else {
            self
        }
    }

    /// A drawing focused: it is selected, and the view is moved to it.
    pub open spec fn focused(self, id: u64) -> Outcome {
        let at = place_of(self.drawings, id);
        if at < self.drawings.len() && focus_target(self.drawings[at].geometry) is Some {
            Outcome {
                state: StateModel {
                    controls: Controls {
                        selected: Some(id),
                        active_tool: DrawingTool::Select,
                        ..self.controls
                    },
                    ..self
                },
                redraw: true,
                focus: focus_target(self.drawings[at].geometry),
            }
        } else {
            Outcome { state: self, redraw: true, focus: None }
        }
    }

    pub open spec fn panel_dragged(self, pointer: ScreenPoint, place: ScreenPoint) -> StateModel {
        match self.controls.dragging_panel {
            Some(panel) => {
                let grabbed = Controls { drag_grab_offset: Some(pointer), ..self.controls };
                StateModel {
                    controls: if self.controls.drag_grab_offset is None {
                        grabbed
                    } else if panel == FloatingPanel::Toolbar {
                        Controls { toolbar_position: place, ..grabbed }
                    } else {
                        Controls { drawing_list_position: place, ..grabbed }
                    },
                    ..self
                }
            },
            None => self,
        }
    }

    pub open spec fn panel_taken(self, panel: Option<FloatingPanel>) -> StateModel {
        StateModel {
            controls: Controls {
                dragging_panel: panel,
                drag_grab_offset: None,
                ..self.controls
            },
            ..self
        }
    }

    pub open spec fn changed(self) -> Outcome {
        Outcome { state: self, redraw: true, focus: None }
    }

    /// What a message does.
    pub open spec fn step(
        self,
        message: DrawingMessage,
        keys: Seq<u64>,
        decimals: nat,
    ) -> Outcome {
        let controls = self.controls;
        match message {
            DrawingMessage::ToolSelected(tool) => StateModel {
                controls: Controls {
                    active_tool: tool,
                    selected: None,
                    settings_open: false,
                    ..controls
                },
                draft: None,
                price_input: None,
                ..self
            }.changed(),
            DrawingMessage::PointerPressed(anchor, screen) => self.pressed(anchor, screen, keys),
            DrawingMessage::PointerMoved(anchor, text_scale) => self.moved(
                anchor,
                text_scale,
                keys,
            ).changed(),
            DrawingMessage::PointerReleased => self.released().changed(),
            DrawingMessage::DoubleClicked(id) => self.opened(id, decimals).changed(),
            DrawingMessage::OpenDrawingSettings(id) => self.opened(id, decimals).changed(),
            DrawingMessage::MoveStarted(anchor) => self.taken_up(
                Some(anchor),
                ScreenPoint { x: Bits32 { bits: 0 }, y: Bits32 { bits: 0 } },
                0,
            ).changed(),
            DrawingMessage::ResizeStarted(screen, handle) => self.taken_up(
                None,
                screen,
                handle,
            ).changed(),
            DrawingMessage::MoveFinished => self.move_finished(keys).changed(),
            DrawingMessage::CancelOrCommit => self.cancelled().changed(),
            DrawingMessage::TextChanged(value) => match self.draft {
                Some(DraftModel::Text(anchor, _)) => self.with_draft(
                    Some(DraftModel::Text(anchor, value@)),
                ).changed(),
                _ => self.changed(),
            },
            DrawingMessage::TextCommitted => self.text_committed().changed(),
            DrawingMessage::HorizontalLinePriceChanged(value) => StateModel {
                price_input: Some(value@),
                ..self
            }.changed(),
            DrawingMessage::CommitHorizontalLinePrice(entered) => match (
                self.price_input,
                entered,
            ) {
                (Some(_), Some(price)) => self.price_committed(price, decimals).changed(),
                _ => Outcome { state: self, redraw: false, focus: None },
            },
            DrawingMessage::CloseSettings => StateModel {
                controls: Controls { settings_open: false, ..controls },
                price_input: None,
                ..self
            }.changed(),
            DrawingMessage::DeleteSelected => self.selected_deleted().changed(),
            DrawingMessage::DeleteDrawing(id) => self.deleted(id).changed(),
            DrawingMessage::ToggleDrawingsVisibility => StateModel {
                controls: Controls {
                    visible: !controls.visible,
                    selected: None,
                    settings_open: false,
                    text_editor_position: None,
                    ..controls
                },
                draft: None,
                ..self
            }.changed(),
            DrawingMessage::ClearAllDrawings => StateModel {
                drawings: Seq::empty(),
                controls: Controls {
                    drawing_list_open: false,
                    selected: None,
                    settings_open: false,
                    active_tool: DrawingTool::Select,
                    text_editor_position: None,
                    ..controls
                },
                draft: None,
                ..self
            }.changed(),
            DrawingMessage::ChangeStyle(change) => self.restyled(change).changed(),
            DrawingMessage::ToggleToolbar => StateModel {
                controls: Controls { toolbar_open: !controls.toolbar_open, ..controls },
                ..self
            }.changed(),
            DrawingMessage::ToggleDrawingVisibility(id) => self.visibility_toggled(id).changed(),
            DrawingMessage::FocusDrawing(id) => self.focused(id),
            DrawingMessage::ToggleDrawingList => StateModel {
                controls: Controls {
                    drawing_list_open: self.drawings.len() > 0 && !controls.drawing_list_open,
                    ..controls
                },
                ..self
            }.changed(),
            DrawingMessage::ToolbarDragStarted => self.panel_taken(
                Some(FloatingPanel::Toolbar),
            ).changed(),
            DrawingMessage::DrawingListDragStarted => self.panel_taken(
                Some(FloatingPanel::DrawingList),
            ).changed(),
            DrawingMessage::ToolbarDragged => self.changed(),
            DrawingMessage::DrawingListDragged => self.changed(),
            DrawingMessage::ToolbarDragEnded => self.panel_taken(None).changed(),
            DrawingMessage::DrawingListDragEnded => self.panel_taken(None).changed(),
            DrawingMessage::FloatingPanelDragEnded => self.panel_taken(None).changed(),
            DrawingMessage::FloatingPanelDragged(pointer, place) => self.panel_dragged(
                pointer,
                place,
            ).changed(),
        }
    }
}

/// The place of the first horizontal line with an id; the number of drawings where there
/// is none.
pub open spec fn line_place(drawings: Seq<DrawingModel>, id: u64) -> int
    decreases drawings.len(),
{
    if drawings.len() == 0 || (drawings[0].id == id && drawings[0].geometry is HorizontalLine) {
        0
    } else {
        1 + line_place(drawings.skip(1), id)
    }
}

} // verus!
