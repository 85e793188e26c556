//! What the pointer and the keys mean on the canvas, and what the panels of the drawing
//! tools show.
use vstd::prelude::*;
use crate::chart::kline::drawing::geometry::{
    DrawingAnchor, DrawingGeometry, DrawingTool, GeometryModel,
};
use crate::chart::kline::drawing::state;
use crate::chart::kline::drawing::state::DrawingState;
use crate::chart::kline::drawing::transitions;
use crate::chart::kline::drawing::transitions::{
    Draft, DraftModel, Drawing, DrawingMessage, DrawingModel, ScreenPoint, StateModel,
};
use crate::units::Bits32;

verus! {

/// The place of the pointer on the chart and on the screen.
#[derive(Clone, Copy, Debug)]
pub struct Pointer {
    pub anchor: DrawingAnchor,
    pub screen: ScreenPoint,
}

/// What happened on the canvas. The pointer is `None` outside the chart.
#[derive(Clone, Copy, Debug)]
pub enum CanvasEvent {
    /// The topmost drawing under the pointer, whether the press is the second of a
    /// double click, and the handle of that drawing under the pointer.
    Pressed { pointer: Option<Pointer>, hit: Option<u64>, double: bool, handle: Option<u8> },
    /// The scale that a text has when it is resized to the pointer.
    Moved { pointer: Option<Pointer>, text_scale: Bits32 },
    Released { pointer: Option<Pointer> },
    /// Escape or Enter.
    ConfirmKey,
    DeleteKey,
    Other,
}

#[derive(Debug)]
pub enum CanvasAction {
    /// Nothing happens.
    Ignore,
    /// The event is left to the navigation of the chart.
    Navigate,
    /// The event is kept from the navigation.
    Capture,
    /// The event is kept from the navigation, and a message is sent.
    Publish(DrawingMessage),
}

/// The drawing under the last press of the selection tool.
#[derive(Clone, Copy, Debug)]
pub struct CanvasState {
    pub previous_hit: Option<u64>,
}

/// What an event on the canvas means, and the drawing that is remembered for a double
/// click.
pub open spec fn canvas_answer(
    state: StateModel,
    previous_hit: Option<u64>,
    event: CanvasEvent,
) -> (CanvasAction, Option<u64>) {
    match event {
        CanvasEvent::Pressed { pointer, hit, double, handle } => match (pointer, hit) {
            (None, _) => (CanvasAction::Ignore, previous_hit),
            (Some(pointer), hit) => if state.controls.active_tool != DrawingTool::Select {
                (
                    CanvasAction::Publish(
                        DrawingMessage::PointerPressed(pointer.anchor, pointer.screen),
                    ),
                    previous_hit,
                )
            } else if hit is None {
                if state.controls.selected is Some {
                    (CanvasAction::Publish(DrawingMessage::CancelOrCommit), None)
                } else {
                    (CanvasAction::Navigate, None)
                }
            } else if double && previous_hit == hit {
                (CanvasAction::Publish(DrawingMessage::DoubleClicked(hit->0)), hit)
            } else if state.controls.selected != hit {
                (CanvasAction::Navigate, hit)
            } else if handle is Some {
                (
                    CanvasAction::Publish(
                        DrawingMessage::ResizeStarted(pointer.screen, handle->0),
                    ),
                    hit,
                )
            } else {
                (CanvasAction::Publish(DrawingMessage::MoveStarted(pointer.anchor)), hit)
            },
        },
        CanvasEvent::Moved { pointer, text_scale } => match (state.draft, pointer) {
            (Some(DraftModel::Text(_, _)), _) => (CanvasAction::Navigate, previous_hit),
            (Some(_), Some(pointer)) => (
                CanvasAction::Publish(DrawingMessage::PointerMoved(pointer.anchor, text_scale)),
                previous_hit,
            ),
            _ => (CanvasAction::Navigate, previous_hit),
        },
        CanvasEvent::Released { pointer } => (
            match state.draft {
                Some(DraftModel::Freehand(_)) => if pointer is Some {
                    CanvasAction::Publish(DrawingMessage::PointerReleased)
                } else {
                    CanvasAction::Capture
                },
                Some(DraftModel::Moving(_, _, _)) => CanvasAction::Publish(
                    DrawingMessage::MoveFinished,
                ),
                Some(DraftModel::Resizing(_, _, _, _, _)) => CanvasAction::Publish(
                    DrawingMessage::MoveFinished,
                ),
                Some(_) => CanvasAction::Capture,
                None => CanvasAction::Navigate,
            },
            previous_hit,
        ),
        CanvasEvent::ConfirmKey => (
            CanvasAction::Publish(DrawingMessage::CancelOrCommit),
            previous_hit,
        ),
        CanvasEvent::DeleteKey => (
            CanvasAction::Publish(DrawingMessage::DeleteSelected),
            previous_hit,
        ),
        CanvasEvent::Other => (CanvasAction::Navigate, previous_hit),
    }
}

fn same_id(a: Option<u64>, id: u64) -> (r: bool)
    ensures
        r == (a == Some(id)),
{
    match a {
        Some(other) => other == id,
        None => false,
    }
}

impl DrawingState {
    /// A press of the left button.
    fn canvas_pressed(
        &self,
        canvas: &mut CanvasState,
        pointer: Pointer,
        hit: Option<u64>,
        double: bool,
        handle: Option<u8>,
    ) -> (r: CanvasAction)
        ensures
            (r, final(canvas).previous_hit) == canvas_answer(
                self@,
                old(canvas).previous_hit,
                CanvasEvent::Pressed { pointer: Some(pointer), hit, double, handle },
            ),
    {
        if self.controls.active_tool != DrawingTool::Select {
            return CanvasAction::Publish(
                DrawingMessage::PointerPressed(pointer.anchor, pointer.screen),
            );
        }
        let id: u64 = match hit {
            Some(id) => id,
            None => {
                canvas.previous_hit = None;
                if self.controls.selected.is_some() {
                    return CanvasAction::Publish(DrawingMessage::CancelOrCommit);
                }
                return CanvasAction::Navigate;
            },
        };
        let repeated: bool = double && same_id(canvas.previous_hit, id);
        canvas.previous_hit = Some(id);
        if repeated {
            return CanvasAction::Publish(DrawingMessage::DoubleClicked(id));
        }
        if !same_id(self.controls.selected, id) {
            return CanvasAction::Navigate;
        }
        match handle {
            Some(handle) => CanvasAction::Publish(
                DrawingMessage::ResizeStarted(pointer.screen, handle),
            ),
            None => CanvasAction::Publish(DrawingMessage::MoveStarted(pointer.anchor)),
        }
    }

    /// What an event on the canvas means.
    pub fn drawing_canvas_update(&self, canvas: &mut CanvasState, event: CanvasEvent) -> (r:
        CanvasAction)
        ensures
            (r, final(canvas).previous_hit) == canvas_answer(
                self@,
                old(canvas).previous_hit,
                event,
            ),
    {
        match event {
            CanvasEvent::Pressed { pointer, hit, double, handle } => match pointer {
                Some(pointer) => self.canvas_pressed(canvas, pointer, hit, double, handle),
                None => CanvasAction::Ignore,
            },
            CanvasEvent::Moved { pointer, text_scale } => match (&self.draft, pointer) {
                (Some(Draft::Text { .. }), _) => CanvasAction::Navigate,
                (Some(_), Some(pointer)) => CanvasAction::Publish(
                    DrawingMessage::PointerMoved(pointer.anchor, text_scale),
                ),
                _ => CanvasAction::Navigate,
            },
            CanvasEvent::Released { pointer } => match &self.draft {
                Some(Draft::Freehand { .. }) => {
                    if pointer.is_some() {
                        CanvasAction::Publish(DrawingMessage::PointerReleased)
                    } else {
                        CanvasAction::Capture
                    }
                },
                Some(Draft::Moving { .. }) => CanvasAction::Publish(DrawingMessage::MoveFinished),
                Some(Draft::Resizing { .. }) => CanvasAction::Publish(
                    DrawingMessage::MoveFinished,
                ),
                Some(_) => CanvasAction::Capture,
                None => CanvasAction::Navigate,
            },
            CanvasEvent::ConfirmKey => CanvasAction::Publish(DrawingMessage::CancelOrCommit),
            CanvasEvent::DeleteKey => CanvasAction::Publish(DrawingMessage::DeleteSelected),
            CanvasEvent::Other => CanvasAction::Navigate,
        }
    }
}

/// The last visible drawing under the pointer: it lies on top of the others.
pub open spec fn topmost(drawings: Seq<DrawingModel>, under: Seq<bool>) -> Option<u64>
    decreases drawings.len(),
{
    if drawings.len() == 0 {
        None
    } else if drawings.last().visible && under[drawings.len() - 1] {
        Some(drawings.last().id)
    } else {
        topmost(drawings.drop_last(), under)
    }
}

impl DrawingState {
    /// The topmost visible drawing under the pointer, where `under` tells for each drawing
    /// whether the pointer is over it.
    pub fn drawing_hit_test(&self, under: &Vec<bool>) -> (r: Option<u64>)
        requires
            under@.len() == self@.drawings.len(),
        ensures
            r == topmost(self@.drawings, under@),
    {
        let mut i: usize = self.drawings.len();
        assert(self@.drawings.take(i as int) =~= self@.drawings);
        while i > 0
            invariant
                i <= self.drawings@.len() == under@.len(),
                topmost(self@.drawings, under@) == topmost(
                    self@.drawings.take(i as int),
                    under@,
                ),
            decreases i,
        {
            assert(self@.drawings.take(i as int).drop_last() =~= self@.drawings.take(i - 1));
            assert(self@.drawings.take(i as int).last() == self.drawings@[i - 1]@);
            i = i - 1;
            if self.drawings[i].visible && under[i] {
                return Some(self.drawings[i].id);
            }
        }
        None
    }
}

/// The first handle near the pointer, of a text only the second one.
pub open spec fn first_near(near: Seq<bool>, only_second: bool, from: int) -> Option<int>
    decreases near.len() - from,
{
    if from >= near.len() {
        None
    } else if near[from] && (!only_second || from == 1) {
        Some(from)
    } else {
        first_near(near, only_second, from + 1)
    }
}

/// The handle of a drawing under the pointer, where `near` tells for each handle whether
/// the pointer is close to it. The edges of a volume profile come first.
pub fn drawing_handle_hit(geometry: &DrawingGeometry, edges: (bool, bool), near: &Vec<bool>) -> (r:
    Option<u8>)
    requires
        near@.len() <= 255,
    ensures
        ({
            let profile = geometry@ is FixedRangeVolumeProfile;
            r == if profile && edges.0 {
                Some(0u8)
            } else if profile && edges.1 {
                Some(1u8)
            } else {
                match first_near(near@, geometry@ is Text, 0) {
                    Some(at) => Some(at as u8),
                    None => None,
                }
            }
        }),
{
    if let DrawingGeometry::FixedRangeVolumeProfile { .. } = geometry {
        if edges.0 {
            return Some(0);
        }
        if edges.1 {
            return Some(1);
        }
    }
    let only_second: bool = match geometry {
        DrawingGeometry::Text { .. } => true,
        _ => false,
    };
    let mut i: usize = 0;
    while i < near.len()
        invariant
            i <= near@.len() <= 255,
            only_second == (geometry@ is Text),
            !(geometry@ is FixedRangeVolumeProfile && (edges.0 || edges.1)),
            first_near(near@, only_second, 0) == first_near(near@, only_second, i as int),
        decreases near@.len() - i,
    {
        if near[i] && (!only_second || i == 1) {
            return Some(i as u8);
        }
        i = i + 1;
    }
    None
}

/// A part of the toolbar.
#[derive(Clone, Copy, Debug, PartialEq, Eq, Structural)]
pub enum ToolbarItem {
    DragHandle,
    ListButton { open: bool },
    /// Shows the arrow that collapses or expands the toolbar.
    Arrow { open: bool },
    Tool { tool: DrawingTool, selected: bool },
    Eye { visible: bool },
    Trash,
}

impl ToolbarItem {
    /// What a press on the part does; the drag handle is dragged instead.
    pub open spec fn press(self) -> Option<DrawingMessage> {
        match self {
            ToolbarItem::DragHandle => None,
            ToolbarItem::ListButton { .. } => Some(DrawingMessage::ToggleDrawingList),
            ToolbarItem::Arrow { .. } => Some(DrawingMessage::ToggleToolbar),
            ToolbarItem::Tool { tool, .. } => Some(DrawingMessage::ToolSelected(tool)),
            ToolbarItem::Eye { .. } => Some(DrawingMessage::ToggleDrawingsVisibility),
            ToolbarItem::Trash => Some(DrawingMessage::ClearAllDrawings),
        }
    }

    /// What a press on the part does.
    pub fn message(self) -> (r: Option<DrawingMessage>)
        ensures
            r == self.press(),
    {
        match self {
            ToolbarItem::DragHandle => None,
            ToolbarItem::ListButton { .. } => Some(DrawingMessage::ToggleDrawingList),
            ToolbarItem::Arrow { .. } => Some(DrawingMessage::ToggleToolbar),
            ToolbarItem::Tool { tool, .. } => Some(DrawingMessage::ToolSelected(tool)),
            ToolbarItem::Eye { .. } => Some(DrawingMessage::ToggleDrawingsVisibility),
            ToolbarItem::Trash => Some(DrawingMessage::ClearAllDrawings),
        }
    }
}

/// The tools in the order of the toolbar.
pub open spec fn toolbar_tools() -> Seq<DrawingTool> {
    seq![DrawingTool::Select] + state::drawing_tools()
}

/// The parts of the toolbar from top to bottom.
pub open spec fn toolbar_items(model: StateModel) -> Seq<ToolbarItem> {
    let controls = model.controls;
    let head = seq![ToolbarItem::DragHandle] + if model.drawings.len() > 0 {
        seq![ToolbarItem::ListButton { open: controls.drawing_list_open }]
    } else {
        Seq::empty()
    } + seq![ToolbarItem::Arrow { open: controls.toolbar_open }];
    if controls.toolbar_open {
        head + toolbar_tools().map_values(
            |tool: DrawingTool|
                ToolbarItem::Tool { tool, selected: tool == controls.active_tool },
        ) + seq![ToolbarItem::Eye { visible: controls.visible }, ToolbarItem::Trash]
    } else {
        head
    }
}

fn toolbar_tool_at(index: usize) -> (r: DrawingTool)
    requires
        index < 9,
    ensures
        r == toolbar_tools()[index as int],
{
    match index {
        0 => DrawingTool::Select,
        1 => DrawingTool::Pen,
        2 => DrawingTool::HorizontalLine,
        3 => DrawingTool::VerticalLine,
        4 => DrawingTool::Rectangle,
        5 => DrawingTool::Fibonacci,
        6 => DrawingTool::TrendLine,
        7 => DrawingTool::Text,
        _ => DrawingTool::FixedRangeVolumeProfile,
    }
}

impl DrawingState {
    /// The parts of the toolbar from top to bottom.
    pub fn toolbar(&self) -> (r: Vec<ToolbarItem>)
        ensures
            r@ == toolbar_items(self@),
    {
        let mut items: Vec<ToolbarItem> = Vec::new();
        items.push(ToolbarItem::DragHandle);
        if self.drawings.len() > 0 {
            items.push(ToolbarItem::ListButton { open: self.controls.drawing_list_open });
        }
        items.push(ToolbarItem::Arrow { open: self.controls.toolbar_open });
        if !self.controls.toolbar_open {
            assert(items@ =~= toolbar_items(self@));
            return items;
        }
        let active: DrawingTool = self.controls.active_tool;
        let ghost head = items@;
        let ghost tools = toolbar_tools().map_values(
            |tool: DrawingTool| ToolbarItem::Tool { tool, selected: tool == active },
        );
        let mut i: usize = 0;
        assert(items@ =~= head + tools.take(0));
        while i < 9
            invariant
                i <= 9,
                tools == toolbar_tools().map_values(
                    |tool: DrawingTool| ToolbarItem::Tool { tool, selected: tool == active },
                ),
                items@ == head + tools.take(i as int),
            decreases 9 - i,
        {
            let tool: DrawingTool = toolbar_tool_at(i);
            let item = ToolbarItem::Tool { tool, selected: tool == active };
            assert(tools[i as int] == item);
            items.push(item);
            i = i + 1;
            assert(items@ =~= head + tools.take(i as int));
        }
        items.push(ToolbarItem::Eye { visible: self.controls.visible });
        items.push(ToolbarItem::Trash);
        assert(tools.take(9) =~= tools);
        assert(items@ =~= toolbar_items(self@));
        items
    }

    /// The number of buttons of the toolbar, without its drag handle.
    pub fn toolbar_button_count(&self) -> (r: usize)
        ensures
            r == toolbar_items(self@).len() - 1,
    {
        let list: usize = if self.drawings.len() > 0 {
            1
        } else {
            0
        };
        if self.controls.toolbar_open {
            12 + list
        } else {
            1 + list
        }
    }
}

/// A panel over the chart.
#[derive(Clone, Copy, Debug, PartialEq, Eq, Structural)]
pub enum OverlayLayer {
    Toolbar,
    DrawingList,
    DragArea,
    Settings,
    TextEditor,
}

/// The panels over the chart from bottom to top.
pub open spec fn overlay_layers(model: StateModel) -> Seq<OverlayLayer> {
    let one = |shown: bool, layer: OverlayLayer|
        if shown {
            seq![layer]
        } else {
            Seq::empty()
        };
    let controls = model.controls;
    seq![OverlayLayer::Toolbar] + one(
        controls.visible && controls.drawing_list_open && model.drawings.len() > 0,
        OverlayLayer::DrawingList,
    ) + one(controls.dragging_panel is Some, OverlayLayer::DragArea) + one(
        controls.visible && controls.settings_open && controls.selected is Some,
        OverlayLayer::Settings,
    ) + one(
        controls.visible && model.draft is Some && model.draft->0 is Text,
        OverlayLayer::TextEditor,
    )
}

impl DrawingState {
    /// The panels over the chart from bottom to top.
    pub fn drawing_overlay(&self) -> (r: Vec<OverlayLayer>)
        ensures
            r@ == overlay_layers(self@),
    {
        let mut layers: Vec<OverlayLayer> = Vec::new();
        layers.push(OverlayLayer::Toolbar);
        let visible: bool = self.controls.visible;
        if visible && self.controls.drawing_list_open && self.drawings.len() > 0 {
            layers.push(OverlayLayer::DrawingList);
        }
        if self.controls.dragging_panel.is_some() {
            layers.push(OverlayLayer::DragArea);
        }
        if visible && self.controls.settings_open && self.controls.selected.is_some() {
            layers.push(OverlayLayer::Settings);
        }
        if visible && self.drawing_text_input() {
            layers.push(OverlayLayer::TextEditor);
        }
        assert(layers@ =~= overlay_layers(self@));
        layers
    }

    /// Whether a text is being written.
    pub fn drawing_text_input(&self) -> (r: bool)
        ensures
            r == (self@.draft is Some && self@.draft->0 is Text),
    {
        match &self.draft {
            Some(Draft::Text { .. }) => true,
            _ => false,
        }
    }
}

/// A control in the settings of a drawing.
#[derive(Clone, Copy, Debug, PartialEq, Eq, Structural)]
pub enum SettingsControl {
    Close,
    ColorPicker,
    StrokeSlider,
    OpacitySlider,
    PriceInput,
    ApplyPrice,
    FillOpacitySlider,
    LabelsButton { shown: bool },
    LevelButton { index: usize, visible: bool },
    PlacementList,
    ModeList,
    WidthSlider,
    ValueAreaSlider,
    RowSlider,
    PocBox,
    ValueAreaBox,
    VwapBox,
    HighLowBox,
    Delete,
}

/// The controls of the settings of a drawing from top to bottom.
pub open spec fn settings_of(drawing: DrawingModel) -> Seq<SettingsControl> {
    if drawing.geometry is FixedRangeVolumeProfile {
        seq![
            SettingsControl::Close,
            SettingsControl::PlacementList,
            SettingsControl::ModeList,
            SettingsControl::WidthSlider,
            SettingsControl::ValueAreaSlider,
            SettingsControl::RowSlider,
            SettingsControl::PocBox,
            SettingsControl::ValueAreaBox,
            SettingsControl::VwapBox,
            SettingsControl::HighLowBox,
            SettingsControl::Delete,
        ]
    } else {
        let levels = drawing.style.fibonacci_levels;
        let own = match drawing.geometry {
            GeometryModel::HorizontalLine(_) => seq![
                SettingsControl::PriceInput,
                SettingsControl::ApplyPrice,
            ],
            GeometryModel::Rectangle(_, _) => seq![
                SettingsControl::FillOpacitySlider,
            ],
            GeometryModel::Fibonacci(_, _) => seq![
                SettingsControl::LabelsButton { shown: drawing.style.look.show_labels },
            ] + Seq::new(
                levels.len(),
                |i: int|
                    SettingsControl::LevelButton {
                        index: i as usize,
                        visible: levels[i].visible,
                    },
            ),
            _ => Seq::empty(),
        };
        seq![
            SettingsControl::Close,
            SettingsControl::ColorPicker,
            SettingsControl::StrokeSlider,
            SettingsControl::OpacitySlider,
        ] + own + seq![SettingsControl::Delete]
    }
}

fn profile_settings() -> (r: Vec<SettingsControl>)
    ensures
        forall|drawing: DrawingModel|
            drawing.geometry is FixedRangeVolumeProfile ==> r@ == #[trigger] settings_of(drawing),
{
    let mut r: Vec<SettingsControl> = Vec::new();
    r.push(SettingsControl::Close);
    r.push(SettingsControl::PlacementList);
    r.push(SettingsControl::ModeList);
    r.push(SettingsControl::WidthSlider);
    r.push(SettingsControl::ValueAreaSlider);
    r.push(SettingsControl::RowSlider);
    r.push(SettingsControl::PocBox);
    r.push(SettingsControl::ValueAreaBox);
    r.push(SettingsControl::VwapBox);
    r.push(SettingsControl::HighLowBox);
    r.push(SettingsControl::Delete);
    assert forall|drawing: DrawingModel|
        drawing.geometry is FixedRangeVolumeProfile implies r@ == #[trigger] settings_of(
        drawing,
    ) by {
        assert(r@ =~= settings_of(drawing));
    }
    r
}

/// The controls of the settings of a drawing from top to bottom.
pub fn drawing_settings(drawing: &Drawing) -> (r: Vec<SettingsControl>)
    ensures
        r@ == settings_of(drawing@),
{
    let mut r: Vec<SettingsControl> = Vec::new();
    if let DrawingGeometry::FixedRangeVolumeProfile { .. } = &drawing.geometry {
        return profile_settings();
    }
    r.push(SettingsControl::Close);
    r.push(SettingsControl::ColorPicker);
    r.push(SettingsControl::StrokeSlider);
    r.push(SettingsControl::OpacitySlider);
    let ghost head = r@;
    match &drawing.geometry {
        DrawingGeometry::HorizontalLine { .. } => {
            r.push(SettingsControl::PriceInput);
            r.push(SettingsControl::ApplyPrice);
        },
        DrawingGeometry::Rectangle { .. } => {
            r.push(SettingsControl::FillOpacitySlider);
        },
        DrawingGeometry::Fibonacci { .. } => {
            r.push(SettingsControl::LabelsButton { shown: drawing.style.look.show_labels });
            let ghost labelled = r@;
            let levels = &drawing.style.fibonacci_levels;
            let ghost buttons = Seq::new(
                levels@.len(),
                |i: int|
                    SettingsControl::LevelButton {
                        index: i as usize,
                        visible: levels@[i].visible,
                    },
            );
            let mut i: usize = 0;
            assert(r@ =~= labelled + buttons.take(0));
            while i < levels.len()
                invariant
                    i <= levels@.len(),
                    buttons == Seq::new(
                        levels@.len(),
                        |i: int|
                            SettingsControl::LevelButton {
                                index: i as usize,
                                visible: levels@[i].visible,
                            },
                    ),
                    r@ == labelled + buttons.take(i as int),
                decreases levels@.len() - i,
            {
                let item = SettingsControl::LevelButton { index: i, visible: levels[i].visible };
                assert(buttons[i as int] == item);
                r.push(item);
                i = i + 1;
                assert(r@ =~= labelled + buttons.take(i as int));
            }
            assert(buttons.take(levels@.len() as int) =~= buttons);
        },
        _ => {},
    }
    r.push(SettingsControl::Delete);
    assert(r@ =~= settings_of(drawing@));
    r
}

impl DrawingState {
    /// The controls of the settings of the selected drawing; none where there is no such
    /// drawing.
    pub fn settings(&self) -> (r: Vec<SettingsControl>)
        ensures
            r@ == (match self@.controls.selected {
                Some(id) => {
                    let at = transitions::place_of(self@.drawings, id);
                    if at < self@.drawings.len() {
                        settings_of(self@.drawings[at])
                    } else {
                        Seq::empty()
                    }
                },
                None => Seq::empty(),
            }),
    {
        if let Some(id) = self.controls.selected {
            if let Some(at) = self.find(id) {
                assert(self@.drawings[at as int] == self.drawings@[at as int]@);
                return drawing_settings(&self.drawings[at]);
            }
        }
        Vec::new()
    }
}

} // verus!
