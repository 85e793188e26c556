//! What the canvas and the panels of the drawing tools promise.
use vstd::prelude::*;
use crate::chart::kline::drawing::geometry::DrawingTool;
use crate::chart::kline::drawing::panels;
use crate::chart::kline::drawing::panels::{
    CanvasAction, CanvasEvent, OverlayLayer, Pointer, SettingsControl, ToolbarItem,
};
use crate::chart::kline::drawing::transitions::{
    DrawingMessage, DrawingModel, StateModel,
};
use crate::units::Bits32;

verus! {

/// A press outside the chart does nothing. With a tool chosen, a press on the chart goes to the
/// tool, wherever a drawing lies.
pub proof fn presses_go_to_the_chosen_tool(
    state: StateModel,
    previous: Option<u64>,
    pointer: Pointer,
    hit: Option<u64>,
    double: bool,
    handle: Option<u8>,
)
    ensures
        panels::canvas_answer(
            state,
            previous,
            CanvasEvent::Pressed { pointer: None, hit, double, handle },
        ) == (CanvasAction::Ignore, previous),
        state.controls.active_tool != DrawingTool::Select ==> panels::canvas_answer(
            state,
            previous,
            CanvasEvent::Pressed { pointer: Some(pointer), hit, double, handle },
        ) == (
            CanvasAction::Publish(DrawingMessage::PointerPressed(pointer.anchor, pointer.screen)),
            previous,
        ),
{
}

/// With the selection tool, the second press of a double click on a drawing opens it; a single
/// press on the selected drawing moves it, or resizes it where it is at a handle. A press on
/// another drawing is left to the chart, one on none gives up the selection. The drawing under
/// the press is remembered.
pub proof fn presses_take_hold_of_the_selected_drawing(
    state: StateModel,
    previous: Option<u64>,
    pointer: Pointer,
    hit: Option<u64>,
    double: bool,
    handle: Option<u8>,
)
    requires
        state.controls.active_tool == DrawingTool::Select,
    ensures
        ({
            let answer = panels::canvas_answer(
                state,
                previous,
                CanvasEvent::Pressed { pointer: Some(pointer), hit, double, handle },
            );
            let again = double && previous == hit;
            let own = hit is Some && state.controls.selected == hit;
            &&& answer.1 == hit
            &&& hit is Some && again ==> answer.0 == CanvasAction::Publish(
                DrawingMessage::DoubleClicked(hit->0),
            )
            &&& own && !again && handle is Some ==> answer.0 == CanvasAction::Publish(
                DrawingMessage::ResizeStarted(pointer.screen, handle->0),
            )
            &&& own && !again && handle is None ==> answer.0 == CanvasAction::Publish(
                DrawingMessage::MoveStarted(pointer.anchor),
            )
            &&& hit is Some && !own && !again ==> answer.0 is Navigate
            &&& hit is None && state.controls.selected is Some ==> answer.0
                == CanvasAction::Publish(DrawingMessage::CancelOrCommit)
            &&& hit is None && state.controls.selected is None ==> answer.0 is Navigate
        }),
{
}

/// While something is drawn or dragged, the pointer on the chart moves it, unless it is a text
/// that is typed; otherwise its movements are left to the chart.
pub proof fn movements_go_to_the_draft(
    state: StateModel,
    previous: Option<u64>,
    pointer: Option<Pointer>,
    text_scale: Bits32,
)
    ensures
        ({
            let answer = panels::canvas_answer(
                state,
                previous,
                CanvasEvent::Moved { pointer, text_scale },
            );
            let draws = state.draft is Some && !(state.draft->0 is Text);
            &&& answer.1 == previous
            &&& draws && pointer is Some ==> answer.0 == CanvasAction::Publish(
                DrawingMessage::PointerMoved(pointer->0.anchor, text_scale),
            )
            &&& !draws || pointer is None ==> answer.0 is Navigate
        }),
{
}

/// A release ends the line of the pen on the chart, and a drag wherever the pointer is. It is
/// kept from the chart while anything is drawn.
pub proof fn releases_end_drags(state: StateModel, previous: Option<u64>, pointer: Option<Pointer>)
    ensures
        ({
            let answer = panels::canvas_answer(state, previous, CanvasEvent::Released { pointer });
            &&& answer.1 == previous
            &&& state.draft is None <==> answer.0 is Navigate
            &&& state.draft is Some && state.draft->0 is Freehand && pointer is Some ==> answer.0
                == CanvasAction::Publish(DrawingMessage::PointerReleased)
            &&& state.draft is Some && state.draft->0 is Freehand && pointer is None
                ==> answer.0 is Capture
            &&& state.draft is Some && (state.draft->0 is Moving || state.draft->0 is Resizing)
                ==> answer.0 == CanvasAction::Publish(DrawingMessage::MoveFinished)
            &&& state.draft is Some && state.draft->0 is Text ==> answer.0 is Capture
        }),
{
}

/// Escape and Enter cancel or commit, Delete deletes the selection; all else is left to the
/// chart.
pub proof fn keys_cancel_and_delete(state: StateModel, previous: Option<u64>)
    ensures
        panels::canvas_answer(state, previous, CanvasEvent::ConfirmKey).0 == CanvasAction::Publish(
            DrawingMessage::CancelOrCommit,
        ),
        panels::canvas_answer(state, previous, CanvasEvent::DeleteKey).0 == CanvasAction::Publish(
            DrawingMessage::DeleteSelected,
        ),
        panels::canvas_answer(state, previous, CanvasEvent::Other).0 is Navigate,
{
}

/// The toolbar offers its tools while it is open, each once, the chosen one marked, and the
/// list where there are drawings.
pub proof fn the_toolbar_offers_its_tools(model: StateModel, k: int)
    ensures
        ({
            let items = panels::toolbar_items(model);
            let tools = panels::toolbar_tools();
            let head: int = if model.drawings.len() > 0 {
                3
            } else {
                2
            };
            &&& items[0] is DragHandle
            &&& items[head - 1] == (ToolbarItem::Arrow { open: model.controls.toolbar_open })
            &&& model.drawings.len() > 0 ==> items[1] == (ToolbarItem::ListButton {
                open: model.controls.drawing_list_open,
            })
            &&& !model.controls.toolbar_open ==> items.len() == head
            &&& model.controls.toolbar_open ==> {
                &&& items.len() == head + tools.len() + 2
                &&& items[items.len() - 2] == (ToolbarItem::Eye {
                    visible: model.controls.visible,
                })
                &&& items.last() is Trash
                &&& 0 <= k < tools.len() ==> items[head + k] == (ToolbarItem::Tool {
                    tool: tools[k],
                    selected: tools[k] == model.controls.active_tool,
                })
            }
        }),
{
}

/// The toolbar is always there. The list, the settings and the text editor show while drawings
/// do: the list where it is open and holds something, the settings where they are open for a
/// selected drawing, the editor while a text is typed.
pub proof fn panels_show_with_the_drawings(model: StateModel)
    ensures
        ({
            let layers = panels::overlay_layers(model);
            let controls = model.controls;
            &&& layers.contains(OverlayLayer::Toolbar)
            &&& layers.contains(OverlayLayer::DrawingList) <==> controls.visible
                && controls.drawing_list_open && model.drawings.len() > 0
            &&& layers.contains(OverlayLayer::DragArea) <==> controls.dragging_panel is Some
            &&& layers.contains(OverlayLayer::Settings) <==> controls.visible
                && controls.settings_open && controls.selected is Some
            &&& layers.contains(OverlayLayer::TextEditor) <==> controls.visible
                && model.draft is Some && model.draft->0 is Text
        }),
{
    let layers = panels::overlay_layers(model);
    let controls = model.controls;
    let list: int = if controls.visible && controls.drawing_list_open && model.drawings.len() > 0 {
        1
    } else {
        0
    };
    let drag: int = if controls.dragging_panel is Some {
        1
    } else {
        0
    };
    let settings: int = if controls.visible && controls.settings_open && controls.selected is Some {
        1
    } else {
        0
    };
    let editor: int = if controls.visible && model.draft is Some && model.draft->0 is Text {
        1
    } else {
        0
    };
    assert(layers.len() == 1 + list + drag + settings + editor);
    assert(layers[0] == OverlayLayer::Toolbar);
    assert(list == 1 ==> layers[1] == OverlayLayer::DrawingList);
    assert(drag == 1 ==> layers[1 + list] == OverlayLayer::DragArea);
    assert(settings == 1 ==> layers[1 + list + drag] == OverlayLayer::Settings);
    assert(editor == 1 ==> layers[1 + list + drag + settings] == OverlayLayer::TextEditor);
}

/// Every drawing can be closed and deleted. A line has an input for its price, a rectangle a
/// slider for its fill, a retracement one button for each of its levels; a profile has the
/// controls of profiles in place of those of the look.
pub proof fn settings_fit_their_drawing(drawing: DrawingModel, k: int)
    ensures
        ({
            let controls = panels::settings_of(drawing);
            let profile = drawing.geometry is FixedRangeVolumeProfile;
            &&& controls[0] is Close
            &&& controls.last() is Delete
            &&& profile ==> controls.len() == 11 && controls.contains(
                SettingsControl::ValueAreaSlider,
            )
            &&& !profile ==> controls[1] is ColorPicker && controls[2] is StrokeSlider
                && controls[3] is OpacitySlider
            &&& drawing.geometry is HorizontalLine ==> controls.len() == 7
                && controls[4] is PriceInput && controls[5] is ApplyPrice
            &&& drawing.geometry is Rectangle ==> controls.len() == 6
                && controls[4] is FillOpacitySlider
            &&& drawing.geometry is Fibonacci ==> {
                let levels = drawing.style.fibonacci_levels;
                &&& controls.len() == 6 + levels.len()
                &&& controls[4] == (SettingsControl::LabelsButton {
                    shown: drawing.style.look.show_labels,
                })
                &&& 0 <= k < levels.len() ==> controls[5 + k] == (SettingsControl::LevelButton {
                    index: k as usize,
                    visible: levels[k].visible,
                })
            }
            &&& drawing.geometry is VerticalLine || drawing.geometry is Text ==> controls.len()
                == 5
        }),
{
    let controls = panels::settings_of(drawing);
    if drawing.geometry is FixedRangeVolumeProfile {
        assert(controls[4] == SettingsControl::ValueAreaSlider);
    }
}

} // verus!
