//! What the drawing tools do with presses, movements and commands, stated on the drawings that
//! result.
use vstd::prelude::*;
use crate::chart::kline::drawing::geometry;
use crate::chart::kline::drawing::geometry::{
    DrawingAnchor, DrawingTool, DrawingX, GeometryModel,
};
use crate::chart::kline::drawing::labels;
use crate::chart::kline::drawing::listing;
use crate::chart::kline::drawing::listing::{LabelModel, PaintedDrawing, PreviewModel};
use crate::chart::kline::drawing::style::StyleChange;
use crate::chart::kline::drawing::transitions;
use crate::chart::kline::drawing::transitions::{
    DraftModel, DrawingMessage, DrawingModel, FloatingPanel, FocusTarget, ScreenPoint, StateModel,
};
use crate::text;
use crate::units::{Bits32, Price};

verus! {

/// The first drawing with an id stands at `at`.
pub open spec fn stands_at(drawings: Seq<DrawingModel>, id: u64, at: int) -> bool {
    &&& 0 <= at < drawings.len()
    &&& drawings[at].id == id
    &&& forall|i: int| 0 <= i < at ==> (#[trigger] drawings[i]).id != id
}

proof fn lemma_place(drawings: Seq<DrawingModel>, id: u64, at: int)
    requires
        stands_at(drawings, id, at),
    ensures
        transitions::place_of(drawings, id) == at,
    decreases drawings.len(),
{
    if at > 0 {
        let rest = drawings.skip(1);
        assert(drawings[0].id != id);
        assert forall|i: int| 0 <= i < at - 1 implies (#[trigger] rest[i]).id != id by {
            assert(drawings[i + 1].id != id);
        }
        assert(rest[at - 1] == drawings[at]);
        lemma_place(rest, id, at - 1);
    }
}

proof fn lemma_no_place(drawings: Seq<DrawingModel>, id: u64)
    requires
        forall|i: int| 0 <= i < drawings.len() ==> (#[trigger] drawings[i]).id != id,
    ensures
        transitions::place_of(drawings, id) == drawings.len(),
        transitions::line_place(drawings, id) == drawings.len(),
    decreases drawings.len(),
{
    if drawings.len() > 0 {
        let rest = drawings.skip(1);
        assert(drawings[0].id != id);
        assert forall|i: int| 0 <= i < rest.len() implies (#[trigger] rest[i]).id != id by {
            assert(drawings[i + 1].id != id);
        }
        lemma_no_place(rest, id);
    }
}

/// One drawing of a shape has been added on top: it is visible, has the next id and is
/// selected, and the selection tool is active. All other drawings stay.
pub open spec fn is_added(before: StateModel, after: StateModel, shape: GeometryModel) -> bool {
    &&& after.drawings.len() == before.drawings.len() + 1
    &&& forall|i: int| 0 <= i < before.drawings.len() ==> #[trigger] after.drawings[i]
        == before.drawings[i]
    &&& after.drawings.last().geometry == shape
    &&& after.drawings.last().visible
    &&& after.drawings.last().id == before.controls.next_id
    &&& after.controls.selected == Some(before.controls.next_id)
    &&& after.controls.active_tool == DrawingTool::Select
    &&& before.controls.next_id < u64::MAX ==> after.controls.next_id == before.controls.next_id + 1
    &&& after.draft is None
}

/// Choosing a tool gives up the selection and what was being drawn, and keeps the drawings.
pub proof fn choosing_a_tool_starts_afresh(
    state: StateModel,
    tool: DrawingTool,
    keys: Seq<u64>,
    decimals: nat,
)
    ensures
        ({
            let after = state.step(DrawingMessage::ToolSelected(tool), keys, decimals).state;
            &&& after.controls.active_tool == tool
            &&& after.controls.selected is None
            &&& !after.controls.settings_open
            &&& after.draft is None
            &&& after.price_input is None
            &&& after.drawings == state.drawings
            &&& after.tool_styles == state.tool_styles
        }),
{
}

/// One press draws a horizontal line at its price or a vertical one at its position. With the
/// selection tool it gives up the selection.
pub proof fn one_press_draws_a_line(
    state: StateModel,
    anchor: DrawingAnchor,
    screen: ScreenPoint,
    keys: Seq<u64>,
)
    requires
        state.draft is None,
    ensures
        ({
            let outcome = state.pressed(anchor, screen, keys);
            &&& state.controls.active_tool == DrawingTool::HorizontalLine ==> is_added(
                state,
                outcome.state,
                GeometryModel::HorizontalLine(anchor.price),
            ) && outcome.redraw
            &&& state.controls.active_tool == DrawingTool::VerticalLine ==> is_added(
                state,
                outcome.state,
                GeometryModel::VerticalLine(anchor.x),
            ) && outcome.redraw
            &&& state.controls.active_tool == DrawingTool::Select ==> outcome.state.drawings
                == state.drawings && outcome.state.controls.selected is None
                && !outcome.state.controls.settings_open
        }),
{
}

/// A press of the pointer reaches the active tool.
pub proof fn presses_reach_the_tool(
    state: StateModel,
    anchor: DrawingAnchor,
    screen: ScreenPoint,
    keys: Seq<u64>,
    decimals: nat,
)
    ensures
        state.step(DrawingMessage::PointerPressed(anchor, screen), keys, decimals).state
            == state.pressed(anchor, screen, keys).state,
{
}

/// A movement of the pointer reaches what is being drawn.
pub proof fn movements_reach_the_draft(
    state: StateModel,
    anchor: DrawingAnchor,
    scale: Bits32,
    keys: Seq<u64>,
    decimals: nat,
)
    ensures
        state.step(DrawingMessage::PointerMoved(anchor, scale), keys, decimals).state
            == state.moved(anchor, scale, keys),
{
}

/// A release of the pointer ends what is being drawn.
pub proof fn releases_reach_the_draft(state: StateModel, keys: Seq<u64>, decimals: nat)
    ensures
        state.step(DrawingMessage::PointerReleased, keys, decimals).state == state.released(),
{
}

/// Hiding and showing a drawing turns its visibility around and nothing else.
pub proof fn visibility_is_turned_around(state: StateModel, id: u64, at: int)
    requires
        stands_at(state.drawings, id, at),
    ensures
        ({
            let after = state.visibility_toggled(id);
            &&& after.drawings.len() == state.drawings.len()
            &&& after.drawings[at].visible == !state.drawings[at].visible
            &&& after.drawings[at].geometry == state.drawings[at].geometry
            &&& after.drawings[at].style == state.drawings[at].style
            &&& after.drawings[at].id == id
            &&& forall|i: int|
                0 <= i < state.drawings.len() && i != at ==> #[trigger] after.drawings[i]
                    == state.drawings[i]
            &&& after.controls == state.controls
        }),
{
    lemma_place(state.drawings, id, at);
}

/// Hiding and showing all drawings keeps them.
pub proof fn hiding_keeps_the_drawings(state: StateModel, keys: Seq<u64>, decimals: nat)
    ensures
        ({
            let after = state.step(
                DrawingMessage::ToggleDrawingsVisibility,
                keys,
                decimals,
            ).state;
            &&& after.controls.visible == !state.controls.visible
            &&& after.drawings == state.drawings
            &&& after.controls.selected is None && after.draft is None
        }),
{
}

/// Clearing leaves no drawing, and no id is given twice.
pub proof fn clearing_leaves_nothing(state: StateModel, keys: Seq<u64>, decimals: nat)
    ensures
        ({
            let after = state.step(DrawingMessage::ClearAllDrawings, keys, decimals).state;
            &&& after.drawings.len() == 0
            &&& after.controls.selected is None && after.draft is None
            &&& !after.controls.drawing_list_open
            &&& after.controls.active_tool == DrawingTool::Select
            &&& after.controls.next_id == state.controls.next_id
        }),
{
}

/// Two presses draw a rectangle, a retracement or a trend line from the first place to the
/// second, with the pointer anywhere in between.
pub proof fn two_presses_draw_between_two_places(
    state: StateModel,
    first: DrawingAnchor,
    between: DrawingAnchor,
    second: DrawingAnchor,
    screen: ScreenPoint,
    scale: Bits32,
    keys: Seq<u64>,
)
    requires
        state.draft is None,
        state.controls.active_tool == DrawingTool::Rectangle || state.controls.active_tool
            == DrawingTool::Fibonacci || state.controls.active_tool == DrawingTool::TrendLine,
    ensures
        ({
            let pressed = state.pressed(first, screen, keys).state;
            let moved = pressed.moved(between, scale, keys);
            let after = moved.pressed(second, screen, keys).state;
            let shape = match state.controls.active_tool {
                DrawingTool::Rectangle => GeometryModel::Rectangle(first, second),
                DrawingTool::Fibonacci => GeometryModel::Fibonacci(first, second),
                _ => GeometryModel::TrendLine(first, second),
            };
            &&& is_added(state, after, shape)
            &&& pressed.drawings == state.drawings
            &&& moved.drawings == state.drawings
            &&& moved.draft == Some(
                DraftModel::TwoPoint(state.controls.active_tool, first, between),
            )
        }),
{
    let tool = state.controls.active_tool;
    let pressed = state.pressed(first, screen, keys).state;
    assert(pressed == state.with_draft(Some(DraftModel::TwoPoint(tool, first, first))));
    let moved = pressed.moved(between, scale, keys);
    assert(moved == state.with_draft(Some(DraftModel::TwoPoint(tool, first, between))));
    let shape = match tool {
        DrawingTool::Rectangle => GeometryModel::Rectangle(first, second),
        DrawingTool::Fibonacci => GeometryModel::Fibonacci(first, second),
        _ => GeometryModel::TrendLine(first, second),
    };
    assert(StateModel::completed(tool, first, second, keys) == Some(shape));
    assert(moved.pressed(second, screen, keys).state == moved.with_draft(None).committed(shape));
}

/// Two presses on candles draw a volume profile between them, where fewer than sixteen are
/// there; with sixteen none is added. Ticks and charts without candles have none.
pub proof fn two_presses_draw_a_profile(
    state: StateModel,
    first: DrawingAnchor,
    second: DrawingAnchor,
    screen: ScreenPoint,
    keys: Seq<u64>,
)
    requires
        state.draft is None,
        state.controls.active_tool == DrawingTool::FixedRangeVolumeProfile,
    ensures
        ({
            let pressed = state.pressed(first, screen, keys);
            let after = pressed.state.pressed(second, screen, keys).state;
            &&& first.x is Tick || keys.len() == 0 ==> pressed.state == state && !pressed.redraw
            &&& first.x is Time && second.x is Time && keys.len() > 0 ==> {
                let from = geometry::snapped(keys, first.x->Time_0)->0;
                let to = geometry::snapped(keys, second.x->Time_0)->0;
                let range = geometry::normalized(keys, from, to)->0;
                &&& pressed.redraw
                &&& pressed.state.drawings == state.drawings
                &&& transitions::profile_count(state.drawings) < 16 ==> is_added(
                    state,
                    after,
                    GeometryModel::FixedRangeVolumeProfile(range.0, range.1),
                )
                &&& transitions::profile_count(state.drawings) >= 16 ==> after.drawings
                    == state.drawings && after.controls.active_tool == DrawingTool::Select
            }
        }),
{
}

/// The profiles are counted one by one.
pub proof fn profiles_are_counted(drawings: Seq<DrawingModel>)
    ensures
        transitions::profile_count(drawings) == drawings.filter(
            |drawing: DrawingModel| drawing.geometry is FixedRangeVolumeProfile,
        ).len(),
    decreases drawings.len(),
{
    reveal(Seq::filter);
    if drawings.len() > 0 {
        profiles_are_counted(drawings.drop_last());
    }
}

/// The pen takes every place that differs from the one before, and none else.
pub proof fn the_pen_takes_new_places(
    state: StateModel,
    points: Seq<DrawingAnchor>,
    anchor: DrawingAnchor,
    scale: Bits32,
    keys: Seq<u64>,
)
    requires
        state.draft == Some(DraftModel::Freehand(points)),
        points.len() > 0,
    ensures
        points.last() != anchor ==> state.moved(anchor, scale, keys).draft == Some(
            DraftModel::Freehand(points.push(anchor)),
        ),
        points.last() == anchor ==> state.moved(anchor, scale, keys) == state,
        state.moved(anchor, scale, keys).drawings == state.drawings,
        state.moved(anchor, scale, keys).controls == state.controls,
{
}

/// A press of the pen begins a line, and its release draws the line through all its places. A
/// line needs two of them.
pub proof fn the_pen_draws_its_line(
    state: StateModel,
    points: Seq<DrawingAnchor>,
    anchor: DrawingAnchor,
    screen: ScreenPoint,
    keys: Seq<u64>,
)
    ensures
        state.controls.active_tool == DrawingTool::Pen ==> {
            let pressed = state.pressed(anchor, screen, keys).state;
            &&& pressed.draft == Some(DraftModel::Freehand(seq![anchor]))
            &&& pressed.drawings == state.drawings
        },
        ({
            let drawn = state.with_draft(Some(DraftModel::Freehand(points))).released();
            &&& points.len() > 1 ==> is_added(state, drawn, GeometryModel::Freehand(points))
            &&& points.len() <= 1 ==> drawn.drawings == state.drawings && drawn.draft is None
                && drawn.controls.active_tool == DrawingTool::Select
        }),
{
}

/// A text is drawn where it was begun once it is committed, as it was typed last; a blank one
/// is not drawn.
pub proof fn typed_texts_are_drawn(
    state: StateModel,
    anchor: DrawingAnchor,
    screen: ScreenPoint,
    typed: Seq<char>,
    keys: Seq<u64>,
)
    ensures
        state.controls.active_tool == DrawingTool::Text ==> {
            let pressed = state.pressed(anchor, screen, keys).state;
            &&& pressed.controls.text_editor_position == Some(screen)
            &&& pressed.drawings == state.drawings
            &&& pressed.draft is Some && pressed.draft->0 is Text
        },
        ({
            let writing = state.with_draft(Some(DraftModel::Text(anchor, typed)));
            let committed = writing.text_committed();
            let left = writing.cancelled();
            &&& committed.controls.text_editor_position is None
            &&& !text::blank(typed) ==> is_added(
                state,
                committed,
                GeometryModel::Text(anchor, typed),
            ) && is_added(state, left, GeometryModel::Text(anchor, typed))
            &&& text::blank(typed) ==> committed.drawings == state.drawings && committed.draft
                is None && left.drawings == state.drawings && left.draft is None
        }),
{
}

/// A drawing that is taken up to be moved follows the pointer from where it stood, wherever
/// the pointer was in between. Its style and all other drawings stay.
pub proof fn a_dragged_drawing_follows_the_pointer(
    state: StateModel,
    id: u64,
    at: int,
    original: GeometryModel,
    start: DrawingAnchor,
    end: DrawingAnchor,
    screen: ScreenPoint,
    scale: Bits32,
    keys: Seq<u64>,
)
    requires
        stands_at(state.drawings, id, at),
    ensures
        state.controls.selected == Some(id) ==> {
            let taken = state.taken_up(Some(start), screen, 0);
            &&& taken.draft == Some(DraftModel::Moving(id, state.drawings[at].geometry, start))
            &&& taken.drawings == state.drawings
        },
        state.draft == Some(DraftModel::Moving(id, original, start)) ==> {
            let after = state.moved(end, scale, keys);
            &&& after.draft == state.draft
            &&& after.drawings.len() == state.drawings.len()
            &&& after.drawings[at].geometry == original.translated(start, end)
            &&& after.drawings[at].id == id
            &&& after.drawings[at].style == state.drawings[at].style
            &&& after.drawings[at].visible == state.drawings[at].visible
            &&& forall|i: int|
                0 <= i < state.drawings.len() && i != at ==> #[trigger] after.drawings[i]
                    == state.drawings[i]
        },
{
    lemma_place(state.drawings, id, at);
}

/// A drawing that is taken up by a handle is resized from what it was, wherever the pointer
/// was in between. A text takes the new scale; every other style stays, and so do all other
/// drawings.
pub proof fn a_dragged_handle_resizes_its_drawing(
    state: StateModel,
    id: u64,
    at: int,
    original: GeometryModel,
    screen: ScreenPoint,
    handle: u8,
    held: Bits32,
    end: DrawingAnchor,
    scale: Bits32,
    keys: Seq<u64>,
)
    requires
        stands_at(state.drawings, id, at),
    ensures
        state.controls.selected == Some(id) ==> {
            let taken = state.taken_up(None, screen, handle);
            &&& taken.draft == Some(
                DraftModel::Resizing(
                    id,
                    state.drawings[at].geometry,
                    screen,
                    handle,
                    state.drawings[at].style.look.text_scale,
                ),
            )
            &&& taken.drawings == state.drawings
        },
        state.draft == Some(DraftModel::Resizing(id, original, screen, handle, held)) ==> {
            let after = state.moved(end, scale, keys);
            &&& after.draft == state.draft
            &&& after.drawings.len() == state.drawings.len()
            &&& after.drawings[at].geometry == original.resized(end, handle)
            &&& after.drawings[at].id == id
            &&& !(original is Text) ==> after.drawings[at].style == state.drawings[at].style
            &&& original is Text ==> after.drawings[at].style.look.text_scale == scale
                && after.drawings[at].style.look.color == state.drawings[at].style.look.color
                && after.drawings[at].style.look.text_size
                == state.drawings[at].style.look.text_size
            &&& forall|i: int|
                0 <= i < state.drawings.len() && i != at ==> #[trigger] after.drawings[i]
                    == state.drawings[i]
        },
{
    lemma_place(state.drawings, id, at);
}

/// Once a drag is finished, profiles are tied to candles, and nothing else changes.
pub proof fn finished_drags_tie_profiles_to_candles(
    state: StateModel,
    keys: Seq<u64>,
    i: int,
)
    requires
        state.draft is Some,
        state.draft->0 is Moving || state.draft->0 is Resizing,
        0 <= i < state.drawings.len(),
    ensures
        ({
            let after = state.move_finished(keys);
            &&& after.draft is None
            &&& after.drawings.len() == state.drawings.len()
            &&& !(state.drawings[i].geometry is FixedRangeVolumeProfile) || keys.len() == 0
                ==> after.drawings[i] == state.drawings[i]
            &&& state.drawings[i].geometry matches GeometryModel::FixedRangeVolumeProfile(
                first,
                second,
            ) ==> keys.len() > 0 ==> {
                let range = geometry::normalized(keys, first, second)->0;
                &&& after.drawings[i].geometry == GeometryModel::FixedRangeVolumeProfile(
                    range.0,
                    range.1,
                )
                &&& after.drawings[i].id == state.drawings[i].id
                &&& after.drawings[i].style == state.drawings[i].style
                &&& after.drawings[i].visible == state.drawings[i].visible
            }
        }),
{
}

proof fn lemma_without(drawings: Seq<DrawingModel>, id: u64)
    ensures
        transitions::without_id(drawings, id) == drawings.filter(
            |drawing: DrawingModel| drawing.id != id,
        ),
    decreases drawings.len(),
{
    reveal(Seq::filter);
    if drawings.len() > 0 {
        lemma_without(drawings.drop_last(), id);
    }
}

/// Deleting takes out the drawings with an id and keeps the others, in order. The selection is
/// given up where it was deleted, and the list is closed where nothing is left.
pub proof fn deleting_takes_out_an_id(state: StateModel, id: u64)
    ensures
        ({
            let after = state.deleted(id);
            &&& after.drawings == state.drawings.filter(|drawing: DrawingModel| drawing.id != id)
            &&& state.controls.selected == Some(id) ==> after.controls.selected is None
                && !after.controls.settings_open
            &&& state.controls.selected != Some(id) ==> after.controls.selected
                == state.controls.selected && after.controls.settings_open
                == state.controls.settings_open
            &&& after.controls.drawing_list_open == (state.controls.drawing_list_open
                && after.drawings.len() > 0)
        }),
        ({
            let after = state.selected_deleted();
            &&& state.controls.selected == Some(id) ==> after.drawings == state.drawings.filter(
                |drawing: DrawingModel| drawing.id != id,
            )
            &&& state.controls.selected is None ==> after.drawings == state.drawings
            &&& after.controls.selected is None && !after.controls.settings_open
            &&& after.price_input is None
        }),
{
    lemma_without(state.drawings, id);
}

proof fn lemma_style_place(
    styles: Seq<(DrawingTool, crate::chart::kline::drawing::style::StyleModel)>,
    tool: DrawingTool,
    at: int,
)
    requires
        0 <= at < styles.len(),
        styles[at].0 == tool,
        forall|i: int| 0 <= i < at ==> (#[trigger] styles[i]).0 != tool,
    ensures
        transitions::style_place(styles, tool) == at,
    decreases styles.len(),
{
    if at > 0 {
        let rest = styles.skip(1);
        assert(styles[0].0 != tool);
        assert forall|i: int| 0 <= i < at - 1 implies (#[trigger] rest[i]).0 != tool by {
            assert(styles[i + 1].0 != tool);
        }
        assert(rest[at - 1] == styles[at]);
        lemma_style_place(rest, tool, at - 1);
    }
}

/// The style of the selected drawing changes, and with it the style that its tool draws with
/// next. Nothing else does.
pub proof fn a_style_is_kept_for_its_tool(
    state: StateModel,
    id: u64,
    at: int,
    place: int,
    change: StyleChange,
)
    requires
        state.controls.selected == Some(id),
        stands_at(state.drawings, id, at),
        0 <= place < state.tool_styles.len(),
        state.tool_styles[place].0 == state.drawings[at].geometry.tool(),
        forall|i: int|
            0 <= i < place ==> (#[trigger] state.tool_styles[i]).0
                != state.drawings[at].geometry.tool(),
    ensures
        ({
            let after = state.restyled(change);
            let style = state.drawings[at].style.changed(
                change,
                state.default_style.look.fixed_range_volume_profile,
            );
            &&& after.drawings[at].style == style
            &&& after.drawings[at].geometry == state.drawings[at].geometry
            &&& after.drawings[at].visible == state.drawings[at].visible
            &&& after.drawings[at].id == id
            &&& after.drawings.len() == state.drawings.len()
            &&& forall|i: int|
                0 <= i < state.drawings.len() && i != at ==> #[trigger] after.drawings[i]
                    == state.drawings[i]
            &&& after.style_for_tool(state.drawings[at].geometry.tool()) == style
            &&& forall|i: int|
                0 <= i < state.tool_styles.len() && i != place ==> #[trigger] after.tool_styles[i]
                    == state.tool_styles[i]
        }),
{
    lemma_place(state.drawings, id, at);
    let tool = state.drawings[at].geometry.tool();
    lemma_style_place(state.tool_styles, tool, place);
    let after = state.restyled(change);
    assert forall|i: int| 0 <= i < place implies (#[trigger] after.tool_styles[i]).0 != tool by {
        assert(state.tool_styles[i].0 != tool);
    }
    lemma_style_place(after.tool_styles, tool, place);
}

/// A new drawing has the style of its tool, and the default one where the tool has none.
pub proof fn new_drawings_have_the_style_of_their_tool(state: StateModel, shape: GeometryModel, place: int)
    requires
        !(shape is FixedRangeVolumeProfile),
    ensures
        0 <= place < state.tool_styles.len() && state.tool_styles[place].0 == shape.tool() && (forall|
            i: int,
        |
            0 <= i < place ==> (#[trigger] state.tool_styles[i]).0 != shape.tool())
            ==> state.committed(shape).drawings.last().style == state.tool_styles[place].1,
        state.tool_styles.len() == 0 ==> state.committed(shape).drawings.last().style
            == state.default_style,
{
    if 0 <= place < state.tool_styles.len() && state.tool_styles[place].0 == shape.tool() && (forall|
        i: int,
    |
        0 <= i < place ==> (#[trigger] state.tool_styles[i]).0 != shape.tool()) {
        lemma_style_place(state.tool_styles, shape.tool(), place);
    }
}

/// A drawing that is focused is selected, and the view is moved to the price of a horizontal
/// line, to the position of a vertical one or of the middle of a profile, and else to the
/// place that it is focused by. An id that no drawing has changes nothing.
pub proof fn focused_drawings_are_selected(
    state: StateModel,
    id: u64,
    at: int,
)
    requires
        stands_at(state.drawings, id, at),
    ensures
        ({
            let outcome = state.focused(id);
            let shape = state.drawings[at].geometry;
            &&& outcome.redraw
            &&& outcome.state.drawings == state.drawings
            &&& shape.focus() is Some ==> outcome.state.controls.selected == Some(id)
                && outcome.state.controls.active_tool == DrawingTool::Select
            &&& shape.focus() is None ==> outcome.focus is None && outcome.state == state
            &&& shape matches GeometryModel::HorizontalLine(price) ==> outcome.focus == Some(
                FocusTarget::AtPrice(price),
            )
            &&& shape matches GeometryModel::VerticalLine(x) ==> outcome.focus == Some(
                FocusTarget::AtX(x),
            )
            &&& shape matches GeometryModel::FixedRangeVolumeProfile(_, _) ==> outcome.focus
                == Some(FocusTarget::AtX((shape.focus()->0).x))
            &&& shape.focus() is Some && (shape is Rectangle || shape is Fibonacci || shape
                is TrendLine || shape is Text || shape is Freehand) ==> outcome.focus == Some(
                FocusTarget::AtAnchor(shape.focus()->0),
            )
        }),
{
    lemma_place(state.drawings, id, at);
}

/// An id that no drawing has focuses, shows and hides nothing.
pub proof fn unknown_ids_change_nothing(state: StateModel, id: u64)
    requires
        forall|i: int| 0 <= i < state.drawings.len() ==> (#[trigger] state.drawings[i]).id != id,
    ensures
        state.focused(id).state == state,
        state.focused(id).focus is None,
        state.visibility_toggled(id) == state,
{
    lemma_no_place(state.drawings, id);
}

/// The settings of a drawing show the price of a horizontal line, and a price that is entered
/// there moves the line to it, and no other drawing.
pub proof fn entered_prices_move_their_line(
    state: StateModel,
    id: u64,
    at: int,
    price: Price,
    decimals: nat,
)
    requires
        stands_at(state.drawings, id, at),
        state.drawings[at].geometry is HorizontalLine,
    ensures
        ({
            let opened = state.opened(id, decimals);
            &&& opened.controls.settings_open && opened.controls.selected == Some(id)
            &&& opened.controls.active_tool == DrawingTool::Select
            &&& opened.drawings == state.drawings
            &&& opened.price_input == Some(
                labels::price_text(state.drawings[at].geometry->HorizontalLine_0, decimals),
            )
        }),
        state.controls.selected == Some(id) ==> {
            let entered = state.price_committed(price, decimals);
            &&& entered.drawings.len() == state.drawings.len()
            &&& entered.drawings[at].geometry == GeometryModel::HorizontalLine(price)
            &&& entered.drawings[at].id == id
            &&& entered.drawings[at].style == state.drawings[at].style
            &&& entered.price_input == Some(labels::price_text(price, decimals))
            &&& forall|i: int|
                0 <= i < state.drawings.len() && i != at ==> #[trigger] entered.drawings[i]
                    == state.drawings[i]
        },
{
    lemma_place(state.drawings, id, at);
    lemma_line_place(state.drawings, id, at);
}

proof fn lemma_line_place(drawings: Seq<DrawingModel>, id: u64, at: int)
    requires
        stands_at(drawings, id, at),
        drawings[at].geometry is HorizontalLine,
    ensures
        transitions::line_place(drawings, id) == at,
    decreases drawings.len(),
{
    if at > 0 {
        let rest = drawings.skip(1);
        assert(drawings[0].id != id);
        assert forall|i: int| 0 <= i < at - 1 implies (#[trigger] rest[i]).id != id by {
            assert(drawings[i + 1].id != id);
        }
        assert(rest[at - 1] == drawings[at]);
        lemma_line_place(rest, id, at - 1);
    }
}

/// A panel that is dragged moves from the second movement on, the toolbar or the list,
/// whichever was taken. Without a panel taken nothing moves.
pub proof fn dragged_panels_follow_the_pointer(
    state: StateModel,
    panel: FloatingPanel,
    pointer: ScreenPoint,
    place: ScreenPoint,
)
    ensures
        ({
            let taken = state.panel_taken(Some(panel));
            let first = taken.panel_dragged(pointer, place);
            let second = first.panel_dragged(pointer, place);
            &&& taken.controls.dragging_panel == Some(panel)
            &&& first.controls.toolbar_position == state.controls.toolbar_position
            &&& first.controls.drawing_list_position == state.controls.drawing_list_position
            &&& panel == FloatingPanel::DrawingList ==> second.controls.drawing_list_position
                == place && second.controls.toolbar_position == state.controls.toolbar_position
            &&& panel == FloatingPanel::Toolbar ==> second.controls.toolbar_position == place
                && second.controls.drawing_list_position
                == state.controls.drawing_list_position
            &&& state.panel_taken(None).panel_dragged(pointer, place) == state.panel_taken(None)
            &&& second.drawings == state.drawings
        }),
{
}

/// Leaving gives up what is being drawn or dragged; without anything to give up it gives up
/// the selection. The drawings stay.
pub proof fn leaving_gives_up_the_draft(state: StateModel)
    requires
        state.draft matches Some(draft) ==> !(draft is Text),
    ensures
        ({
            let after = state.cancelled();
            &&& after.draft is None
            &&& after.drawings == state.drawings
            &&& state.draft is Some ==> after.controls.selected == state.controls.selected
            &&& state.draft is None ==> after.controls.selected is None
                && !after.controls.settings_open
        }),
{
}

/// The vertical axis shows the prices of visible horizontal lines, the horizontal one the
/// positions of visible vertical ones, in the order of the drawings.
pub proof fn visible_lines_are_marked(drawings: Seq<DrawingModel>, decimals: nat)
    ensures
        listing::x_marks(drawings) == drawings.filter(
            |drawing: DrawingModel| drawing.visible && drawing.geometry is VerticalLine,
        ).map_values(
            |drawing: DrawingModel|
                (drawing.id, labels::x_text(drawing.geometry->VerticalLine_0)),
        ),
        listing::y_marks(drawings, decimals) == drawings.filter(
            |drawing: DrawingModel| drawing.visible && drawing.geometry is HorizontalLine,
        ).map_values(
            |drawing: DrawingModel|
                (drawing.id, labels::price_text(drawing.geometry->HorizontalLine_0, decimals)),
        ),
    decreases drawings.len(),
{
    reveal(Seq::filter);
    if drawings.len() > 0 {
        let front = drawings.drop_last();
        visible_lines_are_marked(front, decimals);
        let vertical = |drawing: DrawingModel|
            drawing.visible && drawing.geometry is VerticalLine;
        let horizontal = |drawing: DrawingModel|
            drawing.visible && drawing.geometry is HorizontalLine;
        let x_mark = |drawing: DrawingModel|
            (drawing.id, labels::x_text(drawing.geometry->VerticalLine_0));
        let y_mark = |drawing: DrawingModel|
            (drawing.id, labels::price_text(drawing.geometry->HorizontalLine_0, decimals));
        assert(listing::x_marks(drawings) =~= drawings.filter(vertical).map_values(x_mark));
        assert(listing::y_marks(drawings, decimals) =~= drawings.filter(horizontal).map_values(
            y_mark,
        ));
    } else {
        assert(listing::x_marks(drawings) =~= Seq::<LabelModel>::empty());
        assert(listing::y_marks(drawings, decimals) =~= Seq::<LabelModel>::empty());
    }
}

/// Exactly the visible drawings are painted, from bottom to top, and marked as selected where
/// they are.
pub proof fn visible_drawings_are_painted(model: StateModel, n: nat, mark: PaintedDrawing)
    requires
        n <= model.drawings.len() <= usize::MAX,
    ensures
        listing::painted(model, n).contains(mark) <==> {
            &&& mark.position < n
            &&& model.drawings[mark.position as int].visible
            &&& mark.selected == (model.controls.selected == Some(
                model.drawings[mark.position as int].id,
            ))
        },
        forall|a: int|
            0 <= a < listing::painted(model, n).len() ==> (#[trigger] listing::painted(
                model,
                n,
            )[a]).position < n,
        forall|a: int, b: int|
            0 <= a < b < listing::painted(model, n).len() ==> (#[trigger] listing::painted(
                model,
                n,
            )[a]).position < (#[trigger] listing::painted(model, n)[b]).position,
    decreases n,
{
    let all = listing::painted(model, n);
    if n > 0 {
        let before = (n - 1) as nat;
        visible_drawings_are_painted(model, before, mark);
        let head = listing::painted(model, before);
        if head.contains(mark) {
            let k = choose|k: int| 0 <= k < head.len() && head[k] == mark;
            assert(all[k] == mark);
        }
        if model.drawings[before as int].visible {
            assert(all[all.len() - 1].position == before);
        }
        if all.contains(mark) {
            let k = choose|k: int| 0 <= k < all.len() && all[k] == mark;
            if k < head.len() {
                assert(head[k] == mark);
            }
        }
    }
}

/// What a draft shows is what it becomes: the shape that the second press draws, the line and
/// the text as far as they are drawn. A profile shows its bounds, and a drawing that is moved
/// or resized nothing more.
pub proof fn drafts_show_what_they_become(
    draft: DraftModel,
    tool: DrawingTool,
    first: DrawingAnchor,
    second: DrawingAnchor,
    keys: Seq<u64>,
)
    ensures
        tool != DrawingTool::FixedRangeVolumeProfile ==> (listing::preview_of(
            DraftModel::TwoPoint(tool, first, second),
        ) matches PreviewModel::Shape(drawn, shape) && drawn == tool && Some(shape)
            == StateModel::completed(tool, first, second, keys)),
        listing::preview_of(DraftModel::TwoPoint(DrawingTool::Rectangle, first, second))
            == PreviewModel::Shape(
            DrawingTool::Rectangle,
            GeometryModel::Rectangle(first, second),
        ),
        listing::preview_of(DraftModel::TwoPoint(DrawingTool::TrendLine, first, second))
            == PreviewModel::Shape(
            DrawingTool::TrendLine,
            GeometryModel::TrendLine(first, second),
        ),
        listing::preview_of(DraftModel::TwoPoint(DrawingTool::Fibonacci, first, second))
            == PreviewModel::Shape(
            DrawingTool::Fibonacci,
            GeometryModel::Fibonacci(first, second),
        ),
        listing::preview_of(
            DraftModel::TwoPoint(DrawingTool::FixedRangeVolumeProfile, first, second),
        ) == (match (first.x, second.x) {
            (DrawingX::Time(from), DrawingX::Time(to)) => PreviewModel::Guides(from, to),
            _ => PreviewModel::Nothing,
        }),
        draft matches DraftModel::Freehand(points) ==> listing::preview_of(draft)
            == PreviewModel::Shape(DrawingTool::Pen, GeometryModel::Freehand(points)),
        draft matches DraftModel::Text(anchor, value) ==> listing::preview_of(draft)
            == PreviewModel::Shape(DrawingTool::Text, GeometryModel::Text(anchor, value)),
        draft is Moving || draft is Resizing ==> listing::preview_of(draft)
            == PreviewModel::Nothing,
{
}

/// A handle that is dragged ends up where it was dragged to, and one that is dragged to its own
/// place changes nothing. A rectangle has a handle at each corner, a line one at each end.
pub proof fn handles_follow_the_pointer(
    first: DrawingAnchor,
    second: DrawingAnchor,
    anchor: DrawingAnchor,
    handle: u8,
)
    ensures
        handle < 4 ==> {
            let shape = GeometryModel::Rectangle(first, second);
            &&& listing::handle_places(shape).len() == 4
            &&& listing::handle_places(shape.resized(anchor, handle))[handle as int] == anchor
            &&& shape.resized(listing::handle_places(shape)[handle as int], handle) == shape
        },
        handle < 2 ==> {
            let line = GeometryModel::TrendLine(first, second);
            let levels = GeometryModel::Fibonacci(first, second);
            &&& listing::handle_places(line).len() == 2
            &&& listing::handle_places(line.resized(anchor, handle))[handle as int] == anchor
            &&& line.resized(listing::handle_places(line)[handle as int], handle) == line
            &&& listing::handle_places(levels).len() == 2
            &&& listing::handle_places(levels.resized(anchor, handle))[handle as int] == anchor
            &&& levels.resized(listing::handle_places(levels)[handle as int], handle) == levels
        },
{
}

/// A freehand line has handles at its ends, a text at its place, and lines across the chart and
/// profiles have none.
pub proof fn handles_stand_on_their_shape(shape: GeometryModel)
    ensures
        shape matches GeometryModel::Freehand(points) ==> points.len() > 0 ==> {
            let places = listing::handle_places(shape);
            places.len() == 2 && places[0] == points.first() && places[1] == points.last()
        },
        shape matches GeometryModel::Text(anchor, _) ==> listing::handle_places(shape)
            == seq![anchor],
        shape is HorizontalLine || shape is VerticalLine || shape is FixedRangeVolumeProfile
            ==> listing::handle_places(shape).len() == 0,
{
}

} // verus!
