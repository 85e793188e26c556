//! What holds of the drawing tools whatever messages come.
use vstd::prelude::*;
use crate::chart::kline::drawing::geometry;
use crate::chart::kline::drawing::geometry::{DrawingAnchor, GeometryModel};
use crate::chart::kline::drawing::style::StyleChange;
use crate::chart::kline::drawing::transitions;
use crate::chart::kline::drawing::transitions::{
    DraftModel, DrawingMessage, DrawingModel, StateModel, MAX_FIXED_VOLUME_PROFILES,
};
use crate::units::{Bits32, Price};

verus! {

/// Ids are below the next one, and no two drawings share one.
pub open spec fn ids_are_distinct(drawings: Seq<DrawingModel>, next_id: u64) -> bool {
    &&& forall|i: int| 0 <= i < drawings.len() ==> (#[trigger] drawings[i]).id < next_id
    &&& forall|i: int, j: int|
        0 <= i < j < drawings.len() ==> (#[trigger] drawings[i]).id != (#[trigger] drawings[j]).id
}

/// The drawings with an id are of the kind of a shape.
pub open spec fn same_kind(drawings: Seq<DrawingModel>, id: u64, shape: GeometryModel) -> bool {
    forall|i: int|
        0 <= i < drawings.len() && (#[trigger] drawings[i]).id == id
            ==> drawings[i].geometry.tool() == shape.tool()
}

/// Distinct ids, and a draft that belongs to the drawing it moves or resizes.
pub open spec fn sound(state: StateModel) -> bool {
    &&& ids_are_distinct(state.drawings, state.controls.next_id)
    &&& match state.draft {
        Some(DraftModel::Moving(id, original, _)) => id < state.controls.next_id && same_kind(
            state.drawings,
            id,
            original,
        ),
        Some(DraftModel::Resizing(id, original, _, _, _)) => id < state.controls.next_id
            && same_kind(state.drawings, id, original),
        _ => true,
    }
}

proof fn lemma_place(drawings: Seq<DrawingModel>, id: u64)
    ensures
        0 <= transitions::place_of(drawings, id) <= drawings.len(),
        transitions::place_of(drawings, id) < drawings.len() ==> drawings[transitions::place_of(
            drawings,
            id,
        )].id == id,
    decreases drawings.len(),
{
    if drawings.len() > 0 && drawings[0].id != id {
        lemma_place(drawings.skip(1), id);
    }
}

proof fn lemma_line(drawings: Seq<DrawingModel>, id: u64)
    ensures
        0 <= transitions::line_place(drawings, id) <= drawings.len(),
        transitions::line_place(drawings, id) < drawings.len() ==> {
            let found = drawings[transitions::line_place(drawings, id)];
            found.id == id && found.geometry is HorizontalLine
        },
    decreases drawings.len(),
{
    if drawings.len() > 0 && !(drawings[0].id == id && drawings[0].geometry is HorizontalLine) {
        lemma_line(drawings.skip(1), id);
    }
}

proof fn lemma_without(drawings: Seq<DrawingModel>, id: u64, next_id: u64)
    requires
        ids_are_distinct(drawings, next_id),
    ensures
        ids_are_distinct(transitions::without_id(drawings, id), next_id),
        forall|i: int|
            0 <= i < transitions::without_id(drawings, id).len() ==> drawings.contains(
                #[trigger] transitions::without_id(drawings, id)[i],
            ) && transitions::without_id(drawings, id)[i].id != id,
        transitions::profile_count(transitions::without_id(drawings, id))
            <= transitions::profile_count(drawings),
    decreases drawings.len(),
{
    if drawings.len() > 0 {
        let front = drawings.drop_last();
        let last = drawings.last();
        assert forall|i: int, j: int| 0 <= i < j < front.len() implies (#[trigger] front[i]).id != (
        #[trigger] front[j]).id by {
            assert(drawings[i].id != drawings[j].id);
        }
        assert forall|i: int| 0 <= i < front.len() implies (#[trigger] front[i]).id < next_id by {
            assert(drawings[i].id < next_id);
        }
        lemma_without(front, id, next_id);
        let kept = transitions::without_id(front, id);
        let all = transitions::without_id(drawings, id);
        assert forall|i: int| 0 <= i < kept.len() implies drawings.contains(#[trigger] kept[i])
            && kept[i].id != last.id by {
            assert(front.contains(kept[i]));
            let k = choose|k: int| 0 <= k < front.len() && front[k] == kept[i];
            assert(drawings[k] == kept[i]);
            assert(drawings[drawings.len() - 1] == last);
        }
        if last.id != id {
            assert(all == kept.push(last));
            assert(all.drop_last() =~= kept);
            assert(drawings[drawings.len() - 1] == last);
            assert forall|i: int| 0 <= i < all.len() implies drawings.contains(#[trigger] all[i])
                && all[i].id != id && all[i].id < next_id by {
                if i < kept.len() {
                    assert(all[i] == kept[i]);
                } else {
                    assert(all[i] == last);
                }
            }
            assert forall|i: int, j: int| 0 <= i < j < all.len() implies (#[trigger] all[i]).id != (
            #[trigger] all[j]).id by {
                assert(all[i] == kept[i]);
                if j < kept.len() {
                    assert(all[j] == kept[j]);
                }
            }
        } else {
            assert(all == kept);
        }
    }
}

proof fn lemma_update_count(drawings: Seq<DrawingModel>, at: int, drawing: DrawingModel)
    requires
        0 <= at < drawings.len(),
        drawing.geometry.tool() == drawings[at].geometry.tool(),
    ensures
        transitions::profile_count(drawings.update(at, drawing)) == transitions::profile_count(
            drawings,
        ),
    decreases drawings.len(),
{
    let updated = drawings.update(at, drawing);
    if at == drawings.len() - 1 {
        assert(updated.drop_last() =~= drawings.drop_last());
    } else {
        lemma_update_count(drawings.drop_last(), at, drawing);
        assert(updated.drop_last() =~= drawings.drop_last().update(at, drawing));
        assert(updated.last() == drawings.last());
    }
}

proof fn lemma_same_count(drawings: Seq<DrawingModel>, other: Seq<DrawingModel>)
    requires
        drawings.len() == other.len(),
        forall|i: int|
            0 <= i < drawings.len() ==> (#[trigger] drawings[i]).geometry.tool()
                == other[i].geometry.tool(),
    ensures
        transitions::profile_count(drawings) == transitions::profile_count(other),
    decreases drawings.len(),
{
    if drawings.len() > 0 {
        assert forall|i: int| 0 <= i < drawings.drop_last().len() implies (
        #[trigger] drawings.drop_last()[i]).geometry.tool()
            == other.drop_last()[i].geometry.tool() by {
            assert(drawings[i].geometry.tool() == other[i].geometry.tool());
        }
        lemma_same_count(drawings.drop_last(), other.drop_last());
        assert(drawings[drawings.len() - 1].geometry.tool() == other[drawings.len()
            - 1].geometry.tool());
    }
}

/// What is kept: sound states, and the limit on volume profiles.
#[verifier::opaque]
pub open spec fn kept(before: StateModel, after: StateModel) -> bool {
    &&& sound(before) && before.controls.next_id < u64::MAX ==> sound(after)
    &&& sound(before) && transitions::profile_count(before.drawings) <= MAX_FIXED_VOLUME_PROFILES
        ==> transitions::profile_count(after.drawings) <= MAX_FIXED_VOLUME_PROFILES
}

proof fn lemma_committed(state: StateModel, shape: GeometryModel)
    ensures
        kept(state, state.committed(shape)),
{
    reveal(kept);
    let after = state.committed(shape);
    if after.drawings.len() > state.drawings.len() {
        assert(after.drawings.drop_last() =~= state.drawings);
        assert(after.drawings == state.drawings.push(after.drawings.last()));
        assert(after.drawings.last().geometry == shape);
    }
}

proof fn lemma_update_kept(state: StateModel, at: int, drawing: DrawingModel)
    requires
        0 <= at < state.drawings.len(),
        drawing.id == state.drawings[at].id,
        drawing.geometry.tool() == state.drawings[at].geometry.tool(),
    ensures
        kept(state, StateModel { drawings: state.drawings.update(at, drawing), ..state }),
{
    reveal(kept);
    let after = StateModel { drawings: state.drawings.update(at, drawing), ..state };
    lemma_update_count(state.drawings, at, drawing);
    if sound(state) {
        assert forall|i: int| 0 <= i < after.drawings.len() implies (
        #[trigger] after.drawings[i]).id == state.drawings[i].id
            && after.drawings[i].geometry.tool() == state.drawings[i].geometry.tool() by {}
        assert(ids_are_distinct(after.drawings, after.controls.next_id)) by {
            assert forall|i: int| 0 <= i < after.drawings.len() implies (
            #[trigger] after.drawings[i]).id < after.controls.next_id by {
                assert(state.drawings[i].id < state.controls.next_id);
            }
            assert forall|i: int, j: int| 0 <= i < j < after.drawings.len() implies (
            #[trigger] after.drawings[i]).id != (#[trigger] after.drawings[j]).id by {
                assert(state.drawings[i].id != state.drawings[j].id);
            }
        }
        match state.draft {
            Some(DraftModel::Moving(id, original, _)) => {
                assert forall|i: int|
                    0 <= i < after.drawings.len() && (#[trigger] after.drawings[i]).id
                        == id implies after.drawings[i].geometry.tool() == original.tool() by {
                    assert(state.drawings[i].id == id);
                }
            },
            Some(DraftModel::Resizing(id, original, _, _, _)) => {
                assert forall|i: int|
                    0 <= i < after.drawings.len() && (#[trigger] after.drawings[i]).id
                        == id implies after.drawings[i].geometry.tool() == original.tool() by {
                    assert(state.drawings[i].id == id);
                }
            },
            _ => {},
        }
    }
}

proof fn lemma_moved(
    state: StateModel,
    anchor: DrawingAnchor,
    text_scale: Bits32,
    keys: Seq<u64>,
)
    ensures
        kept(state, state.moved(anchor, text_scale, keys)),
{
    reveal(kept);
    if sound(state) {
        match state.draft {
            Some(DraftModel::Moving(id, original, start)) => {
                lemma_place(state.drawings, id);
                let at = transitions::place_of(state.drawings, id);
                if at < state.drawings.len() {
                    lemma_update_kept(
                        state,
                        at,
                        state.drawings[at].with_geometry(original.translated(start, anchor)),
                    );
                }
            },
            Some(DraftModel::Resizing(id, original, _, handle, _)) => {
                lemma_place(state.drawings, id);
                let at = transitions::place_of(state.drawings, id);
                if at < state.drawings.len() {
                    let resized = state.drawings[at].with_geometry(
                        original.resized(anchor, handle),
                    );
                    lemma_update_kept(state, at, resized);
                    lemma_update_kept(state, at, resized.with_text_scale(text_scale));
                }
            },
            _ => {},
        }
    }
}

proof fn lemma_move_finished(state: StateModel, keys: Seq<u64>)
    ensures
        kept(state, state.move_finished(keys)),
{
    reveal(kept);
    let after = state.move_finished(keys);
    assert(after.drawings.len() == state.drawings.len());
    assert forall|i: int| 0 <= i < state.drawings.len() implies (
    #[trigger] state.drawings[i]).geometry.tool() == after.drawings[i].geometry.tool()
        && state.drawings[i].id == after.drawings[i].id by {}
    lemma_same_count(state.drawings, after.drawings);
    if sound(state) {
        assert forall|i: int, j: int| 0 <= i < j < after.drawings.len() implies (
        #[trigger] after.drawings[i]).id != (#[trigger] after.drawings[j]).id by {
            assert(state.drawings[i].id != state.drawings[j].id);
        }
        assert forall|i: int| 0 <= i < after.drawings.len() implies (
        #[trigger] after.drawings[i]).id < after.controls.next_id by {
            assert(state.drawings[i].id < state.controls.next_id);
        }
    }
}

proof fn lemma_deleted(state: StateModel, id: u64)
    ensures
        kept(state, state.deleted(id)),
{
    reveal(kept);
    if sound(state) {
        let left = transitions::without_id(state.drawings, id);
        lemma_without(state.drawings, id, state.controls.next_id);
        match state.draft {
            Some(DraftModel::Moving(moved, original, _)) => {
                assert(same_kind(left, moved, original)) by {
                    assert forall|i: int|
                        0 <= i < left.len() && (#[trigger] left[i]).id
                            == moved implies left[i].geometry.tool() == original.tool() by {
                        assert(state.drawings.contains(left[i]));
                    }
                }
            },
            Some(DraftModel::Resizing(moved, original, _, _, _)) => {
                assert(same_kind(left, moved, original)) by {
                    assert forall|i: int|
                        0 <= i < left.len() && (#[trigger] left[i]).id
                            == moved implies left[i].geometry.tool() == original.tool() by {
                        assert(state.drawings.contains(left[i]));
                    }
                }
            },
            _ => {},
        }
    }
}

proof fn lemma_selected_deleted(state: StateModel)
    ensures
        kept(state, state.selected_deleted()),
{
    reveal(kept);
    if let Some(id) = state.controls.selected {
        lemma_deleted(state, id);
    }
}

proof fn lemma_taken_up(
    state: StateModel,
    start: Option<DrawingAnchor>,
    screen: transitions::ScreenPoint,
    handle: u8,
)
    ensures
        kept(state, state.taken_up(start, screen, handle)),
{
    reveal(kept);
    if let Some(id) = state.controls.selected {
        lemma_place(state.drawings, id);
        let at = transitions::place_of(state.drawings, id);
        if sound(state) && at < state.drawings.len() {
            let shape = state.drawings[at].geometry;
            assert forall|i: int|
                0 <= i < state.drawings.len() && (#[trigger] state.drawings[i]).id
                    == id implies state.drawings[i].geometry.tool() == shape.tool() by {
                if i < at {
                    assert(state.drawings[i].id != state.drawings[at].id);
                } else if at < i {
                    assert(state.drawings[at].id != state.drawings[i].id);
                }
            }
        }
    }
}

proof fn lemma_finished(state: StateModel, shape: GeometryModel)
    ensures
        kept(state, state.with_draft(None).committed(shape)),
{
    reveal(kept);
    lemma_committed(state.with_draft(None), shape);
}

proof fn lemma_pressed(
    state: StateModel,
    anchor: DrawingAnchor,
    screen: transitions::ScreenPoint,
    keys: Seq<u64>,
)
    ensures
        kept(state, state.pressed(anchor, screen, keys).state),
{
    reveal(kept);
    lemma_committed(state, GeometryModel::HorizontalLine(anchor.price));
    lemma_committed(state, GeometryModel::VerticalLine(anchor.x));
    if let Some(DraftModel::TwoPoint(tool, first, _)) = state.draft {
        let time = transitions::profile_time(keys, anchor.x);
        let tied = DrawingAnchor { x: geometry::DrawingX::Time(time->0), ..anchor };
        if let Some(shape) = StateModel::completed(tool, first, anchor, keys) {
            lemma_finished(state, shape);
        }
        if let Some(shape) = StateModel::completed(tool, first, tied, keys) {
            lemma_finished(state, shape);
        }
    }
}

proof fn lemma_price_committed(state: StateModel, price: Price, decimals: nat)
    ensures
        kept(state, state.price_committed(price, decimals)),
{
    reveal(kept);
    if let Some(id) = state.controls.selected {
        lemma_line(state.drawings, id);
        let at = transitions::line_place(state.drawings, id);
        if at < state.drawings.len() {
            lemma_update_kept(
                state,
                at,
                state.drawings[at].with_geometry(GeometryModel::HorizontalLine(price)),
            );
        }
    }
}

proof fn lemma_restyled(state: StateModel, change: StyleChange)
    ensures
        kept(state, state.restyled(change)),
{
    reveal(kept);
    if let Some(id) = state.controls.selected {
        lemma_place(state.drawings, id);
        let at = transitions::place_of(state.drawings, id);
        if at < state.drawings.len() {
            lemma_update_kept(state, at, state.restyled(change).drawings[at]);
        }
    }
}

proof fn lemma_visibility_toggled(state: StateModel, id: u64)
    ensures
        kept(state, state.visibility_toggled(id)),
{
    reveal(kept);
    lemma_place(state.drawings, id);
    let at = transitions::place_of(state.drawings, id);
    if at < state.drawings.len() {
        lemma_update_kept(state, at, state.visibility_toggled(id).drawings[at]);
    }
}

/// Messages that leave the drawings and their ids alone and begin no draft.
proof fn lemma_untouched(state: StateModel, after: StateModel)
    requires
        after.drawings == state.drawings || after.drawings.len() == 0,
        after.controls.next_id == state.controls.next_id,
        after.draft == state.draft || !(after.draft is Some && (after.draft->0 is Moving
            || after.draft->0 is Resizing)),
    ensures
        kept(state, after),
{
    reveal(kept);
}

proof fn lemma_text_done(state: StateModel)
    ensures
        kept(state, state.cancelled()),
        kept(state, state.text_committed()),
        kept(state, state.released()),
{
    reveal(kept);
    match state.draft {
        Some(DraftModel::Text(anchor, value)) => {
            lemma_finished(state, GeometryModel::Text(anchor, value));
        },
        Some(DraftModel::Freehand(points)) => {
            lemma_finished(state, GeometryModel::Freehand(points));
        },
        _ => {},
    }
}

/// The messages that add, change or remove drawings or take one up.
spec fn touches(message: DrawingMessage) -> bool {
    match message {
        DrawingMessage::PointerPressed(_, _) => true,
        DrawingMessage::PointerMoved(_, _) => true,
        DrawingMessage::PointerReleased => true,
        DrawingMessage::MoveStarted(_) => true,
        DrawingMessage::ResizeStarted(_, _) => true,
        DrawingMessage::MoveFinished => true,
        DrawingMessage::CancelOrCommit => true,
        DrawingMessage::TextCommitted => true,
        DrawingMessage::CommitHorizontalLinePrice(_) => true,
        DrawingMessage::DeleteSelected => true,
        DrawingMessage::DeleteDrawing(_) => true,
        DrawingMessage::ChangeStyle(_) => true,
        DrawingMessage::ToggleDrawingVisibility(_) => true,
        _ => false,
    }
}

proof fn lemma_quiet_step(
    state: StateModel,
    message: DrawingMessage,
    keys: Seq<u64>,
    decimals: nat,
)
    requires
        !touches(message),
    ensures
        kept(state, state.step(message, keys, decimals).state),
{
    lemma_untouched(state, state.step(message, keys, decimals).state);
}

proof fn lemma_step(state: StateModel, message: DrawingMessage, keys: Seq<u64>, decimals: nat)
    ensures
        kept(state, state.step(message, keys, decimals).state),
{
    match message {
        DrawingMessage::PointerPressed(anchor, screen) => {
            lemma_pressed(state, anchor, screen, keys);
        },
        DrawingMessage::PointerMoved(anchor, text_scale) => {
            lemma_moved(state, anchor, text_scale, keys);
        },
        DrawingMessage::PointerReleased => {
            lemma_text_done(state);
        },
        DrawingMessage::MoveStarted(anchor) => {
            lemma_taken_up(
                state,
                Some(anchor),
                transitions::ScreenPoint { x: Bits32 { bits: 0 }, y: Bits32 { bits: 0 } },
                0,
            );
        },
        DrawingMessage::ResizeStarted(screen, handle) => {
            lemma_taken_up(state, None, screen, handle);
        },
        DrawingMessage::MoveFinished => {
            lemma_move_finished(state, keys);
        },
        DrawingMessage::CancelOrCommit => {
            lemma_text_done(state);
        },
        DrawingMessage::TextCommitted => {
            lemma_text_done(state);
        },
        DrawingMessage::CommitHorizontalLinePrice(entered) => {
            if let Some(price) = entered {
                lemma_price_committed(state, price, decimals);
            }
            lemma_untouched(state, state);
        },
        DrawingMessage::DeleteSelected => {
            lemma_selected_deleted(state);
        },
        DrawingMessage::DeleteDrawing(id) => {
            lemma_deleted(state, id);
        },
        DrawingMessage::ChangeStyle(change) => {
            lemma_restyled(state, change);
        },
        DrawingMessage::ToggleDrawingVisibility(id) => {
            lemma_visibility_toggled(state, id);
        },
        _ => {
            lemma_quiet_step(state, message, keys, decimals);
        },
    }
}

/// No message makes two drawings share an id, as long as there are ids left, and none
/// brings the volume profiles beyond their limit.
pub proof fn every_message_keeps_the_state_sound(
    state: StateModel,
    message: DrawingMessage,
    keys: Seq<u64>,
    decimals: nat,
)
    requires
        sound(state),
    ensures
        state.controls.next_id < u64::MAX ==> sound(state.step(message, keys, decimals).state),
        transitions::profile_count(state.drawings) <= MAX_FIXED_VOLUME_PROFILES
            ==> transitions::profile_count(state.step(message, keys, decimals).state.drawings)
            <= MAX_FIXED_VOLUME_PROFILES,
{
    lemma_step(state, message, keys, decimals);
    reveal(kept);
}

/// A drawing that has been deleted is gone, and all others stay.
pub proof fn deleting_removes_exactly_one_drawing(state: StateModel, id: u64, other: DrawingModel)
    ensures
        state.deleted(id).drawings.contains(other) <==> state.drawings.contains(other) && other.id
            != id,
{
    lemma_without_contains(state.drawings, id, other);
}

proof fn lemma_without_contains(drawings: Seq<DrawingModel>, id: u64, other: DrawingModel)
    ensures
        transitions::without_id(drawings, id).contains(other) <==> drawings.contains(other)
            && other.id != id,
    decreases drawings.len(),
{
    let all = transitions::without_id(drawings, id);
    if drawings.len() > 0 {
        let front = drawings.drop_last();
        let last = drawings.last();
        lemma_without_contains(front, id, other);
        let kept = transitions::without_id(front, id);
        assert(drawings.contains(other) <==> front.contains(other) || other == last) by {
            assert(drawings == front.push(last));
            if front.contains(other) {
                let k = choose|k: int| 0 <= k < front.len() && front[k] == other;
                assert(drawings[k] == other);
            }
            if other == last {
                assert(drawings[drawings.len() - 1] == other);
            }
            if drawings.contains(other) {
                let k = choose|k: int| 0 <= k < drawings.len() && drawings[k] == other;
                if k < front.len() {
                    assert(front[k] == other);
                }
            }
        }
        if last.id != id {
            assert(all == kept.push(last));
            if kept.contains(other) {
                let k = choose|k: int| 0 <= k < kept.len() && kept[k] == other;
                assert(all[k] == other);
            }
            if other == last {
                assert(all[all.len() - 1] == other);
            }
            if all.contains(other) {
                let k = choose|k: int| 0 <= k < all.len() && all[k] == other;
                if k < kept.len() {
                    assert(kept[k] == other);
                }
            }
        }
    }
}

/// Two presses of a two-point tool other than the volume profile leave one drawing more,
/// which is selected.
pub proof fn two_presses_make_a_drawing(
    state: StateModel,
    first: DrawingAnchor,
    second: DrawingAnchor,
    keys: Seq<u64>,
)
    requires
        state.draft is None,
        state.controls.active_tool == geometry::DrawingTool::Rectangle
            || state.controls.active_tool == geometry::DrawingTool::Fibonacci
            || state.controls.active_tool == geometry::DrawingTool::TrendLine,
    ensures
        ({
            let after = state.pressed_two_point(first, keys).state.pressed_two_point(
                second,
                keys,
            ).state;
            &&& after.drawings.len() == state.drawings.len() + 1
            &&& after.drawings.last().geometry.tool() == state.controls.active_tool
            &&& after.controls.selected == Some(after.drawings.last().id)
            &&& after.draft is None
        }),
{
}

} // verus!
