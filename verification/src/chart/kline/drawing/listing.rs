//! Which drawings are painted, marked on the axes and listed, and what a draft shows.
use vstd::prelude::*;
use crate::chart::kline::drawing::geometry::{
    copy_points, DrawingAnchor, DrawingGeometry, DrawingTool, DrawingX, GeometryModel,
};
use crate::chart::kline::drawing::labels;
use crate::chart::kline::drawing::labels::{list_entry, price_label, x_label};
use crate::chart::kline::drawing::state::DrawingState;
use crate::chart::kline::drawing::transitions::{Draft, DraftModel, DrawingModel, StateModel};
use crate::units::UnixMs;

verus! {

/// A text that belongs to a drawing.
#[derive(Debug)]
pub struct DrawingLabel {
    pub id: u64,
    pub content: String,
}

/// A text of a drawing with its id.
pub type LabelModel = (u64, Seq<char>);

pub open spec fn label_models(labels: Seq<DrawingLabel>) -> Seq<LabelModel> {
    labels.map_values(|label: DrawingLabel| (label.id, label.content@))
}

/// The labels of vertical lines, on the horizontal axis.
pub open spec fn x_marks(drawings: Seq<DrawingModel>) -> Seq<LabelModel>
    decreases drawings.len(),
{
    if drawings.len() == 0 {
        Seq::empty()
    } else {
        let head = x_marks(drawings.drop_last());
        let last = drawings.last();
        match last.geometry {
            GeometryModel::VerticalLine(x) => if last.visible {
                head.push((last.id, labels::x_text(x)))
            } else {
                head
            },
            _ => head,
        }
    }
}

/// The labels of horizontal lines, on the vertical axis.
pub open spec fn y_marks(drawings: Seq<DrawingModel>, decimals: nat) -> Seq<LabelModel>
    decreases drawings.len(),
{
    if drawings.len() == 0 {
        Seq::empty()
    } else {
        let head = y_marks(drawings.drop_last(), decimals);
        let last = drawings.last();
        match last.geometry {
            GeometryModel::HorizontalLine(price) => if last.visible {
                head.push((last.id, labels::price_text(price, decimals)))
            } else {
                head
            },
            _ => head,
        }
    }
}

/// A drawing that is painted, and whether it is the selected one.
#[derive(Clone, Copy, Debug, PartialEq, Eq, Structural)]
pub struct PaintedDrawing {
    pub position: usize,
    pub selected: bool,
}

/// The visible ones among the first `n` drawings, from bottom to top.
pub open spec fn painted(model: StateModel, n: nat) -> Seq<PaintedDrawing>
    decreases n,
{
    if n == 0 {
        Seq::empty()
    } else {
        let at = (n - 1) as nat;
        let head = painted(model, at);
        if model.drawings[at as int].visible {
            head.push(
                PaintedDrawing {
                    position: at as usize,
                    selected: model.controls.selected == Some(model.drawings[at as int].id),
                },
            )
        } else {
            head
        }
    }
}

/// A row in the list of drawings.
#[derive(Debug)]
pub struct ListRow {
    pub id: u64,
    pub title: String,
    pub visible: bool,
}

impl ListRow {
    /// The row belongs to the drawing.
    pub open spec fn shows(self, drawing: DrawingModel, decimals: nat) -> bool {
        &&& self.id == drawing.id
        &&& self.visible == drawing.visible
        &&& self.title@ == labels::shortened(
            drawing.geometry.name() + " - "@ + drawing.geometry.position(decimals),
            24,
        )
    }
}

impl DrawingState {
    /// The labels on the horizontal and on the vertical axis; none while the drawings are
    /// hidden.
    pub fn axis_drawing_labels(&self, decimals: usize) -> (r: (
        Vec<DrawingLabel>,
        Vec<DrawingLabel>,
    ))
        ensures
            label_models(r.0@) == if self@.controls.visible {
                x_marks(self@.drawings)
            } else {
                Seq::empty()
            },
            label_models(r.1@) == if self@.controls.visible {
                y_marks(self@.drawings, decimals as nat)
            } else {
                Seq::empty()
            },
    {
        let mut x_labels: Vec<DrawingLabel> = Vec::new();
        let mut y_labels: Vec<DrawingLabel> = Vec::new();
        assert(label_models(x_labels@) =~= Seq::empty());
        assert(label_models(y_labels@) =~= Seq::empty());
        if !self.controls.visible {
            return (x_labels, y_labels);
        }
        let mut i: usize = 0;
        assert(self@.drawings.take(0) =~= Seq::empty());
        while i < self.drawings.len()
            invariant
                i <= self.drawings@.len(),
                self@.drawings.len() == self.drawings@.len(),
                label_models(x_labels@) == x_marks(self@.drawings.take(i as int)),
                label_models(y_labels@) == y_marks(
                    self@.drawings.take(i as int),
                    decimals as nat,
                ),
            decreases self.drawings@.len() - i,
        {
            let ghost x_before = x_labels@;
            let ghost y_before = y_labels@;
            proof {
                let taken = self@.drawings.take(i + 1);
                assert(taken.drop_last() =~= self@.drawings.take(i as int));
                assert(taken.last() == self.drawings@[i as int]@);
            }
            let drawing = &self.drawings[i];
            if drawing.visible {
                match &drawing.geometry {
                    DrawingGeometry::HorizontalLine { price } => {
                        let label = DrawingLabel {
                            id: drawing.id,
                            content: price_label(*price, decimals),
                        };
                        y_labels.push(label);
                        assert(label_models(y_labels@) =~= label_models(y_before).push(
                            (label.id, label.content@),
                        ));
                    },
                    DrawingGeometry::VerticalLine { x } => {
                        let label = DrawingLabel { id: drawing.id, content: x_label(*x) };
                        x_labels.push(label);
                        assert(label_models(x_labels@) =~= label_models(x_before).push(
                            (label.id, label.content@),
                        ));
                    },
                    _ => {},
                }
            }
            i = i + 1;
        }
        assert(self@.drawings.take(self@.drawings.len() as int) =~= self@.drawings);
        (x_labels, y_labels)
    }

    /// The drawings to paint, from bottom to top; none while the drawings are hidden.
    pub fn draw_drawings(&self) -> (r: Vec<PaintedDrawing>)
        ensures
            r@ == if self@.controls.visible {
                painted(self@, self@.drawings.len())
            } else {
                Seq::empty()
            },
    {
        let mut r: Vec<PaintedDrawing> = Vec::new();
        if !self.controls.visible {
            return r;
        }
        let mut i: usize = 0;
        while i < self.drawings.len()
            invariant
                i <= self.drawings@.len(),
                self@.drawings.len() == self.drawings@.len(),
                r@ == painted(self@, i as nat),
            decreases self.drawings@.len() - i,
        {
            assert(self@.drawings[i as int] == self.drawings@[i as int]@);
            if self.drawings[i].visible {
                let selected: bool = match self.controls.selected {
                    Some(id) => id == self.drawings[i].id,
                    None => false,
                };
                r.push(PaintedDrawing { position: i, selected });
            }
            i = i + 1;
        }
        r
    }

    /// The rows of the list of drawings, one for each drawing.
    pub fn drawing_list(&self, decimals: usize) -> (r: Vec<ListRow>)
        ensures
            r@.len() == self@.drawings.len(),
            forall|i: int|
                0 <= i < r@.len() ==> (#[trigger] r@[i]).shows(
                    self@.drawings[i],
                    decimals as nat,
                ),
    {
        let mut r: Vec<ListRow> = Vec::new();
        for i in 0..self.drawings.len()
            invariant
                r@.len() == i,
                self@.drawings.len() == self.drawings@.len(),
                forall|k: int|
                    0 <= k < i ==> (#[trigger] r@[k]).shows(
                        self@.drawings[k],
                        decimals as nat,
                    ),
        {
            let drawing = &self.drawings[i];
            assert(self@.drawings[i as int] == drawing@);
            let row = ListRow {
                id: drawing.id,
                title: list_entry(&drawing.geometry, decimals),
                visible: drawing.visible,
            };
            r.push(row);
        }
        r
    }
}

/// What a draft shows on the chart.
#[derive(Debug)]
pub enum DraftPreview {
    Nothing,
    /// A shape in the style of the tool.
    Shape(DrawingTool, DrawingGeometry),
    /// The bounds of a range of time.
    Guides(UnixMs, UnixMs),
}

/// The contents of a preview.
#[verifier::ext_equal]
pub enum PreviewModel {
    Nothing,
    Shape(DrawingTool, GeometryModel),
    Guides(UnixMs, UnixMs),
}

impl View for DraftPreview {
    type V = PreviewModel;

    open spec fn view(&self) -> PreviewModel {
        match self {
            DraftPreview::Nothing => PreviewModel::Nothing,
            DraftPreview::Shape(tool, geometry) => PreviewModel::Shape(*tool, geometry@),
            DraftPreview::Guides(first, second) => PreviewModel::Guides(*first, *second),
        }
    }
}

/// What a draft shows: a shape between two points, a range of time by its bounds, a line or
/// a text as far as it is drawn, and nothing while a drawing is moved or resized.
pub open spec fn preview_of(draft: DraftModel) -> PreviewModel {
    match draft {
        DraftModel::TwoPoint(tool, first, preview) => match tool {
            DrawingTool::FixedRangeVolumeProfile => match (first.x, preview.x) {
                (DrawingX::Time(from), DrawingX::Time(to)) => PreviewModel::Guides(from, to),
                _ => PreviewModel::Nothing,
            },
            DrawingTool::Rectangle => PreviewModel::Shape(
                tool,
                GeometryModel::Rectangle(first, preview),
            ),
            DrawingTool::Fibonacci => PreviewModel::Shape(
                tool,
                GeometryModel::Fibonacci(first, preview),
            ),
            _ => PreviewModel::Shape(tool, GeometryModel::TrendLine(first, preview)),
        },
        DraftModel::Freehand(points) => PreviewModel::Shape(
            DrawingTool::Pen,
            GeometryModel::Freehand(points),
        ),
        DraftModel::Text(anchor, value) => PreviewModel::Shape(
            DrawingTool::Text,
            GeometryModel::Text(anchor, value),
        ),
        _ => PreviewModel::Nothing,
    }
}

/// What a draft shows on the chart.
pub fn draw_draft(draft: &Draft) -> (r: DraftPreview)
    ensures
        r@ == preview_of(draft@),
{
    match draft {
        Draft::TwoPoint { tool, first, preview } => match tool {
            DrawingTool::FixedRangeVolumeProfile => match (first.x, preview.x) {
                (DrawingX::Time(from), DrawingX::Time(to)) => DraftPreview::Guides(from, to),
                _ => DraftPreview::Nothing,
            },
            DrawingTool::Rectangle => DraftPreview::Shape(
                *tool,
                DrawingGeometry::Rectangle { first: *first, second: *preview },
            ),
            DrawingTool::Fibonacci => DraftPreview::Shape(
                *tool,
                DrawingGeometry::Fibonacci { first: *first, second: *preview },
            ),
            _ => DraftPreview::Shape(
                *tool,
                DrawingGeometry::TrendLine { first: *first, second: *preview },
            ),
        },
        Draft::Freehand { points } => DraftPreview::Shape(
            DrawingTool::Pen,
            DrawingGeometry::Freehand { points: copy_points(points) },
        ),
        Draft::Text { anchor, value } => DraftPreview::Shape(
            DrawingTool::Text,
            DrawingGeometry::Text { anchor: *anchor, content: value.as_str().to_owned() },
        ),
        Draft::Moving { .. } => DraftPreview::Nothing,
        Draft::Resizing { .. } => DraftPreview::Nothing,
    }
}

/// The places on the chart at which a shape has handles.
pub open spec fn handle_places(geometry: GeometryModel) -> Seq<DrawingAnchor> {
    match geometry {
        GeometryModel::Rectangle(first, second) => seq![
            first,
            DrawingAnchor { x: second.x, price: first.price },
            DrawingAnchor { x: first.x, price: second.price },
            second,
        ],
        GeometryModel::Fibonacci(first, second) => seq![first, second],
        GeometryModel::TrendLine(first, second) => seq![first, second],
        GeometryModel::Text(anchor, _) => seq![anchor],
        GeometryModel::Freehand(points) => if points.len() == 0 {
            Seq::empty()
        } else {
            seq![points[0], points[points.len() - 1]]
        },
        _ => Seq::empty(),
    }
}

/// The places on the chart at which a shape has handles: the corners of a rectangle, the
/// ends of a line, the origin of a text. The bounds of a range of time have none of their
/// own, they are taken hold of along their whole height.
pub fn drawing_handles(geometry: &DrawingGeometry) -> (r: Vec<DrawingAnchor>)
    ensures
        r@ == handle_places(geometry@),
{
    let mut r: Vec<DrawingAnchor> = Vec::new();
    match geometry {
        DrawingGeometry::Rectangle { first, second } => {
            r.push(*first);
            r.push(DrawingAnchor { x: second.x, price: first.price });
            r.push(DrawingAnchor { x: first.x, price: second.price });
            r.push(*second);
        },
        DrawingGeometry::Fibonacci { first, second } => {
            r.push(*first);
            r.push(*second);
        },
        DrawingGeometry::TrendLine { first, second } => {
            r.push(*first);
            r.push(*second);
        },
        DrawingGeometry::Text { anchor, .. } => {
            r.push(*anchor);
        },
        DrawingGeometry::Freehand { points } => {
            if points.len() > 0 {
                r.push(points[0]);
                r.push(points[points.len() - 1]);
            }
        },
        _ => {},
    }
    assert(r@ =~= handle_places(geometry@));
    r
}

proof fn lemma_painted(model: StateModel, n: nat)
    requires
        n <= model.drawings.len(),
        model.drawings.len() <= usize::MAX,
    ensures
        forall|k: int|
            0 <= k < painted(model, n).len() ==> (#[trigger] painted(model, n)[k]).position < n
                && model.drawings[painted(model, n)[k].position as int].visible
                && painted(model, n)[k].selected == (model.controls.selected == Some(
                model.drawings[painted(model, n)[k].position as int].id,
            )),
        forall|i: int, j: int|
            0 <= i < j < painted(model, n).len() ==> (#[trigger] painted(model, n)[i]).position < (
            #[trigger] painted(model, n)[j]).position,
    decreases n,
{
    if n > 0 {
        lemma_painted(model, (n - 1) as nat);
        let head = painted(model, (n - 1) as nat);
        let all = painted(model, n);
        assert forall|k: int| 0 <= k < all.len() implies (#[trigger] all[k]).position < n
            && model.drawings[all[k].position as int].visible && all[k].selected == (
        model.controls.selected == Some(model.drawings[all[k].position as int].id)) by {
            if k < head.len() {
                assert(all[k] == head[k]);
            }
        }
        assert forall|i: int, j: int| 0 <= i < j < all.len() implies (#[trigger] all[i]).position
            < (#[trigger] all[j]).position by {
            assert(all[i] == head[i]);
            if j < head.len() {
                assert(all[j] == head[j]);
            }
        }
    }
}

/// At most one drawing is painted as selected when no two drawings share an id, and a
/// hidden drawing is never painted.
pub proof fn one_drawing_is_painted_as_selected(model: StateModel, a: int, b: int)
    requires
        model.drawings.len() <= usize::MAX,
        forall|i: int, j: int|
            0 <= i < j < model.drawings.len() ==> (#[trigger] model.drawings[i]).id != (
            #[trigger] model.drawings[j]).id,
        0 <= a < painted(model, model.drawings.len()).len(),
        0 <= b < painted(model, model.drawings.len()).len(),
        painted(model, model.drawings.len())[a].selected,
        painted(model, model.drawings.len())[b].selected,
    ensures
        a == b,
        model.drawings[painted(model, model.drawings.len())[a].position as int].visible,
{
    let all = painted(model, model.drawings.len());
    lemma_painted(model, model.drawings.len());
    let i = all[a].position as int;
    let j = all[b].position as int;
    assert(model.drawings[i].id == model.drawings[j].id);
    if a < b {
        assert(all[a].position < all[b].position);
    } else if b < a {
        assert(all[b].position < all[a].position);
    }
}

} // verus!
