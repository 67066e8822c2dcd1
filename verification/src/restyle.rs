use vstd::prelude::*;

use crate::element::{element_eq, ElementView, FillView, PaintElement, ShapeElement, StrokeView};
use crate::model::{RgbaColor, Scalar};
use crate::ui::set_alpha_percent;

verus! {

/// A change of the style of shapes.
#[derive(Debug, Clone, Copy, PartialEq, Eq)]
pub enum ShapeEdit {
    StrokeColor(RgbaColor),
    Fill(Option<RgbaColor>),
    Width(Scalar),
}

/// A change of the style of freehand strokes.
#[derive(Debug, Clone, Copy, PartialEq, Eq)]
pub enum StrokeEdit {
    Color(RgbaColor),
    /// Each stroke keeps its color with the opacity set to this percentage.
    Opacity(u8),
    Width(Scalar),
}

/// A change of the color of bucket fills.
#[derive(Debug, Clone, Copy, PartialEq, Eq)]
pub enum FillEdit {
    Color(RgbaColor),
    /// Each fill keeps its color with the opacity set to this percentage.
    Opacity(u8),
}

/// A style change aimed at one kind of element; elements of other kinds are left alone.
#[derive(Debug, Clone, Copy, PartialEq, Eq)]
pub enum StyleEdit {
    Shape(ShapeEdit),
    Stroke(StrokeEdit),
    Fill(FillEdit),
}

/// `c` with its opacity set to `percent` percent, as `set_alpha_percent` does.
pub open spec fn opacity_set(c: RgbaColor, percent: u8) -> RgbaColor {
    let scaled = (255 * percent as int + 50) / 100;
    RgbaColor {
        a: if scaled > 255 {
            255u8
        } else {
            scaled as u8
        },
        ..c
    }
}

pub open spec fn shape_edited(s: ShapeElement, e: ShapeEdit) -> ShapeElement {
    match e {
        ShapeEdit::StrokeColor(c) => ShapeElement { color: c, ..s },
        ShapeEdit::Fill(f) => ShapeElement {
            fill_color: if s.kind.spec_supports_fill() {
                f
            } else {
                None
            },
            ..s
        },
        ShapeEdit::Width(w) => ShapeElement { width: w, ..s },
    }
}

pub open spec fn stroke_edited(s: StrokeView, e: StrokeEdit) -> StrokeView {
    match e {
        StrokeEdit::Color(c) => StrokeView { color: c, ..s },
        StrokeEdit::Opacity(p) => StrokeView { color: opacity_set(s.color, p), ..s },
        StrokeEdit::Width(w) => StrokeView { width: w, ..s },
    }
}

pub open spec fn fill_edited(f: FillView, e: FillEdit) -> FillView {
    match e {
        FillEdit::Color(c) => FillView { color: c, ..f },
        FillEdit::Opacity(p) => FillView { color: opacity_set(f.color, p), ..f },
    }
}

/// The element with the edit applied, when it is of the kind the edit is for.
pub open spec fn restyled(e: ElementView, edit: StyleEdit) -> Option<ElementView> {
    match (edit, e) {
        (StyleEdit::Shape(x), ElementView::Shape(s)) => Some(ElementView::Shape(shape_edited(s, x))),
        (StyleEdit::Stroke(x), ElementView::Stroke(s)) => Some(
            ElementView::Stroke(stroke_edited(s, x)),
        ),
        (StyleEdit::Fill(x), ElementView::Fill(f)) => Some(ElementView::Fill(fill_edited(f, x))),
        _ => None,
    }
}

/// The edit reaches `e` and gives an element that is not `==` to it.
pub open spec fn restyle_changes(e: ElementView, edit: StyleEdit) -> bool {
    restyled(e, edit) matches Some(x) && !element_eq(x, e)
}

/// The elements after the edit: each selected element the edit changes takes its new
/// style; the others stay as they are.
pub open spec fn restyled_elements(es: Seq<ElementView>, sel: Seq<usize>, edit: StyleEdit) -> Seq<
    ElementView,
> {
    Seq::new(
        es.len(),
        |p: int|
            if sel.contains(p as usize) && restyle_changes(es[p], edit) {
                restyled(es[p], edit)->Some_0
            } else {
                es[p]
            },
    )
}

/// How many entries of `sel` name an element the edit changes.
pub open spec fn restyle_count(es: Seq<ElementView>, sel: Seq<usize>, edit: StyleEdit) -> nat
    decreases sel.len(),
{
    if sel.len() == 0 {
        0
    } else {
        restyle_count(es, sel.drop_last(), edit) + if sel.last() < es.len() && restyle_changes(
            es[sel.last() as int],
            edit,
        ) {
            1nat
        } else {
            0nat
        }
    }
}

pub proof fn lemma_restyle_count_bounded(es: Seq<ElementView>, sel: Seq<usize>, edit: StyleEdit)
    ensures
        restyle_count(es, sel, edit) <= sel.len(),
    decreases sel.len(),
{
    if sel.len() > 0 {
        lemma_restyle_count_bounded(es, sel.drop_last(), edit);
    }
}

/// The shape with the edit applied.
pub fn edited_shape(shape: ShapeElement, edit: ShapeEdit) -> (r: ShapeElement)
    ensures
        r == shape_edited(shape, edit),
{
    match edit {
        ShapeEdit::StrokeColor(c) => ShapeElement { color: c, ..shape },
        ShapeEdit::Fill(f) => shape.with_fill_color(f),
        ShapeEdit::Width(w) => ShapeElement { width: w, ..shape },
    }
}

/// The element with the edit applied, when it is of the kind the edit is for.
pub fn restyle(element: &PaintElement, edit: StyleEdit) -> (r: Option<PaintElement>)
    ensures
        r is Some == restyled(element.view(), edit) is Some,
        r matches Some(x) ==> x.view() == restyled(element.view(), edit)->Some_0,
{
    match (edit, element) {
        (StyleEdit::Shape(x), PaintElement::Shape(s)) => Some(
            PaintElement::Shape(edited_shape(*s, x)),
        ),
        (StyleEdit::Stroke(x), PaintElement::Stroke(s)) => {
            let mut next = s.deep_copy();
            match x {
                StrokeEdit::Color(c) => {
                    next.color = c;
                },
                StrokeEdit::Opacity(p) => {
                    next.color = set_alpha_percent(s.color, p);
                },
                StrokeEdit::Width(w) => {
                    next.width = w;
                },
            }
            Some(PaintElement::Stroke(next))
        },
        (StyleEdit::Fill(x), PaintElement::Fill(f)) => {
            let mut next = f.deep_copy();
            match x {
                FillEdit::Color(c) => {
                    next.color = c;
                },
                FillEdit::Opacity(p) => {
                    next.color = set_alpha_percent(f.color, p);
                },
            }
            Some(PaintElement::Fill(next))
        },
        _ => None,
    }
}

} // verus!
