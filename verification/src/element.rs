use vstd::prelude::*;

use crate::model::{
    scalar_eq, PaintPoint, RgbaColor, Scalar, ShapeKind, ToolKind,
};

verus! {

/// Floating-point equality of two points.
pub open spec fn point_eq(a: PaintPoint, b: PaintPoint) -> bool {
    scalar_eq(a.x, b.x) && scalar_eq(a.y, b.y)
}

pub open spec fn points_eq(a: Seq<PaintPoint>, b: Seq<PaintPoint>) -> bool {
    a.len() == b.len() && forall|i: int| 0 <= i < a.len() ==> point_eq(#[trigger] a[i], b[i])
}

fn points_same(a: &Vec<PaintPoint>, b: &Vec<PaintPoint>) -> (r: bool)
    ensures
        r == points_eq(a@, b@),
{
    if a.len() != b.len() {
        return false;
    }
    let mut i: usize = 0;
    while i < a.len()
        invariant
            a.len() == b.len(),
            i <= a.len(),
            forall|j: int| 0 <= j < i ==> point_eq(#[trigger] a@[j], b@[j]),
        decreases a.len() - i,
    {
        if !(a[i].x.same_value(b[i].x) && a[i].y.same_value(b[i].y)) {
            return false;
        }
        i += 1;
    }
    true
}

fn copy_points(points: &Vec<PaintPoint>) -> (r: Vec<PaintPoint>)
    ensures
        r@ == points@,
{
    let mut out: Vec<PaintPoint> = Vec::new();
    let mut i: usize = 0;
    while i < points.len()
        invariant
            i <= points.len(),
            out@ == points@.subrange(0, i as int),
        decreases points.len() - i,
    {
        out.push(points[i]);
        i += 1;
        assert(out@ =~= points@.subrange(0, i as int));
    }
    assert(out@ =~= points@);
    out
}

/// A freehand stroke: the tool, its color and width, and the points it passes through.
#[derive(Debug, Clone, PartialEq)]
pub struct Stroke {
    pub tool: ToolKind,
    pub color: RgbaColor,
    pub width: Scalar,
    pub points: Vec<PaintPoint>,
}

pub struct StrokeView {
    pub tool: ToolKind,
    pub color: RgbaColor,
    pub width: Scalar,
    pub points: Seq<PaintPoint>,
}

impl View for Stroke {
    type V = StrokeView;

    open spec fn view(&self) -> StrokeView {
        StrokeView { tool: self.tool, color: self.color, width: self.width, points: self.points@ }
    }
}

pub open spec fn stroke_eq(a: StrokeView, b: StrokeView) -> bool {
    a.tool == b.tool && a.color == b.color && scalar_eq(a.width, b.width) && points_eq(
        a.points,
        b.points,
    )
}

impl Stroke {
    pub fn new(tool: ToolKind, color: RgbaColor, width: Scalar) -> (s: Self)
        ensures
            s@ == (StrokeView { tool, color, width, points: Seq::empty() }),
    {
        let s = Stroke { tool, color, width, points: Vec::new() };
        assert(s@.points =~= Seq::<PaintPoint>::empty());
        s
    }

    pub fn push_point(&mut self, point: PaintPoint)
        ensures
            final(self)@ == (StrokeView { points: old(self)@.points.push(point), ..old(self)@ }),
    {
        self.points.push(point);
    }

    pub fn deep_copy(&self) -> (r: Self)
        ensures
            r@ == self@,
    {
        Stroke { tool: self.tool, color: self.color, width: self.width, points: copy_points(&self.points) }
    }

    /// `==` of the floating-point strokes.
    pub fn same_content(&self, other: &Stroke) -> (r: bool)
        ensures
            r == stroke_eq(self@, other@),
    {
        self.tool == other.tool && self.color == other.color && self.width.same_value(other.width)
            && points_same(&self.points, &other.points)
    }
}

/// A rectangle, ellipse or line. For boxes `start` and `end` are opposite corners of
/// the unrotated box and the rotation turns it about its center.
#[derive(Debug, Clone, Copy, PartialEq)]
pub struct ShapeElement {
    pub kind: ShapeKind,
    pub color: RgbaColor,
    pub fill_color: Option<RgbaColor>,
    pub width: Scalar,
    pub start: PaintPoint,
    pub end: PaintPoint,
    pub rotation_radians: Scalar,
}

pub open spec fn shape_eq(a: ShapeElement, b: ShapeElement) -> bool {
    a.kind == b.kind && a.color == b.color && a.fill_color == b.fill_color && scalar_eq(
        a.width,
        b.width,
    ) && point_eq(a.start, b.start) && point_eq(a.end, b.end) && scalar_eq(
        a.rotation_radians,
        b.rotation_radians,
    )
}

impl ShapeElement {
    /// An unrotated shape without fill.
    pub fn new(
        kind: ShapeKind,
        color: RgbaColor,
        width: Scalar,
        start: PaintPoint,
        end: PaintPoint,
    ) -> (s: Self)
        ensures
            s == (ShapeElement {
                kind,
                color,
                fill_color: None,
                width,
                start,
                end,
                rotation_radians: Scalar { bits: 0 },
            }),
    {
        ShapeElement {
            kind,
            color,
            fill_color: None,
            width,
            start,
            end,
            rotation_radians: Scalar::zero(),
        }
    }

    pub fn with_rotation(
        kind: ShapeKind,
        color: RgbaColor,
        width: Scalar,
        start: PaintPoint,
        end: PaintPoint,
        rotation_radians: Scalar,
    ) -> (s: Self)
        ensures
            s == (ShapeElement { kind, color, fill_color: None, width, start, end, rotation_radians }),
    {
        ShapeElement { kind, color, fill_color: None, width, start, end, rotation_radians }
    }

    /// Sets the fill; a line never keeps one.
    pub fn with_fill_color(self, fill_color: Option<RgbaColor>) -> (s: Self)
        ensures
            s == (ShapeElement {
                fill_color: if self.kind.spec_supports_fill() {
                    fill_color
                } else {
                    None
                },
                ..self
            }),
    {
        let fill = if self.kind.supports_fill() {
            fill_color
        } else {
            None
        };
        ShapeElement { fill_color: fill, ..self }
    }

    pub open spec fn spec_effective_fill_color(self) -> Option<RgbaColor> {
        if self.kind.spec_supports_fill() {
            self.fill_color
        } else {
            None
        }
    }

    /// The fill that is painted: none for lines.
    pub fn effective_fill_color(&self) -> (r: Option<RgbaColor>)
        ensures
            r == self.spec_effective_fill_color(),
    {
        if self.kind.supports_fill() {
            self.fill_color
        } else {
            None
        }
    }

    pub fn is_transform_editable(&self) -> (r: bool)
        ensures
            r,
    {
        true
    }

    /// `==` of the floating-point shapes.
    pub fn same_content(&self, other: &ShapeElement) -> (r: bool)
        ensures
            r == shape_eq(*self, *other),
    {
        let fills_equal = match (self.fill_color, other.fill_color) {
            (Some(a), Some(b)) => a == b,
            (None, None) => true,
            _ => false,
        };
        self.kind == other.kind && self.color == other.color && fills_equal
            && self.width.same_value(other.width) && self.start.x.same_value(other.start.x)
            && self.start.y.same_value(other.start.y) && self.end.x.same_value(other.end.x)
            && self.end.y.same_value(other.end.y) && self.rotation_radians.same_value(
            other.rotation_radians,
        )
    }
}

/// One row of a bucket fill: pixels `x_start..x_end` of row `y`, relative to the origin.
#[derive(Debug, Clone, Copy, PartialEq, Eq, Hash, Structural)]
pub struct FillSpan {
    pub y: u32,
    pub x_start: u32,
    pub x_end: u32,
}

impl FillSpan {
    pub open spec fn spec_width(self) -> int {
        if self.x_end >= self.x_start {
            self.x_end - self.x_start
        } else {
            0
        }
    }

    /// Number of pixels in the row (zero for an inverted span).
    pub fn width(&self) -> (r: u32)
        ensures
            r == self.spec_width(),
    {
        if self.x_end >= self.x_start {
            self.x_end - self.x_start
        } else {
            0
        }
    }
}

/// The result of a bucket fill: a color and scanline spans placed at `origin`.
#[derive(Debug, Clone, PartialEq)]
pub struct FillElement {
    pub color: RgbaColor,
    pub origin: PaintPoint,
    pub spans: Vec<FillSpan>,
}

pub struct FillView {
    pub color: RgbaColor,
    pub origin: PaintPoint,
    pub spans: Seq<FillSpan>,
}

impl View for FillElement {
    type V = FillView;

    open spec fn view(&self) -> FillView {
        FillView { color: self.color, origin: self.origin, spans: self.spans@ }
    }
}

pub open spec fn fill_eq(a: FillView, b: FillView) -> bool {
    a.color == b.color && point_eq(a.origin, b.origin) && a.spans == b.spans
}

fn copy_spans(spans: &Vec<FillSpan>) -> (r: Vec<FillSpan>)
    ensures
        r@ == spans@,
{
    let mut out: Vec<FillSpan> = Vec::new();
    let mut i: usize = 0;
    while i < spans.len()
        invariant
            i <= spans.len(),
            out@ == spans@.subrange(0, i as int),
        decreases spans.len() - i,
    {
        out.push(spans[i]);
        i += 1;
        assert(out@ =~= spans@.subrange(0, i as int));
    }
    assert(out@ =~= spans@);
    out
}

fn spans_same(a: &Vec<FillSpan>, b: &Vec<FillSpan>) -> (r: bool)
    ensures
        r == (a@ == b@),
{
    if a.len() != b.len() {
        return false;
    }
    let mut i: usize = 0;
    while i < a.len()
        invariant
            a.len() == b.len(),
            i <= a.len(),
            forall|j: int| 0 <= j < i ==> #[trigger] a@[j] == b@[j],
        decreases a.len() - i,
    {
        if a[i] != b[i] {
            return false;
        }
        i += 1;
    }
    assert(a@ =~= b@);
    true
}

impl FillElement {
    pub fn new(color: RgbaColor, origin: PaintPoint, spans: Vec<FillSpan>) -> (f: Self)
        ensures
            f@ == (FillView { color, origin, spans: spans@ }),
    {
        FillElement { color, origin, spans }
    }

    pub fn deep_copy(&self) -> (r: Self)
        ensures
            r@ == self@,
    {
        FillElement { color: self.color, origin: self.origin, spans: copy_spans(&self.spans) }
    }

    /// `==` of the floating-point fills.
    pub fn same_content(&self, other: &FillElement) -> (r: bool)
        ensures
            r == fill_eq(self@, other@),
    {
        self.color == other.color && self.origin.x.same_value(other.origin.x)
            && self.origin.y.same_value(other.origin.y) && spans_same(&self.spans, &other.spans)
    }
}

} // verus!

verus! {

/// A top-level or nested element of a layer.
#[derive(Debug, PartialEq)]
pub enum PaintElement {
    Stroke(Stroke),
    Shape(ShapeElement),
    Fill(FillElement),
    Group(GroupElement),
}

/// Elements kept together; their order is their paint order.
#[derive(Debug, PartialEq)]
pub struct GroupElement {
    pub elements: Vec<PaintElement>,
}

/// The mathematical value of an element: groups hold sequences of values.
pub enum ElementView {
    Stroke(StrokeView),
    Shape(ShapeElement),
    Fill(FillView),
    Group(Seq<ElementView>),
}

impl PaintElement {
    pub open spec fn view(self) -> ElementView
        decreases self,
    {
        match self {
            PaintElement::Stroke(s) => ElementView::Stroke(s@),
            PaintElement::Shape(s) => ElementView::Shape(s),
            PaintElement::Fill(f) => ElementView::Fill(f@),
            PaintElement::Group(g) => ElementView::Group(
                Seq::new(
                    g.elements@.len(),
                    |i: int|
                        if 0 <= i < g.elements@.len() {
                            g.elements@[i].view()
                        } else {
                            ElementView::Group(Seq::empty())
                        },
                ),
            ),
        }
    }
}

/// The values of a sequence of elements.
pub open spec fn elements_view(s: Seq<PaintElement>) -> Seq<ElementView> {
    Seq::new(s.len(), |i: int| s[i].view())
}

/// Floating-point equality of element values, through groups.
pub open spec fn element_eq(a: ElementView, b: ElementView) -> bool
    decreases a,
{
    match (a, b) {
        (ElementView::Stroke(x), ElementView::Stroke(y)) => stroke_eq(x, y),
        (ElementView::Shape(x), ElementView::Shape(y)) => shape_eq(x, y),
        (ElementView::Fill(x), ElementView::Fill(y)) => fill_eq(x, y),
        (ElementView::Group(x), ElementView::Group(y)) => x.len() == y.len() && forall|i: int|
            0 <= i < x.len() ==> element_eq(#[trigger] x[i], y[i]),
        _ => false,
    }
}

pub open spec fn elements_eq(a: Seq<ElementView>, b: Seq<ElementView>) -> bool {
    a.len() == b.len() && forall|i: int| 0 <= i < a.len() ==> element_eq(#[trigger] a[i], b[i])
}

/// Copies a sequence of elements, keeping their values.
pub fn copy_elements(elements: &Vec<PaintElement>) -> (r: Vec<PaintElement>)
    ensures
        elements_view(r@) == elements_view(elements@),
        r@.len() == elements@.len(),
    decreases elements@,
{
    let mut out: Vec<PaintElement> = Vec::new();
    let mut i: usize = 0;
    while i < elements.len()
        invariant
            i <= elements.len(),
            out@.len() == i,
            forall|j: int| 0 <= j < i ==> #[trigger] out@[j].view() == elements@[j].view(),
        decreases elements.len() - i,
    {
        proof {
            assert(decreases_to!(elements@ => elements@[i as int]));
        }
        let c = elements[i].deep_copy();
        out.push(c);
        i += 1;
    }
    assert(elements_view(out@) =~= elements_view(elements@));
    out
}

/// Compares two element sequences with floating-point equality.
pub fn elements_same(a: &Vec<PaintElement>, b: &Vec<PaintElement>) -> (r: bool)
    ensures
        r == elements_eq(elements_view(a@), elements_view(b@)),
    decreases a@,
{
    if a.len() != b.len() {
        return false;
    }
    let mut i: usize = 0;
    while i < a.len()
        invariant
            a.len() == b.len(),
            i <= a.len(),
            forall|j: int| 0 <= j < i ==> element_eq(#[trigger] a@[j].view(), b@[j].view()),
        decreases a.len() - i,
    {
        proof {
            assert(decreases_to!(a@ => a@[i as int]));
        }
        if !a[i].same_content(&b[i]) {
            assert(elements_view(a@)[i as int] == a@[i as int].view());
            assert(elements_view(b@)[i as int] == b@[i as int].view());
            return false;
        }
        i += 1;
    }
    assert forall|j: int| 0 <= j < a@.len() implies element_eq(
        #[trigger] elements_view(a@)[j],
        elements_view(b@)[j],
    ) by {
        assert(element_eq(a@[j].view(), b@[j].view()));
    }
    true
}

impl PaintElement {
    /// A copy with the same value.
    pub fn deep_copy(&self) -> (r: Self)
        ensures
            r.view() == self.view(),
        decreases self,
    {
        match self {
            PaintElement::Stroke(s) => PaintElement::Stroke(s.deep_copy()),
            PaintElement::Shape(s) => PaintElement::Shape(*s),
            PaintElement::Fill(f) => PaintElement::Fill(f.deep_copy()),
            PaintElement::Group(g) => {
                proof {
                    assert(decreases_to!(*self => self->Group_0));
                    assert(decreases_to!(self->Group_0 => g.elements));
                    assert(decreases_to!(g.elements => g.elements@));
                }
                let elements = copy_elements(&g.elements);
                let r = PaintElement::Group(GroupElement { elements });
                proof {
                    let a = r.view();
                    let b = self.view();
                    assert forall|k: int| 0 <= k < a->Group_0.len() implies a->Group_0[k]
                        == b->Group_0[k] by {
                        assert(elements_view(elements@)[k] == elements_view(g.elements@)[k]);
                    }
                    assert(a->Group_0 =~= b->Group_0);
                }
                r
            },
        }
    }

    /// `==` of the floating-point elements.
    pub fn same_content(&self, other: &PaintElement) -> (r: bool)
        ensures
            r == element_eq(self.view(), other.view()),
        decreases self,
    {
        match (self, other) {
            (PaintElement::Stroke(a), PaintElement::Stroke(b)) => a.same_content(b),
            (PaintElement::Shape(a), PaintElement::Shape(b)) => a.same_content(b),
            (PaintElement::Fill(a), PaintElement::Fill(b)) => a.same_content(b),
            (PaintElement::Group(a), PaintElement::Group(b)) => {
                proof {
                    assert(decreases_to!(*self => self->Group_0));
                    assert(decreases_to!(self->Group_0 => a.elements));
                    assert(decreases_to!(a.elements => a.elements@));
                }
                let r = elements_same(&a.elements, &b.elements);
                proof {
                    let x = self.view()->Group_0;
                    let y = other.view()->Group_0;
                    assert(x =~= elements_view(a.elements@));
                    assert(y =~= elements_view(b.elements@));
                }
                r
            },
            _ => false,
        }
    }

    /// The name shown for the element's kind.
    pub fn kind_label(&self) -> (r: &'static str)
        ensures
            r@ == (match self {
                PaintElement::Stroke(s) => match s.tool {
                    ToolKind::Brush => "ペン"@,
                    ToolKind::Pencil => "えんぴつ"@,
                    ToolKind::Marker => "マーカー"@,
                    ToolKind::Eraser => "消しゴム"@,
                },
                PaintElement::Shape(s) => match s.kind {
                    ShapeKind::Rectangle => "四角形"@,
                    ShapeKind::Ellipse => "楕円"@,
                    ShapeKind::Line => "直線"@,
                },
                PaintElement::Fill(_) => "塗り"@,
                PaintElement::Group(_) => "グループ"@,
            }),
    {
        match self {
            PaintElement::Stroke(stroke) => stroke.tool.label(),
            PaintElement::Shape(shape) => shape.kind.label(),
            PaintElement::Fill(_) => "塗り",
            PaintElement::Group(_) => "グループ",
        }
    }

    pub fn is_group(&self) -> (r: bool)
        ensures
            r == (self is Group),
    {
        match self {
            PaintElement::Group(_) => true,
            _ => false,
        }
    }
}

} // verus!
