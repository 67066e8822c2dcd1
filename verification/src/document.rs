use vstd::prelude::*;

use crate::arrange::{
    backward_order, backward_positions, forward_order, forward_positions, group_flagged,
    grouped_elements, has_flagged_group, lemma_backward_order_range, lemma_forward_order_range,
    pick_elements, pick_flags, range_seq, split_by_flags, ungroup_flagged, ungrouped_elements,
    ungrouped_selection,
};
use crate::element::{
    elements_view, ElementView, FillElement, PaintElement, ShapeElement, Stroke,
};
use crate::indices::{
    flags_of, indices_of_flags, lemma_indices_of_flags, negated, normalize_indices, normalized, pick,
    selected_flags_to_indices, selection_flags,
};
use crate::layer::{
    copy_layers, find_layer, has_layer, layer_position, layers_view, LayerView,
    PaintLayer,
};
use crate::model::{
    bits_at_least, bits_below_epsilon, bits_is_nan, bits_key, bits_less, CanvasSize, GridSettings,
    GuideAxis, GuideLine, GuideSettings, GuideSettingsView, LayerId, PaintVector, RgbaColor,
    RulerSettings, Scalar, SmartGuideSettings, StackOrderCommand, DEFAULT_LAYER_ID,
};
use crate::text::{decimal_chars, push_decimal, string_of, trim, trimmed};
use vstd::string::StringExecFns;

verus! {

/// A drawing: canvas, layout aids, and layers painted from `layers[0]` upwards.
#[derive(Debug, PartialEq)]
pub struct PaintDocument {
    pub canvas_size: CanvasSize,
    pub background: RgbaColor,
    pub grid: GridSettings,
    pub guides: GuideSettings,
    pub smart_guides: SmartGuideSettings,
    pub rulers: RulerSettings,
    pub layers: Vec<PaintLayer>,
    pub active_layer_id: LayerId,
    pub next_layer_id: LayerId,
}

pub struct DocumentView {
    pub canvas_size: CanvasSize,
    pub background: RgbaColor,
    pub grid: GridSettings,
    pub guides: GuideSettingsView,
    pub smart_guides: SmartGuideSettings,
    pub rulers: RulerSettings,
    pub layers: Seq<LayerView>,
    pub active_layer_id: LayerId,
    pub next_layer_id: LayerId,
}

impl View for PaintDocument {
    type V = DocumentView;

    open spec fn view(&self) -> DocumentView {
        DocumentView {
            canvas_size: self.canvas_size,
            background: self.background,
            grid: self.grid,
            guides: self.guides@,
            smart_guides: self.smart_guides,
            rulers: self.rulers,
            layers: layers_view(self.layers@),
            active_layer_id: self.active_layer_id,
            next_layer_id: self.next_layer_id,
        }
    }
}

/// Name of the first layer of a new drawing.
pub open spec fn first_layer_name() -> Seq<char> {
    "レイヤー 1"@
}

pub open spec fn default_layers_view() -> Seq<LayerView> {
    seq![
        LayerView {
            id: DEFAULT_LAYER_ID,
            name: first_layer_name(),
            visible: true,
            locked: false,
            elements: Seq::empty(),
        },
    ]
}

/// The layout aids and identifiers of a new drawing around the given layers.
pub open spec fn fresh_document_view(
    canvas_size: CanvasSize,
    background: RgbaColor,
    layers: Seq<LayerView>,
) -> DocumentView {
    DocumentView {
        canvas_size,
        background,
        grid: GridSettings::default_spec(),
        guides: GuideSettings::default_view(),
        smart_guides: SmartGuideSettings { visible: true },
        rulers: RulerSettings { visible: true },
        layers,
        active_layer_id: DEFAULT_LAYER_ID,
        next_layer_id: (DEFAULT_LAYER_ID + 1) as u64,
    }
}

pub open spec fn default_document_view() -> DocumentView {
    fresh_document_view(
        CanvasSize::default_spec(),
        RgbaColor { r: 255, g: 255, b: 255, a: 255 },
        default_layers_view(),
    )
}

/// Largest layer id, or the default id when there are no layers.
pub open spec fn max_layer_id(layers: Seq<LayerView>) -> LayerId
    decreases layers.len(),
{
    if layers.len() == 0 {
        DEFAULT_LAYER_ID
    } else if layers.len() == 1 {
        layers[0].id
    } else {
        let rest = max_layer_id(layers.drop_last());
        if layers.last().id > rest {
            layers.last().id
        } else {
            rest
        }
    }
}

pub proof fn lemma_max_layer_id(layers: Seq<LayerView>)
    ensures
        forall|i: int| 0 <= i < layers.len() ==> #[trigger] layers[i].id <= max_layer_id(layers),
        layers.len() > 0 ==> exists|i: int|
            0 <= i < layers.len() && #[trigger] layers[i].id == max_layer_id(layers),
        layers.len() == 0 ==> max_layer_id(layers) == DEFAULT_LAYER_ID,
    decreases layers.len(),
{
    if layers.len() > 1 {
        let d = layers.drop_last();
        lemma_max_layer_id(d);
        assert forall|i: int| 0 <= i < layers.len() implies #[trigger] layers[i].id
            <= max_layer_id(layers) by {
            if i < d.len() {
                assert(d[i] == layers[i]);
            }
        }
        if layers.last().id <= max_layer_id(d) {
            let k = choose|k: int| 0 <= k < d.len() && #[trigger] d[k].id == max_layer_id(d);
            assert(layers[k] == d[k]);
        } else {
            assert(layers[layers.len() - 1].id == max_layer_id(layers));
        }
    } else if layers.len() == 1 {
        assert(layers[0].id == max_layer_id(layers));
    }
}

/// Every layer id is below `u64::MAX`, so a successor id exists.
pub open spec fn ids_below_max(layers: Seq<LayerView>) -> bool {
    forall|i: int| 0 <= i < layers.len() ==> #[trigger] layers[i].id < u64::MAX
}

/// The layer structure the editor relies on: at least one layer, the active id names
/// a layer, and the next id is above every layer id.
pub open spec fn layers_well_formed(d: DocumentView) -> bool {
    &&& d.layers.len() > 0
    &&& has_layer(d.layers, d.active_layer_id)
    &&& forall|i: int| 0 <= i < d.layers.len() ==> #[trigger] d.layers[i].id < d.next_layer_id
}

/// The layer part of loading a drawing: an empty layer list is replaced by the default
/// layer, a dangling active id falls back to the top layer, and the next id is raised
/// above every layer id.
pub open spec fn sanitized_layers(d: DocumentView) -> DocumentView {
    let layers = if d.layers.len() == 0 {
        default_layers_view()
    } else {
        d.layers
    };
    let max_id = max_layer_id(layers);
    let active = if has_layer(layers, d.active_layer_id) {
        d.active_layer_id
    } else {
        layers.last().id
    };
    let next = if d.next_layer_id <= max_id {
        (max_id + 1) as u64
    } else {
        d.next_layer_id
    };
    DocumentView { layers, active_layer_id: active, next_layer_id: next, ..d }
}

/// The smallest grid spacing a drawing keeps: 8.0.
pub const MIN_GRID_SPACING_BITS: u32 = 0x4100_0000u32;

/// The grid spacing raised to the minimum (NaN becomes the minimum too).
pub open spec fn repaired_spacing(spacing: Scalar) -> Scalar {
    if bits_is_nan(spacing.bits) || bits_less(spacing.bits, MIN_GRID_SPACING_BITS) {
        Scalar { bits: MIN_GRID_SPACING_BITS }
    } else {
        spacing
    }
}

/// The canvas length a guide on `axis` runs across: the height for horizontal guides,
/// the width for vertical ones.
pub open spec fn guide_extent(canvas: CanvasSize, axis: GuideAxis) -> Scalar {
    match axis {
        GuideAxis::Horizontal => canvas.height,
        GuideAxis::Vertical => canvas.width,
    }
}

/// A guide moved into the canvas: below zero becomes zero, past the extent becomes
/// the extent.
pub open spec fn clamped_guide(canvas: CanvasSize, g: GuideLine) -> GuideLine {
    let extent = guide_extent(canvas, g.axis);
    let p = if bits_less(g.position.bits, 0) {
        Scalar { bits: 0 }
    } else {
        g.position
    };
    let p = if bits_less(extent.bits, p.bits) {
        extent
    } else {
        p
    };
    GuideLine { position: p, ..g }
}

pub open spec fn axis_rank(axis: GuideAxis) -> int {
    match axis {
        GuideAxis::Horizontal => 0,
        GuideAxis::Vertical => 1,
    }
}

/// The largest magnitude (as a bit pattern) of a position that rounds to zero once
/// multiplied by 100 in single precision: just below 0.005.
pub const ROUNDS_TO_ZERO_BITS: u32 = 0x3ba3_d709u32;

/// The sign of a position taken in hundredths and rounded: 1 above the smallest step, -1
/// below the negative one, 0 in between, and 0 for NaN (which such a rounding turns into
/// zero).
pub open spec fn hundredths_sign(bits: u32) -> int {
    if bits_is_nan(bits) {
        0
    } else if bits_key(bits) > ROUNDS_TO_ZERO_BITS as int {
        1
    } else if bits_key(bits) < -(ROUNDS_TO_ZERO_BITS as int) {
        -1
    } else {
        0
    }
}

/// Position `p` comes before `q`: by value between numbers; where a NaN is involved, by
/// the rounded hundredths, NaN counting as zero.
pub open spec fn position_before(p: u32, q: u32) -> bool {
    if !bits_is_nan(p) && !bits_is_nan(q) {
        bits_less(p, q)
    } else {
        hundredths_sign(p) < hundredths_sign(q)
    }
}

/// Guide `a` comes before guide `b`: horizontal guides first, then by position.
pub open spec fn guide_before(a: GuideLine, b: GuideLine) -> bool {
    axis_rank(a.axis) < axis_rank(b.axis) || (a.axis == b.axis && position_before(
        a.position.bits,
        b.position.bits,
    ))
}

/// The guides can be put in order: no axis holds a guide whose position is NaN together
/// with two positions that both round to zero in hundredths yet differ (the order would
/// then not be consistent).
pub open spec fn guides_sortable(s: Seq<GuideLine>) -> bool {
    forall|i: int, j: int, k: int|
        0 <= i < s.len() && 0 <= j < s.len() && 0 <= k < s.len() && bits_is_nan(
            (#[trigger] s[i]).position.bits,
        ) && (#[trigger] s[j]).axis == s[i].axis && (#[trigger] s[k]).axis == s[i].axis
            && !bits_is_nan(s[j].position.bits) && !bits_is_nan(s[k].position.bits)
            && hundredths_sign(s[j].position.bits) == 0 && hundredths_sign(s[k].position.bits)
            == 0 ==> !bits_less(s[j].position.bits, s[k].position.bits)
}

/// Taking a guide away keeps the layout aids repairable.
pub proof fn lemma_guide_removal_repairable(d: DocumentView, index: int)
    requires
        layout_repairable(d),
        0 <= index < d.guides.lines.len(),
    ensures
        layout_repairable(
            DocumentView {
                guides: GuideSettingsView { lines: d.guides.lines.remove(index), ..d.guides },
                ..d
            },
        ),
{
    let lines = d.guides.lines;
    let r = lines.remove(index);
    let c = lines.map_values(|g: GuideLine| clamped_guide(d.canvas_size, g));
    let cr = r.map_values(|g: GuideLine| clamped_guide(d.canvas_size, g));
    assert forall|i: int| 0 <= i < r.len() implies bits_at_least(
        guide_extent(d.canvas_size, (#[trigger] r[i]).axis).bits,
        0,
    ) by {
        if i < index {
            assert(r[i] == lines[i]);
        } else {
            assert(r[i] == lines[i + 1]);
        }
    }
    assert forall|i: int| 0 <= i < cr.len() implies c.contains(#[trigger] cr[i]) by {
        if i < index {
            assert(cr[i] == c[i]);
        } else {
            assert(cr[i] == c[i + 1]);
        }
    }
    lemma_guides_sortable_members(c, cr);
}

/// Within guides that can be put in order, coming before is asymmetric and not coming
/// before is transitive.
proof fn lemma_guide_order(s: Seq<GuideLine>, a: int, b: int, c: int)
    requires
        guides_sortable(s),
        0 <= a < s.len(),
        0 <= b < s.len(),
        0 <= c < s.len(),
    ensures
        guide_before(s[a], s[b]) ==> !guide_before(s[b], s[a]),
        !guide_before(s[a], s[b]) && !guide_before(s[b], s[c]) ==> !guide_before(s[a], s[c]),
{
    let (x, y, z) = (s[a], s[b], s[c]);
    assert(bits_is_nan(y.position.bits) && y.axis == x.axis && z.axis == x.axis ==> (
    !bits_is_nan(x.position.bits) && !bits_is_nan(z.position.bits) && hundredths_sign(
        x.position.bits,
    ) == 0 && hundredths_sign(z.position.bits) == 0 ==> !bits_less(
        x.position.bits,
        z.position.bits,
    )));
}

/// The same, for guides given as members of a sequence that can be put in order.
proof fn lemma_guide_order_members(s: Seq<GuideLine>, x: GuideLine, y: GuideLine, z: GuideLine)
    requires
        guides_sortable(s),
        s.contains(x),
        s.contains(y),
        s.contains(z),
    ensures
        guide_before(x, y) ==> !guide_before(y, x),
        !guide_before(x, y) && !guide_before(y, z) ==> !guide_before(x, z),
{
    let a = choose|a: int| 0 <= a < s.len() && s[a] == x;
    let b = choose|b: int| 0 <= b < s.len() && s[b] == y;
    let c = choose|c: int| 0 <= c < s.len() && s[c] == z;
    lemma_guide_order(s, a, b, c);
}

/// Guides drawn from a sequence that can be put in order can be put in order too.
pub proof fn lemma_guides_sortable_members(u: Seq<GuideLine>, s: Seq<GuideLine>)
    requires
        guides_sortable(u),
        forall|i: int| 0 <= i < s.len() ==> u.contains(#[trigger] s[i]),
    ensures
        guides_sortable(s),
{
    assert forall|i: int, j: int, k: int|
        0 <= i < s.len() && 0 <= j < s.len() && 0 <= k < s.len() && bits_is_nan(
            (#[trigger] s[i]).position.bits,
        ) && (#[trigger] s[j]).axis == s[i].axis && (#[trigger] s[k]).axis == s[i].axis
            && !bits_is_nan(s[j].position.bits) && !bits_is_nan(s[k].position.bits)
            && hundredths_sign(s[j].position.bits) == 0 && hundredths_sign(s[k].position.bits)
            == 0 implies !bits_less(s[j].position.bits, s[k].position.bits) by {
        assert(u.contains(s[i]) && u.contains(s[j]) && u.contains(s[k]));
        let a = choose|a: int| 0 <= a < u.len() && u[a] == s[i];
        let b = choose|b: int| 0 <= b < u.len() && u[b] == s[j];
        let c = choose|c: int| 0 <= c < u.len() && u[c] == s[k];
        assert(bits_is_nan(u[a].position.bits) && u[b].axis == u[a].axis && u[c].axis == u[a].axis);
    }
}

/// `s` with `x` placed after every guide that does not come after it (one step of a
/// stable insertion sort).
pub open spec fn inserted_guide(s: Seq<GuideLine>, x: GuideLine) -> Seq<GuideLine>
    decreases s.len(),
{
    if s.len() == 0 || !guide_before(x, s.last()) {
        s.push(x)
    } else {
        inserted_guide(s.drop_last(), x).push(s.last())
    }
}

/// The guides in order, stably: horizontal first, then by position.
pub open spec fn sorted_guides(s: Seq<GuideLine>) -> Seq<GuideLine>
    decreases s.len(),
{
    if s.len() == 0 {
        s
    } else {
        inserted_guide(sorted_guides(s.drop_last()), s.last())
    }
}

/// The guides clamped into the canvas and put in order.
pub open spec fn repaired_guides(canvas: CanvasSize, lines: Seq<GuideLine>) -> Seq<GuideLine> {
    sorted_guides(lines.map_values(|g: GuideLine| clamped_guide(canvas, g)))
}

/// Every guide runs across a canvas length that is a number not below zero.
pub open spec fn guide_extents_fit(canvas: CanvasSize, lines: Seq<GuideLine>) -> bool {
    forall|i: int|
        0 <= i < lines.len() ==> bits_at_least(
            guide_extent(canvas, (#[trigger] lines[i]).axis).bits,
            0,
        )
}

/// The layout aids can be repaired: every guide runs across a canvas length that is a
/// number not below zero (else clamping the guide is refused), and the clamped guides can
/// be put in order.
pub open spec fn layout_repairable(d: DocumentView) -> bool {
    &&& guide_extents_fit(d.canvas_size, d.guides.lines)
    &&& guides_sortable(d.guides.lines.map_values(|g: GuideLine| clamped_guide(d.canvas_size, g)))
}

/// The drawing with its layout aids repaired: the grid spacing raised to the minimum and
/// the guides clamped into the canvas and ordered.
pub open spec fn repaired_layout(d: DocumentView) -> DocumentView {
    DocumentView {
        grid: GridSettings { spacing: repaired_spacing(d.grid.spacing), ..d.grid },
        guides: GuideSettingsView {
            lines: repaired_guides(d.canvas_size, d.guides.lines),
            ..d.guides
        },
        ..d
    }
}

/// The drawing fully repaired: its layer structure and its layout aids.
pub open spec fn repaired(d: DocumentView) -> DocumentView {
    repaired_layout(sanitized_layers(d))
}

/// Placing `x` before the guides it comes before, counted from the end, is the insertion
/// step.
proof fn lemma_inserted_guide_at(s: Seq<GuideLine>, x: GuideLine, j: int)
    requires
        0 <= j <= s.len(),
        forall|k: int| j <= k < s.len() ==> guide_before(x, #[trigger] s[k]),
        j == 0 || !guide_before(x, s[j - 1]),
    ensures
        inserted_guide(s, x) == s.insert(j, x),
    decreases s.len(),
{
    if s.len() == 0 {
        assert(s.insert(j, x) =~= s.push(x));
    } else if !guide_before(x, s.last()) {
        assert(j == s.len());
        assert(s.insert(j, x) =~= s.push(x));
    } else {
        let t = s.drop_last();
        assert forall|k: int| j <= k < t.len() implies guide_before(x, #[trigger] t[k]) by {
            assert(t[k] == s[k]);
        }
        if j > 0 {
            assert(t[j - 1] == s[j - 1]);
        }
        lemma_inserted_guide_at(t, x, j);
        assert(t.insert(j, x).push(s.last()) =~= s.insert(j, x));
    }
}

/// See `guide_before`.
/// Guides `a` and `b` of `c` share an axis that holds a NaN guide (as the flags say),
/// both round to zero in hundredths, and `a` lies below `b`.
pub open spec fn small_pair_conflict(c: Seq<GuideLine>, nan_h: bool, nan_v: bool, a: int, b: int) -> bool {
    &&& c[a].axis == c[b].axis
    &&& (if c[a].axis == GuideAxis::Horizontal {
        nan_h
    } else {
        nan_v
    })
    &&& !bits_is_nan(c[a].position.bits)
    &&& !bits_is_nan(c[b].position.bits)
    &&& hundredths_sign(c[a].position.bits) == 0
    &&& hundredths_sign(c[b].position.bits) == 0
    &&& bits_less(c[a].position.bits, c[b].position.bits)
}

/// See `clamped_guide`.
fn clamp_guide(canvas: CanvasSize, g: GuideLine) -> (r: GuideLine)
    ensures
        r == clamped_guide(canvas, g),
{
    let extent = match g.axis {
        GuideAxis::Horizontal => canvas.height,
        GuideAxis::Vertical => canvas.width,
    };
    let mut p = g.position;
    if p.less_than(Scalar::zero()) {
        p = Scalar::zero();
    }
    if extent.less_than(p) {
        p = extent;
    }
    GuideLine { axis: g.axis, position: p }
}

/// See `hundredths_sign`.
fn hundredths_sign_of(p: Scalar) -> (r: i8)
    ensures
        r as int == hundredths_sign(p.bits),
{
    if p.is_nan() {
        0
    } else if (p.bits & 0x7fff_ffffu32) <= ROUNDS_TO_ZERO_BITS {
        0
    } else if (p.bits & 0x8000_0000u32) != 0 {
        -1
    } else {
        1
    }
}

fn guide_comes_before(a: GuideLine, b: GuideLine) -> (r: bool)
    ensures
        r == guide_before(a, b),
{
    if a.axis == GuideAxis::Horizontal && b.axis == GuideAxis::Vertical {
        return true;
    }
    if a.axis != b.axis {
        return false;
    }
    if !a.position.is_nan() && !b.position.is_nan() {
        a.position.less_than(b.position)
    } else {
        hundredths_sign_of(a.position) < hundredths_sign_of(b.position)
    }
}

/// The guides an insertion sort returns are the guides it was given.
proof fn lemma_inserted_guide_members(s: Seq<GuideLine>, x: GuideLine)
    ensures
        inserted_guide(s, x).len() == s.len() + 1,
        forall|k: int|
            0 <= k < inserted_guide(s, x).len() ==> (#[trigger] inserted_guide(s, x)[k] == x
                || s.contains(inserted_guide(s, x)[k])),
    decreases s.len(),
{
    if s.len() > 0 && guide_before(x, s.last()) {
        let t = s.drop_last();
        lemma_inserted_guide_members(t, x);
        let r = inserted_guide(s, x);
        assert forall|k: int| 0 <= k < r.len() implies (#[trigger] r[k] == x || s.contains(r[k])) by {
            if k < r.len() - 1 {
                let m = inserted_guide(t, x);
                assert(r[k] == m[k]);
                if m[k] != x {
                    let w = choose|w: int| 0 <= w < t.len() && t[w] == m[k];
                    assert(s[w] == t[w]);
                }
            } else {
                assert(s[s.len() - 1] == r[k]);
            }
        }
    } else {
        let r = inserted_guide(s, x);
        assert forall|k: int| 0 <= k < r.len() implies (#[trigger] r[k] == x || s.contains(r[k])) by {
            if k < s.len() {
                assert(s[k] == r[k]);
            }
        }
    }
}

/// Sorting keeps the guides: every sorted guide is one of them.
proof fn lemma_sorted_guides_members(s: Seq<GuideLine>)
    ensures
        sorted_guides(s).len() == s.len(),
        forall|k: int| 0 <= k < sorted_guides(s).len() ==> s.contains(#[trigger] sorted_guides(s)[k]),
    decreases s.len(),
{
    if s.len() > 0 {
        let t = s.drop_last();
        lemma_sorted_guides_members(t);
        lemma_inserted_guide_members(sorted_guides(t), s.last());
        let r = sorted_guides(s);
        assert forall|k: int| 0 <= k < r.len() implies s.contains(#[trigger] r[k]) by {
            if r[k] == s.last() {
                assert(s[s.len() - 1] == r[k]);
            } else {
                let m = sorted_guides(t);
                let w = choose|w: int| 0 <= w < m.len() && m[w] == r[k];
                assert(t.contains(m[w]));
                let v = choose|v: int| 0 <= v < t.len() && t[v] == m[w];
                assert(s[v] == t[v]);
            }
        }
    }
}

/// No guide of `s` comes before one that precedes it.
pub open spec fn guides_in_order(s: Seq<GuideLine>) -> bool {
    forall|i: int, j: int| 0 <= i < j < s.len() ==> !guide_before(#[trigger] s[j], #[trigger] s[i])
}

/// The layout aids are as repairing leaves them.
pub open spec fn layout_repaired(d: DocumentView) -> bool {
    &&& repaired_spacing(d.grid.spacing) == d.grid.spacing
    &&& repaired_guides(d.canvas_size, d.guides.lines) == d.guides.lines
}

proof fn lemma_inserted_guide_in_order(s: Seq<GuideLine>, x: GuideLine, u: Seq<GuideLine>)
    requires
        guides_in_order(s),
        guides_sortable(u),
        u.contains(x),
        forall|i: int| 0 <= i < s.len() ==> u.contains(#[trigger] s[i]),
    ensures
        guides_in_order(inserted_guide(s, x)),
    decreases s.len(),
{
    if s.len() > 0 && guide_before(x, s.last()) {
        let t = s.drop_last();
        assert(guides_in_order(t)) by {
            assert forall|i: int, j: int| 0 <= i < j < t.len() implies !guide_before(
                #[trigger] t[j],
                #[trigger] t[i],
            ) by {
                assert(t[i] == s[i] && t[j] == s[j]);
            }
        }
        assert forall|i: int| 0 <= i < t.len() implies u.contains(#[trigger] t[i]) by {
            assert(t[i] == s[i]);
        }
        lemma_inserted_guide_in_order(t, x, u);
        lemma_inserted_guide_members(t, x);
        let m = inserted_guide(t, x);
        let r = inserted_guide(s, x);
        let l = s.last();
        assert(u.contains(s[s.len() - 1]));
        assert forall|i: int, j: int| 0 <= i < j < r.len() implies !guide_before(
            #[trigger] r[j],
            #[trigger] r[i],
        ) by {
            if j == r.len() - 1 {
                assert(r[j] == l);
                assert(r[i] == m[i]);
                if m[i] != x {
                    let w = choose|w: int| 0 <= w < t.len() && t[w] == m[i];
                    assert(s[w] == t[w]);
                    assert(!guide_before(s[s.len() - 1], s[w]));
                } else {
                    lemma_guide_order_members(u, x, l, x);
                }
            } else {
                assert(r[i] == m[i] && r[j] == m[j]);
            }
        }
    } else {
        let r = inserted_guide(s, x);
        assert forall|i: int, j: int| 0 <= i < j < r.len() implies !guide_before(
            #[trigger] r[j],
            #[trigger] r[i],
        ) by {
            if j == r.len() - 1 {
                assert(r[j] == x);
                assert(r[i] == s[i]);
                if i < s.len() - 1 {
                    assert(!guide_before(s[s.len() - 1], s[i]));
                    assert(u.contains(s[i]) && u.contains(s[s.len() - 1]));
                    lemma_guide_order_members(u, x, s[s.len() - 1], s[i]);
                }
            } else {
                assert(r[i] == s[i] && r[j] == s[j]);
            }
        }
    }
}

/// Sorting guides that can be put in order puts them in order.
pub proof fn lemma_sorted_guides_in_order(s: Seq<GuideLine>)
    requires
        guides_sortable(s),
    ensures
        guides_in_order(sorted_guides(s)),
    decreases s.len(),
{
    if s.len() > 0 {
        let t = s.drop_last();
        assert forall|i: int| 0 <= i < t.len() implies s.contains(#[trigger] t[i]) by {
            assert(t[i] == s[i]);
        }
        lemma_guides_sortable_members(s, t);
        lemma_sorted_guides_in_order(t);
        lemma_sorted_guides_members(t);
        let m = sorted_guides(t);
        assert forall|i: int| 0 <= i < m.len() implies s.contains(#[trigger] m[i]) by {
            let w = choose|w: int| 0 <= w < t.len() && t[w] == m[i];
            assert(s[w] == t[w]);
        }
        assert(s.contains(s[s.len() - 1]));
        lemma_inserted_guide_in_order(m, s.last(), s);
    }
}

/// Guides already in order are left as they are by sorting.
pub proof fn lemma_sorted_guides_fixed(s: Seq<GuideLine>)
    requires
        guides_in_order(s),
    ensures
        sorted_guides(s) == s,
    decreases s.len(),
{
    if s.len() > 0 {
        let t = s.drop_last();
        assert forall|i: int, j: int| 0 <= i < j < t.len() implies !guide_before(
            #[trigger] t[j],
            #[trigger] t[i],
        ) by {
            assert(t[i] == s[i] && t[j] == s[j]);
        }
        lemma_sorted_guides_fixed(t);
        if t.len() > 0 {
            assert(!guide_before(s[s.len() - 1], s[s.len() - 2]));
        }
        assert(t.push(s.last()) =~= s);
    }
}

/// Clamping a guide that was clamped leaves it as it is.
proof fn lemma_clamped_guide_fixed(canvas: CanvasSize, g: GuideLine)
    requires
        bits_at_least(guide_extent(canvas, g.axis).bits, 0),
    ensures
        clamped_guide(canvas, clamped_guide(canvas, g)) == clamped_guide(canvas, g),
{
    assert(!bits_is_nan(0u32)) by (bit_vector);
    assert(bits_key(0u32) == 0) by (bit_vector);
}

/// Repairing the guides a second time changes nothing; the repaired guides are in order,
/// and can be repaired again.
pub proof fn lemma_repaired_guides_once(canvas: CanvasSize, lines: Seq<GuideLine>)
    requires
        guide_extents_fit(canvas, lines),
        guides_sortable(lines.map_values(|g: GuideLine| clamped_guide(canvas, g))),
    ensures
        repaired_guides(canvas, repaired_guides(canvas, lines)) == repaired_guides(canvas, lines),
        guides_in_order(repaired_guides(canvas, lines)),
        guide_extents_fit(canvas, repaired_guides(canvas, lines)),
        guides_sortable(
            repaired_guides(canvas, lines).map_values(|g: GuideLine| clamped_guide(canvas, g)),
        ),
{
    let c = lines.map_values(|g: GuideLine| clamped_guide(canvas, g));
    let r = repaired_guides(canvas, lines);
    lemma_sorted_guides_in_order(c);
    lemma_sorted_guides_members(c);
    let c2 = r.map_values(|g: GuideLine| clamped_guide(canvas, g));
    assert(c2 =~= r) by {
        assert forall|i: int| 0 <= i < r.len() implies c2[i] == r[i] by {
            let w = choose|w: int| 0 <= w < c.len() && c[w] == r[i];
            assert(c[w] == clamped_guide(canvas, lines[w]));
            lemma_clamped_guide_fixed(canvas, lines[w]);
        }
    }
    assert forall|i: int| 0 <= i < r.len() implies bits_at_least(
        guide_extent(canvas, (#[trigger] r[i]).axis).bits,
        0,
    ) by {
        let w = choose|w: int| 0 <= w < c.len() && c[w] == r[i];
        assert(c[w] == clamped_guide(canvas, lines[w]));
    }
    lemma_guides_sortable_members(c, r);
    lemma_sorted_guides_fixed(r);
}

/// Inserts `x` into `v` as `inserted_guide` does.
fn insert_guide(v: &mut Vec<GuideLine>, x: GuideLine)
    ensures
        final(v)@ == inserted_guide(old(v)@, x),
{
    let mut j = v.len();
    while j > 0 && guide_comes_before(x, v[j - 1])
        invariant
            j <= v.len(),
            forall|k: int| j <= k < v@.len() ==> guide_before(x, #[trigger] v@[k]),
        decreases j,
    {
        j -= 1;
    }
    proof {
        lemma_inserted_guide_at(v@, x, j as int);
    }
    v.insert(j, x);
}

/// The guides clamped into `canvas` and ordered; see `repaired_guides`.
fn repair_guides(canvas: CanvasSize, lines: &Vec<GuideLine>) -> (r: Vec<GuideLine>)
    requires
        forall|i: int|
            0 <= i < lines@.len() ==> bits_at_least(
                guide_extent(canvas, (#[trigger] lines@[i]).axis).bits,
                0,
            ),
    ensures
        r@ == repaired_guides(canvas, lines@),
{
    let ghost clamped = lines@.map_values(|g: GuideLine| clamped_guide(canvas, g));
    let mut out: Vec<GuideLine> = Vec::new();
    let mut i: usize = 0;
    while i < lines.len()
        invariant
            i <= lines.len(),
            clamped == lines@.map_values(|g: GuideLine| clamped_guide(canvas, g)),
            out@ == sorted_guides(clamped.take(i as int)),
        decreases lines.len() - i,
    {
        let g = lines[i];
        let extent = match g.axis {
            GuideAxis::Horizontal => canvas.height,
            GuideAxis::Vertical => canvas.width,
        };
        let mut p = g.position;
        if p.less_than(Scalar::zero()) {
            p = Scalar::zero();
        }
        if extent.less_than(p) {
            p = extent;
        }
        let c = GuideLine { axis: g.axis, position: p };
        assert(c == clamped[i as int]);
        proof {
            assert(clamped.take(i + 1).drop_last() =~= clamped.take(i as int));
        }
        insert_guide(&mut out, c);
        i += 1;
    }
    assert(clamped.take(lines@.len() as int) =~= clamped);
    out
}

impl PaintDocument {
    pub open spec fn active_position(&self) -> Option<int> {
        layer_position(self@.layers, self.active_layer_id)
    }

    /// A copy with the same value.
    pub fn deep_copy(&self) -> (r: Self)
        ensures
            r@ == self@,
    {
        PaintDocument {
            canvas_size: self.canvas_size,
            background: self.background,
            grid: self.grid,
            guides: self.guides.deep_copy(),
            smart_guides: self.smart_guides,
            rulers: self.rulers,
            layers: copy_layers(&self.layers),
            active_layer_id: self.active_layer_id,
            next_layer_id: self.next_layer_id,
        }
    }

    fn default_layers() -> (r: Vec<PaintLayer>)
        ensures
            layers_view(r@) == default_layers_view(),
    {
        let mut layers: Vec<PaintLayer> = Vec::new();
        layers.push(PaintLayer::new(DEFAULT_LAYER_ID, string_of("レイヤー 1")));
        assert(layers_view(layers@) =~= default_layers_view());
        layers
    }

    /// A one-layer drawing holding `elements`, with default layout aids.
    pub fn from_flat_elements(
        canvas_size: CanvasSize,
        background: RgbaColor,
        elements: Vec<PaintElement>,
    ) -> (d: Self)
        ensures
            d@ == fresh_document_view(
                canvas_size,
                background,
                seq![
                    LayerView {
                        id: DEFAULT_LAYER_ID,
                        name: first_layer_name(),
                        visible: true,
                        locked: false,
                        elements: elements_view(elements@),
                    },
                ],
            ),
    {
        let layer = PaintLayer {
            id: DEFAULT_LAYER_ID,
            name: string_of("レイヤー 1"),
            visible: true,
            locked: false,
            elements,
        };
        let mut layers: Vec<PaintLayer> = Vec::new();
        layers.push(layer);
        let d = PaintDocument {
            canvas_size,
            background,
            grid: GridSettings::default(),
            guides: GuideSettings::default(),
            smart_guides: SmartGuideSettings::default(),
            rulers: RulerSettings::default(),
            layers,
            active_layer_id: DEFAULT_LAYER_ID,
            next_layer_id: DEFAULT_LAYER_ID + 1,
        };
        assert(d@.layers =~= seq![
            LayerView {
                id: DEFAULT_LAYER_ID,
                name: first_layer_name(),
                visible: true,
                locked: false,
                elements: elements_view(elements@),
            },
        ]);
        d
    }
}

impl Default for PaintDocument {
    /// An empty 1600 × 900 white drawing with one layer.
    fn default() -> (d: Self)
        ensures
            d@ == default_document_view(),
    {
        PaintDocument {
            canvas_size: CanvasSize::default(),
            background: RgbaColor::white(),
            grid: GridSettings::default(),
            guides: GuideSettings::default(),
            smart_guides: SmartGuideSettings::default(),
            rulers: RulerSettings::default(),
            layers: PaintDocument::default_layers(),
            active_layer_id: DEFAULT_LAYER_ID,
            next_layer_id: DEFAULT_LAYER_ID + 1,
        }
    }
}

} // verus!

verus! {

/// Largest layer id, or the default id when there are no layers.
fn max_id_of(layers: &Vec<PaintLayer>) -> (m: LayerId)
    ensures
        m == max_layer_id(layers_view(layers@)),
{
    let ghost v = layers_view(layers@);
    if layers.len() == 0 {
        return DEFAULT_LAYER_ID;
    }
    let mut m = layers[0].id;
    let mut i: usize = 1;
    assert(v.take(1).drop_last() =~= Seq::<LayerView>::empty());
    while i < layers.len()
        invariant
            1 <= i <= layers.len(),
            v == layers_view(layers@),
            m == max_layer_id(v.take(i as int)),
        decreases layers.len() - i,
    {
        assert(v.take(i + 1).drop_last() =~= v.take(i as int));
        if layers[i].id > m {
            m = layers[i].id;
        }
        i += 1;
    }
    assert(v.take(layers.len() as int) =~= v);
    m
}

impl PaintDocument {
    /// Repairs a loaded or replaced drawing: no layers becomes the default layer, an
    /// active id naming no layer falls back to the top layer, the next layer id is raised
    /// above every existing id, the grid spacing is raised to at least 8, and the guides
    /// are clamped into the canvas and ordered, horizontal first, then by position.
    pub fn sanitize_in_place(&mut self)
        requires
            ids_below_max(old(self)@.layers),
            layout_repairable(old(self)@),
        ensures
            final(self)@ == repaired(old(self)@),
            layers_well_formed(final(self)@),
            layout_repairable(final(self)@),
            layout_repaired(final(self)@),
            !bits_is_nan(final(self)@.grid.spacing.bits),
            !bits_less(final(self)@.grid.spacing.bits, MIN_GRID_SPACING_BITS),
            guides_in_order(final(self)@.guides.lines),
    {
        assert(!bits_is_nan(MIN_GRID_SPACING_BITS)) by (bit_vector);
        proof {
            lemma_repaired_guides_once(old(self)@.canvas_size, old(self)@.guides.lines);
        }
        if !self.grid.spacing.at_least(Scalar::from_bits(MIN_GRID_SPACING_BITS)) {
            self.grid.spacing = Scalar::from_bits(MIN_GRID_SPACING_BITS);
        }
        let lines = repair_guides(self.canvas_size, &self.guides.lines);
        self.guides.lines = lines;
        let ghost mid = self@;
        self.sanitize_layers();
        assert(self@ =~= repaired(old(self)@));
    }

    fn sanitize_layers(&mut self)
        requires
            ids_below_max(old(self)@.layers),
        ensures
            final(self)@ == sanitized_layers(old(self)@),
            layers_well_formed(final(self)@),
    {
        if self.layers.len() == 0 {
            self.layers = PaintDocument::default_layers();
        }
        let ghost layers = self@.layers;
        let max_id = max_id_of(&self.layers);
        proof {
            lemma_max_layer_id(layers);
            if old(self)@.layers.len() == 0 {
                assert(layers[0].id == DEFAULT_LAYER_ID);
            }
        }
        if find_layer(&self.layers, self.active_layer_id).is_none() {
            let last = self.layers.len() - 1;
            self.active_layer_id = self.layers[last].id;
            assert(layers[last as int].id == self.active_layer_id);
        }
        if self.next_layer_id <= max_id {
            self.next_layer_id = max_id + 1;
        }
        assert(self@ == sanitized_layers(old(self)@));
    }

    /// The drawing repaired (see `sanitize_in_place`).
    pub fn sanitized(self) -> (r: Self)
        requires
            ids_below_max(self@.layers),
            layout_repairable(self@),
        ensures
            r@ == repaired(self@),
            layers_well_formed(r@),
            layout_repairable(r@),
            layout_repaired(r@),
    {
        let mut d = self;
        d.sanitize_in_place();
        d
    }

    /// The positions aligning or distributing works on: the distinct selected positions of
    /// an editable active layer when there are at least `minimum` of them (two to align,
    /// three to distribute); `None` otherwise.
    pub fn arrangeable_indices(&self, indices: &[usize], minimum: usize) -> (r: Option<Vec<usize>>)
        ensures
            r is Some <==> (self.active_position() matches Some(a) && self@.layers[a].is_editable()
                && normalized(indices@, active_elements(self@).len()).len() >= minimum),
            r matches Some(v) ==> v@ == normalized(indices@, active_elements(self@).len()),
    {
        if !self.active_layer_is_editable() {
            return None;
        }
        let n = self.element_count();
        let v = normalize_indices(indices, n);
        if v.len() < minimum {
            None
        } else {
            Some(v)
        }
    }

    /// Whether the layout aids can be repaired; see `layout_repairable`.
    pub fn layout_is_repairable(&self) -> (r: bool)
        ensures
            r == layout_repairable(self@),
    {
        let canvas = self.canvas_size;
        let lines = &self.guides.lines;
        let ghost c = lines@.map_values(|g: GuideLine| clamped_guide(canvas, g));
        let mut clamped: Vec<GuideLine> = Vec::new();
        let mut i: usize = 0;
        while i < lines.len()
            invariant
                i <= lines.len(),
                self@.guides.lines == lines@,
                canvas == self@.canvas_size,
                c == lines@.map_values(|g: GuideLine| clamped_guide(canvas, g)),
                clamped@ == c.take(i as int),
                guide_extents_fit(canvas, lines@.take(i as int)),
            decreases lines.len() - i,
        {
            let g = lines[i];
            let extent = match g.axis {
                GuideAxis::Horizontal => canvas.height,
                GuideAxis::Vertical => canvas.width,
            };
            if !extent.at_least(Scalar::zero()) {
                assert(!guide_extents_fit(canvas, lines@)) by {
                    assert(lines@[i as int] == g);
                }
                return false;
            }
            clamped.push(clamp_guide(canvas, g));
            proof {
                assert(clamped@ =~= c.take(i + 1));
                assert forall|j: int| 0 <= j < i + 1 implies bits_at_least(
                    guide_extent(canvas, (#[trigger] lines@.take(i + 1)[j]).axis).bits,
                    0,
                ) by {
                    if j < i {
                        assert(lines@.take(i + 1)[j] == lines@.take(i as int)[j]);
                    }
                }
            }
            i += 1;
        }
        proof {
            assert(clamped@ =~= c);
            assert(lines@.take(lines@.len() as int) =~= lines@);
        }
        let mut nan_h = false;
        let mut nan_v = false;
        let mut k: usize = 0;
        while k < clamped.len()
            invariant
                k <= clamped.len(),
                clamped@ == c,
                nan_h == exists|m: int|
                    0 <= m < k && bits_is_nan((#[trigger] c[m]).position.bits) && c[m].axis
                        == GuideAxis::Horizontal,
                nan_v == exists|m: int|
                    0 <= m < k && bits_is_nan((#[trigger] c[m]).position.bits) && c[m].axis
                        == GuideAxis::Vertical,
            decreases clamped.len() - k,
        {
            if clamped[k].position.is_nan() {
                match clamped[k].axis {
                    GuideAxis::Horizontal => {
                        nan_h = true;
                    },
                    GuideAxis::Vertical => {
                        nan_v = true;
                    },
                }
            }
            k += 1;
        }
        let mut j: usize = 0;
        while j < clamped.len()
            invariant
                j <= clamped.len(),
                clamped@ == c,
                guide_extents_fit(canvas, lines@),
                self@.guides.lines == lines@,
                canvas == self@.canvas_size,
                c == lines@.map_values(|g: GuideLine| clamped_guide(canvas, g)),
                nan_h == exists|m: int|
                    0 <= m < c.len() && bits_is_nan((#[trigger] c[m]).position.bits) && c[m].axis
                        == GuideAxis::Horizontal,
                nan_v == exists|m: int|
                    0 <= m < c.len() && bits_is_nan((#[trigger] c[m]).position.bits) && c[m].axis
                        == GuideAxis::Vertical,
                forall|a: int, b: int|
                    0 <= a < j && 0 <= b < c.len() ==> !small_pair_conflict(c, nan_h, nan_v, a, b),
            decreases clamped.len() - j,
        {
            let mut l: usize = 0;
            while l < clamped.len()
                invariant
                    j < clamped.len(),
                    l <= clamped.len(),
                    clamped@ == c,
                    self@.guides.lines == lines@,
                    canvas == self@.canvas_size,
                    c == lines@.map_values(|g: GuideLine| clamped_guide(canvas, g)),
                    guide_extents_fit(canvas, lines@),
                    nan_h == exists|m: int|
                        0 <= m < c.len() && bits_is_nan((#[trigger] c[m]).position.bits) && c[m].axis
                            == GuideAxis::Horizontal,
                    nan_v == exists|m: int|
                        0 <= m < c.len() && bits_is_nan((#[trigger] c[m]).position.bits) && c[m].axis
                            == GuideAxis::Vertical,
                    forall|b: int| 0 <= b < l ==> !small_pair_conflict(c, nan_h, nan_v, j as int, b),
                decreases clamped.len() - l,
            {
                let x = clamped[j];
                let y = clamped[l];
                let nan_here = match x.axis {
                    GuideAxis::Horizontal => nan_h,
                    GuideAxis::Vertical => nan_v,
                };
                if x.axis == y.axis && nan_here && !x.position.is_nan() && !y.position.is_nan()
                    && hundredths_sign_of(x.position) == 0 && hundredths_sign_of(y.position) == 0
                    && x.position.less_than(y.position) {
                    proof {
                        assert(small_pair_conflict(c, nan_h, nan_v, j as int, l as int));
                        let m = if x.axis == GuideAxis::Horizontal {
                            choose|m: int|
                                0 <= m < c.len() && bits_is_nan((#[trigger] c[m]).position.bits)
                                    && c[m].axis == GuideAxis::Horizontal
                        } else {
                            choose|m: int|
                                0 <= m < c.len() && bits_is_nan((#[trigger] c[m]).position.bits)
                                    && c[m].axis == GuideAxis::Vertical
                        };
                        assert(bits_is_nan(c[m].position.bits) && c[j as int].axis == c[m].axis
                            && c[l as int].axis == c[m].axis);
                        assert(!guides_sortable(c));
                    }
                    return false;
                }
                l += 1;
            }
            j += 1;
        }
        proof {
            assert forall|a: int, b: int, e: int|
                0 <= a < c.len() && 0 <= b < c.len() && 0 <= e < c.len() && bits_is_nan(
                    (#[trigger] c[a]).position.bits,
                ) && (#[trigger] c[b]).axis == c[a].axis && (#[trigger] c[e]).axis == c[a].axis
                    && !bits_is_nan(c[b].position.bits) && !bits_is_nan(c[e].position.bits)
                    && hundredths_sign(c[b].position.bits) == 0 && hundredths_sign(
                    c[e].position.bits,
                ) == 0 implies !bits_less(c[b].position.bits, c[e].position.bits) by {
                assert(!small_pair_conflict(c, nan_h, nan_v, b, e));
            }
        }
        true
    }

    /// Whether every layer id leaves room for a larger one, which repairing the layer
    /// structure needs.
    pub fn layer_ids_below_max(&self) -> (r: bool)
        ensures
            r == ids_below_max(self@.layers),
    {
        let mut i: usize = 0;
        while i < self.layers.len()
            invariant
                i <= self.layers.len(),
                self@.layers.len() == self.layers.len(),
                forall|j: int| 0 <= j < i ==> #[trigger] self@.layers[j].id < u64::MAX,
            decreases self.layers.len() - i,
        {
            if self.layers[i].id == u64::MAX {
                assert(self@.layers[i as int].id == u64::MAX);
                return false;
            }
            i += 1;
        }
        true
    }

    pub fn has_elements(&self) -> (r: bool)
        ensures
            r == exists|i: int|
                0 <= i < self@.layers.len() && #[trigger] self@.layers[i].elements.len() > 0,
    {
        let mut i: usize = 0;
        while i < self.layers.len()
            invariant
                i <= self.layers.len(),
                forall|j: int| 0 <= j < i ==> #[trigger] self@.layers[j].elements.len() == 0,
            decreases self.layers.len() - i,
        {
            if self.layers[i].elements.len() > 0 {
                assert(self@.layers[i as int].elements.len() > 0);
                return true;
            }
            i += 1;
        }
        false
    }

    /// Same as `has_elements`.
    pub fn has_strokes(&self) -> (r: bool)
        ensures
            r == exists|i: int|
                0 <= i < self@.layers.len() && #[trigger] self@.layers[i].elements.len() > 0,
    {
        self.has_elements()
    }

    pub fn grid(&self) -> (r: GridSettings)
        ensures
            r == self.grid,
    {
        self.grid
    }

    pub fn guides(&self) -> (r: &GuideSettings)
        ensures
            r@ == self@.guides,
    {
        &self.guides
    }

    pub fn smart_guides(&self) -> (r: SmartGuideSettings)
        ensures
            r == self.smart_guides,
    {
        self.smart_guides
    }

    pub fn rulers(&self) -> (r: RulerSettings)
        ensures
            r == self.rulers,
    {
        self.rulers
    }

    pub fn layer_count(&self) -> (r: usize)
        ensures
            r == self@.layers.len(),
    {
        self.layers.len()
    }

    pub fn layers(&self) -> (r: &[PaintLayer])
        ensures
            layers_view(r@) == self@.layers,
    {
        self.layers.as_slice()
    }

    pub fn active_layer_id(&self) -> (r: LayerId)
        ensures
            r == self.active_layer_id,
    {
        self.active_layer_id
    }

    fn layer_index(&self, layer_id: LayerId) -> (r: Option<usize>)
        ensures
            r matches Some(i) ==> layer_position(self@.layers, layer_id) == Some(i as int),
            r is None ==> layer_position(self@.layers, layer_id) is None,
    {
        find_layer(&self.layers, layer_id)
    }

    /// Position of the active layer.
    pub fn active_layer_index(&self) -> (r: Option<usize>)
        ensures
            r matches Some(i) ==> self.active_position() == Some(i as int),
            r is None ==> self.active_position() is None,
    {
        self.layer_index(self.active_layer_id)
    }

    /// The first layer with the given id.
    pub fn layer(&self, layer_id: LayerId) -> (r: Option<&PaintLayer>)
        ensures
            r matches Some(l) ==> (layer_position(self@.layers, layer_id) matches Some(i)
                && l@ == self@.layers[i]),
            r is None ==> layer_position(self@.layers, layer_id) is None,
    {
        match self.layer_index(layer_id) {
            Some(i) => Some(&self.layers[i]),
            None => None,
        }
    }

    pub fn active_layer(&self) -> (r: Option<&PaintLayer>)
        ensures
            r matches Some(l) ==> (self.active_position() matches Some(i) && l@
                == self@.layers[i]),
            r is None ==> self.active_position() is None,
    {
        self.layer(self.active_layer_id)
    }

    /// Number of elements on the active layer.
    pub fn element_count(&self) -> (r: usize)
        ensures
            r == (match self.active_position() {
                Some(i) => self@.layers[i].elements.len(),
                None => 0,
            }),
    {
        match self.active_layer() {
            Some(layer) => layer.elements.len(),
            None => 0,
        }
    }

    /// Same as `element_count`.
    pub fn stroke_count(&self) -> (r: usize)
        ensures
            r == (match self.active_position() {
                Some(i) => self@.layers[i].elements.len(),
                None => 0,
            }),
    {
        self.element_count()
    }

    pub fn active_layer_is_editable(&self) -> (r: bool)
        ensures
            r == (match self.active_position() {
                Some(i) => self@.layers[i].is_editable(),
                None => false,
            }),
    {
        match self.active_layer() {
            Some(layer) => layer.is_editable(),
            None => false,
        }
    }

    pub fn layer_is_editable(&self, layer_id: LayerId) -> (r: bool)
        ensures
            r == (match layer_position(self@.layers, layer_id) {
                Some(i) => self@.layers[i].is_editable(),
                None => false,
            }),
    {
        match self.layer(layer_id) {
            Some(layer) => layer.is_editable(),
            None => false,
        }
    }

    /// Makes the layer active when it exists; reports whether it does.
    pub fn set_active_layer(&mut self, layer_id: LayerId) -> (r: bool)
        ensures
            r == has_layer(old(self)@.layers, layer_id),
            r ==> final(self)@ == (DocumentView { active_layer_id: layer_id, ..old(self)@ }),
            !r ==> final(self)@ == old(self)@,
    {
        match find_layer(&self.layers, layer_id) {
            Some(_) => {
                self.active_layer_id = layer_id;
                true
            },
            None => false,
        }
    }

    /// The element at `index` of the active layer.
    pub fn element(&self, index: usize) -> (r: Option<&PaintElement>)
        ensures
            r matches Some(e) ==> (self.active_position() matches Some(i) && index
                < self@.layers[i].elements.len() && e.view() == self@.layers[i].elements[index as int]),
            r is None ==> (match self.active_position() {
                Some(i) => index >= self@.layers[i].elements.len(),
                None => true,
            }),
    {
        match self.active_layer() {
            Some(layer) => {
                if index < layer.elements.len() {
                    Some(&layer.elements[index as usize])
                } else {
                    None
                }
            },
            None => None,
        }
    }
}

} // verus!

verus! {

/// The drawing with layer `i` replaced.
pub open spec fn with_layer(d: DocumentView, i: int, l: LayerView) -> DocumentView {
    DocumentView { layers: d.layers.update(i, l), ..d }
}

/// The drawing with the elements of layer `i` replaced.
pub open spec fn with_layer_elements(d: DocumentView, i: int, e: Seq<ElementView>) -> DocumentView {
    with_layer(d, i, LayerView { elements: e, ..d.layers[i] })
}

impl PaintDocument {
    /// Takes layer `i` out, leaving an empty placeholder.
    fn take_layer(&mut self, i: usize) -> (l: PaintLayer)
        requires
            i < old(self).layers.len(),
        ensures
            l@ == old(self)@.layers[i as int],
            final(self).layers@.len() == old(self).layers@.len(),
            forall|j: int|
                0 <= j < old(self).layers@.len() && j != i ==> final(self)@.layers[j] == old(
                    self,
                )@.layers[j],
            final(self)@ == (DocumentView { layers: final(self)@.layers, ..old(self)@ }),
    {
        let mut l = PaintLayer::new(0, String::new());
        self.layers.set_and_swap(i, &mut l);
        l
    }

    /// Puts layer `l` at position `i`.
    fn put_layer(&mut self, i: usize, l: PaintLayer)
        requires
            i < old(self).layers.len(),
        ensures
            final(self).layers@.len() == old(self).layers@.len(),
            final(self)@.layers == old(self)@.layers.update(i as int, l@),
            final(self)@ == (DocumentView { layers: final(self)@.layers, ..old(self)@ }),
    {
        self.layers.set(i, l);
        assert(layers_view(self.layers@) =~= old(self)@.layers.update(i as int, l@));
    }

    /// Appends an element to the active layer; nothing happens without one.
    pub fn push_element(&mut self, element: PaintElement)
        ensures
            final(self)@ == (match old(self).active_position() {
                Some(i) => with_layer_elements(
                    old(self)@,
                    i,
                    old(self)@.layers[i].elements.push(element.view()),
                ),
                None => old(self)@,
            }),
    {
        match self.active_layer_index() {
            Some(i) => {
                let ghost before = self@;
                let mut layer = self.take_layer(i);
                let ghost old_elements = layer.elements@;
                layer.elements.push(element);
                assert(elements_view(layer.elements@) =~= elements_view(old_elements).push(
                    element.view(),
                ));
                self.put_layer(i, layer);
                assert(self@.layers =~= before.layers.update(
                    i as int,
                    LayerView {
                        elements: before.layers[i as int].elements.push(element.view()),
                        ..before.layers[i as int]
                    },
                ));
            },
            None => {},
        }
    }

    pub fn push_stroke(&mut self, stroke: Stroke)
        ensures
            final(self)@ == (match old(self).active_position() {
                Some(i) => with_layer_elements(
                    old(self)@,
                    i,
                    old(self)@.layers[i].elements.push(PaintElement::Stroke(stroke).view()),
                ),
                None => old(self)@,
            }),
    {
        self.push_element(PaintElement::Stroke(stroke));
    }

    pub fn push_shape(&mut self, shape: ShapeElement)
        ensures
            final(self)@ == (match old(self).active_position() {
                Some(i) => with_layer_elements(
                    old(self)@,
                    i,
                    old(self)@.layers[i].elements.push(ElementView::Shape(shape)),
                ),
                None => old(self)@,
            }),
    {
        self.push_element(PaintElement::Shape(shape));
    }

    pub fn push_fill(&mut self, fill: FillElement)
        ensures
            final(self)@ == (match old(self).active_position() {
                Some(i) => with_layer_elements(
                    old(self)@,
                    i,
                    old(self)@.layers[i].elements.push(ElementView::Fill(fill@)),
                ),
                None => old(self)@,
            }),
    {
        self.push_element(PaintElement::Fill(fill));
    }

    /// Replaces the element at `index` of the active layer; reports whether it existed.
    pub fn replace_element(&mut self, index: usize, element: PaintElement) -> (r: bool)
        ensures
            r == (match old(self).active_position() {
                Some(i) => index < old(self)@.layers[i].elements.len(),
                None => false,
            }),
            r ==> final(self)@ == with_layer_elements(
                old(self)@,
                old(self).active_position()->Some_0,
                old(self)@.layers[old(self).active_position()->Some_0].elements.update(
                    index as int,
                    element.view(),
                ),
            ),
            !r ==> final(self)@ == old(self)@,
    {
        match self.active_layer_index() {
            Some(i) => {
                if index >= self.layers[i].elements.len() {
                    return false;
                }
                let ghost before = self@;
                assert(before.layers[i as int].elements.len() == self.layers@[i as int].elements@.len());
                let mut layer = self.take_layer(i);
                let ghost old_elements = layer.elements@;
                assert(elements_view(old_elements).len() == old_elements.len());
                layer.elements.set(index, element);
                assert(elements_view(layer.elements@) =~= elements_view(old_elements).update(
                    index as int,
                    element.view(),
                ));
                self.put_layer(i, layer);
                assert(self@.layers =~= before.layers.update(
                    i as int,
                    LayerView {
                        elements: before.layers[i as int].elements.update(
                            index as int,
                            element.view(),
                        ),
                        ..before.layers[i as int]
                    },
                ));
                true
            },
            None => false,
        }
    }
}

} // verus!

verus! {

/// The id a new layer receives: the next id, raised above every existing id.
pub open spec fn fresh_layer_id(d: DocumentView) -> LayerId {
    let above = (max_layer_id(d.layers) + 1) as u64;
    if d.next_layer_id >= above {
        d.next_layer_id
    } else {
        above
    }
}

/// Ids stay below `u64::MAX` after a new layer takes a fresh id.
pub open spec fn can_add_layer(d: DocumentView) -> bool {
    max_layer_id(d.layers) + 1 < u64::MAX && d.next_layer_id < u64::MAX && d.layers.len()
        < usize::MAX
}

/// Name of the `n`-th layer: "レイヤー n".
pub open spec fn numbered_layer_name(n: nat) -> Seq<char> {
    "レイヤー "@ + decimal_chars(n)
}

pub open spec fn copy_name(name: Seq<char>) -> Seq<char> {
    name + " のコピー"@
}

pub open spec fn swap_layers(layers: Seq<LayerView>, a: int, b: int) -> Seq<LayerView> {
    layers.update(a, layers[b]).update(b, layers[a])
}

/// `d` with a new empty top layer "レイヤー n" (n = the new layer count) under a fresh
/// id, made active.
pub open spec fn added_layer(d: DocumentView) -> DocumentView {
    let id = fresh_layer_id(d);
    DocumentView {
        layers: d.layers.push(
            LayerView {
                id,
                name: numbered_layer_name(d.layers.len() + 1),
                visible: true,
                locked: false,
                elements: Seq::empty(),
            },
        ),
        active_layer_id: id,
        next_layer_id: (id + 1) as u64,
        ..d
    }
}

/// `d` without its active layer, the one below it (or the new bottom one) made active;
/// `None` when one layer is left or none is active.
pub open spec fn deleted_active_layer(d: DocumentView) -> Option<DocumentView> {
    match layer_position(d.layers, d.active_layer_id) {
        Some(i) => if d.layers.len() > 1 {
            let rest = d.layers.remove(i);
            let fallback = if i == 0 {
                0
            } else {
                i - 1
            };
            Some(DocumentView { layers: rest, active_layer_id: rest[fallback].id, ..d })
        } else {
            None
        },
        None => None,
    }
}

/// `d` with the first layer `id` shown if hidden and hidden if shown.
pub open spec fn toggled_visibility(d: DocumentView, id: LayerId) -> Option<DocumentView> {
    match layer_position(d.layers, id) {
        Some(i) => Some(
            with_layer(d, i, LayerView { visible: !d.layers[i].visible, ..d.layers[i] }),
        ),
        None => None,
    }
}

/// `d` with the first layer `id` locked if unlocked and unlocked if locked.
pub open spec fn toggled_locked(d: DocumentView, id: LayerId) -> Option<DocumentView> {
    match layer_position(d.layers, id) {
        Some(i) => Some(with_layer(d, i, LayerView { locked: !d.layers[i].locked, ..d.layers[i] })),
        None => None,
    }
}

/// `d` with the first layer `id` and the layer above it trading places.
pub open spec fn moved_layer_up(d: DocumentView, id: LayerId) -> Option<DocumentView> {
    match layer_position(d.layers, id) {
        Some(i) => if i + 1 < d.layers.len() {
            Some(DocumentView { layers: swap_layers(d.layers, i, i + 1), ..d })
        } else {
            None
        },
        None => None,
    }
}

/// `d` with the first layer `id` and the layer below it trading places.
pub open spec fn moved_layer_down(d: DocumentView, id: LayerId) -> Option<DocumentView> {
    match layer_position(d.layers, id) {
        Some(i) => if i > 0 {
            Some(DocumentView { layers: swap_layers(d.layers, i - 1, i), ..d })
        } else {
            None
        },
        None => None,
    }
}

impl PaintDocument {
    fn fresh_id(&self) -> (id: LayerId)
        requires
            can_add_layer(self@),
        ensures
            id == fresh_layer_id(self@),
            forall|i: int| 0 <= i < self@.layers.len() ==> #[trigger] self@.layers[i].id < id,
            id < u64::MAX,
    {
        let max_id = max_id_of(&self.layers);
        proof {
            lemma_max_layer_id(self@.layers);
        }
        let above = max_id + 1;
        if self.next_layer_id >= above {
            self.next_layer_id
        } else {
            above
        }
    }

    fn swap_layer_positions(&mut self, a: usize, b: usize)
        requires
            a < old(self).layers.len(),
            b < old(self).layers.len(),
            a != b,
        ensures
            final(self)@ == (DocumentView {
                layers: swap_layers(old(self)@.layers, a as int, b as int),
                ..old(self)@
            }),
    {
        let ghost before = self@;
        let la = self.take_layer(a);
        let lb = self.take_layer(b);
        self.put_layer(a, lb);
        self.put_layer(b, la);
        assert(self@.layers =~= swap_layers(before.layers, a as int, b as int));
    }

    /// A copy with a new empty top layer "レイヤー n" (n = layer count), made active.
    /// The new id is above every existing id.
    pub fn add_layer_document(&self) -> (r: (Self, LayerId))
        requires
            can_add_layer(self@),
        ensures
            r.1 == fresh_layer_id(self@),
            forall|i: int| 0 <= i < self@.layers.len() ==> #[trigger] self@.layers[i].id < r.1,
            r.0@ == added_layer(self@),
    {
        let mut next = self.deep_copy();
        let new_id = self.fresh_id();
        let mut name = string_of("レイヤー ");
        push_decimal(&mut name, (self.layers.len() + 1) as u64);
        let layer = PaintLayer::new(new_id, name);
        let ghost before = next@;
        next.layers.push(layer);
        assert(next@.layers =~= before.layers.push(layer@));
        next.active_layer_id = new_id;
        next.next_layer_id = new_id + 1;
        (next, new_id)
    }

    /// A copy in which the active layer is duplicated right above itself as a visible,
    /// unlocked layer "name のコピー" with a fresh id, made active; `None` when no layer
    /// is active.
    pub fn duplicate_active_layer_document(&self) -> (r: Option<(Self, LayerId)>)
        requires
            can_add_layer(self@),
        ensures
            r is Some <==> self.active_position() is Some,
            r matches Some((d, id)) ==> ({
                let i = self.active_position()->Some_0;
                &&& id == fresh_layer_id(self@)
                &&& forall|k: int| 0 <= k < self@.layers.len() ==> #[trigger] self@.layers[k].id < id
                &&& d@ == (DocumentView {
                    layers: self@.layers.insert(
                        i + 1,
                        LayerView {
                            id,
                            name: copy_name(self@.layers[i].name),
                            visible: true,
                            locked: false,
                            ..self@.layers[i]
                        },
                    ),
                    active_layer_id: id,
                    next_layer_id: (id + 1) as u64,
                    ..self@
                })
            }),
    {
        let active_index = match self.active_layer_index() {
            Some(i) => i,
            None => return None,
        };
        let mut next = self.deep_copy();
        let new_id = self.fresh_id();
        let mut duplicated = self.layers[active_index].deep_copy();
        duplicated.id = new_id;
        duplicated.name.append(" のコピー");
        duplicated.visible = true;
        duplicated.locked = false;
        let ghost before = next@;
        next.layers.insert(active_index + 1, duplicated);
        assert(next@.layers =~= before.layers.insert(active_index + 1, duplicated@));
        next.active_layer_id = new_id;
        next.next_layer_id = new_id + 1;
        Some((next, new_id))
    }

    /// A copy without the active layer; the layer below it (or the new bottom layer)
    /// becomes active. `None` when only one layer is left or none is active.
    pub fn delete_active_layer_document(&self) -> (r: Option<(Self, LayerId)>)
        ensures
            r is Some <==> deleted_active_layer(self@) is Some,
            r matches Some((d, id)) ==> Some(d@) == deleted_active_layer(self@) && id
                == d@.active_layer_id,
    {
        if self.layers.len() <= 1 {
            return None;
        }
        let active_index = match self.active_layer_index() {
            Some(i) => i,
            None => return None,
        };
        let mut next = self.deep_copy();
        let ghost before = next@;
        let _removed = next.layers.remove(active_index);
        assert(next@.layers =~= before.layers.remove(active_index as int));
        let fallback_index = if active_index == 0 {
            0
        } else {
            active_index - 1
        };
        let next_active = next.layers[fallback_index].id;
        next.active_layer_id = next_active;
        Some((next, next_active))
    }

    /// A copy in which the first layer with `layer_id` is renamed to `name` without
    /// surrounding white space; `None` when that is empty, the layer does not exist, or
    /// the name is unchanged.
    pub fn renamed_layer_document(&self, layer_id: LayerId, name: &str) -> (r: Option<Self>)
        ensures
            r is Some <==> (trimmed(name@).len() > 0 && (layer_position(self@.layers, layer_id) matches Some(i)
                && self@.layers[i].name != trimmed(name@))),
            r matches Some(d) ==> ({
                let i = layer_position(self@.layers, layer_id)->Some_0;
                d@ == with_layer(self@, i, LayerView { name: trimmed(name@), ..self@.layers[i] })
            }),
    {
        let next_name = trim(name);
        if next_name.unicode_len() == 0 {
            return None;
        }
        let index = match self.layer_index(layer_id) {
            Some(i) => i,
            None => return None,
        };
        if self.layers[index].name == next_name {
            return None;
        }
        let mut next = self.deep_copy();
        let mut layer = next.take_layer(index);
        layer.name = next_name;
        next.put_layer(index, layer);
        assert(next@.layers =~= self@.layers.update(
            index as int,
            LayerView { name: trimmed(name@), ..self@.layers[index as int] },
        ));
        Some(next)
    }

    /// A copy in which the first layer with `layer_id` is shown if hidden and hidden
    /// if shown; `None` when there is no such layer.
    pub fn toggled_layer_visibility_document(&self, layer_id: LayerId) -> (r: Option<Self>)
        ensures
            r is Some <==> toggled_visibility(self@, layer_id) is Some,
            r matches Some(d) ==> Some(d@) == toggled_visibility(self@, layer_id),
    {
        let index = match self.layer_index(layer_id) {
            Some(i) => i,
            None => return None,
        };
        let mut next = self.deep_copy();
        let mut layer = next.take_layer(index);
        layer.visible = !layer.visible;
        next.put_layer(index, layer);
        assert(next@.layers =~= self@.layers.update(
            index as int,
            LayerView { visible: !self@.layers[index as int].visible, ..self@.layers[index as int] },
        ));
        Some(next)
    }

    /// A copy in which the first layer with `layer_id` is locked if unlocked and
    /// unlocked if locked; `None` when there is no such layer.
    pub fn toggled_layer_locked_document(&self, layer_id: LayerId) -> (r: Option<Self>)
        ensures
            r is Some <==> toggled_locked(self@, layer_id) is Some,
            r matches Some(d) ==> Some(d@) == toggled_locked(self@, layer_id),
    {
        let index = match self.layer_index(layer_id) {
            Some(i) => i,
            None => return None,
        };
        let mut next = self.deep_copy();
        let mut layer = next.take_layer(index);
        layer.locked = !layer.locked;
        next.put_layer(index, layer);
        assert(next@.layers =~= self@.layers.update(
            index as int,
            LayerView { locked: !self@.layers[index as int].locked, ..self@.layers[index as int] },
        ));
        Some(next)
    }

    /// A copy in which the first layer with `layer_id` trades places with the layer
    /// above it; `None` when there is no such layer or it is on top.
    pub fn moved_layer_up_document(&self, layer_id: LayerId) -> (r: Option<Self>)
        ensures
            r is Some <==> moved_layer_up(self@, layer_id) is Some,
            r matches Some(d) ==> Some(d@) == moved_layer_up(self@, layer_id),
    {
        let index = match self.layer_index(layer_id) {
            Some(i) => i,
            None => return None,
        };
        if index >= self.layers.len() - 1 {
            return None;
        }
        let mut next = self.deep_copy();
        next.swap_layer_positions(index, index + 1);
        Some(next)
    }

    /// A copy in which the first layer with `layer_id` trades places with the layer
    /// below it; `None` when there is no such layer or it is at the bottom.
    pub fn moved_layer_down_document(&self, layer_id: LayerId) -> (r: Option<Self>)
        ensures
            r is Some <==> moved_layer_down(self@, layer_id) is Some,
            r matches Some(d) ==> Some(d@) == moved_layer_down(self@, layer_id),
    {
        let index = match self.layer_index(layer_id) {
            Some(i) => i,
            None => return None,
        };
        if index == 0 {
            return None;
        }
        let mut next = self.deep_copy();
        next.swap_layer_positions(index - 1, index);
        Some(next)
    }
}

} // verus!

verus! {

impl PaintDocument {
    /// A copy with the grid shown if hidden and hidden if shown (always a change).
    pub fn toggled_grid_visibility_document(&self) -> (r: Option<Self>)
        ensures
            r matches Some(d) && d@ == (DocumentView {
                grid: GridSettings { visible: !self.grid.visible, ..self.grid },
                ..self@
            }),
    {
        let mut next = self.deep_copy();
        next.grid.visible = !next.grid.visible;
        Some(next)
    }

    /// A copy with snapping to the grid switched (always a change).
    pub fn toggled_grid_snap_document(&self) -> (r: Option<Self>)
        ensures
            r matches Some(d) && d@ == (DocumentView {
                grid: GridSettings { snap_enabled: !self.grid.snap_enabled, ..self.grid },
                ..self@
            }),
    {
        let mut next = self.deep_copy();
        next.grid.snap_enabled = !next.grid.snap_enabled;
        Some(next)
    }

    /// A copy with the guides shown if hidden and hidden if shown (always a change).
    pub fn toggled_guides_visibility_document(&self) -> (r: Option<Self>)
        ensures
            r matches Some(d) && d@ == (DocumentView {
                guides: GuideSettingsView { visible: !self@.guides.visible, ..self@.guides },
                ..self@
            }),
    {
        let mut next = self.deep_copy();
        next.guides.visible = !next.guides.visible;
        Some(next)
    }

    /// A copy with snapping to guides switched (always a change).
    pub fn toggled_guides_snap_document(&self) -> (r: Option<Self>)
        ensures
            r matches Some(d) && d@ == (DocumentView {
                guides: GuideSettingsView {
                    snap_enabled: !self@.guides.snap_enabled,
                    ..self@.guides
                },
                ..self@
            }),
    {
        let mut next = self.deep_copy();
        next.guides.snap_enabled = !next.guides.snap_enabled;
        Some(next)
    }

    /// A copy with smart guides switched (always a change).
    pub fn toggled_smart_guides_visibility_document(&self) -> (r: Option<Self>)
        ensures
            r matches Some(d) && d@ == (DocumentView {
                smart_guides: SmartGuideSettings { visible: !self.smart_guides.visible },
                ..self@
            }),
    {
        let mut next = self.deep_copy();
        next.smart_guides.visible = !next.smart_guides.visible;
        Some(next)
    }

    /// A copy with the rulers switched (always a change).
    pub fn toggled_rulers_visibility_document(&self) -> (r: Option<Self>)
        ensures
            r matches Some(d) && d@ == (DocumentView {
                rulers: RulerSettings { visible: !self.rulers.visible },
                ..self@
            }),
    {
        let mut next = self.deep_copy();
        next.rulers.visible = !next.rulers.visible;
        Some(next)
    }

    /// A copy without guide `index`; `None` when there is no such guide.
    pub fn remove_guide_document(&self, index: usize) -> (r: Option<Self>)
        ensures
            r is Some <==> index < self@.guides.lines.len(),
            r matches Some(d) ==> d@ == (DocumentView {
                guides: GuideSettingsView {
                    lines: self@.guides.lines.remove(index as int),
                    ..self@.guides
                },
                ..self@
            }),
    {
        if index >= self.guides.lines.len() {
            return None;
        }
        let mut next = self.deep_copy();
        let _removed = next.guides.lines.remove(index);
        Some(next)
    }
}

} // verus!

verus! {

pub fn same_positions(a: &Vec<usize>, b: &Vec<usize>) -> (r: bool)
    ensures
        r == (a@ == b@),
{
    if a.len() != b.len() {
        return false;
    }
    let mut i: usize = 0;
    while i < a.len()
        invariant
            a.len() == b.len(),
            i <= a.len(),
            forall|j: int| 0 <= j < i ==> #[trigger] a@[j] == b@[j],
        decreases a.len() - i,
    {
        if a[i] != b[i] {
            return false;
        }
        i += 1;
    }
    assert(a@ =~= b@);
    true
}

/// The positions `start..start + len`.
pub fn position_range(start: usize, len: usize) -> (r: Vec<usize>)
    requires
        start + len <= usize::MAX,
    ensures
        r@ == range_seq(start as int, len as nat),
{
    let mut out: Vec<usize> = Vec::new();
    let mut k: usize = 0;
    while k < len
        invariant
            k <= len,
            start + len <= usize::MAX,
            out@ == range_seq(start as int, k as nat),
        decreases len - k,
    {
        out.push(start + k);
        k += 1;
        assert(out@ =~= range_seq(start as int, k as nat));
    }
    out
}

/// Elements of the active layer of `d`, if there is one.
pub open spec fn active_elements(d: DocumentView) -> Seq<ElementView> {
    match layer_position(d.layers, d.active_layer_id) {
        Some(i) => d.layers[i].elements,
        None => Seq::empty(),
    }
}

impl PaintDocument {
    /// A copy in which the elements of layer `i` are replaced.
    fn with_elements(&self, i: usize, elements: Vec<PaintElement>) -> (d: Self)
        requires
            i < self@.layers.len(),
        ensures
            d@ == with_layer_elements(self@, i as int, elements_view(elements@)),
    {
        let mut next = self.deep_copy();
        let mut layer = next.take_layer(i);
        layer.elements = elements;
        next.put_layer(i, layer);
        assert(next@.layers =~= self@.layers.update(
            i as int,
            LayerView { elements: elements_view(elements@), ..self@.layers[i as int] },
        ));
        next
    }

    /// Whether a selected element of the active layer is a group.
    pub fn selection_contains_group(&self, indices: &[usize]) -> (r: bool)
        ensures
            r == (self.active_position() is Some && has_flagged_group(
                active_elements(self@),
                flags_of(indices@, active_elements(self@).len()),
            )),
    {
        let a = match self.active_layer_index() {
            Some(a) => a,
            None => return false,
        };
        let layer = &self.layers[a];
        let ghost e = active_elements(self@);
        let flags = selection_flags(layer.elements.len(), indices);
        let mut i: usize = 0;
        while i < layer.elements.len()
            invariant
                i <= layer.elements.len(),
                e == elements_view(layer.elements@),
                e == active_elements(self@),
                self.active_position() is Some,
                flags@ == flags_of(indices@, e.len()),
                forall|j: int| 0 <= j < i ==> !(#[trigger] flags@[j] && e[j] is Group),
            decreases layer.elements.len() - i,
        {
            assert(e[i as int] == layer.elements@[i as int].view());
            if flags[i] && layer.elements[i].is_group() {
                assert(flags@[i as int] && e[i as int] is Group);
                assert(has_flagged_group(e, flags@));
                return true;
            }
            i += 1;
        }
        false
    }

    /// Gathers the selected elements of the active layer into one group placed where the
    /// first of them was; the group becomes the selection. `None` without an active layer,
    /// when it is hidden or locked, or with fewer than two selected elements.
    pub fn grouped_document(&self, indices: &[usize]) -> (r: Option<(Self, Vec<usize>)>)
        ensures
            r is Some <==> (self.active_position() matches Some(a) && self@.layers[a].is_editable() && normalized(
                indices@,
                active_elements(self@).len(),
            ).len() >= 2),
            r matches Some((d, s)) ==> ({
                let e = active_elements(self@);
                let f = flags_of(indices@, e.len());
                &&& d@ == with_layer_elements(
                    self@,
                    self.active_position()->Some_0,
                    grouped_elements(e, f),
                )
                &&& s@ == seq![normalized(indices@, e.len())[0]]
            }),
    {
        let a = match self.active_layer_index() {
            Some(a) => a,
            None => return None,
        };
        if !self.layers[a].is_editable() {
            return None;
        }
        let layer = &self.layers[a];
        let flags = selection_flags(layer.elements.len(), indices);
        let selected = selected_flags_to_indices(flags.as_slice());
        if selected.len() < 2 {
            return None;
        }
        let first = selected[0];
        let elements = group_flagged(&layer.elements, &flags, first);
        let next = self.with_elements(a, elements);
        let mut selection: Vec<usize> = Vec::new();
        selection.push(first);
        assert(selection@ =~= seq![first]);
        Some((next, selection))
    }

    /// Replaces each selected group of the active layer by its children, in place and
    /// in order; the children and the other selected elements become the selection.
    /// `None` without an active layer, when it is hidden or locked, or when no selected
    /// element is a group.
    pub fn ungrouped_document(&self, indices: &[usize]) -> (r: Option<(Self, Vec<usize>)>)
        ensures
            r is Some <==> (self.active_position() matches Some(a) && self@.layers[a].is_editable() && has_flagged_group(
                active_elements(self@),
                flags_of(indices@, active_elements(self@).len()),
            )),
            r matches Some((d, s)) ==> ({
                let e = active_elements(self@);
                let f = flags_of(indices@, e.len());
                &&& d@ == with_layer_elements(
                    self@,
                    self.active_position()->Some_0,
                    ungrouped_elements(e, f),
                )
                &&& s@ == ungrouped_selection(e, f)
            }),
    {
        let a = match self.active_layer_index() {
            Some(a) => a,
            None => return None,
        };
        if !self.layers[a].is_editable() {
            return None;
        }
        let layer = &self.layers[a];
        let flags = selection_flags(layer.elements.len(), indices);
        let (elements, selection, changed) = ungroup_flagged(&layer.elements, &flags);
        if !changed {
            return None;
        }
        let next = self.with_elements(a, elements);
        Some((next, selection))
    }
}

} // verus!

verus! {

/// Result of a stacking-order command on elements `e` with selection flags `f`: the new
/// element order and the new positions of the selected elements.
pub open spec fn reordered(e: Seq<ElementView>, f: Seq<bool>, command: StackOrderCommand) -> (
    Seq<ElementView>,
    Seq<usize>,
) {
    let selected = indices_of_flags(f);
    let others = indices_of_flags(negated(f));
    match command {
        StackOrderCommand::BringToFront => (
            pick(e, others) + pick(e, selected),
            range_seq(others.len() as int, selected.len()),
        ),
        StackOrderCommand::SendToBack => (
            pick(e, selected) + pick(e, others),
            range_seq(0, selected.len()),
        ),
        StackOrderCommand::BringForward => (
            pick(e, forward_order(f, 0)),
            indices_of_flags(pick(f, forward_order(f, 0))),
        ),
        StackOrderCommand::SendBackward => (
            pick(e, backward_order(f, 0)),
            indices_of_flags(pick(f, backward_order(f, 0))),
        ),
    }
}

/// Whether a stacking-order command moves anything.
pub open spec fn reorder_changes(f: Seq<bool>, command: StackOrderCommand) -> bool {
    let selected = indices_of_flags(f);
    let others = indices_of_flags(negated(f));
    match command {
        StackOrderCommand::BringToFront => range_seq(others.len() as int, selected.len())
            != selected,
        StackOrderCommand::SendToBack => range_seq(0, selected.len()) != selected,
        StackOrderCommand::BringForward => exists|p: int|
            0 <= p && p + 1 < f.len() && #[trigger] f[p] && !f[p + 1],
        StackOrderCommand::SendBackward => exists|p: int|
            1 <= p < f.len() && #[trigger] f[p] && !f[p - 1],
    }
}

fn append_elements(a: Vec<PaintElement>, b: Vec<PaintElement>) -> (r: Vec<PaintElement>)
    ensures
        elements_view(r@) == elements_view(a@) + elements_view(b@),
{
    let mut a = a;
    let mut b = b;
    let ghost av = a@;
    let ghost bv = b@;
    a.append(&mut b);
    proof {
        crate::arrange::lemma_elements_view_append(av, bv);
    }
    a
}

impl PaintDocument {
    /// Changes the stacking order of the selected elements of the active layer, keeping
    /// their relative order: to the top, to the bottom, or one step up or down. Returns
    /// the new positions of the selection. `None` when the active layer is missing or
    /// not editable, nothing is selected, or nothing would move.
    pub fn reordered_document(&self, indices: &[usize], command: StackOrderCommand) -> (r: Option<
        (Self, Vec<usize>),
    >)
        ensures
            r is Some <==> ({
                let e = active_elements(self@);
                let f = flags_of(indices@, e.len());
                &&& self.active_position() matches Some(a) && self@.layers[a].is_editable()
                &&& normalized(indices@, e.len()).len() > 0
                &&& reorder_changes(f, command)
            }),
            r matches Some((d, s)) ==> ({
                let e = active_elements(self@);
                let f = flags_of(indices@, e.len());
                &&& d@ == with_layer_elements(
                    self@,
                    self.active_position()->Some_0,
                    reordered(e, f, command).0,
                )
                &&& s@ == reordered(e, f, command).1
            }),
    {
        let a = match self.active_layer_index() {
            Some(a) => a,
            None => return None,
        };
        if !self.layers[a].is_editable() {
            return None;
        }
        let layer = &self.layers[a];
        let ghost e = elements_view(layer.elements@);
        let n = layer.elements.len();
        let flags = selection_flags(n, indices);
        let selected = selected_flags_to_indices(flags.as_slice());
        if selected.len() == 0 {
            return None;
        }
        proof {
            lemma_indices_of_flags(flags@);
            lemma_indices_of_flags(negated(flags@));
        }
        match command {
            StackOrderCommand::BringToFront | StackOrderCommand::SendToBack => {
                let (chosen, others) = split_by_flags(&layer.elements, &flags);
                let split = others.len();
                let count = chosen.len();
                assert(elements_view(others@).len() == others@.len());
                assert(elements_view(chosen@).len() == chosen@.len());
                let (elements, next_selected) = match command {
                    StackOrderCommand::BringToFront => {
                        assert(split + count <= n) by {
                            crate::indices::lemma_flags_complement_count(flags@);
                        }
                        (append_elements(others, chosen), position_range(split, count))
                    },
                    _ => (append_elements(chosen, others), position_range(0, count)),
                };
                if same_positions(&next_selected, &selected) {
                    return None;
                }
                let next = self.with_elements(a, elements);
                Some((next, next_selected))
            },
            StackOrderCommand::BringForward | StackOrderCommand::SendBackward => {
                let (order, changed) = match command {
                    StackOrderCommand::BringForward => {
                        proof {
                            lemma_forward_order_range(flags@, 0);
                        }
                        forward_positions(&flags)
                    },
                    _ => {
                        proof {
                            lemma_backward_order_range(flags@, 0);
                        }
                        backward_positions(&flags)
                    },
                };
                if !changed {
                    return None;
                }
                let elements = pick_elements(&layer.elements, &order);
                let moved_flags = pick_flags(&flags, &order);
                let next_selected = selected_flags_to_indices(moved_flags.as_slice());
                let next = self.with_elements(a, elements);
                Some((next, next_selected))
            },
        }
    }
}

} // verus!

verus! {

/// Conditions under which the selection can be sent to another layer.
pub open spec fn transfer_allowed(d: DocumentView, indices: Seq<usize>, destination: LayerId) -> bool {
    &&& layer_position(d.layers, d.active_layer_id) matches Some(a) && d.layers[a].is_editable()
    &&& d.active_layer_id != destination
    &&& normalized(indices, active_elements(d).len()).len() > 0
    &&& layer_position(d.layers, destination) matches Some(b) && d.layers[b].is_editable()
}

/// The drawing after sending the selection to the destination layer: the selected
/// elements are appended to it in order, removed from the active layer unless they are
/// duplicated, and the destination becomes active.
pub open spec fn transferred(
    d: DocumentView,
    indices: Seq<usize>,
    destination: LayerId,
    duplicate: bool,
) -> DocumentView {
    let a = layer_position(d.layers, d.active_layer_id)->Some_0;
    let b = layer_position(d.layers, destination)->Some_0;
    let e = d.layers[a].elements;
    let f = flags_of(indices, e.len());
    let moved = pick(e, indices_of_flags(f));
    let with_destination = d.layers.update(
        b,
        LayerView { elements: d.layers[b].elements + moved, ..d.layers[b] },
    );
    let layers = if duplicate {
        with_destination
    } else {
        with_destination.update(
            a,
            LayerView { elements: pick(e, indices_of_flags(negated(f))), ..d.layers[a] },
        )
    };
    DocumentView { layers, active_layer_id: destination, ..d }
}

/// Positions of the sent elements on the destination layer.
pub open spec fn transferred_selection(d: DocumentView, indices: Seq<usize>, destination: LayerId) -> Seq<
    usize,
> {
    let b = layer_position(d.layers, destination)->Some_0;
    range_seq(
        d.layers[b].elements.len() as int,
        normalized(indices, active_elements(d).len()).len(),
    )
}

impl PaintDocument {
    fn transfer_selection_to_layer_document(
        &self,
        indices: &[usize],
        destination_layer_id: LayerId,
        duplicate: bool,
    ) -> (r: Option<(Self, Vec<usize>)>)
        ensures
            r is Some <==> transfer_allowed(self@, indices@, destination_layer_id),
            r matches Some((d, s)) ==> d@ == transferred(
                self@,
                indices@,
                destination_layer_id,
                duplicate,
            ) && s@ == transferred_selection(self@, indices@, destination_layer_id),
    {
        let a = match self.active_layer_index() {
            Some(a) => a,
            None => return None,
        };
        if !self.layers[a].is_editable() || self.active_layer_id == destination_layer_id {
            return None;
        }
        let source = &self.layers[a];
        let flags = selection_flags(source.elements.len(), indices);
        let selected = selected_flags_to_indices(flags.as_slice());
        if selected.len() == 0 {
            return None;
        }
        let b = match self.layer_index(destination_layer_id) {
            Some(b) => b,
            None => return None,
        };
        if !self.layers[b].is_editable() {
            return None;
        }
        proof {
            lemma_indices_of_flags(flags@);
            if a == b {
                assert(self@.layers[a as int].id == self.active_layer_id);
            }
        }
        let (moved, kept) = split_by_flags(&source.elements, &flags);
        let count = moved.len();
        let insertion_start = self.layers[b].elements.len();
        let mut next = self.deep_copy();
        let ghost before = next@;
        let mut destination = next.take_layer(b);
        let mut destination_elements: Vec<PaintElement> = Vec::new();
        std::mem::swap(&mut destination_elements, &mut destination.elements);
        assert(elements_view(moved@).len() == moved@.len());
        destination.elements = append_elements(destination_elements, moved);
        let combined_len = destination.elements.len();
        assert(elements_view(destination.elements@).len() == combined_len);
        assert(combined_len == insertion_start + count);
        next.put_layer(b, destination);
        let ghost with_destination = next@.layers;
        assert(with_destination =~= before.layers.update(
            b as int,
            LayerView {
                elements: before.layers[b as int].elements + pick(
                    before.layers[a as int].elements,
                    indices_of_flags(flags@),
                ),
                ..before.layers[b as int]
            },
        ));
        if !duplicate {
            let mut source_layer = next.take_layer(a);
            source_layer.elements = kept;
            next.put_layer(a, source_layer);
            assert(next@.layers =~= with_destination.update(
                a as int,
                LayerView {
                    elements: pick(
                        before.layers[a as int].elements,
                        indices_of_flags(negated(flags@)),
                    ),
                    ..before.layers[a as int]
                },
            ));
        }
        next.active_layer_id = destination_layer_id;
        let selection = position_range(insertion_start, count);
        Some((next, selection))
    }

    /// Moves the selected elements of the active layer to the end of another visible,
    /// unlocked layer, which becomes active; returns their new positions there.
    pub fn moved_selection_to_layer_document(
        &self,
        indices: &[usize],
        destination_layer_id: LayerId,
    ) -> (r: Option<(Self, Vec<usize>)>)
        ensures
            r is Some <==> transfer_allowed(self@, indices@, destination_layer_id),
            r matches Some((d, s)) ==> d@ == transferred(
                self@,
                indices@,
                destination_layer_id,
                false,
            ) && s@ == transferred_selection(self@, indices@, destination_layer_id),
    {
        self.transfer_selection_to_layer_document(indices, destination_layer_id, false)
    }

    /// Copies the selected elements of the active layer to the end of another visible,
    /// unlocked layer, which becomes active; returns the positions of the copies.
    pub fn duplicated_selection_to_layer_document(
        &self,
        indices: &[usize],
        destination_layer_id: LayerId,
    ) -> (r: Option<(Self, Vec<usize>)>)
        ensures
            r is Some <==> transfer_allowed(self@, indices@, destination_layer_id),
            r matches Some((d, s)) ==> d@ == transferred(
                self@,
                indices@,
                destination_layer_id,
                true,
            ) && s@ == transferred_selection(self@, indices@, destination_layer_id),
    {
        self.transfer_selection_to_layer_document(indices, destination_layer_id, true)
    }
}

} // verus!

verus! {

/// `k` is the first replacement in `reps` aimed at position `p`.
pub open spec fn first_replacement_at(reps: Seq<(usize, PaintElement)>, p: int, k: int) -> bool {
    0 <= k < reps.len() && reps[k].0 == p && forall|j: int|
        0 <= j < k ==> #[trigger] reps[j].0 != p
}

/// Each position named by a replacement takes the element of the first replacement
/// naming it; the others keep theirs.
pub open spec fn replaced_elements(e: Seq<ElementView>, reps: Seq<(usize, PaintElement)>) -> Seq<
    ElementView,
> {
    Seq::new(
        e.len(),
        |p: int|
            if exists|k: int| first_replacement_at(reps, p, k) {
                reps[choose|k: int| first_replacement_at(reps, p, k)].1.view()
            } else {
                e[p]
            },
    )
}

pub proof fn lemma_first_replacement_unique(reps: Seq<(usize, PaintElement)>, p: int, k: int)
    requires
        first_replacement_at(reps, p, k),
    ensures
        (choose|m: int| first_replacement_at(reps, p, m)) == k,
{
    let m = choose|m: int| first_replacement_at(reps, p, m);
    assert(first_replacement_at(reps, p, m));
    if m < k {
        assert(reps[m].0 != p);
    }
    if k < m {
        assert(reps[k].0 != p);
    }
}

impl PaintDocument {
    /// Applies `(index, element)` replacements to the active layer; out-of-range indices
    /// are skipped and, for an index named twice, the first replacement is used. Reports
    /// whether any index was in range.
    pub fn replace_elements(&mut self, replacements: &Vec<(usize, PaintElement)>) -> (r: bool)
        ensures
            r == (old(self).active_position() is Some && exists|k: int|
                0 <= k < replacements@.len() && #[trigger] replacements@[k].0 < active_elements(
                    old(self)@,
                ).len()),
            r ==> final(self)@ == with_layer_elements(
                old(self)@,
                old(self).active_position()->Some_0,
                replaced_elements(active_elements(old(self)@), replacements@),
            ),
            !r ==> final(self)@ == old(self)@,
    {
        let a = match self.active_layer_index() {
            Some(a) => a,
            None => return false,
        };
        let n = self.layers[a].elements.len();
        let ghost e = active_elements(self@);
        let ghost reps = replacements@;
        assert(e.len() == n);
        let mut any = false;
        let mut k: usize = 0;
        while k < replacements.len()
            invariant
                k <= replacements.len(),
                reps == replacements@,
                any == exists|j: int| 0 <= j < k && #[trigger] reps[j].0 < n,
            decreases replacements.len() - k,
        {
            if replacements[k].0 < n {
                any = true;
            }
            k += 1;
        }
        if !any {
            return false;
        }
        let ghost before = self@;
        let mut layer = self.take_layer(a);
        let mut done = selection_flags(n, &[]);
        assert forall|p: int| 0 <= p < n implies !#[trigger] done@[p] by {
            assert(!Seq::<usize>::empty().contains(p as usize));
        }
        let ghost taken = layer@;
        let mut k: usize = 0;
        while k < replacements.len()
            invariant
                k <= replacements.len(),
                reps == replacements@,
                layer.id == taken.id,
                layer.name@ == taken.name,
                layer.visible == taken.visible,
                layer.locked == taken.locked,
                layer.elements@.len() == n,
                done@.len() == n,
                e.len() == n,
                forall|p: int|
                    0 <= p < n ==> (if #[trigger] done@[p] {
                        exists|j: int|
                            first_replacement_at(reps.take(k as int), p, j)
                                && elements_view(layer.elements@)[p] == reps[j].1.view()
                    } else {
                        elements_view(layer.elements@)[p] == e[p] && forall|j: int|
                            0 <= j < k ==> #[trigger] reps[j].0 != p
                    }),
            decreases replacements.len() - k,
        {
            let index = replacements[k].0;
            let ghost old_elements = layer.elements@;
            let ghost old_done = done@;
            if index < n && !done[index] {
                let element = replacements[k].1.deep_copy();
                layer.elements.set(index, element);
                done.set(index, true);
            }
            proof {
                assert forall|p: int| 0 <= p < n implies (if #[trigger] done@[p] {
                    exists|j: int|
                        first_replacement_at(reps.take(k + 1), p, j) && elements_view(
                            layer.elements@,
                        )[p] == reps[j].1.view()
                } else {
                    elements_view(layer.elements@)[p] == e[p] && forall|j: int|
                        0 <= j < k + 1 ==> #[trigger] reps[j].0 != p
                }) by {
                    assert(elements_view(old_elements)[p] == old_elements[p].view());
                    assert(elements_view(layer.elements@)[p] == layer.elements@[p].view());
                    if old_done[p] {
                        let j = choose|j: int|
                            first_replacement_at(reps.take(k as int), p, j) && elements_view(
                                old_elements,
                            )[p] == reps[j].1.view();
                        assert(first_replacement_at(reps.take(k + 1), p, j));
                    } else if p == index as int {
                        assert(first_replacement_at(reps.take(k + 1), p, k as int));
                    }
                }
            }
            k += 1;
        }
        proof {
            assert(reps.take(reps.len() as int) =~= reps);
            let target = replaced_elements(e, reps);
            assert forall|p: int| 0 <= p < n implies elements_view(layer.elements@)[p]
                == #[trigger] target[p] by {
                if done@[p] {
                    let j = choose|j: int|
                        first_replacement_at(reps.take(reps.len() as int), p, j) && elements_view(
                            layer.elements@,
                        )[p] == reps[j].1.view();
                    assert(first_replacement_at(reps, p, j));
                    lemma_first_replacement_unique(reps, p, j);
                } else {
                    assert(!exists|j: int| first_replacement_at(reps, p, j));
                }
            }
            assert(elements_view(layer.elements@) =~= target);
        }
        self.put_layer(a, layer);
        assert(self@.layers =~= before.layers.update(
            a as int,
            LayerView {
                elements: replaced_elements(e, reps),
                ..before.layers[a as int]
            },
        ));
        true
    }
}

} // verus!

verus! {

/// Whether each layer is shown.
pub open spec fn visibility_flags(layers: Seq<LayerView>) -> Seq<bool> {
    Seq::new(layers.len(), |i: int| layers[i].visible)
}

/// Total number of top-level elements over all layers.
pub open spec fn total_elements(layers: Seq<LayerView>) -> nat
    decreases layers.len(),
{
    if layers.len() == 0 {
        0
    } else {
        total_elements(layers.drop_last()) + layers.last().elements.len()
    }
}

impl PaintDocument {
    /// The shown layers, bottom first.
    pub fn visible_layers(&self) -> (r: Vec<&PaintLayer>)
        ensures
            r@.len() == indices_of_flags(visibility_flags(self@.layers)).len(),
            forall|k: int|
                0 <= k < r@.len() ==> (#[trigger] r@[k])@ == self@.layers[indices_of_flags(
                    visibility_flags(self@.layers),
                )[k] as int],
    {
        let ghost f = visibility_flags(self@.layers);
        let mut out: Vec<&PaintLayer> = Vec::new();
        let mut i: usize = 0;
        assert(f.take(0) =~= Seq::<bool>::empty());
        while i < self.layers.len()
            invariant
                i <= self.layers.len(),
                f == visibility_flags(self@.layers),
                out@.len() == indices_of_flags(f.take(i as int)).len(),
                forall|k: int|
                    0 <= k < out@.len() ==> (#[trigger] out@[k])@ == self@.layers[indices_of_flags(
                        f.take(i as int),
                    )[k] as int],
            decreases self.layers.len() - i,
        {
            proof {
                crate::arrange::lemma_indices_of_flags_step(f, i as int);
            }
            if self.layers[i].visible {
                out.push(&self.layers[i]);
            }
            i += 1;
        }
        assert(f.take(self.layers.len() as int) =~= f);
        out
    }

    /// Number of top-level elements over all layers.
    pub fn total_element_count(&self) -> (r: usize)
        requires
            total_elements(self@.layers) <= usize::MAX,
        ensures
            r == total_elements(self@.layers),
    {
        let ghost l = self@.layers;
        let mut total: usize = 0;
        let mut i: usize = 0;
        proof {
            assert(l.take(0) =~= Seq::<LayerView>::empty());
        }
        while i < self.layers.len()
            invariant
                i <= self.layers.len(),
                l == self@.layers,
                total == total_elements(l.take(i as int)),
                total_elements(l) <= usize::MAX,
            decreases self.layers.len() - i,
        {
            proof {
                assert(l.take(i + 1).drop_last() =~= l.take(i as int));
                crate::document::lemma_total_elements_prefix(l, i + 1);
            }
            total = total + self.layers[i].elements.len();
            i += 1;
        }
        assert(l.take(self.layers.len() as int) =~= l);
        total
    }
}

pub proof fn lemma_total_elements_prefix(layers: Seq<LayerView>, i: int)
    requires
        0 <= i <= layers.len(),
    ensures
        total_elements(layers.take(i)) <= total_elements(layers),
    decreases layers.len(),
{
    if i < layers.len() {
        assert(layers.drop_last().take(i) =~= layers.take(i));
        lemma_total_elements_prefix(layers.drop_last(), i);
    } else {
        assert(layers.take(i) =~= layers);
    }
}

} // verus!

verus! {

/// `d` with `e` appended to its active layer (unchanged without an active layer).
pub open spec fn with_pushed_element(d: DocumentView, e: ElementView) -> DocumentView {
    match layer_position(d.layers, d.active_layer_id) {
        Some(i) => with_layer_elements(d, i, d.layers[i].elements.push(e)),
        None => d,
    }
}

/// The element at `index` of the active layer of `d`, if there is one.
pub open spec fn element_at(d: DocumentView, index: int) -> Option<ElementView> {
    match layer_position(d.layers, d.active_layer_id) {
        Some(i) => if 0 <= index < d.layers[i].elements.len() {
            Some(d.layers[i].elements[index])
        } else {
            None
        },
        None => None,
    }
}

/// `d` with the element at `index` of its active layer replaced by `e`.
pub open spec fn with_replaced_element(d: DocumentView, index: int, e: ElementView) -> DocumentView {
    match layer_position(d.layers, d.active_layer_id) {
        Some(i) => with_layer_elements(d, i, d.layers[i].elements.update(index, e)),
        None => d,
    }
}

/// Changing the elements of one layer keeps the layer structure sound.
pub proof fn lemma_elements_change_keeps_structure(d: DocumentView, i: int, e: Seq<ElementView>)
    requires
        layers_well_formed(d),
        0 <= i < d.layers.len(),
    ensures
        layers_well_formed(with_layer_elements(d, i, e)),
{
    let n = with_layer_elements(d, i, e);
    let k = choose|k: int| 0 <= k < d.layers.len() && #[trigger] d.layers[k].id == d.active_layer_id;
    assert(n.layers[k].id == d.layers[k].id);
    assert forall|j: int| 0 <= j < n.layers.len() implies #[trigger] n.layers[j].id < n.next_layer_id by {
        assert(n.layers[j].id == d.layers[j].id);
    }
}

/// `d` with every layer emptied.
pub open spec fn cleared(d: DocumentView) -> DocumentView {
    DocumentView {
        layers: Seq::new(
            d.layers.len(),
            |i: int| LayerView { elements: Seq::empty(), ..d.layers[i] },
        ),
        ..d
    }
}

impl PaintDocument {
    /// Puts `moved` at `index` of the active layer, where `moved` is the element there
    /// displaced by `delta` (the floating-point displacement is the caller's). Nothing
    /// happens, and `false` comes back, when `delta` is zero or there is no such element.
    pub fn translate_element(&mut self, index: usize, delta: PaintVector, moved: PaintElement) -> (r: bool)
        ensures
            r == (!(bits_below_epsilon(delta.dx.bits) && bits_below_epsilon(delta.dy.bits))
                && element_at(old(self)@, index as int) is Some),
            r ==> final(self)@ == with_replaced_element(old(self)@, index as int, moved.view()),
            !r ==> final(self)@ == old(self)@,
    {
        if delta.is_zero() {
            return false;
        }
        self.replace_element(index, moved)
    }
}

impl PaintDocument {
    /// Empties every layer.
    pub fn clear_elements(&mut self)
        ensures
            final(self)@ == cleared(old(self)@),
    {
        let ghost before = self@;
        let mut i: usize = 0;
        while i < self.layers.len()
            invariant
                i <= self.layers.len(),
                self.layers.len() == before.layers.len(),
                self@ == (DocumentView { layers: self@.layers, ..before }),
                forall|j: int|
                    0 <= j < i ==> #[trigger] self@.layers[j] == cleared(before).layers[j],
                forall|j: int| i <= j < self.layers.len() ==> #[trigger] self@.layers[j] == before.layers[j],
            decreases self.layers.len() - i,
        {
            let mut layer = self.take_layer(i);
            layer.elements.clear();
            assert(elements_view(layer.elements@) =~= Seq::<ElementView>::empty());
            self.put_layer(i, layer);
            i += 1;
        }
        assert(self@.layers =~= cleared(before).layers);
    }
}

} // verus!
