use vstd::prelude::*;

use crate::document::{
    added_layer, can_add_layer, deleted_active_layer, fresh_layer_id, ids_below_max,
    layers_well_formed, lemma_max_layer_id, max_layer_id, moved_layer_down, moved_layer_up,
    sanitized_layers, swap_layers, toggled_locked, toggled_visibility, DocumentView,
    guides_in_order, layout_repairable, layout_repaired, lemma_repaired_guides_once, repaired,
    repaired_layout, MIN_GRID_SPACING_BITS,
};
use crate::history::{document_eq, edited, history_well_formed, layer_eq, redone, undone, HistoryView};
use crate::layer::{first_layer_at, has_layer, layer_position, lemma_first_layer_unique, LayerView};
use crate::arrange::{
    lemma_count_true_all, lemma_count_true_prefix, grouped_elements, ungrouped_elements, ungrouped_selection, backward_order, forward_order, lead_run, lemma_backward_order_range,
    lemma_forward_order_range, lemma_lead_run_bound, range_seq,
};
use crate::indices::{
    flags_of, indices_of_flags, lemma_flags_complement_count, lemma_indices_of_flags, negated,
    normalized, pick, strictly_increasing,
};
use crate::document::{active_elements, reordered, transfer_allowed, transferred};
use crate::element::{element_eq, ElementView, FillSpan, FillView, StrokeView};
use crate::fill::{fill_covers, fill_span_holds};
use crate::input::{input_step, InteractionMode, PanMode, PointerEvent, PressAction};
use crate::restyle::{restyled, FillEdit, ShapeEdit, StrokeEdit};
use crate::selection::CanvasToolKind;
use crate::svg::{lemma_span_le_total, merged_rects, span_le, FillRect};
use crate::text::{is_white_space, is_trim_range, trimmed};
use crate::fill::{covered, in_span, spans_maximal, AbsoluteFillSpan};
use crate::model::LayerId;
use crate::selection::{lemma_sorted_distinct_unique, sorted_distinct_of, toggled_selection};
use crate::editor::{
    color_applied, fill_color_stage, stroke_color_stage, multi_select_left, multi_select_set, restyle_applies, restyled_editor, tool_button_pressed,
    tool_switched, undo_performed, EditorView,
};
use crate::model::{bits_is_nan, bits_less, PaintPoint, RgbaColor, Scalar, StackOrderCommand};
use crate::restyle::StyleEdit;
use crate::tools::{first_entries, recent_colors_with, without_color, RECENT_COLOR_LIMIT};

verus! {

/// Undo right after an edit brings back the drawing from before the edit and what could
/// be undone then, and leaves exactly the edited drawing to redo.
pub proof fn law_undo_reverts_edit(h: HistoryView, d: DocumentView)
    ensures
        undone(edited(h, d)) == (HistoryView { current: h.current, undo: h.undo, redo: seq![d] }),
{
    assert(h.undo.push(h.current).drop_last() =~= h.undo);
    assert(Seq::<DocumentView>::empty().push(d) =~= seq![d]);
}

/// Redo after an undo gives back the history as it was before the undo.
pub proof fn law_redo_reverts_undo(h: HistoryView)
    requires
        h.undo.len() > 0,
    ensures
        redone(undone(h)) == h,
{
    assert(h.redo.push(h.current).drop_last() =~= h.redo);
    assert(h.undo.drop_last().push(h.undo.last()) =~= h.undo);
}

/// Undo after a redo gives back the history as it was before the redo.
pub proof fn law_undo_reverts_redo(h: HistoryView)
    requires
        h.redo.len() > 0,
    ensures
        undone(redone(h)) == h,
{
    assert(h.undo.push(h.current).drop_last() =~= h.undo);
    assert(h.redo.drop_last().push(h.redo.last()) =~= h.redo);
}

/// Undo and redo move drawings between the stacks without losing or making any: the
/// number of drawings held stays the same, and a sound history stays sound.
pub proof fn law_undo_redo_keep_drawings(h: HistoryView)
    ensures
        undone(h).undo.len() + undone(h).redo.len() == h.undo.len() + h.redo.len(),
        redone(h).undo.len() + redone(h).redo.len() == h.undo.len() + h.redo.len(),
        history_well_formed(h) ==> history_well_formed(undone(h)) && history_well_formed(
            redone(h),
        ),
{
    if history_well_formed(h) {
        if h.undo.len() > 0 {
            let u = undone(h);
            assert(u.current == h.undo[h.undo.len() - 1]);
            assert forall|i: int| 0 <= i < u.undo.len() implies layers_well_formed(
                #[trigger] u.undo[i],
            ) by {
                assert(u.undo[i] == h.undo[i]);
            }
            assert forall|i: int| 0 <= i < u.redo.len() implies layers_well_formed(
                #[trigger] u.redo[i],
            ) by {
                if i < h.redo.len() {
                    assert(u.redo[i] == h.redo[i]);
                }
            }
        }
        if h.redo.len() > 0 {
            let r = redone(h);
            assert(r.current == h.redo[h.redo.len() - 1]);
            assert forall|i: int| 0 <= i < r.redo.len() implies layers_well_formed(
                #[trigger] r.redo[i],
            ) by {
                assert(r.redo[i] == h.redo[i]);
            }
            assert forall|i: int| 0 <= i < r.undo.len() implies layers_well_formed(
                #[trigger] r.undo[i],
            ) by {
                if i < h.undo.len() {
                    assert(r.undo[i] == h.undo[i]);
                }
            }
        }
    }
}

/// Repairing a drawing yields a sound layer structure and layout aids as repairing
/// leaves them (grid spacing at least 8, guides in the canvas and in order), a drawing
/// already like that is left as it is, and repairing twice is repairing once.
pub proof fn law_sanitize_repairs_once(d: DocumentView)
    requires
        ids_below_max(d.layers),
        layout_repairable(d),
    ensures
        layers_well_formed(repaired(d)),
        layout_repaired(repaired(d)),
        !bits_less(repaired(d).grid.spacing.bits, MIN_GRID_SPACING_BITS),
        guides_in_order(repaired(d).guides.lines),
        repaired(repaired(d)) == repaired(d),
        layers_well_formed(d) && layout_repaired(d) ==> repaired(d) == d,
{
    let s = sanitized_layers(d);
    lemma_max_layer_id(s.layers);
    if d.layers.len() == 0 {
        assert(s.layers[0].id == 1);
    }
    if !has_layer(s.layers, d.active_layer_id) {
        assert(s.layers[s.layers.len() - 1].id == s.active_layer_id);
    }
    if layers_well_formed(d) {
        lemma_max_layer_id(d.layers);
        let k = choose|k: int| 0 <= k < d.layers.len() && #[trigger] d.layers[k].id == max_layer_id(
            d.layers,
        );
        assert(d.layers[k].id < d.next_layer_id);
    }
    lemma_repaired_guides_once(d.canvas_size, d.guides.lines);
    assert(!bits_is_nan(MIN_GRID_SPACING_BITS)) by (bit_vector);
    if layers_well_formed(d) && layout_repaired(d) {
        assert(repaired(d) =~= d);
    }
}

/// Two layer lists with the same ids at every position find a layer at the same place.
proof fn lemma_position_by_ids(a: Seq<LayerView>, b: Seq<LayerView>, id: LayerId)
    requires
        a.len() == b.len(),
        forall|i: int| 0 <= i < a.len() ==> #[trigger] a[i].id == b[i].id,
    ensures
        layer_position(a, id) == layer_position(b, id),
{
    if exists|i: int| first_layer_at(a, id, i) {
        let i = choose|i: int| first_layer_at(a, id, i);
        assert forall|j: int| 0 <= j < i implies #[trigger] b[j].id != id by {
            assert(a[j].id != id);
        }
        assert(first_layer_at(b, id, i));
        lemma_first_layer_unique(a, id, i);
        lemma_first_layer_unique(b, id, i);
    } else {
        assert forall|i: int| !first_layer_at(b, id, i) by {
            if first_layer_at(b, id, i) {
                assert forall|j: int| 0 <= j < i implies #[trigger] a[j].id != id by {
                    assert(b[j].id != id);
                }
                assert(first_layer_at(a, id, i));
            }
        }
    }
}

/// Deleting the active layer right after adding a layer gives back the layers as they
/// were, with the top one active.
pub proof fn law_delete_reverts_add(d: DocumentView)
    requires
        d.layers.len() > 0,
        can_add_layer(d),
    ensures
        deleted_active_layer(added_layer(d)) == Some(
            DocumentView {
                active_layer_id: d.layers.last().id,
                next_layer_id: (fresh_layer_id(d) + 1) as u64,
                ..d
            },
        ),
{
    let a = added_layer(d);
    let n = d.layers.len() as int;
    let id = fresh_layer_id(d);
    lemma_max_layer_id(d.layers);
    assert forall|j: int| 0 <= j < n implies #[trigger] a.layers[j].id != id by {
        assert(a.layers[j] == d.layers[j]);
        assert(d.layers[j].id <= max_layer_id(d.layers));
    }
    assert(first_layer_at(a.layers, id, n));
    lemma_first_layer_unique(a.layers, id, n);
    assert(a.layers.remove(n) =~= d.layers);
}

/// Switching a layer's visibility twice leaves the drawing as it was.
pub proof fn law_visibility_toggle_twice(d: DocumentView, id: LayerId)
    requires
        layer_position(d.layers, id) is Some,
    ensures
        toggled_visibility(toggled_visibility(d, id)->Some_0, id) == Some(d),
{
    let t = toggled_visibility(d, id)->Some_0;
    let i = layer_position(d.layers, id)->Some_0;
    assert forall|k: int| 0 <= k < t.layers.len() implies #[trigger] t.layers[k].id
        == d.layers[k].id by {}
    lemma_position_by_ids(t.layers, d.layers, id);
    assert(t.layers.update(i, LayerView { visible: !t.layers[i].visible, ..t.layers[i] })
        =~= d.layers);
}

/// Switching a layer's lock twice leaves the drawing as it was.
pub proof fn law_lock_toggle_twice(d: DocumentView, id: LayerId)
    requires
        layer_position(d.layers, id) is Some,
    ensures
        toggled_locked(toggled_locked(d, id)->Some_0, id) == Some(d),
{
    let t = toggled_locked(d, id)->Some_0;
    let i = layer_position(d.layers, id)->Some_0;
    assert forall|k: int| 0 <= k < t.layers.len() implies #[trigger] t.layers[k].id
        == d.layers[k].id by {}
    lemma_position_by_ids(t.layers, d.layers, id);
    assert(t.layers.update(i, LayerView { locked: !t.layers[i].locked, ..t.layers[i] })
        =~= d.layers);
}

/// Moving a layer down and then up gives back the drawing. Moving it up and then down
/// does too, unless the layer above it carries the same id (the move down then finds
/// that layer first).
pub proof fn law_layer_moves_revert(d: DocumentView, id: LayerId)
    ensures
        moved_layer_up(d, id) is Some && d.layers[layer_position(d.layers, id)->Some_0 + 1].id
            != id ==> moved_layer_down(moved_layer_up(d, id)->Some_0, id) == Some(d),
        moved_layer_down(d, id) is Some ==> moved_layer_up(moved_layer_down(d, id)->Some_0, id)
            == Some(d),
{
    if let Some(i) = layer_position(d.layers, id) {
        assert(first_layer_at(d.layers, id, i)) by {
            let k = choose|k: int| first_layer_at(d.layers, id, k);
            lemma_first_layer_unique(d.layers, id, k);
        }
        if i + 1 < d.layers.len() && d.layers[i + 1].id != id {
            let s = swap_layers(d.layers, i, i + 1);
            assert forall|j: int| 0 <= j < i + 1 implies #[trigger] s[j].id != id by {
                if j == i {
                    assert(s[j] == d.layers[i + 1]);
                } else {
                    assert(s[j] == d.layers[j]);
                }
            }
            assert(first_layer_at(s, id, i + 1));
            lemma_first_layer_unique(s, id, i + 1);
            assert(swap_layers(s, i, i + 1) =~= d.layers);
        }
        if i > 0 {
            let s = swap_layers(d.layers, i - 1, i);
            assert forall|j: int| 0 <= j < i - 1 implies #[trigger] s[j].id != id by {
                assert(s[j] == d.layers[j]);
            }
            assert(s[i - 1] == d.layers[i]);
            assert(first_layer_at(s, id, i - 1));
            lemma_first_layer_unique(s, id, i - 1);
            assert(swap_layers(s, i - 1, i) =~= d.layers);
        }
    }
}

/// Toggling the same position twice leaves a selection as it was.
pub proof fn law_selection_toggle_twice(s: Seq<usize>, once: Seq<usize>, twice: Seq<usize>, index: usize)
    requires
        strictly_increasing(s),
        toggled_selection(once, s, index),
        toggled_selection(twice, once, index),
    ensures
        twice == s,
{
    assert forall|x: usize| #[trigger] twice.contains(x) <==> s.contains(x) by {
        assert(once.contains(x) <==> (s.contains(x) != (x == index)));
    }
    lemma_sorted_distinct_unique(twice, s);
}

/// Normalizing a selection that is already in increasing order without repeats leaves it
/// as it is; in particular normalizing twice is normalizing once.
pub proof fn law_normalized_selection_is_fixed(s: Seq<usize>, r: Seq<usize>)
    requires
        sorted_distinct_of(r, s),
    ensures
        strictly_increasing(s) ==> r == s,
        forall|r2: Seq<usize>| sorted_distinct_of(r2, r) ==> r2 == r,
{
    if strictly_increasing(s) {
        lemma_sorted_distinct_unique(r, s);
    }
    assert forall|r2: Seq<usize>| sorted_distinct_of(r2, r) implies r2 == r by {
        lemma_sorted_distinct_unique(r2, r);
    }
}

/// No color occurs twice in `s`.
pub open spec fn colors_distinct(s: Seq<RgbaColor>) -> bool {
    forall|i: int, j: int| 0 <= i < j < s.len() ==> s[i] != s[j]
}

proof fn lemma_without_color(s: Seq<RgbaColor>, c: RgbaColor)
    ensures
        forall|k: int| 0 <= k < without_color(s, c).len() ==> #[trigger] without_color(s, c)[k] != c,
        forall|k: int|
            0 <= k < without_color(s, c).len() ==> s.contains(#[trigger] without_color(s, c)[k]),
        colors_distinct(s) ==> colors_distinct(without_color(s, c)),
        without_color(s, c).len() <= s.len(),
    decreases s.len(),
{
    if s.len() > 0 {
        let t = s.drop_last();
        lemma_without_color(t, c);
        let w = without_color(t, c);
        assert forall|k: int| 0 <= k < w.len() implies s.contains(#[trigger] w[k]) by {
            let j = choose|j: int| 0 <= j < t.len() && t[j] == w[k];
            assert(s[j] == w[k]);
        }
        if s.last() != c {
            assert(s.contains(s.last())) by {
                assert(s[s.len() - 1] == s.last());
            }
            if colors_distinct(s) {
                assert(colors_distinct(t));
                assert forall|k: int| 0 <= k < w.len() implies #[trigger] w[k] != s.last() by {
                    let j = choose|j: int| 0 <= j < t.len() && t[j] == w[k];
                    assert(s[j] == w[k]);
                }
            }
        } else if colors_distinct(s) {
            assert(colors_distinct(t));
        }
    }
}

/// A used color becomes the first recent color.
pub proof fn law_recent_color_comes_first(s: Seq<RgbaColor>, c: RgbaColor)
    ensures
        recent_colors_with(s, c).len() > 0,
        recent_colors_with(s, c)[0] == c,
{
}

/// The recent colors never grow past the limit, and stay free of repeats.
pub proof fn law_recent_colors_stay_short_and_distinct(s: Seq<RgbaColor>, c: RgbaColor)
    requires
        s.len() <= RECENT_COLOR_LIMIT,
        colors_distinct(s),
    ensures
        recent_colors_with(s, c).len() <= RECENT_COLOR_LIMIT,
        colors_distinct(recent_colors_with(s, c)),
{
    lemma_without_color(s, c);
    let w = without_color(s, c);
    let full = seq![c] + w;
    assert forall|i: int, j: int| 0 <= i < j < full.len() implies full[i] != full[j] by {
        if i == 0 {
            assert(full[j] == w[j - 1]);
        } else {
            assert(full[i] == w[i - 1] && full[j] == w[j - 1]);
        }
    }
    let r = first_entries(full, RECENT_COLOR_LIMIT as int);
    assert forall|i: int, j: int| 0 <= i < j < r.len() implies r[i] != r[j] by {
        assert(r[i] == full[i] && r[j] == full[j]);
    }
}

/// Using the same color again changes nothing.
pub proof fn law_recent_color_twice(s: Seq<RgbaColor>, c: RgbaColor)
    ensures
        recent_colors_with(recent_colors_with(s, c), c) == recent_colors_with(s, c),
{
    law_recent_color_comes_first(s, c);
}

/// Multi-select mode only ever goes with the select tool.
pub open spec fn multi_select_with_select_tool(v: EditorView) -> bool {
    v.multi_select_mode ==> v.active_tool is Select
}

/// Tool switches, tool buttons and the multi-select switch keep multi-select mode tied
/// to the select tool.
pub proof fn law_multi_select_needs_select_tool(
    v: EditorView,
    tool: crate::selection::CanvasToolKind,
    announce: bool,
    enabled: bool,
)
    requires
        multi_select_with_select_tool(v),
    ensures
        multi_select_with_select_tool(tool_switched(v, tool, announce)),
        multi_select_with_select_tool(tool_button_pressed(v, tool)),
        multi_select_with_select_tool(multi_select_set(v, enabled)),
        multi_select_with_select_tool(multi_select_left(v)),
{
}

/// Undo right after a style edit of the selection brings back the drawing and the undo
/// steps from before it, with the edited drawing left to redo.
pub proof fn law_undo_reverts_restyle(v: EditorView, edit: StyleEdit, message: Seq<char>)
    requires
        restyle_applies(v, edit),
    ensures
        undo_performed(restyled_editor(v, edit, message), false).history.current
            == v.history.current,
        undo_performed(restyled_editor(v, edit, message), false).history.undo == v.history.undo,
        undo_performed(restyled_editor(v, edit, message), false).history.redo.len() == 1,
{
    let w = restyled_editor(v, edit, message);
    law_undo_reverts_edit(v.history, w.history.current);
}

/// A picked color always becomes the first recent color.
pub proof fn law_picked_color_is_recent(v: EditorView, color: RgbaColor, announce: Seq<char>)
    ensures
        color_applied(v, color, announce).recent_colors.len() > 0,
        color_applied(v, color, announce).recent_colors[0] == color,
{
    let stage = match v.tool_colors.quick_color_target {
        crate::ui::ColorTarget::Stroke => stroke_color_stage(v, color),
        crate::ui::ColorTarget::Fill => fill_color_stage(v, color),
    };
    law_recent_color_comes_first(stage.0.recent_colors, color);
}

/// A picked color aimed at the fill turns filling on and becomes the fill color; one
/// aimed at the stroke becomes the stroke color.
pub proof fn law_picked_color_sets_tool_color(v: EditorView, color: RgbaColor, announce: Seq<char>)
    ensures
        v.tool_colors.quick_color_target is Fill ==> color_applied(
            v,
            color,
            announce,
        ).tool_colors.fill_enabled && color_applied(v, color, announce).tool_colors.fill_color
            == color,
        v.tool_colors.quick_color_target is Stroke ==> color_applied(
            v,
            color,
            announce,
        ).tool_colors.stroke_color == color,
{
}

/// At least one layer always remains: deleting the active layer only happens when
/// another layer is left, and it leaves a sound layer structure.
pub proof fn law_delete_keeps_a_layer(d: DocumentView)
    requires
        layers_well_formed(d),
    ensures
        deleted_active_layer(d) matches Some(n) ==> n.layers.len() >= 1 && layers_well_formed(n),
{
    if let Some(n) = deleted_active_layer(d) {
        let i = layer_position(d.layers, d.active_layer_id)->Some_0;
        let fallback = if i == 0 {
            0
        } else {
            i - 1
        };
        assert(n.layers[fallback].id == n.active_layer_id);
        assert forall|k: int| 0 <= k < n.layers.len() implies #[trigger] n.layers[k].id
            < n.next_layer_id by {
            if k < i {
                assert(n.layers[k] == d.layers[k]);
            } else {
                assert(n.layers[k] == d.layers[k + 1]);
            }
        }
    }
}

/// In the position order `o` of the positions `base..base + f.len()`, any two flagged
/// positions keep their order.
pub open spec fn keeps_flagged_order(f: Seq<bool>, base: int, o: Seq<usize>) -> bool {
    forall|a: int, b: int|
        0 <= a < b < o.len() && base <= o[a] < base + f.len() && base <= o[b] < base + f.len()
            && f[o[a] - base] && f[o[b] - base] ==> #[trigger] o[a] < #[trigger] o[b]
}

/// The positions in their new stacking order after `command`.
pub open spec fn reorder_positions(f: Seq<bool>, command: StackOrderCommand) -> Seq<usize> {
    let selected = indices_of_flags(f);
    let others = indices_of_flags(negated(f));
    match command {
        StackOrderCommand::BringToFront => others + selected,
        StackOrderCommand::SendToBack => selected + others,
        StackOrderCommand::BringForward => forward_order(f, 0),
        StackOrderCommand::SendBackward => backward_order(f, 0),
    }
}

proof fn lemma_lead_run_stops(f: Seq<bool>)
    ensures
        forall|k: int| 0 <= k < lead_run(f) ==> #[trigger] f[k],
        lead_run(f) < f.len() ==> !f[lead_run(f) as int],
    decreases f.len(),
{
    if f.len() > 0 && f[0] {
        let t = f.drop_first();
        lemma_lead_run_stops(t);
        lemma_lead_run_bound(f);
        assert forall|k: int| 0 <= k < lead_run(f) implies #[trigger] f[k] by {
            if k > 0 {
                assert(f[k] == t[k - 1]);
            }
        }
    }
}

proof fn lemma_forward_keeps_order(f: Seq<bool>, base: int)
    requires
        0 <= base,
        base + f.len() <= usize::MAX,
    ensures
        keeps_flagged_order(f, base, forward_order(f, base)),
    decreases f.len(),
{
    let o = forward_order(f, base);
    if f.len() == 0 {
    } else if !f[0] {
        let f1 = f.drop_first();
        let t = forward_order(f1, base + 1);
        lemma_forward_keeps_order(f1, base + 1);
        lemma_forward_order_range(f1, base + 1);
        assert(o == seq![base as usize] + t);
        assert forall|a: int, b: int|
            0 <= a < b < o.len() && base <= o[a] < base + f.len() && base <= o[b] < base
                + f.len() && f[o[a] - base] && f[o[b] - base] implies #[trigger] o[a]
            < #[trigger] o[b] by {
            if a > 0 {
                assert(o[a] == t[a - 1] && o[b] == t[b - 1]);
                assert(f1[t[a - 1] - (base + 1)] == f[o[a] - base]);
                assert(f1[t[b - 1] - (base + 1)] == f[o[b] - base]);
            }
        }
    } else {
        let k = lead_run(f);
        lemma_lead_run_bound(f);
        lemma_lead_run_stops(f);
        if k >= f.len() {
        } else {
            let f2 = f.skip((k + 1) as int);
            let base2 = base + k + 1;
            let t = forward_order(f2, base2);
            lemma_forward_keeps_order(f2, base2);
            lemma_forward_order_range(f2, base2);
            let head = seq![(base + k) as usize] + range_seq(base, k);
            assert(o == head + t);
            assert forall|a: int, b: int|
                0 <= a < b < o.len() && base <= o[a] < base + f.len() && base <= o[b] < base
                    + f.len() && f[o[a] - base] && f[o[b] - base] implies #[trigger] o[a]
                < #[trigger] o[b] by {
                if a == 0 {
                    assert(o[0] == base + k);
                } else if b < head.len() {
                    assert(o[a] == base + a - 1 && o[b] == base + b - 1);
                } else if a < head.len() {
                    assert(o[a] == base + a - 1);
                    assert(o[b] == t[b - head.len()]);
                } else {
                    assert(o[a] == t[a - head.len()] && o[b] == t[b - head.len()]);
                    assert(f2[t[a - head.len()] - base2] == f[o[a] - base]);
                    assert(f2[t[b - head.len()] - base2] == f[o[b] - base]);
                }
            }
        }
    }
}

proof fn lemma_backward_keeps_order(f: Seq<bool>, base: int)
    requires
        0 <= base,
        base + f.len() <= usize::MAX,
    ensures
        keeps_flagged_order(f, base, backward_order(f, base)),
    decreases f.len(),
{
    let o = backward_order(f, base);
    if f.len() == 0 {
    } else {
        let f1 = f.drop_first();
        let k = lead_run(f1);
        lemma_lead_run_bound(f1);
        lemma_lead_run_stops(f1);
        if f[0] || k == 0 || k + 1 > f.len() {
            let t = backward_order(f1, base + 1);
            lemma_backward_keeps_order(f1, base + 1);
            lemma_backward_order_range(f1, base + 1);
            assert(o == seq![base as usize] + t);
            assert forall|a: int, b: int|
                0 <= a < b < o.len() && base <= o[a] < base + f.len() && base <= o[b] < base
                    + f.len() && f[o[a] - base] && f[o[b] - base] implies #[trigger] o[a]
                < #[trigger] o[b] by {
                if a == 0 {
                    assert(o[b] == t[b - 1]);
                } else {
                    assert(o[a] == t[a - 1] && o[b] == t[b - 1]);
                    assert(f1[t[a - 1] - (base + 1)] == f[o[a] - base]);
                    assert(f1[t[b - 1] - (base + 1)] == f[o[b] - base]);
                }
            }
        } else {
            let f2 = f.skip((k + 1) as int);
            let base2 = base + k + 1;
            let t = backward_order(f2, base2);
            lemma_backward_keeps_order(f2, base2);
            lemma_backward_order_range(f2, base2);
            let head = range_seq(base + 1, k) + seq![base as usize];
            assert(o == head + t);
            assert forall|a: int, b: int|
                0 <= a < b < o.len() && base <= o[a] < base + f.len() && base <= o[b] < base
                    + f.len() && f[o[a] - base] && f[o[b] - base] implies #[trigger] o[a]
                < #[trigger] o[b] by {
                if b < k {
                    assert(o[a] == base + 1 + a && o[b] == base + 1 + b);
                } else if b == k {
                    assert(o[b] == base);
                    assert(!f[0]);
                } else if a < k {
                    assert(o[a] == base + 1 + a);
                    assert(o[b] == t[b - head.len()]);
                } else if a == k {
                    assert(o[a] == base);
                } else {
                    assert(o[a] == t[a - head.len()] && o[b] == t[b - head.len()]);
                    assert(f2[t[a - head.len()] - base2] == f[o[a] - base]);
                    assert(f2[t[b - head.len()] - base2] == f[o[b] - base]);
                }
            }
        }
    }
}

/// The stacking-order commands keep the selected elements in their relative order: the
/// elements come in a new order of their positions, in which any two selected positions
/// come in the order they had.
pub proof fn law_reorder_keeps_selected_order(
    e: Seq<ElementView>,
    f: Seq<bool>,
    command: StackOrderCommand,
)
    requires
        f.len() <= usize::MAX,
    ensures
        reordered(e, f, command).0 == pick(e, reorder_positions(f, command)),
        keeps_flagged_order(f, 0, reorder_positions(f, command)),
{
    assert(pick(e, indices_of_flags(negated(f))) + pick(e, indices_of_flags(f)) =~= pick(
        e,
        indices_of_flags(negated(f)) + indices_of_flags(f),
    ));
    assert(pick(e, indices_of_flags(f)) + pick(e, indices_of_flags(negated(f))) =~= pick(
        e,
        indices_of_flags(f) + indices_of_flags(negated(f)),
    ));
    let selected = indices_of_flags(f);
    let others = indices_of_flags(negated(f));
    lemma_indices_of_flags(f);
    lemma_indices_of_flags(negated(f));
    let o = reorder_positions(f, command);
    match command {
        StackOrderCommand::BringToFront => {
            assert forall|a: int, b: int|
                0 <= a < b < o.len() && 0 <= o[a] < f.len() && 0 <= o[b] < f.len() && f[o[a]
                    - 0] && f[o[b] - 0] implies #[trigger] o[a] < #[trigger] o[b] by {
                if a < others.len() {
                    assert(o[a] == others[a]);
                    assert(negated(f)[others[a] as int]);
                } else {
                    assert(o[a] == selected[a - others.len()] && o[b] == selected[b
                        - others.len()]);
                }
            }
        },
        StackOrderCommand::SendToBack => {
            assert forall|a: int, b: int|
                0 <= a < b < o.len() && 0 <= o[a] < f.len() && 0 <= o[b] < f.len() && f[o[a]
                    - 0] && f[o[b] - 0] implies #[trigger] o[a] < #[trigger] o[b] by {
                if b >= selected.len() {
                    assert(o[b] == others[b - selected.len()]);
                    assert(negated(f)[others[b - selected.len()] as int]);
                } else {
                    assert(o[a] == selected[a] && o[b] == selected[b]);
                }
            }
        },
        StackOrderCommand::BringForward => {
            lemma_forward_keeps_order(f, 0);
        },
        StackOrderCommand::SendBackward => {
            lemma_backward_keeps_order(f, 0);
        },
    }
}

/// Flags with only position `p` set.
pub open spec fn only_flag(len: nat, p: int) -> Seq<bool> {
    Seq::new(len, |k: int| k == p)
}

proof fn lemma_ungroup_nothing(x: Seq<ElementView>, h: Seq<bool>)
    requires
        h.len() == x.len(),
        forall|k: int| 0 <= k < h.len() ==> !#[trigger] h[k],
    ensures
        ungrouped_elements(x, h) == x,
    decreases x.len(),
{
    if x.len() > 0 {
        lemma_ungroup_nothing(x.drop_last(), h.drop_last());
        assert(x.drop_last().push(x.last()) =~= x);
    }
}

proof fn lemma_ungroup_one(x: Seq<ElementView>, p: int)
    requires
        0 <= p < x.len(),
        x[p] is Group,
    ensures
        ungrouped_elements(x, only_flag(x.len(), p)) == x.take(p) + x[p]->Group_0 + x.skip(p
            + 1),
    decreases x.len(),
{
    let h = only_flag(x.len(), p);
    let n = x.len() as int;
    assert(h.drop_last() =~= only_flag((n - 1) as nat, p));
    if p == n - 1 {
        let h1 = h.drop_last();
        lemma_ungroup_nothing(x.drop_last(), h1);
        assert(x.take(p) =~= x.drop_last());
        assert(x.skip(p + 1) =~= Seq::<ElementView>::empty());
        assert(x.take(p) + x[p]->Group_0 + x.skip(p + 1) =~= x.drop_last() + x.last()->Group_0);
    } else {
        lemma_ungroup_one(x.drop_last(), p);
        assert(x.drop_last().take(p) =~= x.take(p));
        assert(x.drop_last().skip(p + 1).push(x.last()) =~= x.skip(p + 1));
        assert((x.take(p) + x[p]->Group_0 + x.drop_last().skip(p + 1)).push(x.last()) =~= x.take(
            p,
        ) + x[p]->Group_0 + x.skip(p + 1));
    }
}

proof fn lemma_ungroup_selects_nothing(x: Seq<ElementView>, h: Seq<bool>)
    requires
        h.len() == x.len(),
        forall|k: int| 0 <= k < h.len() ==> !#[trigger] h[k],
    ensures
        ungrouped_selection(x, h) == Seq::<usize>::empty(),
    decreases x.len(),
{
    if x.len() > 0 {
        lemma_ungroup_selects_nothing(x.drop_last(), h.drop_last());
    }
}

/// Ungrouping the group at `p` selects its children where they now stand.
proof fn lemma_ungroup_one_selection(x: Seq<ElementView>, p: int)
    requires
        0 <= p < x.len(),
        x[p] is Group,
    ensures
        ungrouped_selection(x, only_flag(x.len(), p)) == Seq::new(
            x[p]->Group_0.len(),
            |k: int| (p + k) as usize,
        ),
    decreases x.len(),
{
    let h = only_flag(x.len(), p);
    let n = x.len() as int;
    assert(h.drop_last() =~= only_flag((n - 1) as nat, p));
    if p == n - 1 {
        lemma_ungroup_nothing(x.drop_last(), h.drop_last());
        lemma_ungroup_selects_nothing(x.drop_last(), h.drop_last());
        assert(Seq::<usize>::empty() + Seq::new(x[p]->Group_0.len(), |k: int| (p + k) as usize)
            =~= Seq::new(x[p]->Group_0.len(), |k: int| (p + k) as usize));
    } else {
        lemma_ungroup_one_selection(x.drop_last(), p);
        assert(x.drop_last()[p] == x[p]);
    }
}

/// Ungrouping one group expands it a single level in its place: its children, in their
/// order, take its position and everything else keeps its order.
pub proof fn law_ungroup_expands_in_place(x: Seq<ElementView>, p: int)
    requires
        0 <= p < x.len(),
        x[p] is Group,
    ensures
        ungrouped_elements(x, only_flag(x.len(), p)) == x.take(p) + x[p]->Group_0 + x.skip(p
            + 1),
{
    lemma_ungroup_one(x, p);
}

/// Grouping puts one group where the first selected element was, holding the selected
/// elements in their order; the other elements keep theirs.
pub proof fn law_group_keeps_order(e: Seq<ElementView>, f: Seq<bool>)
    requires
        f.len() == e.len(),
        f.len() <= usize::MAX,
        indices_of_flags(f).len() > 0,
    ensures
        indices_of_flags(f)[0] <= indices_of_flags(negated(f)).len(),
        grouped_elements(e, f)[indices_of_flags(f)[0] as int] == ElementView::Group(
            pick(e, indices_of_flags(f)),
        ),
        strictly_increasing(indices_of_flags(f)),
        strictly_increasing(indices_of_flags(negated(f))),
        grouped_elements(e, f).len() == indices_of_flags(negated(f)).len() + 1,
{
    lemma_indices_of_flags(f);
    lemma_indices_of_flags(negated(f));
    let sel = indices_of_flags(f);
    let p = sel[0] as int;
    let g = negated(f).take(p);
    assert forall|k: int| 0 <= k < g.len() implies #[trigger] g[k] by {
        if f[k] {
            assert(sel.contains(k as usize));
            let m = choose|m: int| 0 <= m < sel.len() && sel[m] == k as usize;
            if m > 0 {
                assert(sel[0] < sel[m]);
            }
        }
    }
    lemma_count_true_all(g);
    lemma_count_true_prefix(negated(f), p);
}


/// A coordinate or width that is a number (not NaN).
pub open spec fn is_number(x: Scalar) -> bool {
    !bits_is_nan(x.bits)
}

pub open spec fn point_is_number(p: PaintPoint) -> bool {
    is_number(p.x) && is_number(p.y)
}

/// No coordinate, width or angle of `e`, or of anything it groups, is NaN.
pub open spec fn element_has_no_nan(e: ElementView) -> bool
    decreases e,
{
    match e {
        ElementView::Stroke(s) => is_number(s.width) && forall|i: int|
            0 <= i < s.points.len() ==> point_is_number(#[trigger] s.points[i]),
        ElementView::Shape(x) => is_number(x.width) && point_is_number(x.start) && point_is_number(
            x.end,
        ) && is_number(x.rotation_radians),
        ElementView::Fill(f) => point_is_number(f.origin),
        ElementView::Group(g) => forall|i: int| 0 <= i < g.len() ==> element_has_no_nan(#[trigger] g[i]),
    }
}

/// No number of the drawing is NaN: canvas size, grid spacing, guides and elements.
pub open spec fn document_has_no_nan(d: DocumentView) -> bool {
    &&& is_number(d.canvas_size.width)
    &&& is_number(d.canvas_size.height)
    &&& is_number(d.grid.spacing)
    &&& forall|i: int| 0 <= i < d.guides.lines.len() ==> is_number(#[trigger] d.guides.lines[i].position)
    &&& forall|i: int, k: int|
        0 <= i < d.layers.len() && 0 <= k < d.layers[i].elements.len() ==> element_has_no_nan(
            #[trigger] d.layers[i].elements[k],
        )
}

proof fn lemma_element_equals_itself(e: ElementView)
    requires
        element_has_no_nan(e),
    ensures
        element_eq(e, e),
    decreases e,
{
    match e {
        ElementView::Group(g) => {
            assert forall|i: int| 0 <= i < g.len() implies element_eq(#[trigger] g[i], g[i]) by {
                lemma_element_equals_itself(g[i]);
            }
        },
        _ => {},
    }
}

/// A drawing without NaN equals itself under the floating-point comparison that decides
/// whether there are unsaved changes, so right after saving or opening it counts as
/// saved.
pub proof fn law_saved_drawing_is_clean(d: DocumentView)
    requires
        document_has_no_nan(d),
    ensures
        document_eq(d, d),
{
    assert forall|i: int| 0 <= i < d.layers.len() implies layer_eq(#[trigger] d.layers[i], d.layers[i]) by {
        assert forall|k: int| 0 <= k < d.layers[i].elements.len() implies element_eq(
            #[trigger] d.layers[i].elements[k],
            d.layers[i].elements[k],
        ) by {
            lemma_element_equals_itself(d.layers[i].elements[k]);
        }
    }
}


/// Sending the selection to another layer appends the selected elements, in their
/// order, to the destination after its own, which stay as they were; moving takes exactly those
/// elements off the active layer, so none is lost or made, while duplicating leaves the
/// active layer as it was. Every other layer stays as it was.
pub proof fn law_transfer_keeps_elements(
    d: DocumentView,
    indices: Seq<usize>,
    destination: LayerId,
    duplicate: bool,
)
    requires
        transfer_allowed(d, indices, destination),
        active_elements(d).len() <= usize::MAX,
    ensures
        ({
            let a = layer_position(d.layers, d.active_layer_id)->Some_0;
            let b = layer_position(d.layers, destination)->Some_0;
            let r = transferred(d, indices, destination, duplicate);
            let n = normalized(indices, d.layers[a].elements.len()).len();
            &&& r.layers.len() == d.layers.len()
            &&& r.active_layer_id == destination
            &&& r.layers[b].elements.len() == d.layers[b].elements.len() + n
            &&& r.layers[b].elements.take(d.layers[b].elements.len() as int) == d.layers[b].elements
            &&& forall|k: int|
                0 <= k < n ==> #[trigger] r.layers[b].elements[d.layers[b].elements.len() + k]
                    == d.layers[a].elements[normalized(indices, d.layers[a].elements.len())[k] as int]
            &&& duplicate ==> r.layers[a] == d.layers[a]
            &&& !duplicate ==> r.layers[a].elements.len() + n == d.layers[a].elements.len()
            &&& forall|i: int|
                0 <= i < d.layers.len() && i != a && i != b ==> #[trigger] r.layers[i] == d.layers[i]
        }),
{
    let a = layer_position(d.layers, d.active_layer_id)->Some_0;
    let b = layer_position(d.layers, destination)->Some_0;
    assert(first_layer_at(d.layers, d.active_layer_id, a));
    assert(first_layer_at(d.layers, destination, b));
    assert(a != b);
    let e = d.layers[a].elements;
    let f = flags_of(indices, e.len());
    lemma_indices_of_flags(f);
    lemma_indices_of_flags(negated(f));
    lemma_flags_complement_count(f);
    let r = transferred(d, indices, destination, duplicate);
    let db = d.layers[b].elements;
    assert(r.layers[b].elements.take(db.len() as int) =~= db);
}


/// The flags of the run of positions `i..=j` among `len`.
pub open spec fn run_flags(len: nat, i: int, j: int) -> Seq<bool> {
    Seq::new(len, |k: int| i <= k <= j)
}

/// Grouping a run of elements and then ungrouping the group gives back the elements in
/// their order, with the run selected again.
pub proof fn law_ungroup_reverts_group(e: Seq<ElementView>, i: int, j: int)
    requires
        0 <= i < j < e.len(),
        e.len() <= usize::MAX,
    ensures
        grouped_elements(e, run_flags(e.len(), i, j)) == e.take(i) + seq![
            ElementView::Group(e.subrange(i, j + 1)),
        ] + e.skip(j + 1),
        ungrouped_elements(
            grouped_elements(e, run_flags(e.len(), i, j)),
            only_flag((e.len() - (j - i)) as nat, i),
        ) == e,
        ungrouped_selection(
            grouped_elements(e, run_flags(e.len(), i, j)),
            only_flag((e.len() - (j - i)) as nat, i),
        ) == Seq::new((j - i + 1) as nat, |k: int| (i + k) as usize),
{
    let n = e.len();
    let f = run_flags(n, i, j);
    lemma_indices_of_flags(f);
    lemma_indices_of_flags(negated(f));
    let sel = indices_of_flags(f);
    let uns = indices_of_flags(negated(f));
    let run = Seq::new((j - i + 1) as nat, |k: int| (i + k) as usize);
    assert forall|x: usize| #[trigger] sel.contains(x) <==> run.contains(x) by {
        if run.contains(x) {
            let k = choose|k: int| 0 <= k < run.len() && run[k] == x;
            assert(f[x as int]);
        }
        if sel.contains(x) {
            assert(run[x - i] == x);
        }
    }
    lemma_sorted_distinct_unique(sel, run);
    let rest = Seq::new((n - (j - i + 1)) as nat, |k: int| if k < i { k as usize } else { (k + (j - i + 1)) as usize });
    assert forall|x: usize| #[trigger] uns.contains(x) <==> rest.contains(x) by {
        if rest.contains(x) {
            let k = choose|k: int| 0 <= k < rest.len() && rest[k] == x;
            assert(negated(f)[x as int]);
        }
        if uns.contains(x) {
            if x < i {
                assert(rest[x as int] == x);
            } else {
                assert(rest[x - (j - i + 1)] == x);
            }
        }
    }
    lemma_sorted_distinct_unique(uns, rest);
    assert(pick(e, sel) =~= e.subrange(i, j + 1));
    assert(pick(e, uns) =~= e.take(i) + e.skip(j + 1));
    let x = grouped_elements(e, f);
    assert(x =~= e.take(i) + seq![ElementView::Group(e.subrange(i, j + 1))] + e.skip(j + 1));
    law_ungroup_expands_in_place(x, i);
    assert(x.take(i) + x[i]->Group_0 + x.skip(i + 1) =~= e);
    lemma_ungroup_one_selection(x, i);
    assert(Seq::new(x[i]->Group_0.len(), |k: int| (i + k) as usize) =~= Seq::new(
        (j - i + 1) as nat,
        |k: int| (i + k) as usize,
    ));
}

proof fn lemma_maximal_span_found(a: Seq<AbsoluteFillSpan>, b: Seq<AbsoluteFillSpan>, k: int)
    requires
        0 <= k < a.len(),
        forall|i: int| 0 <= i < a.len() ==> (#[trigger] a[i]).x_start < a[i].x_end,
        forall|i: int| 0 <= i < b.len() ==> (#[trigger] b[i]).x_start < b[i].x_end,
        spans_maximal(a),
        spans_maximal(b),
        forall|x: int, y: int| #![trigger covered(a, x, y)] #![trigger covered(b, x, y)]
            covered(a, x, y) <==> covered(b, x, y),
    ensures
        b.contains(a[k]),
{
    let s = a[k];
    let y = s.y as int;
    assert(in_span(a[k], s.x_start as int, y));
    assert(covered(a, s.x_start as int, y));
    assert(covered(b, s.x_start as int, y));
    let m = choose|m: int| 0 <= m < b.len() && #[trigger] in_span(b[m], s.x_start as int, y);
    let t = b[m];
    if t.x_start < s.x_start {
        assert(in_span(b[m], s.x_start - 1, y));
        assert(covered(b, s.x_start - 1, y));
        assert(!covered(a, s.x_start - 1, y));
    }
    if t.x_end > s.x_end {
        assert(in_span(b[m], s.x_end as int, y));
        assert(covered(b, s.x_end as int, y));
        assert(!covered(a, s.x_end as int, y));
    }
    if t.x_end < s.x_end {
        assert(in_span(a[k], t.x_end as int, y));
        assert(covered(a, t.x_end as int, y));
        assert(!covered(b, t.x_end as int, t.y as int));
    }
    assert(t == s);
    assert(b[m] == a[k]);
}

/// The pixels a fill covers decide its spans: two lists of non-empty, maximal runs that
/// cover the same pixels hold the same spans, and may differ only in their order.
pub proof fn law_fill_spans_determined(a: Seq<AbsoluteFillSpan>, b: Seq<AbsoluteFillSpan>)
    requires
        forall|i: int| 0 <= i < a.len() ==> (#[trigger] a[i]).x_start < a[i].x_end,
        forall|i: int| 0 <= i < b.len() ==> (#[trigger] b[i]).x_start < b[i].x_end,
        spans_maximal(a),
        spans_maximal(b),
        forall|x: int, y: int| #![trigger covered(a, x, y)] #![trigger covered(b, x, y)]
            covered(a, x, y) <==> covered(b, x, y),
    ensures
        a.to_set() == b.to_set(),
{
    assert forall|k: int| 0 <= k < a.len() implies b.contains(#[trigger] a[k]) by {
        lemma_maximal_span_found(a, b, k);
    }
    assert forall|k: int| 0 <= k < b.len() implies a.contains(#[trigger] b[k]) by {
        lemma_maximal_span_found(b, a, k);
    }
    assert forall|s: AbsoluteFillSpan| a.to_set().contains(s) <==> b.to_set().contains(s) by {
        if a.contains(s) {
            let k = choose|k: int| 0 <= k < a.len() && a[k] == s;
            assert(b.contains(a[k]));
        }
        if b.contains(s) {
            let k = choose|k: int| 0 <= k < b.len() && b[k] == s;
            assert(a.contains(b[k]));
        }
    }
    assert(a.to_set() =~= b.to_set());
}

/// From idle, a press of the primary button over the canvas at a position, with neither
/// the space bar held nor the middle button pressed, starts what the tool does: the brush
/// and the eraser start a stroke, the rectangle, ellipse and line tools a shape, both
/// drawing at once, and the select tool a selection (extended while Shift is held).
pub proof fn law_press_starts_what_the_tool_draws(tool: CanvasToolKind, ev: PointerEvent)
    requires
        ev.hovered,
        ev.has_position,
        ev.primary_pressed,
        !ev.space_down,
        !ev.middle_pressed,
    ensures
        ({
            let (mode, action) = input_step(InteractionMode::Idle, tool, ev);
            &&& (tool is Brush || tool is Eraser) <==> action.press == PressAction::Stroke
            &&& (tool is Rectangle || tool is Ellipse || tool is Line) <==> action.press
                == PressAction::Shape
            &&& tool is Select <==> action.press == (PressAction::Selection { extend: ev.shift })
            &&& mode == if tool is Select {
                InteractionMode::Idle
            } else {
                InteractionMode::Drawing
            }
            &&& action.repaint
        }),
{
}

/// Alpha for an opacity of `percent` percent: `255 * percent / 100` rounded to the
/// nearest integer, halves up, and at most 255.
pub open spec fn alpha_of_percent(percent: u8) -> int {
    let rounded = (255 * percent as int + 50) / 100;
    if rounded > 255 {
        255
    } else {
        rounded
    }
}

/// Setting the opacity of a bucket fill or a freehand stroke keeps its red, green and blue
/// and everything else about it, and gives it the alpha of that percentage.
pub proof fn law_opacity_sets_only_alpha(e: ElementView, p: u8)
    ensures
        e matches ElementView::Fill(f) ==> restyled(e, StyleEdit::Fill(FillEdit::Opacity(p)))
            matches Some(ElementView::Fill(g)) && g.origin == f.origin && g.spans == f.spans
            && g.color.r == f.color.r && g.color.g == f.color.g && g.color.b == f.color.b
            && g.color.a == alpha_of_percent(p),
        e matches ElementView::Stroke(s) ==> restyled(e, StyleEdit::Stroke(StrokeEdit::Opacity(p)))
            matches Some(ElementView::Stroke(g)) && g.tool == s.tool && g.width == s.width
            && g.points == s.points && g.color.r == s.color.r && g.color.g == s.color.g
            && g.color.b == s.color.b && g.color.a == alpha_of_percent(p),
{
}

/// Pixel `(x, y)` lies in rectangle `r`.
pub open spec fn rect_holds(r: FillRect, x: int, y: int) -> bool {
    r.x_start <= x < r.x_start + r.width && r.y <= y < r.y + r.height
}

/// Some rectangle of `rects` holds pixel `(x, y)`.
pub open spec fn rects_cover(rects: Seq<FillRect>, x: int, y: int) -> bool {
    exists|k: int| 0 <= k < rects.len() && #[trigger] rect_holds(rects[k], x, y)
}

proof fn lemma_merged_rects_cover(t: Seq<FillSpan>)
    ensures
        forall|k: int| 0 <= k < merged_rects(t).len() ==> (#[trigger] merged_rects(t)[k]).y
            + merged_rects(t)[k].height <= 0x1_0000_0000,
        forall|x: int, y: int| #![trigger rects_cover(merged_rects(t), x, y)] #![trigger fill_covers(t, x, y)]
            rects_cover(merged_rects(t), x, y) <==> fill_covers(t, x, y),
    decreases t.len(),
{
    if t.len() > 0 {
        let u = t.drop_last();
        lemma_merged_rects_cover(u);
        let rects = merged_rects(u);
        let m = merged_rects(t);
        let sp = t.last();
        assert forall|x: int, y: int| #![trigger fill_covers(t, x, y)]
            fill_covers(t, x, y) <==> fill_covers(u, x, y) || fill_span_holds(sp, x, y) by {
            if fill_covers(t, x, y) {
                let k = choose|k: int| 0 <= k < t.len() && #[trigger] fill_span_holds(t[k], x, y);
                if k < u.len() {
                    assert(fill_span_holds(u[k], x, y));
                }
            }
            if fill_covers(u, x, y) {
                let k = choose|k: int| 0 <= k < u.len() && #[trigger] fill_span_holds(u[k], x, y);
                assert(fill_span_holds(t[k], x, y));
            }
            if fill_span_holds(sp, x, y) {
                assert(fill_span_holds(t[t.len() - 1], x, y));
            }
        }
        if sp.spec_width() <= 0 {
            assert(m == rects);
            assert forall|x: int, y: int| #![trigger rects_cover(m, x, y)]
                rects_cover(m, x, y) <==> fill_covers(t, x, y) by {
                assert(fill_covers(t, x, y) <==> fill_covers(u, x, y));
            }
        } else if rects.len() > 0 && rects.last().x_start == sp.x_start && rects.last().width
            == sp.spec_width() && rects.last().y + rects.last().height == sp.y {
            let n = rects.len() - 1;
            let r = rects.last();
            let r2 = FillRect { height: (r.height + 1) as u64, ..r };
            assert(m == rects.update(n, r2));
            assert(r.y + r.height <= 0x1_0000_0000) by {
                assert(rects[n] == r);
            }
            assert forall|x: int, y: int| #![trigger rects_cover(m, x, y)]
                rects_cover(m, x, y) <==> fill_covers(t, x, y) by {
                assert(rect_holds(r2, x, y) <==> rect_holds(r, x, y) || fill_span_holds(sp, x, y));
                if rects_cover(m, x, y) {
                    let k = choose|k: int| 0 <= k < m.len() && #[trigger] rect_holds(m[k], x, y);
                    if k < n {
                        assert(rect_holds(rects[k], x, y));
                    } else if rect_holds(r, x, y) {
                        assert(rect_holds(rects[n], x, y));
                    }
                }
                if rects_cover(rects, x, y) {
                    let k = choose|k: int| 0 <= k < rects.len() && #[trigger] rect_holds(rects[k], x, y);
                    if k < n {
                        assert(rect_holds(m[k], x, y));
                    } else {
                        assert(rect_holds(m[n], x, y));
                    }
                }
                if fill_span_holds(sp, x, y) {
                    assert(rect_holds(m[n], x, y));
                }
            }
            assert forall|k: int| 0 <= k < m.len() implies (#[trigger] m[k]).y + m[k].height
                <= 0x1_0000_0000 by {
                if k < n {
                    assert(m[k] == rects[k]);
                }
            }
        } else {
            let r2 = FillRect { x_start: sp.x_start, y: sp.y, width: sp.spec_width() as u32, height: 1 };
            assert(m == rects.push(r2));
            let n = rects.len() as int;
            assert forall|x: int, y: int| #![trigger rects_cover(m, x, y)]
                rects_cover(m, x, y) <==> fill_covers(t, x, y) by {
                assert(rect_holds(r2, x, y) <==> fill_span_holds(sp, x, y));
                if rects_cover(m, x, y) {
                    let k = choose|k: int| 0 <= k < m.len() && #[trigger] rect_holds(m[k], x, y);
                    if k < n {
                        assert(rect_holds(rects[k], x, y));
                    }
                }
                if rects_cover(rects, x, y) {
                    let k = choose|k: int| 0 <= k < rects.len() && #[trigger] rect_holds(rects[k], x, y);
                    assert(rect_holds(m[k], x, y));
                }
                if fill_span_holds(sp, x, y) {
                    assert(rect_holds(m[n], x, y));
                }
            }
            assert forall|k: int| 0 <= k < m.len() implies (#[trigger] m[k]).y + m[k].height
                <= 0x1_0000_0000 by {
                if k < n {
                    assert(m[k] == rects[k]);
                }
            }
        }
    }
}

/// The rectangles of a fill's vector export hold exactly the pixels of its spans: a
/// pixel lies in some rectangle if and only if it lies in some span.
pub proof fn law_fill_rects_cover_the_spans(spans: Seq<FillSpan>)
    ensures
        forall|x: int, y: int|
            #![trigger fill_covers(spans, x, y)]
            rects_cover(merged_rects(spans.sort_by(|a: FillSpan, b: FillSpan| span_le(a, b))), x, y)
                <==> fill_covers(spans, x, y),
{
    let leq = |a: FillSpan, b: FillSpan| span_le(a, b);
    let t = spans.sort_by(leq);
    lemma_span_le_total();
    spans.lemma_sort_by_ensures(leq);
    spans.to_multiset_ensures();
    t.to_multiset_ensures();
    lemma_merged_rects_cover(t);
    assert forall|x: int, y: int| #![trigger fill_covers(spans, x, y)]
        fill_covers(t, x, y) <==> fill_covers(spans, x, y) by {
        if fill_covers(t, x, y) {
            let k = choose|k: int| 0 <= k < t.len() && #[trigger] fill_span_holds(t[k], x, y);
            assert(t.contains(t[k]));
            assert(spans.contains(t[k]));
            let j = choose|j: int| 0 <= j < spans.len() && spans[j] == t[k];
            assert(fill_span_holds(spans[j], x, y));
        }
        if fill_covers(spans, x, y) {
            let k = choose|k: int| 0 <= k < spans.len() && #[trigger] fill_span_holds(spans[k], x, y);
            assert(spans.contains(spans[k]));
            assert(spans.to_multiset().count(spans[k]) > 0);
            assert(t.to_multiset().count(spans[k]) > 0);
            assert(t.contains(spans[k]));
            let j = choose|j: int| 0 <= j < t.len() && t[j] == spans[k];
            assert(fill_span_holds(t[j], x, y));
        }
    }
}

/// Where ungrouping puts what sat at position `i`: after what the elements before it became.
pub open spec fn ungrouped_position(e: Seq<ElementView>, f: Seq<bool>, i: int) -> int {
    ungrouped_elements(e.take(i), f.take(i)).len() as int
}

proof fn lemma_ungroup_prefix(e: Seq<ElementView>, f: Seq<bool>)
    requires
        f.len() == e.len(),
        e.len() > 0,
    ensures
        ({
            let out = ungrouped_elements(e, f);
            let sel = ungrouped_selection(e, f);
            let pre = ungrouped_elements(e.drop_last(), f.drop_last());
            let psel = ungrouped_selection(e.drop_last(), f.drop_last());
            &&& pre.len() <= out.len()
            &&& forall|a: int| 0 <= a < pre.len() ==> out[a] == #[trigger] pre[a]
            &&& forall|v: usize| psel.contains(v) ==> #[trigger] sel.contains(v)
        }),
{
    let out = ungrouped_elements(e, f);
    let sel = ungrouped_selection(e, f);
    let pre = ungrouped_elements(e.drop_last(), f.drop_last());
    let psel = ungrouped_selection(e.drop_last(), f.drop_last());
    assert forall|v: usize| psel.contains(v) implies #[trigger] sel.contains(v) by {
        let a = choose|a: int| 0 <= a < psel.len() && psel[a] == v;
        if f.last() {
            if e.last() is Group {
                let ext = Seq::new(e.last()->Group_0.len(), |k: int| (pre.len() + k) as usize);
                assert(sel == psel + ext);
                assert(sel[a] == v);
            } else {
                assert(sel == psel.push(pre.len() as usize));
                assert(sel[a] == v);
            }
        } else {
            assert(sel == psel);
        }
    }
}

proof fn lemma_ungroup_keeps_element(e: Seq<ElementView>, f: Seq<bool>, i: int)
    requires
        f.len() == e.len(),
        0 <= i < e.len(),
        f[i],
        !(e[i] is Group),
    ensures
        ungrouped_position(e, f, i) < ungrouped_elements(e, f).len(),
        ungrouped_elements(e, f)[ungrouped_position(e, f, i)] == e[i],
        ungrouped_selection(e, f).contains(ungrouped_position(e, f, i) as usize),
    decreases e.len(),
{
    let u = e.drop_last();
    let g = f.drop_last();
    let n = e.len() - 1;
    lemma_ungroup_prefix(e, f);
    let pre = ungrouped_elements(u, g);
    let psel = ungrouped_selection(u, g);
    if i < n {
        lemma_ungroup_keeps_element(u, g, i);
        assert(u.take(i) =~= e.take(i));
        assert(g.take(i) =~= f.take(i));
        let q = ungrouped_position(e, f, i);
        assert(q == ungrouped_position(u, g, i));
        assert(psel.contains(q as usize));
        assert(pre[q] == u[i]);
    } else {
        assert(e.take(i) =~= u);
        assert(f.take(i) =~= g);
        let sel = ungrouped_selection(e, f);
        assert(ungrouped_elements(e, f) == pre.push(e[i]));
        assert(sel == psel.push(pre.len() as usize));
        assert(sel[psel.len() as int] == pre.len() as usize);
    }
}

proof fn lemma_ungroup_keeps_child(e: Seq<ElementView>, f: Seq<bool>, i: int, k: int)
    requires
        f.len() == e.len(),
        0 <= i < e.len(),
        f[i],
        e[i] is Group,
        0 <= k < e[i]->Group_0.len(),
    ensures
        ungrouped_position(e, f, i) + k < ungrouped_elements(e, f).len(),
        ungrouped_elements(e, f)[ungrouped_position(e, f, i) + k] == e[i]->Group_0[k],
        ungrouped_selection(e, f).contains((ungrouped_position(e, f, i) + k) as usize),
    decreases e.len(),
{
    let u = e.drop_last();
    let g = f.drop_last();
    let n = e.len() - 1;
    lemma_ungroup_prefix(e, f);
    let pre = ungrouped_elements(u, g);
    let psel = ungrouped_selection(u, g);
    if i < n {
        lemma_ungroup_keeps_child(u, g, i, k);
        assert(u.take(i) =~= e.take(i));
        assert(g.take(i) =~= f.take(i));
        let q = ungrouped_position(e, f, i);
        assert(q == ungrouped_position(u, g, i));
        assert(u[i] == e[i]);
        assert(psel.contains((q + k) as usize));
        assert(pre[q + k] == u[i]->Group_0[k]);
    } else {
        assert(e.take(i) =~= u);
        assert(f.take(i) =~= g);
        let sel = ungrouped_selection(e, f);
        let ext = Seq::new(e.last()->Group_0.len(), |m: int| (pre.len() + m) as usize);
        assert(ungrouped_elements(e, f) == pre + e[i]->Group_0);
        assert(sel == psel + ext);
        assert(sel[psel.len() + k] == (pre.len() + k) as usize);
    }
}

/// Ungrouping keeps what was selected selected: a selected element that is not a group
/// stays, itself, at its place after what the elements before it became, and the `k`-th
/// child of a selected group takes the `k`-th place from there; each of these positions
/// is in the returned selection.
pub proof fn law_ungroup_keeps_selected(e: Seq<ElementView>, f: Seq<bool>, i: int, k: int)
    requires
        f.len() == e.len(),
        0 <= i < e.len(),
        f[i],
    ensures
        !(e[i] is Group) ==> ungrouped_position(e, f, i) < ungrouped_elements(e, f).len()
            && ungrouped_elements(e, f)[ungrouped_position(e, f, i)] == e[i]
            && ungrouped_selection(e, f).contains(ungrouped_position(e, f, i) as usize),
        e[i] is Group && 0 <= k < e[i]->Group_0.len() ==> ungrouped_position(e, f, i) + k
            < ungrouped_elements(e, f).len() && ungrouped_elements(e, f)[ungrouped_position(e, f, i)
            + k] == e[i]->Group_0[k] && ungrouped_selection(e, f).contains(
            (ungrouped_position(e, f, i) + k) as usize),
{
    if e[i] is Group {
        if 0 <= k < e[i]->Group_0.len() {
            lemma_ungroup_keeps_child(e, f, i, k);
        }
    } else {
        lemma_ungroup_keeps_element(e, f, i);
    }
}

proof fn lemma_trim_range_exists(s: Seq<char>)
    ensures
        exists|a: int, b: int| is_trim_range(s, a, b),
    decreases s.len(),
{
    if s.len() > 0 {
        let u = s.drop_last();
        lemma_trim_range_exists(u);
        let (a, b) = choose|a: int, b: int| is_trim_range(u, a, b);
        let n = s.len() - 1;
        assert forall|i: int| 0 <= i < n implies s[i] == #[trigger] u[i] by {}
        assert forall|i: int| 0 <= i < a implies is_white_space(#[trigger] s[i]) by {
            assert(is_white_space(u[i]));
        }
        if is_white_space(s[n]) {
            assert forall|i: int| b <= i < s.len() implies is_white_space(#[trigger] s[i]) by {
                if i < n {
                    assert(is_white_space(u[i]));
                }
            }
            if a < b {
                assert(s[a] == u[a] && s[b - 1] == u[b - 1]);
            }
            assert(is_trim_range(s, a, b));
        } else if a < b {
            assert(s[a] == u[a]);
            assert(is_trim_range(s, a, s.len() as int));
        } else {
            assert forall|i: int| 0 <= i < n implies is_white_space(#[trigger] s[i]) by {
                assert(is_white_space(u[i]));
            }
            assert(is_trim_range(s, n, s.len() as int));
        }
    } else {
        assert(is_trim_range(s, 0, 0));
    }
}

/// The characters with the Unicode `White_Space` property: tab to carriage return, space,
/// next line, no-break space, ogham space mark, en quad to hair space, the line and
/// paragraph separators, narrow no-break space, medium mathematical space and the
/// ideographic space.
pub open spec fn unicode_white_space(c: char) -> bool {
    let u = c as u32;
    ||| u == 0x09 || u == 0x0a || u == 0x0b || u == 0x0c || u == 0x0d
    ||| u == 0x20 || u == 0x85 || u == 0xa0 || u == 0x1680
    ||| u == 0x2000 || u == 0x2001 || u == 0x2002 || u == 0x2003 || u == 0x2004 || u == 0x2005
        || u == 0x2006 || u == 0x2007 || u == 0x2008 || u == 0x2009 || u == 0x200a
    ||| u == 0x2028 || u == 0x2029 || u == 0x202f || u == 0x205f || u == 0x3000
}

/// Trimming (as a layer is renamed) removes exactly the leading and trailing characters
/// with the Unicode `White_Space` property, the ideographic space among them: what is
/// left is a stretch of the text that neither starts nor ends with such a character,
/// and everything cut off before or after it is such a character.
pub proof fn law_trim_strips_unicode_white_space(s: Seq<char>)
    ensures
        exists|a: int, b: int|
            0 <= a <= b <= s.len() && trimmed(s) == s.subrange(a, b)
            && (forall|i: int| 0 <= i < a ==> unicode_white_space(#[trigger] s[i]))
            && (forall|i: int| b <= i < s.len() ==> unicode_white_space(#[trigger] s[i]))
            && (a < b ==> !unicode_white_space(s[a]) && !unicode_white_space(s[b - 1])),
{
    lemma_trim_range_exists(s);
    let (a, b) = choose|a: int, b: int| is_trim_range(s, a, b);
    assert forall|c: char| #[trigger] is_white_space(c) <==> unicode_white_space(c) by {}
    assert(trimmed(s) == s.subrange(a, b));
}

/// While a stroke or shape is being drawn, the preview follows the held button at a
/// position and a release finishes it and makes the canvas idle; editing the selection
/// goes the same way. A pan goes on while its button (and, for a space drag, the space
/// bar) is held, and moves the view on every frame. Nothing of this depends on the tool.
pub proof fn law_frames_follow_the_held_button(tool: CanvasToolKind, ev: PointerEvent, m: PanMode)
    ensures
        ({
            let (next, action) = input_step(InteractionMode::Drawing, tool, ev);
            &&& action.update_preview == (ev.primary_down && ev.has_position)
            &&& action.commit_preview == ev.primary_released
            &&& next == if ev.primary_released { InteractionMode::Idle } else { InteractionMode::Drawing }
            &&& action.press == PressAction::Nothing && !action.pan && !action.update_selection
                && !action.finish_selection
        }),
        ({
            let (next, action) = input_step(InteractionMode::EditingSelection, tool, ev);
            &&& action.update_selection == (ev.primary_down && ev.has_position)
            &&& action.finish_selection == ev.primary_released
            &&& next == if ev.primary_released {
                InteractionMode::Idle
            } else {
                InteractionMode::EditingSelection
            }
            &&& action.press == PressAction::Nothing && !action.pan && !action.update_preview
                && !action.commit_preview
        }),
        ({
            let (next, action) = input_step(InteractionMode::Panning(m), tool, ev);
            let held = if m is SpaceDrag { ev.primary_down && ev.space_down } else { ev.middle_down };
            &&& action.pan
            &&& next == if held { InteractionMode::Panning(m) } else { InteractionMode::Idle }
            &&& action.press == PressAction::Nothing && !action.update_preview && !action.commit_preview
                && !action.update_selection && !action.finish_selection
        }),
        ev.hovered && ev.middle_pressed ==> input_step(InteractionMode::Idle, tool, ev).0
            == InteractionMode::Panning(PanMode::MiddleDrag),
        ev.hovered && !ev.middle_pressed && ev.space_down && ev.primary_pressed ==> input_step(
            InteractionMode::Idle,
            tool,
            ev,
        ).0 == InteractionMode::Panning(PanMode::SpaceDrag),
        !ev.hovered || !(ev.middle_pressed || ev.primary_pressed) ==> input_step(
            InteractionMode::Idle,
            tool,
            ev,
        ).0 == InteractionMode::Idle && input_step(InteractionMode::Idle, tool, ev).1.press
            == PressAction::Nothing,
{
}

/// A style change reaches only elements of its kind, and sets the one thing it names:
/// a color replaces the color, a width the width, a fill the fill (only rectangles and
/// ellipses take one); everything else about the element stays.
pub proof fn law_style_change_sets_what_it_names(e: ElementView, edit: StyleEdit)
    ensures
        restyled(e, edit) is Some <==> (edit is Shape && e is Shape || edit is Stroke && e is Stroke
            || edit is Fill && e is Fill),
        e matches ElementView::Fill(f) ==> forall|c: RgbaColor| restyled(e, StyleEdit::Fill(
            FillEdit::Color(c))) == Some(ElementView::Fill(FillView { color: c, origin: f.origin, spans: f.spans })),
        e matches ElementView::Stroke(s) ==> forall|c: RgbaColor| restyled(e, StyleEdit::Stroke(
            StrokeEdit::Color(c))) == Some(ElementView::Stroke(StrokeView {
            tool: s.tool, color: c, width: s.width, points: s.points })),
        e matches ElementView::Stroke(s) ==> forall|w: Scalar| restyled(e, StyleEdit::Stroke(
            StrokeEdit::Width(w))) == Some(ElementView::Stroke(StrokeView {
            tool: s.tool, color: s.color, width: w, points: s.points })),
        e matches ElementView::Shape(s) ==> forall|c: RgbaColor| #![trigger restyled(e, StyleEdit::Shape(ShapeEdit::StrokeColor(c)))]
            restyled(e, StyleEdit::Shape(ShapeEdit::StrokeColor(c))) matches Some(ElementView::Shape(x))
            && x.color == c && x.kind == s.kind && x.fill_color == s.fill_color && x.width == s.width
            && x.start == s.start && x.end == s.end && x.rotation_radians == s.rotation_radians,
        e matches ElementView::Shape(s) ==> forall|w: Scalar| #![trigger restyled(e, StyleEdit::Shape(ShapeEdit::Width(w)))]
            restyled(e, StyleEdit::Shape(ShapeEdit::Width(w))) matches Some(ElementView::Shape(x))
            && x.width == w && x.kind == s.kind && x.fill_color == s.fill_color && x.color == s.color
            && x.start == s.start && x.end == s.end && x.rotation_radians == s.rotation_radians,
        e matches ElementView::Shape(s) ==> forall|o: Option<RgbaColor>| #![trigger restyled(e, StyleEdit::Shape(ShapeEdit::Fill(o)))]
            restyled(e, StyleEdit::Shape(ShapeEdit::Fill(o))) matches Some(ElementView::Shape(x))
            && x.fill_color == (if s.kind is Line { None } else { o }) && x.kind == s.kind
            && x.width == s.width && x.color == s.color && x.start == s.start && x.end == s.end
            && x.rotation_radians == s.rotation_radians,
{
}

proof fn lemma_ungroup_selection_bounded(e: Seq<ElementView>, f: Seq<bool>)
    requires
        f.len() == e.len(),
    ensures
        forall|j: int| 0 <= j < ungrouped_selection(e, f).len() ==> (#[trigger] ungrouped_selection(e, f)[j])
            < ungrouped_elements(e, f).len(),
    decreases e.len(),
{
    if e.len() > 0 {
        let u = e.drop_last();
        let g = f.drop_last();
        lemma_ungroup_selection_bounded(u, g);
        let pre = ungrouped_elements(u, g);
        let psel = ungrouped_selection(u, g);
        let out = ungrouped_elements(e, f);
        let sel = ungrouped_selection(e, f);
        assert(out.len() >= pre.len());
        assert forall|j: int| 0 <= j < sel.len() implies (#[trigger] sel[j]) < out.len() by {
            if j < psel.len() {
                if f.last() {
                    if e.last() is Group {
                        let ext = Seq::new(e.last()->Group_0.len(), |k: int| (pre.len() + k) as usize);
                        assert(sel == psel + ext);
                    } else {
                        assert(sel == psel.push(pre.len() as usize));
                    }
                } else {
                    assert(sel == psel);
                }
                assert(sel[j] == psel[j]);
            } else if e.last() is Group {
                let ext = Seq::new(e.last()->Group_0.len(), |k: int| (pre.len() + k) as usize);
                assert(sel == psel + ext);
                assert(out == pre + e.last()->Group_0);
                assert(sel[j] == ext[j - psel.len()]);
            } else {
                assert(sel == psel.push(pre.len() as usize));
                assert(out == pre.push(e.last()));
            }
        }
    }
}

proof fn lemma_ungroup_leaves_unselected(e: Seq<ElementView>, f: Seq<bool>, i: int)
    requires
        f.len() == e.len(),
        0 <= i < e.len(),
        !f[i],
        ungrouped_elements(e, f).len() <= usize::MAX,
    ensures
        ungrouped_position(e, f, i) < ungrouped_elements(e, f).len(),
        ungrouped_elements(e, f)[ungrouped_position(e, f, i)] == e[i],
        !ungrouped_selection(e, f).contains(ungrouped_position(e, f, i) as usize),
    decreases e.len(),
{
    let u = e.drop_last();
    let g = f.drop_last();
    let n = e.len() - 1;
    lemma_ungroup_prefix(e, f);
    lemma_ungroup_selection_bounded(u, g);
    let pre = ungrouped_elements(u, g);
    let psel = ungrouped_selection(u, g);
    let out = ungrouped_elements(e, f);
    let sel = ungrouped_selection(e, f);
    if i < n {
        lemma_ungroup_leaves_unselected(u, g, i);
        assert(u.take(i) =~= e.take(i));
        assert(g.take(i) =~= f.take(i));
        let q = ungrouped_position(e, f, i);
        assert(q == ungrouped_position(u, g, i));
        assert(pre[q] == u[i]);
        if sel.contains(q as usize) {
            let j = choose|j: int| 0 <= j < sel.len() && sel[j] == q as usize;
            if f.last() {
                if e.last() is Group {
                    let ext = Seq::new(e.last()->Group_0.len(), |k: int| (pre.len() + k) as usize);
                    assert(sel == psel + ext);
                    if j < psel.len() {
                        assert(psel[j] == q as usize);
                    } else {
                        assert(sel[j] == ext[j - psel.len()]);
                        assert(psel.len() <= j);
                    }
                } else {
                    assert(sel == psel.push(pre.len() as usize));
                    if j < psel.len() {
                        assert(psel[j] == q as usize);
                    }
                }
            } else {
                assert(sel == psel);
                assert(psel[j] == q as usize);
            }
        }
    } else {
        assert(e.take(i) =~= u);
        assert(f.take(i) =~= g);
        assert(sel == psel);
        assert(out == pre.push(e[i]));
        if sel.contains(pre.len() as usize) {
            let j = choose|j: int| 0 <= j < sel.len() && sel[j] == pre.len() as usize;
            assert(psel[j] < pre.len());
        }
    }
}

/// Ungrouping leaves what was not selected unselected: an element that was not selected
/// stays, itself, at its place after what the elements before it became, and that place
/// is not in the returned selection; every entry of the selection is a place in the
/// ungrouped elements. (The ungrouped elements are held in memory, so they number at
/// most `usize::MAX`.)
pub proof fn law_ungroup_leaves_unselected(e: Seq<ElementView>, f: Seq<bool>, i: int)
    requires
        f.len() == e.len(),
        0 <= i < e.len(),
        !f[i],
        ungrouped_elements(e, f).len() <= usize::MAX,
    ensures
        ungrouped_position(e, f, i) < ungrouped_elements(e, f).len(),
        ungrouped_elements(e, f)[ungrouped_position(e, f, i)] == e[i],
        !ungrouped_selection(e, f).contains(ungrouped_position(e, f, i) as usize),
        forall|j: int| 0 <= j < ungrouped_selection(e, f).len() ==> (#[trigger] ungrouped_selection(e, f)[j])
            < ungrouped_elements(e, f).len(),
{
    lemma_ungroup_leaves_unselected(e, f, i);
    lemma_ungroup_selection_bounded(e, f);
}

} // verus!
