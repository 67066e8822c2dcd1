use vstd::prelude::*;

use crate::document::{
    lemma_max_layer_id, max_layer_id, reorder_changes, reordered, cleared, transfer_allowed, transferred, transferred_selection,
    with_pushed_element, active_elements, added_layer, can_add_layer, copy_name, deleted_active_layer, fresh_layer_id,
    layers_well_formed, moved_layer_down, moved_layer_up, toggled_locked, toggled_visibility,
    with_layer, default_document_view, element_at, first_replacement_at, ids_below_max,
    lemma_elements_change_keeps_structure, lemma_first_replacement_unique, replaced_elements,
    lemma_guide_removal_repairable, repaired, layout_repairable, with_layer_elements, with_replaced_element, DocumentView, PaintDocument,
};
use crate::indices::{flags_of, normalized, strictly_increasing};
use crate::decimal::{format_units, units_text};
use crate::layer::{has_layer, lemma_layer_found, layer_position, LayerView};
use crate::restyle::{
    edited_shape, restyle, restyle_changes, restyle_count, restyled, restyled_elements,
    shape_edited, FillEdit, ShapeEdit, StrokeEdit, StyleEdit,
};
use crate::element::{elements_eq, element_eq, point_eq, shape_eq, stroke_eq, ElementView, FillElement, FillView, PaintElement, ShapeElement, Stroke, StrokeView};
use crate::laws::law_sanitize_repairs_once;
use crate::history::{
    layer_eq, document_eq, edited, history_well_formed, redone, undone, with_active_layer, DocumentHistory,
    HistoryView,
};
use crate::model::{
    AlignmentKind, GridSettings, GuideSettingsView, LayerId, PaintPoint, RgbaColor, RulerSettings, Scalar,
    ShapeKind, SmartGuideSettings, StackOrderCommand, ToolKind,
};
use crate::storage::{
    default_file_name, same_text, ExportedImage, LoadedDocument, SavedDocument, StorageError,
    StorageFacade,
};
use crate::svg::RasterBackground;
use crate::style::{SelectionPaintContext, ShapeStyleContext, ShapeStyleTarget};
use crate::selection::{
    copy_positions, lemma_sorted_distinct_unique, sorted_distinct_of, toggled_selection, CanvasToolKind,
    DocumentEditMode, SelectionState,
};
use crate::text::{decimal_chars, push_decimal, string_of, trim, trimmed};
use vstd::string::StringExecFns;
use crate::tools::{
    first_entries, push_recent_color, recent_colors_with, ToolColorSettings, ToolSettings,
    ToolWidthSettings, RECENT_COLOR_LIMIT,
};
use crate::input::InteractionMode;
use crate::ui::{
    tool_switch_message, tool_tooltip, tutorial_step_count, ColorTarget, StatusKind, StatusMessage,
};

verus! {

/// Editor settings kept between sessions.
#[derive(Debug)]
pub struct UiStatePersistence {
    pub tutorial_dismissed: bool,
    pub recent_colors: Vec<RgbaColor>,
}

impl Default for UiStatePersistence {
    fn default() -> (s: Self)
        ensures
            !s.tutorial_dismissed,
            s.recent_colors@ == Seq::<RgbaColor>::empty(),
    {
        UiStatePersistence { tutorial_dismissed: false, recent_colors: Vec::new() }
    }
}

/// The editing state of the paint program around its history: the selection, the
/// tools and their colors and widths, the recent colors, the tutorial and the status
/// line. Drawing on screen and file dialogs happen outside it.
pub struct PaintApp {
    history: DocumentHistory,
    selection: SelectionState,
    selection_layer_id: Option<LayerId>,
    active_tool: CanvasToolKind,
    multi_select_mode: bool,
    finger_draw_enabled: bool,
    tool_colors: ToolColorSettings,
    tool_widths: ToolWidthSettings,
    status_message: StatusMessage,
    show_help: bool,
    ui_state: UiStatePersistence,
    ui_state_dirty: bool,
    tutorial_visible: bool,
    tutorial_step_index: usize,
    layer_name_draft: String,
    layer_name_draft_for: Option<LayerId>,
    document_name: String,
    saved_snapshot: PaintDocument,
}

/// The value of the editing state.
pub struct EditorView {
    pub history: HistoryView,
    pub selection: Seq<usize>,
    pub selection_layer: Option<LayerId>,
    pub active_tool: CanvasToolKind,
    pub multi_select_mode: bool,
    pub finger_draw_enabled: bool,
    pub tool_colors: ToolColorSettings,
    pub tool_widths: ToolWidthSettings,
    pub status_kind: StatusKind,
    pub status_text: Seq<char>,
    pub show_help: bool,
    pub tutorial_dismissed: bool,
    pub recent_colors: Seq<RgbaColor>,
    pub ui_state_dirty: bool,
    pub tutorial_visible: bool,
    pub tutorial_step_index: nat,
    pub layer_name_draft: Seq<char>,
    pub layer_name_draft_for: Option<LayerId>,
    pub document_name: Seq<char>,
    pub saved_snapshot: DocumentView,
}

impl View for PaintApp {
    type V = EditorView;

    closed spec fn view(&self) -> EditorView {
        EditorView {
            history: self.history@,
            selection: self.selection@,
            selection_layer: self.selection_layer_id,
            active_tool: self.active_tool,
            multi_select_mode: self.multi_select_mode,
            finger_draw_enabled: self.finger_draw_enabled,
            tool_colors: self.tool_colors,
            tool_widths: self.tool_widths,
            status_kind: self.status_message.kind,
            status_text: self.status_message.text@,
            show_help: self.show_help,
            tutorial_dismissed: self.ui_state.tutorial_dismissed,
            recent_colors: self.ui_state.recent_colors@,
            ui_state_dirty: self.ui_state_dirty,
            tutorial_visible: self.tutorial_visible,
            tutorial_step_index: self.tutorial_step_index as nat,
            layer_name_draft: self.layer_name_draft@,
            layer_name_draft_for: self.layer_name_draft_for,
            document_name: self.document_name@,
            saved_snapshot: self.saved_snapshot@,
        }
    }
}

/// The status line set to `text` as information.
pub open spec fn with_info(v: EditorView, text: Seq<char>) -> EditorView {
    EditorView { status_kind: StatusKind::Info, status_text: text, ..v }
}

pub open spec fn first_hint() -> Seq<char> {
    "まずは左のペンか図形ツールで 1 つ描いてみましょう。困ったらヘルプを開けます。"@
}

pub open spec fn tutorial_hint() -> Seq<char> {
    "最初は「描く → 選ぶ → 保存」の流れをミニチュートリアルで確認できます。"@
}

/// The state of a new editor around the default drawing, with the saved settings and
/// the tutorial shown or not.
pub open spec fn started_editor(
    tutorial_dismissed: bool,
    recent: Seq<RgbaColor>,
    tutorial_visible: bool,
) -> EditorView {
    EditorView {
        history: HistoryView {
            current: repaired(default_document_view()),
            undo: Seq::empty(),
            redo: Seq::empty(),
        },
        selection: Seq::empty(),
        selection_layer: None,
        active_tool: CanvasToolKind::Brush,
        multi_select_mode: false,
        finger_draw_enabled: false,
        tool_colors: ToolColorSettings {
            stroke_color: RgbaColor { r: 37, g: 37, b: 41, a: 255 },
            fill_color: RgbaColor { r: 255, g: 199, b: 64, a: 180 },
            fill_enabled: false,
            quick_color_target: ColorTarget::Stroke,
        },
        tool_widths: ToolWidthSettings {
            draw_width: Scalar { bits: 0x40c0_0000u32 },
            eraser_width: Scalar { bits: 0x4140_0000u32 },
        },
        status_kind: StatusKind::Info,
        status_text: if tutorial_visible {
            tutorial_hint()
        } else {
            first_hint()
        },
        show_help: false,
        tutorial_dismissed,
        recent_colors: first_entries(recent, RECENT_COLOR_LIMIT as int),
        ui_state_dirty: false,
        tutorial_visible,
        tutorial_step_index: 0,
        layer_name_draft: "レイヤー 1"@,
        layer_name_draft_for: Some(1),
        document_name: default_file_name(),
        saved_snapshot: default_document_view(),
    }
}

/// Switching to `tool`: nothing when it is already active; leaving the select tool ends
/// multi-select mode; with `announce` the status line names the tool.
pub open spec fn tool_switched(v: EditorView, tool: CanvasToolKind, announce: bool) -> EditorView {
    if v.active_tool == tool {
        v
    } else {
        let w = EditorView {
            active_tool: tool,
            multi_select_mode: if tool is Select {
                v.multi_select_mode
            } else {
                false
            },
            ..v
        };
        if announce {
            with_info(w, tool.spec_label() + " に切り替えました。"@ + tool_tooltip(tool))
        } else {
            w
        }
    }
}

pub open spec fn multi_select_set(v: EditorView, enabled: bool) -> EditorView {
    if v.multi_select_mode == enabled {
        v
    } else if enabled {
        with_info(
            EditorView { multi_select_mode: true, active_tool: CanvasToolKind::Select, ..v },
            "複数選択モードをオンにしました。タップで追加や解除ができます。"@,
        )
    } else {
        with_info(
            EditorView { multi_select_mode: false, ..v },
            "複数選択モードをオフにしました。通常の選択と移動に戻ります。"@,
        )
    }
}

pub open spec fn multi_select_left(v: EditorView) -> EditorView {
    with_info(
        EditorView { multi_select_mode: false, active_tool: CanvasToolKind::Select, ..v },
        "複数選択を保ったまま通常の移動に戻しました。"@,
    )
}

/// A tool button: the select button in multi-select mode returns to plain selecting;
/// any other press switches tools with an announcement.
pub open spec fn tool_button_pressed(v: EditorView, tool: CanvasToolKind) -> EditorView {
    if tool is Select && v.multi_select_mode {
        multi_select_left(v)
    } else {
        tool_switched(v, tool, true)
    }
}

pub open spec fn finger_draw_set(v: EditorView, enabled: bool) -> EditorView {
    if v.finger_draw_enabled == enabled {
        v
    } else if enabled {
        with_info(
            EditorView { finger_draw_enabled: true, ..v },
            "指でも描画できるようにしました。タブレットでは必要に応じてオフに戻せます。"@,
        )
    } else {
        with_info(
            EditorView { finger_draw_enabled: false, ..v },
            "指の既定動作をビュー操作と長押し選択に戻しました。ペンやマウスはそのまま描画できます。"@,
        )
    }
}

/// The settings the canvas draws with in state `v`.
pub open spec fn settings_of(v: EditorView) -> ToolSettings {
    ToolSettings {
        tool: v.active_tool,
        stroke_color: v.tool_colors.stroke_color,
        fill_color: if v.tool_colors.fill_enabled {
            Some(v.tool_colors.fill_color)
        } else {
            None
        },
        width: v.tool_widths.spec_for_tool(v.active_tool),
        multi_select_mode: v.multi_select_mode,
        finger_draw_enabled: v.finger_draw_enabled,
    }
}

/// Every drawing of the history has a sound layer structure.
pub open spec fn editor_well_formed(v: EditorView) -> bool {
    history_well_formed(v.history)
}

/// The selected shapes of the active layer of `d`, in selection order, with their
/// positions.
pub open spec fn selected_shapes(d: DocumentView, sel: Seq<usize>) -> Seq<(usize, ShapeElement)>
    decreases sel.len(),
{
    if sel.len() == 0 {
        Seq::empty()
    } else {
        let rest = selected_shapes(d, sel.drop_last());
        match element_at(d, sel.last() as int) {
            Some(ElementView::Shape(s)) => rest.push((sel.last(), s)),
            _ => rest,
        }
    }
}

/// The selected strokes of the active layer of `d`, with their positions.
pub open spec fn selected_strokes(d: DocumentView, sel: Seq<usize>) -> Seq<(usize, StrokeView)>
    decreases sel.len(),
{
    if sel.len() == 0 {
        Seq::empty()
    } else {
        let rest = selected_strokes(d, sel.drop_last());
        match element_at(d, sel.last() as int) {
            Some(ElementView::Stroke(s)) => rest.push((sel.last(), s)),
            _ => rest,
        }
    }
}

/// The selected fills of the active layer of `d`, with their positions.
pub open spec fn selected_fills(d: DocumentView, sel: Seq<usize>) -> Seq<(usize, FillView)>
    decreases sel.len(),
{
    if sel.len() == 0 {
        Seq::empty()
    } else {
        let rest = selected_fills(d, sel.drop_last());
        match element_at(d, sel.last() as int) {
            Some(ElementView::Fill(f)) => rest.push((sel.last(), f)),
            _ => rest,
        }
    }
}

pub proof fn lemma_selected_counts(d: DocumentView, sel: Seq<usize>)
    ensures
        selected_shapes(d, sel).len() + selected_strokes(d, sel).len() + selected_fills(d, sel).len()
            <= sel.len(),
    decreases sel.len(),
{
    if sel.len() > 0 {
        lemma_selected_counts(d, sel.drop_last());
    }
}

/// The shapes the style edits of state `v` reach: the selected ones, with the select tool.
pub open spec fn shape_targets(v: EditorView) -> Seq<(usize, ShapeElement)> {
    if v.active_tool is Select {
        selected_shapes(v.history.current, v.selection)
    } else {
        Seq::empty()
    }
}

pub open spec fn stroke_targets(v: EditorView) -> Seq<(usize, StrokeView)> {
    if v.active_tool is Select {
        selected_strokes(v.history.current, v.selection)
    } else {
        Seq::empty()
    }
}

pub open spec fn fill_targets(v: EditorView) -> Seq<(usize, FillView)> {
    if v.active_tool is Select {
        selected_fills(v.history.current, v.selection)
    } else {
        Seq::empty()
    }
}

pub open spec fn stroke_pairs_view(s: Seq<(usize, Stroke)>) -> Seq<(usize, StrokeView)> {
    Seq::new(s.len(), |k: int| (s[k].0, s[k].1@))
}

pub open spec fn fill_pairs_view(s: Seq<(usize, FillElement)>) -> Seq<(usize, FillView)> {
    Seq::new(s.len(), |k: int| (s[k].0, s[k].1@))
}

/// How many of the shapes can carry a fill.
pub open spec fn fill_supported_count(t: Seq<(usize, ShapeElement)>) -> nat
    decreases t.len(),
{
    if t.len() == 0 {
        0
    } else {
        fill_supported_count(t.drop_last()) + if t.last().1.kind.spec_supports_fill() {
            1nat
        } else {
            0nat
        }
    }
}

/// How many of the shapes paint a fill.
pub open spec fn fill_enabled_count(t: Seq<(usize, ShapeElement)>) -> nat
    decreases t.len(),
{
    if t.len() == 0 {
        0
    } else {
        fill_enabled_count(t.drop_last()) + if t.last().1.spec_effective_fill_color() is Some {
            1nat
        } else {
            0nat
        }
    }
}

pub proof fn lemma_fill_counts_bounded(t: Seq<(usize, ShapeElement)>)
    ensures
        fill_supported_count(t) <= t.len(),
        fill_enabled_count(t) <= t.len(),
    decreases t.len(),
{
    if t.len() > 0 {
        lemma_fill_counts_bounded(t.drop_last());
    }
}

pub open spec fn tool_shape_kind(tool: CanvasToolKind) -> Option<ShapeKind> {
    match tool {
        CanvasToolKind::Rectangle => Some(ShapeKind::Rectangle),
        CanvasToolKind::Ellipse => Some(ShapeKind::Ellipse),
        CanvasToolKind::Line => Some(ShapeKind::Line),
        _ => None,
    }
}

pub open spec fn count_if(b: bool) -> usize {
    if b {
        1
    } else {
        0
    }
}

/// The shape style panel of state `v`: the one selected shape alone, else the selected
/// shapes with the first as representative, else the next shape of a shape tool.
pub open spec fn shape_style_context_of(v: EditorView) -> Option<ShapeStyleContext> {
    let t = shape_targets(v);
    let total = v.selection.len();
    if t.len() == 1 && total == 1 {
        let s = t[0].1;
        Some(
            ShapeStyleContext {
                target: ShapeStyleTarget::SelectedShape,
                kind: s.kind,
                stroke_color: s.color,
                fill_color: s.spec_effective_fill_color(),
                width: s.width,
                shape_count: 1,
                total_selection_count: 1,
                fill_supported_count: count_if(s.kind.spec_supports_fill()),
                fill_enabled_count: count_if(s.spec_effective_fill_color() is Some),
            },
        )
    } else if t.len() > 0 {
        let s = t[0].1;
        Some(
            ShapeStyleContext {
                target: ShapeStyleTarget::SelectedShapes,
                kind: s.kind,
                stroke_color: s.color,
                fill_color: s.spec_effective_fill_color(),
                width: s.width,
                shape_count: t.len() as usize,
                total_selection_count: total as usize,
                fill_supported_count: fill_supported_count(t) as usize,
                fill_enabled_count: fill_enabled_count(t) as usize,
            },
        )
    } else {
        match tool_shape_kind(v.active_tool) {
            Some(kind) => Some(
                ShapeStyleContext {
                    target: ShapeStyleTarget::NewShape,
                    kind,
                    stroke_color: v.tool_colors.stroke_color,
                    fill_color: if v.tool_colors.fill_enabled {
                        Some(v.tool_colors.fill_color)
                    } else {
                        None
                    },
                    width: v.tool_widths.draw_width,
                    shape_count: 1,
                    total_selection_count: 0,
                    fill_supported_count: count_if(kind.spec_supports_fill()),
                    fill_enabled_count: count_if(
                        kind.spec_supports_fill() && v.tool_colors.fill_enabled,
                    ),
                },
            ),
            None => None,
        }
    }
}

/// The paint panel of state `v`: with the select tool, when the selection is made of
/// strokes and fills only.
pub open spec fn selection_paint_context_of(v: EditorView) -> Option<SelectionPaintContext> {
    let d = v.history.current;
    let strokes = selected_strokes(d, v.selection);
    let fills = selected_fills(d, v.selection);
    let total = v.selection.len();
    if !(v.active_tool is Select) || selected_shapes(d, v.selection).len() > 0 || total == 0
        || strokes.len() + fills.len() != total {
        None
    } else {
        Some(
            SelectionPaintContext {
                stroke_count: strokes.len() as usize,
                fill_count: fills.len() as usize,
                total_selection_count: total as usize,
                stroke_color: if strokes.len() > 0 {
                    Some(strokes[0].1.color)
                } else {
                    None
                },
                stroke_width: if strokes.len() > 0 {
                    Some(strokes[0].1.width)
                } else {
                    None
                },
                fill_color: if fills.len() > 0 {
                    Some(fills[0].1.color)
                } else {
                    None
                },
            },
        )
    }
}

/// The drawing with the elements of its active layer replaced.
pub open spec fn with_active_elements(d: DocumentView, es: Seq<ElementView>) -> DocumentView {
    match layer_position(d.layers, d.active_layer_id) {
        Some(a) => with_layer_elements(d, a, es),
        None => d,
    }
}

/// The positions a style edit of state `v` reaches: the selection, with the select tool.
pub open spec fn edit_selection(v: EditorView) -> Seq<usize> {
    if v.active_tool is Select {
        v.selection
    } else {
        Seq::empty()
    }
}

/// How many selected elements the edit changes.
pub open spec fn restyle_count_of(v: EditorView, edit: StyleEdit) -> nat {
    restyle_count(active_elements(v.history.current), edit_selection(v), edit)
}

/// The drawing after the edit, as the history stores it.
pub open spec fn restyled_document(v: EditorView, edit: StyleEdit) -> DocumentView {
    let d = v.history.current;
    repaired(
        with_active_elements(d, restyled_elements(active_elements(d), edit_selection(v), edit)),
    )
}

/// The edit changes some selected element and so the drawing.
pub open spec fn restyle_applies(v: EditorView, edit: StyleEdit) -> bool {
    restyle_count_of(v, edit) > 0 && !document_eq(v.history.current, restyled_document(v, edit))
}

/// A style edit of the selected elements: when it changes the drawing it is one undoable
/// step, the selection stays with the active layer and the status line shows `message`;
/// otherwise nothing happens.
pub open spec fn restyled_editor(v: EditorView, edit: StyleEdit, message: Seq<char>) -> EditorView {
    if restyle_applies(v, edit) {
        with_info(
            EditorView {
                history: edited(v.history, restyled_document(v, edit)),
                selection_layer: Some(v.history.current.active_layer_id),
                ..v
            },
            message,
        )
    } else {
        v
    }
}

pub proof fn lemma_selected_shapes_found(d: DocumentView, sel: Seq<usize>)
    ensures
        forall|k: int|
            0 <= k < selected_shapes(d, sel).len() ==> element_at(
                d,
                #[trigger] selected_shapes(d, sel)[k].0 as int,
            ) == Some(ElementView::Shape(selected_shapes(d, sel)[k].1)),
    decreases sel.len(),
{
    if sel.len() > 0 {
        lemma_selected_shapes_found(d, sel.drop_last());
    }
}

/// The one selected shape restyled: when exactly one shape is selected and the edit
/// changes it and the drawing, one undoable step that leaves that shape alone selected
/// and shows `message`; otherwise nothing happens.
pub open spec fn single_restyle_applies(v: EditorView, edit: ShapeEdit) -> bool {
    let t = shape_targets(v);
    let d = v.history.current;
    t.len() == 1 && !shape_eq(shape_edited(t[0].1, edit), t[0].1) && !document_eq(
        d,
        repaired(
            with_replaced_element(d, t[0].0 as int, ElementView::Shape(shape_edited(t[0].1, edit))),
        ),
    )
}

pub open spec fn single_restyled(v: EditorView, edit: ShapeEdit, message: Seq<char>) -> EditorView {
    let t = shape_targets(v);
    let d = v.history.current;
    if single_restyle_applies(v, edit) {
        with_info(
            EditorView {
                history: edited(
                    v.history,
                    repaired(
                        with_replaced_element(
                            d,
                            t[0].0 as int,
                            ElementView::Shape(shape_edited(t[0].1, edit)),
                        ),
                    ),
                ),
                selection: seq![t[0].0],
                selection_layer: Some(d.active_layer_id),
                ..v
            },
            message,
        )
    } else {
        v
    }
}

/// The recent colors after using `color`; a change marks the saved settings dirty.
pub open spec fn recent_pushed(v: EditorView, color: RgbaColor) -> EditorView {
    if v.recent_colors.len() > 0 && v.recent_colors[0] == color {
        v
    } else {
        EditorView {
            recent_colors: recent_colors_with(v.recent_colors, color),
            ui_state_dirty: true,
            ..v
        }
    }
}

/// What `replace_selected` reports for `edit` in state `v`.
pub open spec fn restyle_result(v: EditorView, edit: StyleEdit) -> nat {
    if restyle_applies(v, edit) {
        restyle_count_of(v, edit)
    } else {
        0
    }
}

/// "<prefix><n><suffix>" when `n` is positive.
pub open spec fn count_note(prefix: Seq<char>, n: nat, suffix: Seq<char>) -> Option<Seq<char>> {
    if n > 0 {
        Some(prefix + decimal_chars(n) + suffix)
    } else {
        None
    }
}

/// The end of a color pick: the color joins the recent colors and the status line shows
/// the announcement, followed by where the color was applied.
pub open spec fn color_finished(
    v: EditorView,
    color: RgbaColor,
    announce: Seq<char>,
    applied: Option<Seq<char>>,
) -> EditorView {
    with_info(
        recent_pushed(v, color),
        match applied {
            Some(a) => announce + " "@ + a,
            None => announce,
        },
    )
}

/// A picked stroke color: it becomes the tool's stroke color and recolors the selected
/// shapes when several are selected, else the one selected shape, else the selected
/// strokes. Gives the state and the note on where the color went.
pub open spec fn stroke_color_stage(v: EditorView, color: RgbaColor) -> (EditorView, Option<Seq<char>>) {
    let w = EditorView { tool_colors: ToolColorSettings { stroke_color: color, ..v.tool_colors }, ..v };
    let t = shape_targets(w);
    let shapes = StyleEdit::Shape(ShapeEdit::StrokeColor(color));
    let strokes = StyleEdit::Stroke(StrokeEdit::Color(color));
    if t.len() > 1 {
        (
            restyled_editor(w, shapes, "選択中の図形"@ + decimal_chars(t.len()) + "個の線色を変更しました。"@),
            count_note("選択中の図形"@, restyle_result(w, shapes), "個にも反映しました。"@),
        )
    } else if t.len() == 1 && single_restyle_applies(w, ShapeEdit::StrokeColor(color)) {
        let label = t[0].1.kind.spec_label();
        (
            single_restyled(w, ShapeEdit::StrokeColor(color), "選択中の"@ + label + "の線色を変更しました。"@),
            Some("選択中の"@ + label + "にも反映しました。"@),
        )
    } else if stroke_targets(w).len() > 0 {
        (
            restyled_editor(
                w,
                strokes,
                "選択中の線"@ + decimal_chars(stroke_targets(w).len()) + "個の色を変更しました。"@,
            ),
            count_note("選択中の線"@, restyle_result(w, strokes), "個にも反映しました。"@),
        )
    } else {
        (w, None)
    }
}

/// A picked fill color: it becomes the tool's fill color with filling on, and fills the
/// selected shapes that can carry one when several shapes are selected, else the one
/// selected shape, else recolors the selected fills. Gives the state and the note on
/// where the color went.
pub open spec fn fill_color_stage(v: EditorView, color: RgbaColor) -> (EditorView, Option<Seq<char>>) {
    let w = EditorView {
        tool_colors: ToolColorSettings { fill_color: color, fill_enabled: true, ..v.tool_colors },
        ..v
    };
    let t = shape_targets(w);
    let n = fill_supported_count(t);
    let shapes = StyleEdit::Shape(ShapeEdit::Fill(Some(color)));
    let fills = StyleEdit::Fill(FillEdit::Color(color));
    if t.len() > 1 && n > 0 {
        (
            restyled_editor(w, shapes, "選択中の図形"@ + decimal_chars(n) + "個の塗り色を変更しました。"@),
            count_note("塗り対応の図形"@, restyle_result(w, shapes), "個にも反映しました。"@),
        )
    } else if t.len() > 0 && t[0].1.kind.spec_supports_fill() && single_restyle_applies(
        w,
        ShapeEdit::Fill(Some(color)),
    ) {
        let label = t[0].1.kind.spec_label();
        (
            single_restyled(w, ShapeEdit::Fill(Some(color)), "選択中の"@ + label + "の塗り色を変更しました。"@),
            Some("選択中の"@ + label + "にも反映しました。"@),
        )
    } else if fill_targets(w).len() > 0 {
        (
            restyled_editor(
                w,
                fills,
                "選択中の塗り"@ + decimal_chars(fill_targets(w).len()) + "個の色を変更しました。"@,
            ),
            count_note("選択中の塗り"@, restyle_result(w, fills), "個にも反映しました。"@),
        )
    } else {
        (w, None)
    }
}

/// A picked color applied to the color the quick picks target, then recorded as recent
/// and announced.
pub open spec fn color_applied(v: EditorView, color: RgbaColor, announce: Seq<char>) -> EditorView {
    let stage = match v.tool_colors.quick_color_target {
        ColorTarget::Stroke => stroke_color_stage(v, color),
        ColorTarget::Fill => fill_color_stage(v, color),
    };
    color_finished(stage.0, color, announce, stage.1)
}

pub open spec fn note_matches(r: Option<String>, note: Option<Seq<char>>) -> bool {
    match r {
        Some(x) => note == Some(x@),
        None => note is None,
    }
}

pub open spec fn color_target_label(t: ColorTarget) -> Seq<char> {
    match t {
        ColorTarget::Stroke => "線色"@,
        ColorTarget::Fill => "塗り色"@,
    }
}

/// "<prefix><n><suffix>".
pub fn counted_text(prefix: &str, n: usize, suffix: &str) -> (r: String)
    ensures
        r@ == prefix@ + decimal_chars(n as nat) + suffix@,
{
    let mut s = string_of(prefix);
    push_decimal(&mut s, n as u64);
    s.append(suffix);
    s
}

/// "<prefix><middle><suffix>".
pub fn framed_text(prefix: &str, middle: &str, suffix: &str) -> (r: String)
    ensures
        r@ == prefix@ + middle@ + suffix@,
{
    let mut s = string_of(prefix);
    s.append(middle);
    s.append(suffix);
    s
}

/// The layer name field follows the active layer: when another layer becomes active it
/// takes that layer's name; without an active layer it is emptied.
pub open spec fn draft_synced(v: EditorView) -> EditorView {
    let d = v.history.current;
    match layer_position(d.layers, d.active_layer_id) {
        Some(i) => if v.layer_name_draft_for == Some(d.layers[i].id) {
            v
        } else {
            EditorView {
                layer_name_draft_for: Some(d.layers[i].id),
                layer_name_draft: d.layers[i].name,
                ..v
            }
        },
        None => EditorView { layer_name_draft_for: None, layer_name_draft: Seq::empty(), ..v },
    }
}

/// The name of layer `id` of `d`, or `fallback` when there is no such layer.
pub open spec fn layer_name_or(d: DocumentView, id: LayerId, fallback: Seq<char>) -> Seq<char> {
    match layer_position(d.layers, id) {
        Some(i) => d.layers[i].name,
        None => fallback,
    }
}

/// `v` with `next`, as the history stores it, recorded as an edit.
pub open spec fn with_document(v: EditorView, next: DocumentView) -> EditorView {
    EditorView { history: edited(v.history, repaired(next)), ..v }
}

/// The stored form of `next` differs from the current drawing.
pub open spec fn document_changes(v: EditorView, next: DocumentView) -> bool {
    !document_eq(v.history.current, repaired(next))
}

/// A change of the layers: when the drawing changes, one undoable step that clears the
/// selection, follows the active layer with the name field and shows `message`.
pub open spec fn layer_change_applied(v: EditorView, next: DocumentView, message: Seq<char>) -> EditorView {
    if document_changes(v, next) {
        with_info(
            draft_synced(
                EditorView { selection: Seq::empty(), selection_layer: None, ..with_document(v, next) },
            ),
            message,
        )
    } else {
        v
    }
}

/// A change of the layout aids: as a layer change, but the selection stays.
pub open spec fn configuration_change_applied(
    v: EditorView,
    next: DocumentView,
    message: Seq<char>,
) -> EditorView {
    if document_changes(v, next) {
        with_info(draft_synced(with_document(v, next)), message)
    } else {
        v
    }
}

pub open spec fn layer_switch_text(name: Seq<char>, cleared: bool) -> Seq<char> {
    if cleared {
        "作業レイヤーを "@ + name + " に切り替えました。選択は新しいレイヤーに合わせて解除しました。"@
    } else {
        "作業レイヤーを "@ + name + " に切り替えました。"@
    }
}

/// Making layer `id` active: the selection is cleared and the status line names the
/// layer and says whether a selection was dropped; nothing happens without such a layer.
pub open spec fn active_layer_switched(v: EditorView, id: LayerId) -> EditorView {
    let d = v.history.current;
    if has_layer(d.layers, id) {
        let w = draft_synced(
            EditorView {
                history: HistoryView { current: with_active_layer(d, id), ..v.history },
                selection: Seq::empty(),
                selection_layer: None,
                ..v
            },
        );
        match layer_position(d.layers, id) {
            Some(i) => with_info(w, layer_switch_text(d.layers[i].name, v.selection.len() > 0)),
            None => w,
        }
    } else {
        v
    }
}

/// "選択レイヤー: <name>" with the count when more than one element is selected.
pub open spec fn selection_layer_text(v: EditorView) -> Option<Seq<char>> {
    let d = v.history.current;
    match v.selection_layer {
        Some(id) => if v.selection.len() == 0 {
            None
        } else {
            match layer_position(d.layers, id) {
                Some(i) => Some(
                    if v.selection.len() == 1 {
                        "選択レイヤー: "@ + d.layers[i].name
                    } else {
                        "選択レイヤー: "@ + d.layers[i].name + "（"@ + decimal_chars(
                            v.selection.len(),
                        ) + "個）"@
                    },
                ),
                None => None,
            }
        },
        None => None,
    }
}

/// The drawing with a copy of the active layer above it, made active, and the copy's id.
pub open spec fn duplicated_layer(d: DocumentView) -> Option<(DocumentView, LayerId)> {
    match layer_position(d.layers, d.active_layer_id) {
        Some(i) => {
            let id = fresh_layer_id(d);
            Some(
                (
                    DocumentView {
                        layers: d.layers.insert(
                            i + 1,
                            LayerView {
                                id,
                                name: copy_name(d.layers[i].name),
                                visible: true,
                                locked: false,
                                ..d.layers[i]
                            },
                        ),
                        active_layer_id: id,
                        next_layer_id: (id + 1) as u64,
                        ..d
                    },
                    id,
                ),
            )
        },
        None => None,
    }
}

/// The drawing with the active layer renamed to the trimmed draft, when that is a new,
/// non-empty name.
pub open spec fn renamed_active_layer(d: DocumentView, draft: Seq<char>) -> Option<DocumentView> {
    match layer_position(d.layers, d.active_layer_id) {
        Some(i) => if trimmed(draft).len() > 0 && d.layers[i].name != trimmed(draft) {
            Some(with_layer(d, i, LayerView { name: trimmed(draft), ..d.layers[i] }))
        } else {
            None
        },
        None => None,
    }
}

pub open spec fn visibility_text(d: DocumentView, id: LayerId) -> Seq<char> {
    match layer_position(d.layers, id) {
        Some(i) => if d.layers[i].visible {
            d.layers[i].name + " を表示しました。"@
        } else {
            d.layers[i].name + " を非表示にしました。"@
        },
        None => "レイヤーの表示状態を変更しました。"@,
    }
}

pub open spec fn lock_text(d: DocumentView, id: LayerId) -> Seq<char> {
    match layer_position(d.layers, id) {
        Some(i) => if d.layers[i].locked {
            d.layers[i].name + " をロックしました。"@
        } else {
            d.layers[i].name + " のロックを解除しました。"@
        },
        None => "レイヤーのロック状態を変更しました。"@,
    }
}

/// A layer operation that may not apply: nothing when it gives no drawing.
pub open spec fn optional_layer_change(
    v: EditorView,
    next: Option<DocumentView>,
    message: spec_fn(DocumentView) -> Seq<char>,
) -> EditorView {
    match next {
        Some(n) => layer_change_applied(v, n, message(n)),
        None => v,
    }
}

pub proof fn lemma_well_formed_ids(d: DocumentView)
    requires
        layers_well_formed(d),
    ensures
        ids_below_max(d.layers),
{
}

/// A layout aid toggled: the status line reports its new state.
pub open spec fn aid_toggled(v: EditorView, next: DocumentView, on: bool, on_text: Seq<char>, off_text: Seq<char>) -> EditorView {
    configuration_change_applied(
        v,
        next,
        if on {
            on_text
        } else {
            off_text
        },
    )
}

/// The drawing with the rulers switched.
pub open spec fn rulers_toggled(d: DocumentView) -> DocumentView {
    DocumentView { rulers: RulerSettings { visible: !d.rulers.visible }, ..d }
}

pub open spec fn grid_toggled(d: DocumentView) -> DocumentView {
    DocumentView { grid: GridSettings { visible: !d.grid.visible, ..d.grid }, ..d }
}

pub open spec fn grid_snap_toggled(d: DocumentView) -> DocumentView {
    DocumentView { grid: GridSettings { snap_enabled: !d.grid.snap_enabled, ..d.grid }, ..d }
}

pub open spec fn smart_guides_toggled(d: DocumentView) -> DocumentView {
    DocumentView { smart_guides: SmartGuideSettings { visible: !d.smart_guides.visible }, ..d }
}

pub open spec fn guides_toggled(d: DocumentView) -> DocumentView {
    DocumentView { guides: GuideSettingsView { visible: !d.guides.visible, ..d.guides }, ..d }
}

pub open spec fn guides_snap_toggled(d: DocumentView) -> DocumentView {
    DocumentView {
        guides: GuideSettingsView { snap_enabled: !d.guides.snap_enabled, ..d.guides },
        ..d
    }
}

/// Sending the selection to layer `id` goes ahead: the selection belongs to the active
/// layer and is not empty, the destination exists and takes edits, and the drawing
/// changes.
pub open spec fn transfer_goes_ahead(v: EditorView, id: LayerId, duplicate: bool) -> bool {
    let d = v.history.current;
    &&& v.selection_layer == Some(d.active_layer_id)
    &&& v.selection.len() > 0
    &&& layer_position(d.layers, id) matches Some(b) && d.layers[b].is_editable()
    &&& transfer_allowed(d, v.selection, id)
    &&& document_changes(v, transferred(d, v.selection, id, duplicate))
}

pub open spec fn transfer_text(count: nat, name: Seq<char>, duplicate: bool) -> Seq<char> {
    let head = if count == 1 {
        "選択中の要素を "@
    } else {
        "選択中の "@ + decimal_chars(count) + " 個の要素を "@
    };
    head + name + if duplicate {
        " へ複製しました。"@
    } else {
        " へ移動しました。"@
    }
}

/// Sending the selection to layer `id`, moved or duplicated: with `selection` the
/// positions the elements take there. A destination that is hidden or locked is
/// reported as an error; the other cases that do not go ahead change nothing.
pub open spec fn selection_transferred(
    v: EditorView,
    id: LayerId,
    duplicate: bool,
    selection: Seq<usize>,
) -> EditorView {
    let d = v.history.current;
    if v.selection_layer != Some(d.active_layer_id) || v.selection.len() == 0 {
        v
    } else {
        match layer_position(d.layers, id) {
            None => v,
            Some(b) => if !d.layers[b].is_editable() {
                EditorView {
                    status_kind: StatusKind::Error,
                    status_text: d.layers[b].name + if duplicate {
                        " は表示中かつロック解除されていないと、要素を複製できません。"@
                    } else {
                        " は表示中かつロック解除されていないと、要素を移動できません。"@
                    },
                    ..v
                }
            } else if transfer_goes_ahead(v, id, duplicate) {
                let n = transferred(d, v.selection, id, duplicate);
                with_info(
                    draft_synced(
                        EditorView { selection, selection_layer: Some(id), ..with_document(v, n) },
                    ),
                    transfer_text(
                        transferred_selection(d, v.selection, id).len(),
                        layer_name_or(
                            n,
                            id,
                            if duplicate {
                                "複製先レイヤー"@
                            } else {
                                "移動先レイヤー"@
                            },
                        ),
                        duplicate,
                    ),
                )
            } else {
                v
            }
        }
    }
}

/// After undo, redo or clearing the canvas: the selection is dropped and the name field
/// follows the active layer.
pub open spec fn after_history_step(v: EditorView, h: HistoryView, message: Seq<char>) -> EditorView {
    with_info(
        draft_synced(EditorView { history: h, selection: Seq::empty(), selection_layer: None, ..v }),
        message,
    )
}

pub open spec fn undo_performed(v: EditorView, interaction_discarded: bool) -> EditorView {
    if interaction_discarded {
        with_info(v, "進行中の操作を取り消しました。"@)
    } else if v.history.undo.len() > 0 {
        after_history_step(v, undone(v.history), "ひとつ前に戻しました。"@)
    } else {
        v
    }
}

pub open spec fn redo_performed(v: EditorView) -> EditorView {
    if v.history.redo.len() > 0 {
        after_history_step(v, redone(v.history), "やり直しました。"@)
    } else {
        v
    }
}

pub open spec fn has_any_element(d: DocumentView) -> bool {
    exists|i: int| 0 <= i < d.layers.len() && #[trigger] d.layers[i].elements.len() > 0
}

pub open spec fn clear_performed(v: EditorView, interaction_discarded: bool) -> EditorView {
    if has_any_element(v.history.current) {
        after_history_step(
            v,
            edited(v.history, cleared(v.history.current)),
            "キャンバスをクリアしました。"@,
        )
    } else if interaction_discarded {
        with_info(v, "進行中の操作を取り消しました。"@)
    } else {
        v
    }
}

/// The name shown for an element's kind.
pub open spec fn kind_label_of(e: ElementView) -> Seq<char> {
    match e {
        ElementView::Stroke(s) => s.tool.spec_label(),
        ElementView::Shape(s) => s.kind.spec_label(),
        ElementView::Fill(_) => "塗り"@,
        ElementView::Group(_) => "グループ"@,
    }
}

/// What lies under a press of the select tool, as the canvas finds it: a resize or
/// rotate handle of the single selected shape (looked for only when the press does not
/// extend the selection), an element of the active layer, or nothing.
#[derive(Debug, Clone, Copy, PartialEq, Eq, Structural)]
pub enum SelectionHit {
    Control,
    Element(usize),
    Nothing,
}

/// Some selected position names an element of the active layer, so there is something
/// to move.
pub open spec fn selection_has_element(v: EditorView) -> bool {
    exists|j: int| 0 <= j < v.selection.len() && element_at(v.history.current, #[trigger] v.selection[j] as int) is Some
}

/// A shape of `kind` started at `start` with the tool settings of `v`.
pub open spec fn new_shape(v: EditorView, kind: ShapeKind, start: PaintPoint) -> ShapeElement {
    ShapeElement {
        kind,
        color: v.tool_colors.stroke_color,
        fill_color: if kind.spec_supports_fill() {
            settings_of(v).fill_color
        } else {
            None
        },
        width: settings_of(v).width,
        start,
        end: start,
        rotation_radians: Scalar { bits: 0 },
    }
}

/// A button of the tutorial window.
#[derive(Debug, Clone, Copy, PartialEq, Eq, Structural)]
pub enum TutorialAction {
    Back,
    Next,
    Skip,
    Complete,
}

/// The tutorial hidden for good, with the status text for finishing or skipping it.
pub open spec fn tutorial_closed(v: EditorView, completed: bool) -> EditorView {
    with_info(
        EditorView { tutorial_visible: false, tutorial_dismissed: true, ui_state_dirty: true, ..v },
        if completed {
            "チュートリアルを閉じました。必要ならヘルプからもう一度開けます。"@
        } else {
            "チュートリアルをスキップしました。必要ならヘルプから開けます。"@
        },
    )
}

/// The step the tutorial window shows: the stored one, at most the last.
pub open spec fn shown_tutorial_step(v: EditorView) -> nat {
    if v.tutorial_step_index < 4 {
        v.tutorial_step_index
    } else {
        3
    }
}

/// After a frame of the tutorial window: `action` is the button pressed, if any, and
/// `open` whether the window is still open. Closing it without a button skips the
/// tutorial; back and next move one step, next never past the last.
pub open spec fn tutorial_after(v: EditorView, action: Option<TutorialAction>, open: bool) -> EditorView {
    let a = if !open && action is None {
        Some(TutorialAction::Skip)
    } else {
        action
    };
    match a {
        None => EditorView { tutorial_visible: open, ..v },
        Some(TutorialAction::Back) => EditorView {
            tutorial_step_index: if v.tutorial_step_index == 0 {
                0
            } else {
                (v.tutorial_step_index - 1) as nat
            },
            ..v
        },
        Some(TutorialAction::Next) => EditorView {
            tutorial_step_index: if v.tutorial_step_index + 1 < 3 {
                v.tutorial_step_index + 1
            } else {
                3
            },
            ..v
        },
        Some(TutorialAction::Skip) => tutorial_closed(v, false),
        Some(TutorialAction::Complete) => tutorial_closed(v, true),
    }
}

/// The one-line description of the selection: what is selected and, while the canvas
/// edits it (`session` names the edit), how; otherwise what can be done with it. A single
/// shape can be moved, resized and rotated, any other single element only moved.
pub open spec fn selection_summary_text(
    d: DocumentView,
    sel: Seq<usize>,
    session: Option<DocumentEditMode>,
) -> Seq<char> {
    if sel.len() == 0 {
        "Selection: None"@
    } else {
        let single = if sel.len() == 1 {
            element_at(d, sel[0] as int)
        } else {
            None
        };
        let many = "Selection: "@ + decimal_chars(sel.len());
        match session {
            Some(m) => match single {
                Some(e) => "Selection: "@ + kind_label_of(e) + " #"@ + decimal_chars((sel[0] + 1) as nat)
                    + " ("@ + m.spec_label() + ")"@,
                None => many + " elements ("@ + m.spec_label() + ")"@,
            },
            None => match single {
                Some(e) => "Selection: "@ + kind_label_of(e) + " #"@ + decimal_chars((sel[0] + 1) as nat)
                    + (if e is Shape {
                    " (move / resize / rotate)"@
                } else {
                    " (move only)"@
                }),
                None => many + " elements (move / align / order)"@,
            },
        }
    }
}

/// A finished edit of the selection handed back by the canvas: the drawing it gives,
/// the positions then selected, and what kind of edit it was.
#[derive(Debug)]
pub struct CommittedDocumentEdit {
    pub document: PaintDocument,
    pub selection_indices: Vec<usize>,
    pub mode: DocumentEditMode,
}

pub open spec fn edit_text(mode: DocumentEditMode, several: bool) -> Seq<char> {
    match mode {
        DocumentEditMode::Move => "選択中の要素を移動しました。"@,
        DocumentEditMode::Resize => if several {
            "選択中の要素のサイズを変更しました。"@
        } else {
            "選択中の図形のサイズを変更しました。"@
        },
        DocumentEditMode::Rotate => if several {
            "選択中の要素を回転しました。"@
        } else {
            "選択中の図形を回転しました。"@
        },
        DocumentEditMode::Align(alignment) => match alignment {
            AlignmentKind::Left => "左揃えにしました。"@,
            AlignmentKind::HorizontalCenter => "横中央揃えにしました。"@,
            AlignmentKind::Right => "右揃えにしました。"@,
            AlignmentKind::Top => "上揃えにしました。"@,
            AlignmentKind::VerticalCenter => "縦中央揃えにしました。"@,
            AlignmentKind::Bottom => "下揃えにしました。"@,
        },
        DocumentEditMode::Reorder(command) => match command {
            StackOrderCommand::BringToFront => "選択中の要素を最前面へ移動しました。"@,
            StackOrderCommand::SendToBack => "選択中の要素を最背面へ移動しました。"@,
            StackOrderCommand::BringForward => "選択中の要素を一つ前面へ移動しました。"@,
            StackOrderCommand::SendBackward => "選択中の要素を一つ背面へ移動しました。"@,
        },
    }
}

fn edit_message(mode: DocumentEditMode, several: bool) -> (r: &'static str)
    ensures
        r@ == edit_text(mode, several),
{
    match mode {
        DocumentEditMode::Move => "選択中の要素を移動しました。",
        DocumentEditMode::Resize => if several {
            "選択中の要素のサイズを変更しました。"
        } else {
            "選択中の図形のサイズを変更しました。"
        },
        DocumentEditMode::Rotate => if several {
            "選択中の要素を回転しました。"
        } else {
            "選択中の図形を回転しました。"
        },
        DocumentEditMode::Align(alignment) => match alignment {
            AlignmentKind::Left => "左揃えにしました。",
            AlignmentKind::HorizontalCenter => "横中央揃えにしました。",
            AlignmentKind::Right => "右揃えにしました。",
            AlignmentKind::Top => "上揃えにしました。",
            AlignmentKind::VerticalCenter => "縦中央揃えにしました。",
            AlignmentKind::Bottom => "下揃えにしました。",
        },
        DocumentEditMode::Reorder(command) => match command {
            StackOrderCommand::BringToFront => "選択中の要素を最前面へ移動しました。",
            StackOrderCommand::SendToBack => "選択中の要素を最背面へ移動しました。",
            StackOrderCommand::BringForward => "選択中の要素を一つ前面へ移動しました。",
            StackOrderCommand::SendBackward => "選択中の要素を一つ背面へ移動しました。",
        },
    }
}

/// The title of a file action named by `action`.
pub open spec fn storage_action_label(action: Seq<char>) -> Seq<char> {
    if action == "save"@ {
        "JSON保存"@
    } else if action == "load"@ {
        "JSONを開く"@
    } else if action == "export"@ {
        "PNG書き出し"@
    } else if action == "export-transparent"@ {
        "透過PNG"@
    } else if action == "export-svg"@ {
        "SVG書き出し"@
    } else {
        "ファイル操作"@
    }
}

pub open spec fn storage_error_text(action: Seq<char>, error: StorageError) -> Seq<char> {
    let label = storage_action_label(action);
    match error {
        StorageError::Cancelled => label + "をキャンセルしました。"@,
        StorageError::EmptyFile => label + "できませんでした。選択したファイルは空です。"@,
        StorageError::UnsupportedFormat(_) => label
            + "できませんでした。このアプリの .paint.json ファイルを選んでください。"@,
        StorageError::UnsupportedVersion(_) => label
            + "できませんでした。このドキュメントのバージョンにはまだ対応していません。"@,
        StorageError::Deserialize(_) => label
            + "できませんでした。お絵かきドキュメントとして読み込めませんでした。"@,
        StorageError::Serialize(_) => label + "できませんでした。ファイルの準備中に失敗しました。"@,
        StorageError::Render(_) => label + "できませんでした。キャンバスの描画中に失敗しました。"@,
        StorageError::Io(details) => label + "できませんでした: "@ + details@,
    }
}

/// The title of a file action: "save", "load", "export", "export-transparent" or
/// "export-svg"; any other name is a generic file action.
pub fn storage_action_title(action: &str) -> (r: &'static str)
    ensures
        r@ == storage_action_label(action@),
{
    proof {
        reveal_strlit("save");
        reveal_strlit("load");
        reveal_strlit("export");
        reveal_strlit("export-transparent");
        reveal_strlit("export-svg");
    }
    if same_text(action, "save") {
        "JSON保存"
    } else if same_text(action, "load") {
        "JSONを開く"
    } else if same_text(action, "export") {
        "PNG書き出し"
    } else if same_text(action, "export-transparent") {
        "透過PNG"
    } else if same_text(action, "export-svg") {
        "SVG書き出し"
    } else {
        "ファイル操作"
    }
}

/// What the status line says while a browser file action named by `action` waits.
pub open spec fn storage_pending_text(action: Seq<char>) -> Seq<char> {
    if action == "save"@ {
        "ブラウザの保存ダイアログを開きました。再編集用 JSON の保存先を選んでください。"@
    } else if action == "load"@ {
        "ブラウザのファイル選択を開きました。.paint.json を選んでください。"@
    } else if action == "export"@ {
        "ブラウザで PNG ダウンロードを準備しています..."@
    } else if action == "export-transparent"@ {
        "ブラウザで透過PNGダウンロードを準備しています..."@
    } else if action == "export-svg"@ {
        "ブラウザで SVG ダウンロードを準備しています..."@
    } else {
        "ブラウザのファイル操作を待っています..."@
    }
}

/// See `storage_pending_text`.
pub fn storage_pending_message(action: &str) -> (r: &'static str)
    ensures
        r@ == storage_pending_text(action@),
{
    proof {
        reveal_strlit("save");
        reveal_strlit("load");
        reveal_strlit("export");
        reveal_strlit("export-transparent");
        reveal_strlit("export-svg");
    }
    if same_text(action, "save") {
        "ブラウザの保存ダイアログを開きました。再編集用 JSON の保存先を選んでください。"
    } else if same_text(action, "load") {
        "ブラウザのファイル選択を開きました。.paint.json を選んでください。"
    } else if same_text(action, "export") {
        "ブラウザで PNG ダウンロードを準備しています..."
    } else if same_text(action, "export-transparent") {
        "ブラウザで透過PNGダウンロードを準備しています..."
    } else if same_text(action, "export-svg") {
        "ブラウザで SVG ダウンロードを準備しています..."
    } else {
        "ブラウザのファイル操作を待っています..."
    }
}

/// The status text for a failed file action.
pub fn storage_error_message(action: &str, error: &StorageError) -> (r: String)
    ensures
        r@ == storage_error_text(action@, *error),
{
    let mut text = string_of(storage_action_title(action));
    match error {
        StorageError::Cancelled => text.append("をキャンセルしました。"),
        StorageError::EmptyFile => text.append("できませんでした。選択したファイルは空です。"),
        StorageError::UnsupportedFormat(_) => text.append(
            "できませんでした。このアプリの .paint.json ファイルを選んでください。",
        ),
        StorageError::UnsupportedVersion(_) => text.append(
            "できませんでした。このドキュメントのバージョンにはまだ対応していません。",
        ),
        StorageError::Deserialize(_) => text.append(
            "できませんでした。お絵かきドキュメントとして読み込めませんでした。",
        ),
        StorageError::Serialize(_) => text.append(
            "できませんでした。ファイルの準備中に失敗しました。",
        ),
        StorageError::Render(_) => text.append("できませんでした。キャンバスの描画中に失敗しました。"),
        StorageError::Io(details) => {
            text.append("できませんでした: ");
            text.append(details.as_str());
        },
    }
    text
}

/// The drawing after sending the selection keeps the layer ids and a sound layer
/// structure.
pub proof fn lemma_transfer_ids(d: DocumentView, indices: Seq<usize>, id: LayerId, duplicate: bool)
    requires
        layers_well_formed(d),
        transfer_allowed(d, indices, id),
    ensures
        ids_below_max(transferred(d, indices, id, duplicate).layers),
        layers_well_formed(transferred(d, indices, id, duplicate)),
{
    let n = transferred(d, indices, id, duplicate);
    let b = layer_position(d.layers, id)->Some_0;
    assert(n.layers[b].id == d.layers[b].id);
    assert forall|k: int| 0 <= k < n.layers.len() implies #[trigger] n.layers[k].id < u64::MAX
        && n.layers[k].id < n.next_layer_id by {
        assert(n.layers[k].id == d.layers[k].id);
    }
}

/// Sending the selection makes another layer active, so it always changes the drawing.
pub proof fn lemma_transfer_changes(v: EditorView, id: LayerId, duplicate: bool)
    requires
        editor_well_formed(v),
        transfer_allowed(v.history.current, v.selection, id),
    ensures
        document_changes(v, transferred(v.history.current, v.selection, id, duplicate)),
{
    lemma_transfer_ids(v.history.current, v.selection, id, duplicate);
    lemma_changes_when_sound(v, transferred(v.history.current, v.selection, id, duplicate));
}

/// The drawing without guide `index`.
pub open spec fn guide_removed(d: DocumentView, index: int) -> DocumentView {
    DocumentView {
        guides: GuideSettingsView { lines: d.guides.lines.remove(index), ..d.guides },
        ..d
    }
}

/// The drawing and selection after a stacking-order command on the selected elements,
/// when it applies.
pub open spec fn stack_reorder(d: DocumentView, indices: Seq<usize>, command: StackOrderCommand) -> Option<
    (DocumentView, Seq<usize>),
> {
    let e = active_elements(d);
    let f = flags_of(indices, e.len());
    match layer_position(d.layers, d.active_layer_id) {
        Some(a) => if d.layers[a].is_editable() && normalized(indices, e.len()).len() > 0
            && reorder_changes(f, command) {
            Some((with_layer_elements(d, a, reordered(e, f, command).0), reordered(e, f, command).1))
        } else {
            None
        },
        None => None,
    }
}

/// The keyboard commands of the editor.
#[derive(Debug, Clone, Copy, PartialEq, Eq, Structural)]
pub enum ShortcutCommand {
    Undo,
    Redo,
    Save,
    Load,
    ExportPng,
    Group,
    Ungroup,
    ZoomIn,
    ZoomOut,
    ResetView,
}

/// Whether a pressed shortcut acts: undo also cancels an edit in progress on the canvas;
/// the other commands wait for it to end, file commands wait for a pending file task,
/// grouping needs two selected elements and ungrouping a selected group.
pub open spec fn shortcut_acts(
    v: EditorView,
    command: ShortcutCommand,
    has_canvas_interaction: bool,
    has_pending_storage_task: bool,
    selection_has_group: bool,
) -> bool {
    match command {
        ShortcutCommand::Undo => has_canvas_interaction || v.history.undo.len() > 0,
        ShortcutCommand::Redo => !has_canvas_interaction && v.history.redo.len() > 0,
        ShortcutCommand::Save | ShortcutCommand::Load | ShortcutCommand::ExportPng => !has_canvas_interaction
            && !has_pending_storage_task,
        ShortcutCommand::Group => !has_canvas_interaction && v.selection.len() >= 2,
        ShortcutCommand::Ungroup => !has_canvas_interaction && selection_has_group,
        _ => !has_canvas_interaction,
    }
}

/// The tool a single-key shortcut, pressed without modifiers, picks: v select, b brush,
/// r rectangle, o ellipse, l line, e eraser.
pub open spec fn shortcut_tool(key: char) -> Option<CanvasToolKind> {
    if key == 'v' {
        Some(CanvasToolKind::Select)
    } else if key == 'b' {
        Some(CanvasToolKind::Brush)
    } else if key == 'r' {
        Some(CanvasToolKind::Rectangle)
    } else if key == 'o' {
        Some(CanvasToolKind::Ellipse)
    } else if key == 'l' {
        Some(CanvasToolKind::Line)
    } else if key == 'e' {
        Some(CanvasToolKind::Eraser)
    } else {
        None
    }
}

proof fn lemma_restyle_count_witness(es: Seq<ElementView>, sel: Seq<usize>, edit: StyleEdit)
    requires
        restyle_count(es, sel, edit) > 0,
    ensures
        exists|j: int|
            0 <= j < sel.len() && sel[j] < es.len() && restyle_changes(
                es[#[trigger] sel[j] as int],
                edit,
            ),
    decreases sel.len(),
{
    let last = sel.len() - 1;
    if sel.last() < es.len() && restyle_changes(es[sel.last() as int], edit) {
        assert(sel[last] == sel.last());
    } else {
        lemma_restyle_count_witness(es, sel.drop_last(), edit);
        let j = choose|j: int|
            0 <= j < sel.drop_last().len() && sel.drop_last()[j] < es.len() && restyle_changes(
                es[#[trigger] sel.drop_last()[j] as int],
                edit,
            );
        assert(sel[j] == sel.drop_last()[j]);
    }
}

/// An element the edit changes is not `==` to what it becomes, either way round.
proof fn lemma_restyle_changes_both_ways(e: ElementView, edit: StyleEdit)
    requires
        restyle_changes(e, edit),
    ensures
        !element_eq(e, restyled(e, edit)->Some_0),
{
    let x = restyled(e, edit)->Some_0;
    match (edit, e) {
        (StyleEdit::Stroke(_), ElementView::Stroke(a)) => {
            let b = x->Stroke_0;
            if stroke_eq(a, b) {
                assert forall|i: int| 0 <= i < b.points.len() implies point_eq(
                    #[trigger] b.points[i],
                    a.points[i],
                ) by {
                    assert(point_eq(a.points[i], b.points[i]));
                }
                assert(stroke_eq(b, a));
            }
        },
        _ => {},
    }
}

/// A style edit that changes a selected element changes the drawing, so it is applied.
pub proof fn lemma_restyle_applies(v: EditorView, edit: StyleEdit)
    requires
        editor_well_formed(v),
    ensures
        restyle_applies(v, edit) == (restyle_count_of(v, edit) > 0),
{
    if restyle_count_of(v, edit) > 0 {
        let d = v.history.current;
        let es = active_elements(d);
        let sel = edit_selection(v);
        lemma_restyle_count_witness(es, sel, edit);
        let j = choose|j: int|
            0 <= j < sel.len() && sel[j] < es.len() && restyle_changes(
                es[#[trigger] sel[j] as int],
                edit,
            );
        let p = sel[j] as int;
        let k = choose|k: int| 0 <= k < d.layers.len() && #[trigger] d.layers[k].id == d.active_layer_id;
        lemma_layer_found(d.layers, d.active_layer_id, k);
        let a = layer_position(d.layers, d.active_layer_id)->Some_0;
        let es2 = restyled_elements(es, sel, edit);
        let n = with_active_elements(d, es2);
        lemma_elements_change_keeps_structure(d, a, es2);
        lemma_well_formed_ids(n);
        law_sanitize_repairs_once(n);
        assert(sel.contains(p as usize));
        assert(es2[p] == restyled(es[p], edit)->Some_0);
        lemma_restyle_changes_both_ways(es[p], edit);
        assert(!elements_eq(es, es2));
        assert(!layer_eq(d.layers[a], n.layers[a]));
    }
}

/// With exactly one shape selected, an edit that changes the shape changes the drawing.
pub proof fn lemma_single_restyle_applies(v: EditorView, edit: ShapeEdit)
    requires
        editor_well_formed(v),
    ensures
        single_restyle_applies(v, edit) == (shape_targets(v).len() == 1 && !shape_eq(
            shape_edited(shape_targets(v)[0].1, edit),
            shape_targets(v)[0].1,
        )),
{
    let t = shape_targets(v);
    if t.len() == 1 && !shape_eq(shape_edited(t[0].1, edit), t[0].1) {
        let d = v.history.current;
        lemma_selected_shapes_found(d, v.selection);
        let k = choose|k: int| 0 <= k < d.layers.len() && #[trigger] d.layers[k].id == d.active_layer_id;
        lemma_layer_found(d.layers, d.active_layer_id, k);
        let a = layer_position(d.layers, d.active_layer_id)->Some_0;
        let idx = t[0].0 as int;
        let next = ElementView::Shape(shape_edited(t[0].1, edit));
        let es2 = d.layers[a].elements.update(idx, next);
        let n = with_replaced_element(d, idx, next);
        lemma_elements_change_keeps_structure(d, a, es2);
        lemma_well_formed_ids(n);
        law_sanitize_repairs_once(n);
        assert(!element_eq(d.layers[a].elements[idx], es2[idx]));
        assert(!elements_eq(d.layers[a].elements, es2));
        assert(!layer_eq(d.layers[a], n.layers[a]));
    }
}

/// A sound drawing that is not `==` to the current one changes it when stored.
proof fn lemma_changes_when_sound(v: EditorView, n: DocumentView)
    requires
        editor_well_formed(v),
        layers_well_formed(n),
        !document_eq(v.history.current, n),
        n.canvas_size == v.history.current.canvas_size,
        n.grid.spacing == v.history.current.grid.spacing,
        n.guides.lines == v.history.current.guides.lines,
    ensures
        document_changes(v, n),
{
    lemma_well_formed_ids(n);
    law_sanitize_repairs_once(n);
}

/// Switching a layer flag keeps the layer structure sound and changes the drawing.
pub proof fn lemma_layer_flag_toggles_change(v: EditorView, id: LayerId)
    requires
        editor_well_formed(v),
    ensures
        toggled_visibility(v.history.current, id) matches Some(n) ==> document_changes(v, n),
        toggled_locked(v.history.current, id) matches Some(n) ==> document_changes(v, n),
{
    let d = v.history.current;
    if let Some(i) = layer_position(d.layers, id) {
        let k = choose|k: int| 0 <= k < d.layers.len() && #[trigger] d.layers[k].id == d.active_layer_id;
        let nv = toggled_visibility(d, id)->Some_0;
        let nl = toggled_locked(d, id)->Some_0;
        assert(nv.layers[k].id == d.layers[k].id);
        assert(nl.layers[k].id == d.layers[k].id);
        assert forall|j: int| 0 <= j < nv.layers.len() implies #[trigger] nv.layers[j].id
            < nv.next_layer_id by {
            assert(nv.layers[j].id == d.layers[j].id);
        }
        assert forall|j: int| 0 <= j < nl.layers.len() implies #[trigger] nl.layers[j].id
            < nl.next_layer_id by {
            assert(nl.layers[j].id == d.layers[j].id);
        }
        assert(!layer_eq(d.layers[i], nv.layers[i]));
        assert(!layer_eq(d.layers[i], nl.layers[i]));
        lemma_changes_when_sound(v, nv);
        lemma_changes_when_sound(v, nl);
    }
}

/// Switching a layout aid always changes the drawing.
pub proof fn lemma_aid_toggles_change(v: EditorView)
    requires
        editor_well_formed(v),
    ensures
        document_changes(v, rulers_toggled(v.history.current)),
        document_changes(v, grid_toggled(v.history.current)),
        document_changes(v, grid_snap_toggled(v.history.current)),
        document_changes(v, smart_guides_toggled(v.history.current)),
        document_changes(v, guides_toggled(v.history.current)),
        document_changes(v, guides_snap_toggled(v.history.current)),
{
    let d = v.history.current;
    lemma_changes_when_sound(v, rulers_toggled(d));
    lemma_changes_when_sound(v, grid_toggled(d));
    lemma_changes_when_sound(v, grid_snap_toggled(d));
    lemma_changes_when_sound(v, smart_guides_toggled(d));
    lemma_changes_when_sound(v, guides_toggled(d));
    lemma_changes_when_sound(v, guides_snap_toggled(d));
}

/// Adding, copying, deleting and renaming layers always change the drawing.
pub proof fn lemma_layer_edits_change(v: EditorView)
    requires
        editor_well_formed(v),
    ensures
        can_add_layer(v.history.current) ==> document_changes(v, added_layer(v.history.current)),
        can_add_layer(v.history.current) ==> (duplicated_layer(v.history.current) matches Some(
            p,
        ) ==> document_changes(v, p.0)),
        deleted_active_layer(v.history.current) matches Some(n) ==> document_changes(v, n),
        renamed_active_layer(v.history.current, v.layer_name_draft) matches Some(n)
            ==> document_changes(v, n),
{
    let d = v.history.current;
    lemma_max_layer_id(d.layers);
    let k = choose|k: int| 0 <= k < d.layers.len() && #[trigger] d.layers[k].id == d.active_layer_id;
    if can_add_layer(d) {
        let id = fresh_layer_id(d);
        let n = added_layer(d);
        assert(n.layers[d.layers.len() as int].id == id);
        assert forall|j: int| 0 <= j < n.layers.len() implies #[trigger] n.layers[j].id
            < n.next_layer_id by {
            if j < d.layers.len() {
                assert(n.layers[j] == d.layers[j]);
                assert(d.layers[j].id <= max_layer_id(d.layers));
            }
        }
        lemma_changes_when_sound(v, n);
        if let Some(pair) = duplicated_layer(d) {
            let m = pair.0;
            let i = layer_position(d.layers, d.active_layer_id)->Some_0;
            assert(m.layers[i + 1].id == id);
            assert forall|j: int| 0 <= j < m.layers.len() implies #[trigger] m.layers[j].id
                < m.next_layer_id by {
                if j < i + 1 {
                    assert(m.layers[j] == d.layers[j]);
                    assert(d.layers[j].id <= max_layer_id(d.layers));
                } else if j > i + 1 {
                    assert(m.layers[j] == d.layers[j - 1]);
                    assert(d.layers[j - 1].id <= max_layer_id(d.layers));
                }
            }
            lemma_changes_when_sound(v, m);
        }
    }
    if let Some(n) = deleted_active_layer(d) {
        crate::laws::law_delete_keeps_a_layer(d);
        lemma_changes_when_sound(v, n);
    }
    if let Some(n) = renamed_active_layer(d, v.layer_name_draft) {
        let i = layer_position(d.layers, d.active_layer_id)->Some_0;
        assert(n.layers[k].id == d.layers[k].id);
        assert forall|j: int| 0 <= j < n.layers.len() implies #[trigger] n.layers[j].id
            < n.next_layer_id by {
            assert(n.layers[j].id == d.layers[j].id);
        }
        assert(!layer_eq(d.layers[i], n.layers[i]));
        lemma_changes_when_sound(v, n);
    }
}

impl PaintApp {
    /// An editor around the default drawing with the saved settings: the recent colors
    /// are cut to the limit and the tutorial shows unless it was dismissed.
    pub fn with_ui_state(ui_state: UiStatePersistence) -> (app: Self)
        ensures
            app@ == started_editor(
                ui_state.tutorial_dismissed,
                ui_state.recent_colors@,
                !ui_state.tutorial_dismissed,
            ),
            editor_well_formed(app@),
    {
        let ghost recent = ui_state.recent_colors@;
        let mut ui_state = ui_state;
        ui_state.recent_colors.truncate(RECENT_COLOR_LIMIT);
        assert(ui_state.recent_colors@ =~= first_entries(recent, RECENT_COLOR_LIMIT as int));
        let visible = !ui_state.tutorial_dismissed;
        let message = if visible {
            string_of("最初は「描く → 選ぶ → 保存」の流れをミニチュートリアルで確認できます。")
        } else {
            string_of("まずは左のペンか図形ツールで 1 つ描いてみましょう。困ったらヘルプを開けます。")
        };
        let app = PaintApp {
            history: DocumentHistory::new(PaintDocument::default()),
            selection: SelectionState::new(),
            selection_layer_id: None,
            active_tool: CanvasToolKind::Brush,
            multi_select_mode: false,
            finger_draw_enabled: false,
            tool_colors: ToolColorSettings::default(),
            tool_widths: ToolWidthSettings::default(),
            status_message: StatusMessage::info(message),
            show_help: false,
            ui_state,
            ui_state_dirty: false,
            tutorial_visible: visible,
            tutorial_step_index: 0,
            layer_name_draft: string_of("レイヤー 1"),
            layer_name_draft_for: Some(1),
            document_name: string_of(StorageFacade::new().suggested_file_name()),
            saved_snapshot: PaintDocument::default(),
        };
        app
    }

    pub fn document(&self) -> (r: &PaintDocument)
        ensures
            r@ == self@.history.current,
    {
        self.history.current()
    }

    pub fn history(&self) -> (r: &DocumentHistory)
        ensures
            r@ == self@.history,
    {
        &self.history
    }

    /// Makes `document` the current drawing as one undoable step, as the history does.
    pub fn replace_document(&mut self, document: PaintDocument) -> (r: bool)
        requires
            ids_below_max(document@.layers),
            layout_repairable(document@),
        ensures
            r == !document_eq(old(self)@.history.current, repaired(document@)),
            final(self)@ == (EditorView {
                history: if r {
                    edited(old(self)@.history, repaired(document@))
                } else {
                    old(self)@.history
                },
                ..old(self)@
            }),
            editor_well_formed(old(self)@) ==> editor_well_formed(final(self)@),
    {
        self.history.replace_document(document)
    }

    pub fn active_tool(&self) -> (r: CanvasToolKind)
        ensures
            r == self@.active_tool,
    {
        self.active_tool
    }

    pub fn multi_select_mode(&self) -> (r: bool)
        ensures
            r == self@.multi_select_mode,
    {
        self.multi_select_mode
    }

    pub fn finger_draw_enabled(&self) -> (r: bool)
        ensures
            r == self@.finger_draw_enabled,
    {
        self.finger_draw_enabled
    }

    pub fn tool_colors(&self) -> (r: ToolColorSettings)
        ensures
            r == self@.tool_colors,
    {
        self.tool_colors
    }

    pub fn set_tool_colors(&mut self, colors: ToolColorSettings)
        ensures
            final(self)@ == (EditorView { tool_colors: colors, ..old(self)@ }),
    {
        self.tool_colors = colors;
    }

    pub fn tool_widths(&self) -> (r: ToolWidthSettings)
        ensures
            r == self@.tool_widths,
    {
        self.tool_widths
    }

    pub fn set_tool_widths(&mut self, widths: ToolWidthSettings)
        ensures
            final(self)@ == (EditorView { tool_widths: widths, ..old(self)@ }),
    {
        self.tool_widths = widths;
    }

    pub fn status_message(&self) -> (r: &StatusMessage)
        ensures
            r.kind == self@.status_kind,
            r.text@ == self@.status_text,
    {
        &self.status_message
    }

    pub fn recent_colors(&self) -> (r: &[RgbaColor])
        ensures
            r@ == self@.recent_colors,
    {
        self.ui_state.recent_colors.as_slice()
    }

    pub fn tutorial_visible(&self) -> (r: bool)
        ensures
            r == self@.tutorial_visible,
    {
        self.tutorial_visible
    }

    pub fn set_info(&mut self, text: String)
        ensures
            final(self)@ == with_info(old(self)@, text@),
    {
        self.status_message = StatusMessage::info(text);
    }

    pub fn set_error(&mut self, text: String)
        ensures
            final(self)@ == (EditorView {
                status_kind: StatusKind::Error,
                status_text: text@,
                ..old(self)@
            }),
    {
        self.status_message = StatusMessage::error(text);
    }

    /// The tool the canvas asks for after a long press: it becomes active without
    /// leaving multi-select mode, and the status line says that selecting has begun; the
    /// tool already active changes nothing.
    pub fn apply_requested_tool(&mut self, tool: CanvasToolKind)
        ensures
            final(self)@ == (if old(self)@.active_tool != tool {
                with_info(
                    EditorView { active_tool: tool, ..old(self)@ },
                    "長押しから選択に入りました。続けてドラッグして移動や編集ができます。"@,
                )
            } else {
                old(self)@
            }),
    {
        if self.active_tool != tool {
            self.active_tool = tool;
            self.set_info(string_of("長押しから選択に入りました。続けてドラッグして移動や編集ができます。"));
        }
    }

    pub fn set_active_tool(&mut self, tool: CanvasToolKind, announce: bool)
        ensures
            final(self)@ == tool_switched(old(self)@, tool, announce),
    {
        if self.active_tool == tool {
            return;
        }
        if tool != CanvasToolKind::Select && self.multi_select_mode {
            self.multi_select_mode = false;
        }
        self.active_tool = tool;
        if announce {
            self.set_info(tool_switch_message(tool));
        }
    }

    pub fn set_multi_select_mode(&mut self, enabled: bool)
        ensures
            final(self)@ == multi_select_set(old(self)@, enabled),
    {
        if self.multi_select_mode == enabled {
            return;
        }
        self.multi_select_mode = enabled;
        if enabled {
            self.active_tool = CanvasToolKind::Select;
            self.set_info(string_of("複数選択モードをオンにしました。タップで追加や解除ができます。"));
        } else {
            self.set_info(string_of("複数選択モードをオフにしました。通常の選択と移動に戻ります。"));
        }
    }

    /// Leaves multi-select mode for plain selecting, keeping the selection.
    pub fn exit_multi_select_mode_for_editing(&mut self)
        ensures
            final(self)@ == multi_select_left(old(self)@),
    {
        self.multi_select_mode = false;
        self.active_tool = CanvasToolKind::Select;
        self.set_info(string_of("複数選択を保ったまま通常の移動に戻しました。"));
    }

    pub fn apply_tool_button_selection(&mut self, tool: CanvasToolKind)
        ensures
            final(self)@ == tool_button_pressed(old(self)@, tool),
    {
        if tool == CanvasToolKind::Select && self.multi_select_mode {
            self.exit_multi_select_mode_for_editing();
        } else {
            self.set_active_tool(tool, true);
        }
    }

    pub fn set_finger_draw_enabled(&mut self, enabled: bool)
        ensures
            final(self)@ == finger_draw_set(old(self)@, enabled),
    {
        if self.finger_draw_enabled == enabled {
            return;
        }
        self.finger_draw_enabled = enabled;
        if enabled {
            self.set_info(
                string_of("指でも描画できるようにしました。タブレットでは必要に応じてオフに戻せます。"),
            );
        } else {
            self.set_info(
                string_of(
                    "指の既定動作をビュー操作と長押し選択に戻しました。ペンやマウスはそのまま描画できます。",
                ),
            );
        }
    }

    /// The width of the active tool.
    pub fn active_tool_width(&self) -> (r: Scalar)
        ensures
            r == self@.tool_widths.spec_for_tool(self@.active_tool),
    {
        self.tool_widths.for_tool(self.active_tool)
    }

    /// What the canvas draws with now.
    pub fn tool_settings(&self) -> (r: ToolSettings)
        ensures
            r == settings_of(self@),
    {
        let fill_color = if self.tool_colors.fill_enabled {
            Some(self.tool_colors.fill_color)
        } else {
            None
        };
        ToolSettings {
            tool: self.active_tool,
            stroke_color: self.tool_colors.stroke_color,
            fill_color,
            width: self.active_tool_width(),
            multi_select_mode: self.multi_select_mode,
            finger_draw_enabled: self.finger_draw_enabled,
        }
    }

    /// The active tool draws shapes that can carry a fill.
    pub fn tool_uses_fill(&self) -> (r: bool)
        ensures
            r == (self@.active_tool is Rectangle || self@.active_tool is Ellipse),
    {
        match self.active_tool {
            CanvasToolKind::Rectangle | CanvasToolKind::Ellipse => true,
            _ => false,
        }
    }

    /// Records `color` as the most recently used color.
    pub fn push_recent_color(&mut self, color: RgbaColor)
        ensures
            final(self)@ == recent_pushed(old(self)@, color),
    {
        if self.ui_state.recent_colors.len() > 0 && self.ui_state.recent_colors[0] == color {
            return;
        }
        push_recent_color(&mut self.ui_state.recent_colors, color);
        self.ui_state_dirty = true;
    }

    pub fn open_tutorial(&mut self)
        ensures
            final(self)@ == with_info(
                EditorView {
                    show_help: false,
                    tutorial_visible: true,
                    tutorial_step_index: 0,
                    ..old(self)@
                },
                "ミニチュートリアルを開きました。短く流れを確認できます。"@,
            ),
    {
        self.show_help = false;
        self.tutorial_visible = true;
        self.tutorial_step_index = 0;
        self.set_info(string_of("ミニチュートリアルを開きました。短く流れを確認できます。"));
    }

    pub fn show_help(&self) -> (r: bool)
        ensures
            r == self@.show_help,
    {
        self.show_help
    }

    pub fn set_show_help(&mut self, shown: bool)
        ensures
            final(self)@ == (EditorView { show_help: shown, ..old(self)@ }),
    {
        self.show_help = shown;
    }

    /// The step the tutorial window shows; see `shown_tutorial_step`.
    pub fn tutorial_step_index(&self) -> (r: usize)
        ensures
            r == shown_tutorial_step(self@),
    {
        let last = tutorial_step_count() - 1;
        if self.tutorial_step_index < last {
            self.tutorial_step_index
        } else {
            last
        }
    }

    /// The forward button of the tutorial window: it completes the tutorial on the last
    /// step and moves on before it.
    pub fn tutorial_forward_action(&self) -> (r: TutorialAction)
        ensures
            r == (if shown_tutorial_step(self@) + 1 == 4 {
                TutorialAction::Complete
            } else {
                TutorialAction::Next
            }),
    {
        if self.tutorial_step_index() + 1 == tutorial_step_count() {
            TutorialAction::Complete
        } else {
            TutorialAction::Next
        }
    }

    /// Applies a frame of the tutorial window; see `tutorial_after`.
    pub fn apply_tutorial_action(&mut self, action: Option<TutorialAction>, open: bool)
        ensures
            final(self)@ == tutorial_after(old(self)@, action, open),
    {
        let action = if !open && action.is_none() {
            Some(TutorialAction::Skip)
        } else {
            action
        };
        let last = tutorial_step_count() - 1;
        match action {
            None => {
                self.tutorial_visible = open;
            },
            Some(TutorialAction::Back) => {
                if self.tutorial_step_index > 0 {
                    self.tutorial_step_index = self.tutorial_step_index - 1;
                }
            },
            Some(TutorialAction::Next) => {
                if self.tutorial_step_index < last - 1 {
                    self.tutorial_step_index = self.tutorial_step_index + 1;
                } else {
                    self.tutorial_step_index = last;
                }
            },
            Some(TutorialAction::Skip) => self.close_tutorial(false),
            Some(TutorialAction::Complete) => self.close_tutorial(true),
        }
    }

    /// Hides the tutorial for good, finished or skipped.
    pub fn close_tutorial(&mut self, completed: bool)
        ensures
            final(self)@ == with_info(
                EditorView {
                    tutorial_visible: false,
                    tutorial_dismissed: true,
                    ui_state_dirty: true,
                    ..old(self)@
                },
                if completed {
                    "チュートリアルを閉じました。必要ならヘルプからもう一度開けます。"@
                } else {
                    "チュートリアルをスキップしました。必要ならヘルプから開けます。"@
                },
            ),
    {
        self.tutorial_visible = false;
        self.ui_state.tutorial_dismissed = true;
        self.ui_state_dirty = true;
        if completed {
            self.set_info(string_of("チュートリアルを閉じました。必要ならヘルプからもう一度開けます。"));
        } else {
            self.set_info(string_of("チュートリアルをスキップしました。必要ならヘルプから開けます。"));
        }
    }

    /// The settings kept between sessions, when they changed since they were last
    /// written and there is a place to write them (`storage_available`); they then count
    /// as written. Otherwise nothing is handed out and nothing changes.
    pub fn take_ui_state_to_persist(&mut self, storage_available: bool) -> (r: Option<
        UiStatePersistence,
    >)
        ensures
            (old(self)@.ui_state_dirty && storage_available) ==> (r matches Some(s) && s.tutorial_dismissed
                == old(self)@.tutorial_dismissed && s.recent_colors@ == old(self)@.recent_colors
                && final(self)@ == (EditorView { ui_state_dirty: false, ..old(self)@ })),
            !(old(self)@.ui_state_dirty && storage_available) ==> (r is None && final(self)@ == old(
                self,
            )@),
    {
        if !self.ui_state_dirty || !storage_available {
            return None;
        }
        let mut colors: Vec<RgbaColor> = Vec::new();
        let mut i: usize = 0;
        while i < self.ui_state.recent_colors.len()
            invariant
                i <= self.ui_state.recent_colors.len(),
                colors@ == self.ui_state.recent_colors@.take(i as int),
            decreases self.ui_state.recent_colors.len() - i,
        {
            colors.push(self.ui_state.recent_colors[i]);
            i += 1;
            proof {
                assert(colors@ =~= self.ui_state.recent_colors@.take(i as int));
            }
        }
        proof {
            assert(colors@ =~= self.ui_state.recent_colors@);
        }
        self.ui_state_dirty = false;
        Some(UiStatePersistence { tutorial_dismissed: self.ui_state.tutorial_dismissed, recent_colors: colors })
    }

    /// Selects the distinct positions of `indices` in layer `layer_id`.
    pub fn set_selection_indices(&mut self, layer_id: LayerId, indices: Vec<usize>)
        ensures
            sorted_distinct_of(final(self)@.selection, indices@),
            final(self)@ == (EditorView {
                selection: final(self)@.selection,
                selection_layer: Some(layer_id),
                ..old(self)@
            }),
    {
        self.selection.set_indices(indices);
        self.selection_layer_id = Some(layer_id);
    }

    pub fn clear_selection(&mut self)
        ensures
            final(self)@ == (EditorView {
                selection: Seq::empty(),
                selection_layer: None,
                ..old(self)@
            }),
    {
        self.selection.clear();
        self.selection_layer_id = None;
    }

    /// The stroke a press of the brush or eraser starts at `start`, which the canvas then
    /// extends: an eraser stroke paints the background color, a brush stroke the stroke
    /// color, at the active tool's width. Drawing clears the selection.
    pub fn start_stroke(&mut self, start: PaintPoint) -> (r: Stroke)
        ensures
            r@ == (StrokeView {
                tool: if old(self)@.active_tool is Eraser {
                    ToolKind::Eraser
                } else {
                    ToolKind::Brush
                },
                color: if old(self)@.active_tool is Eraser {
                    old(self)@.history.current.background
                } else {
                    old(self)@.tool_colors.stroke_color
                },
                width: settings_of(old(self)@).width,
                points: seq![start],
            }),
            final(self)@ == (EditorView { selection: Seq::empty(), selection_layer: None, ..old(self)@ }),
    {
        self.clear_selection();
        let eraser = self.active_tool == CanvasToolKind::Eraser;
        let color = if eraser {
            self.history.current().background
        } else {
            self.tool_colors.stroke_color
        };
        let tool = if eraser {
            ToolKind::Eraser
        } else {
            ToolKind::Brush
        };
        let mut stroke = Stroke::new(tool, color, self.active_tool_width());
        stroke.push_point(start);
        assert(stroke@.points =~= seq![start]);
        stroke
    }

    /// The shape a press of a shape tool starts at `start` (both ends there), in the
    /// stroke color and, where the shape can carry one, the tool's fill, at the active
    /// tool's width; `None` for a tool that draws no shape. Drawing clears the selection.
    pub fn start_shape(&mut self, start: PaintPoint) -> (r: Option<ShapeElement>)
        ensures
            final(self)@ == (EditorView { selection: Seq::empty(), selection_layer: None, ..old(self)@ }),
            r == (match old(self)@.active_tool {
                CanvasToolKind::Rectangle => Some(new_shape(old(self)@, ShapeKind::Rectangle, start)),
                CanvasToolKind::Ellipse => Some(new_shape(old(self)@, ShapeKind::Ellipse, start)),
                CanvasToolKind::Line => Some(new_shape(old(self)@, ShapeKind::Line, start)),
                _ => None,
            }),
    {
        self.clear_selection();
        let settings = self.tool_settings();
        match settings.tool.shape_kind() {
            Some(kind) => Some(
                ShapeElement::new(kind, settings.stroke_color, settings.width, start, start).with_fill_color(
                    settings.fill_color,
                ),
            ),
            None => None,
        }
    }

    /// See `selection_has_element`.
    pub fn selection_holds_element(&self) -> (r: bool)
        ensures
            r == selection_has_element(self@),
    {
        let count = self.history.current().element_count();
        let current = self.selection.indices();
        let mut k: usize = 0;
        while k < current.len()
            invariant
                k <= current@.len(),
                current@ == self@.selection,
                count == (match layer_position(
                    self@.history.current.layers,
                    self@.history.current.active_layer_id,
                ) {
                    Some(a) => self@.history.current.layers[a].elements.len(),
                    None => 0,
                }),
                forall|j: int|
                    0 <= j < k ==> element_at(self@.history.current, #[trigger] self@.selection[j] as int) is None,
            decreases current@.len() - k,
        {
            if current[k] < count {
                assert(element_at(self@.history.current, self@.selection[k as int] as int) is Some);
                return true;
            }
            k += 1;
        }
        false
    }

    /// A press of the select tool on the canvas. On a handle the selected shape is edited.
    /// On an element, an extending press (shift) adds it to the selection or takes it out
    /// and ends there; a plain press selects it alone unless it is already selected, and
    /// moving the selection begins when it holds an element. On nothing, a plain press
    /// clears the selection. The result is what the canvas does next.
    pub fn press_selection(&mut self, hit: SelectionHit, extend: bool) -> (r: InteractionMode)
        ensures
            match hit {
                SelectionHit::Control => r == (if extend {
                    InteractionMode::Idle
                } else {
                    InteractionMode::EditingSelection
                }) && final(self)@ == old(self)@,
                SelectionHit::Element(i) => if extend {
                    &&& toggled_selection(final(self)@.selection, old(self)@.selection, i)
                    &&& final(self)@ == (EditorView {
                        selection: final(self)@.selection,
                        selection_layer: Some(old(self)@.history.current.active_layer_id),
                        ..old(self)@
                    })
                    &&& r == InteractionMode::Idle
                } else {
                    &&& final(self)@ == (if old(self)@.selection.contains(i) {
                        old(self)@
                    } else {
                        EditorView {
                            selection: seq![i],
                            selection_layer: Some(old(self)@.history.current.active_layer_id),
                            ..old(self)@
                        }
                    })
                    &&& r == (if selection_has_element(final(self)@) {
                        InteractionMode::EditingSelection
                    } else {
                        InteractionMode::Idle
                    })
                },
                SelectionHit::Nothing => r == InteractionMode::Idle && final(self)@ == (if extend {
                    old(self)@
                } else {
                    EditorView { selection: Seq::empty(), selection_layer: None, ..old(self)@ }
                }),
            },
    {
        match hit {
            SelectionHit::Control => {
                if extend {
                    InteractionMode::Idle
                } else {
                    InteractionMode::EditingSelection
                }
            },
            SelectionHit::Element(i) => {
                let layer = self.history.current().active_layer_id();
                if extend {
                    self.selection.toggle(i);
                    self.selection_layer_id = Some(layer);
                    return InteractionMode::Idle;
                }
                if !self.selection.contains(i) {
                    let mut only: Vec<usize> = Vec::new();
                    only.push(i);
                    self.selection.set_indices(only);
                    self.selection_layer_id = Some(layer);
                    proof {
                        lemma_sorted_distinct_unique(self@.selection, seq![i]);
                    }
                }
                if self.selection_holds_element() {
                    InteractionMode::EditingSelection
                } else {
                    InteractionMode::Idle
                }
            },
            SelectionHit::Nothing => {
                if !extend {
                    self.clear_selection();
                }
                InteractionMode::Idle
            },
        }
    }

    /// Drops the selected positions that no longer name an element of the active layer,
    /// as each frame does after the drawing may have changed.
    pub fn sync_selection_with_document(&mut self)
        ensures
            strictly_increasing(final(self)@.selection),
            forall|x: usize| #[trigger] final(self)@.selection.contains(x) <==> (old(
                self,
            )@.selection.contains(x) && element_at(old(self)@.history.current, x as int) is Some),
            final(self)@ == (EditorView { selection: final(self)@.selection, ..old(self)@ }),
    {
        self.selection.retain_valid(self.history.current());
    }

    /// See `selection_summary_text`.
    pub fn selection_summary(&self, session: Option<DocumentEditMode>) -> (r: String)
        ensures
            r@ == selection_summary_text(self@.history.current, self@.selection, session),
    {
        if self.selection.len() == 0 {
            return string_of("Selection: None");
        }
        let single = match self.selection.single() {
            Some(index) => self.history.current().element(index),
            None => None,
        };
        let mut text = string_of("Selection: ");
        match single {
            Some(element) => {
                let index = self.selection.indices()[0];
                let count = self.history.current().element_count();
                assert(index < count);
                let shown: usize = index + 1;
                text.append(element.kind_label());
                text.append(" #");
                push_decimal(&mut text, shown as u64);
                match session {
                    Some(mode) => {
                        text.append(" (");
                        text.append(mode.label());
                        text.append(")");
                    },
                    None => match element {
                        PaintElement::Shape(_) => text.append(" (move / resize / rotate)"),
                        _ => text.append(" (move only)"),
                    },
                }
            },
            None => {
                push_decimal(&mut text, self.selection.len() as u64);
                match session {
                    Some(mode) => {
                        text.append(" elements (");
                        text.append(mode.label());
                        text.append(")");
                    },
                    None => text.append(" elements (move / align / order)"),
                }
            },
        }
        text
    }

    pub fn selection_count(&self) -> (r: usize)
        ensures
            r == self@.selection.len(),
    {
        self.selection.len()
    }

    pub fn selection_indices(&self) -> (r: &[usize])
        ensures
            r@ == self@.selection,
    {
        self.selection.indices()
    }
    /// The selected shapes, with their positions, when the select tool is active.
    pub fn selected_shape_edit_targets(&self) -> (r: Vec<(usize, ShapeElement)>)
        ensures
            r@ == shape_targets(self@),
    {
        let mut out: Vec<(usize, ShapeElement)> = Vec::new();
        if self.active_tool != CanvasToolKind::Select {
            return out;
        }
        let indices = self.selection.indices();
        let document = self.history.current();
        let ghost d = document@;
        let mut i: usize = 0;
        while i < indices.len()
            invariant
                i <= indices@.len(),
                d == document@,
                out@ == selected_shapes(d, indices@.take(i as int)),
            decreases indices@.len() - i,
        {
            let index = indices[i];
            proof {
                assert(indices@.take(i + 1).drop_last() =~= indices@.take(i as int));
                assert(indices@.take(i + 1).last() == index);
            }
            match document.element(index) {
                Some(PaintElement::Shape(shape)) => {
                    out.push((index, *shape));
                },
                _ => {},
            }
            i += 1;
        }
        assert(indices@.take(indices@.len() as int) =~= indices@);
        out
    }

    /// The selected strokes, with their positions, when the select tool is active.
    pub fn selected_stroke_edit_targets(&self) -> (r: Vec<(usize, Stroke)>)
        ensures
            stroke_pairs_view(r@) == stroke_targets(self@),
    {
        let mut out: Vec<(usize, Stroke)> = Vec::new();
        if self.active_tool != CanvasToolKind::Select {
            assert(stroke_pairs_view(out@) =~= Seq::<(usize, StrokeView)>::empty());
            return out;
        }
        let indices = self.selection.indices();
        let document = self.history.current();
        let ghost d = document@;
        let mut i: usize = 0;
        assert(stroke_pairs_view(out@) =~= Seq::<(usize, StrokeView)>::empty());
        while i < indices.len()
            invariant
                i <= indices@.len(),
                d == document@,
                stroke_pairs_view(out@) == selected_strokes(d, indices@.take(i as int)),
            decreases indices@.len() - i,
        {
            let index = indices[i];
            proof {
                assert(indices@.take(i + 1).drop_last() =~= indices@.take(i as int));
                assert(indices@.take(i + 1).last() == index);
            }
            match document.element(index) {
                Some(PaintElement::Stroke(stroke)) => {
                    let ghost before = out@;
                    out.push((index, stroke.deep_copy()));
                    assert(stroke_pairs_view(out@) =~= stroke_pairs_view(before).push(
                        (index, stroke@),
                    ));
                },
                _ => {},
            }
            i += 1;
        }
        assert(indices@.take(indices@.len() as int) =~= indices@);
        out
    }

    /// The selected fills, with their positions, when the select tool is active.
    pub fn selected_fill_edit_targets(&self) -> (r: Vec<(usize, FillElement)>)
        ensures
            fill_pairs_view(r@) == fill_targets(self@),
    {
        let mut out: Vec<(usize, FillElement)> = Vec::new();
        if self.active_tool != CanvasToolKind::Select {
            assert(fill_pairs_view(out@) =~= Seq::<(usize, FillView)>::empty());
            return out;
        }
        let indices = self.selection.indices();
        let document = self.history.current();
        let ghost d = document@;
        let mut i: usize = 0;
        assert(fill_pairs_view(out@) =~= Seq::<(usize, FillView)>::empty());
        while i < indices.len()
            invariant
                i <= indices@.len(),
                d == document@,
                fill_pairs_view(out@) == selected_fills(d, indices@.take(i as int)),
            decreases indices@.len() - i,
        {
            let index = indices[i];
            proof {
                assert(indices@.take(i + 1).drop_last() =~= indices@.take(i as int));
                assert(indices@.take(i + 1).last() == index);
            }
            match document.element(index) {
                Some(PaintElement::Fill(fill)) => {
                    let ghost before = out@;
                    out.push((index, fill.deep_copy()));
                    assert(fill_pairs_view(out@) =~= fill_pairs_view(before).push((index, fill@)));
                },
                _ => {},
            }
            i += 1;
        }
        assert(indices@.take(indices@.len() as int) =~= indices@);
        out
    }

    /// The one selected shape, when exactly one shape is selected with the select tool.
    pub fn selected_shape_edit_target(&self) -> (r: Option<(usize, ShapeElement)>)
        ensures
            r == (if shape_targets(self@).len() == 1 {
                Some(shape_targets(self@)[0])
            } else {
                None
            }),
    {
        let targets = self.selected_shape_edit_targets();
        if targets.len() == 1 {
            Some(targets[0])
        } else {
            None
        }
    }

    pub fn current_shape_style_context(&self) -> (r: Option<ShapeStyleContext>)
        ensures
            r == shape_style_context_of(self@),
    {
        let targets = self.selected_shape_edit_targets();
        let total = self.selection.len();
        if targets.len() == 1 && total == 1 {
            let shape = targets[0].1;
            let fill = shape.effective_fill_color();
            return Some(
                ShapeStyleContext {
                    target: ShapeStyleTarget::SelectedShape,
                    kind: shape.kind,
                    stroke_color: shape.color,
                    fill_color: fill,
                    width: shape.width,
                    shape_count: 1,
                    total_selection_count: 1,
                    fill_supported_count: if shape.kind.supports_fill() {
                        1
                    } else {
                        0
                    },
                    fill_enabled_count: if fill.is_some() {
                        1
                    } else {
                        0
                    },
                },
            );
        }
        if targets.len() > 0 {
            let representative = targets[0].1;
            let mut supported: usize = 0;
            let mut enabled: usize = 0;
            let mut k: usize = 0;
            while k < targets.len()
                invariant
                    k <= targets@.len(),
                    supported == fill_supported_count(targets@.take(k as int)),
                    enabled == fill_enabled_count(targets@.take(k as int)),
                decreases targets@.len() - k,
            {
                proof {
                    assert(targets@.take(k + 1).drop_last() =~= targets@.take(k as int));
                    lemma_fill_counts_bounded(targets@.take(k as int));
                }
                if targets[k].1.kind.supports_fill() {
                    supported += 1;
                }
                if targets[k].1.effective_fill_color().is_some() {
                    enabled += 1;
                }
                k += 1;
            }
            assert(targets@.take(targets@.len() as int) =~= targets@);
            return Some(
                ShapeStyleContext {
                    target: ShapeStyleTarget::SelectedShapes,
                    kind: representative.kind,
                    stroke_color: representative.color,
                    fill_color: representative.effective_fill_color(),
                    width: representative.width,
                    shape_count: targets.len(),
                    total_selection_count: total,
                    fill_supported_count: supported,
                    fill_enabled_count: enabled,
                },
            );
        }
        match self.active_tool.shape_kind() {
            Some(kind) => {
                let supports = kind.supports_fill();
                Some(
                    ShapeStyleContext {
                        target: ShapeStyleTarget::NewShape,
                        kind,
                        stroke_color: self.tool_colors.stroke_color,
                        fill_color: if self.tool_colors.fill_enabled {
                            Some(self.tool_colors.fill_color)
                        } else {
                            None
                        },
                        width: self.tool_widths.draw_width,
                        shape_count: 1,
                        total_selection_count: 0,
                        fill_supported_count: if supports {
                            1
                        } else {
                            0
                        },
                        fill_enabled_count: if supports && self.tool_colors.fill_enabled {
                            1
                        } else {
                            0
                        },
                    },
                )
            },
            None => None,
        }
    }

    pub fn current_selection_paint_context(&self) -> (r: Option<SelectionPaintContext>)
        ensures
            r == selection_paint_context_of(self@),
    {
        if self.active_tool != CanvasToolKind::Select {
            return None;
        }
        let shapes = self.selected_shape_edit_targets();
        if shapes.len() > 0 {
            return None;
        }
        let strokes = self.selected_stroke_edit_targets();
        let fills = self.selected_fill_edit_targets();
        let total = self.selection.len();
        proof {
            lemma_selected_counts(self@.history.current, self@.selection);
        }
        if total == 0 || strokes.len() + fills.len() != total {
            return None;
        }
        Some(
            SelectionPaintContext {
                stroke_count: strokes.len(),
                fill_count: fills.len(),
                total_selection_count: total,
                stroke_color: if strokes.len() > 0 {
                    Some(strokes[0].1.color)
                } else {
                    None
                },
                stroke_width: if strokes.len() > 0 {
                    Some(strokes[0].1.width)
                } else {
                    None
                },
                fill_color: if fills.len() > 0 {
                    Some(fills[0].1.color)
                } else {
                    None
                },
            },
        )
    }
    /// Applies `edit` to the selected elements of its kind, as one undoable step, and
    /// reports how many changed; 0, with nothing changed, when none would.
    #[verifier::spinoff_prover]
    #[verifier::rlimit(40)]
    pub fn replace_selected(&mut self, edit: StyleEdit, message: String) -> (r: usize)
        requires
            editor_well_formed(old(self)@),
        ensures
            final(self)@ == restyled_editor(old(self)@, edit, message@),
            restyle_applies(old(self)@, edit) == (restyle_count_of(old(self)@, edit) > 0),
            r == restyle_count_of(old(self)@, edit),
            editor_well_formed(final(self)@),
    {
        proof {
            lemma_restyle_applies(self@, edit);
        }
        let ghost d = self@.history.current;
        let ghost es = active_elements(d);
        let ghost sel = edit_selection(self@);
        let element_count = self.history.current().element_count();
        assert(es.len() == element_count);
        let mut reps: Vec<(usize, PaintElement)> = Vec::new();
        if self.active_tool == CanvasToolKind::Select {
            let indices = self.selection.indices();
            let document = self.history.current();
            let mut i: usize = 0;
            while i < indices.len()
                invariant
                    indices@ == sel,
                    d == document@,
                    es == active_elements(d),
                    es.len() == element_count,
                    i <= sel.len(),
                    strictly_increasing(sel),
                    forall|k: int|
                        0 <= k < reps@.len() ==> #[trigger] reps@[k].0 < es.len()
                            && sel.take(i as int).contains(reps@[k].0) && restyle_changes(
                            es[reps@[k].0 as int],
                            edit,
                        ) && reps@[k].1.view() == restyled(es[reps@[k].0 as int], edit)->Some_0,
                    forall|k1: int, k2: int|
                        0 <= k1 < k2 < reps@.len() ==> reps@[k1].0 < reps@[k2].0,
                    forall|p: int|
                        0 <= p < es.len() && sel.take(i as int).contains(p as usize)
                            && restyle_changes(es[p], edit) ==> exists|k: int|
                            0 <= k < reps@.len() && #[trigger] reps@[k].0 == p,
                    reps@.len() == restyle_count(es, sel.take(i as int), edit),
                decreases sel.len() - i,
            {
                let index = indices[i];
                let ghost before = reps@;
                proof {
                    assert(sel.take(i + 1).drop_last() =~= sel.take(i as int));
                    assert(sel.take(i + 1).last() == index);
                    assert forall|k: int| 0 <= k < before.len() implies #[trigger] before[k].0
                        < index by {
                        let j = choose|j: int| 0 <= j < i && #[trigger] sel.take(i as int)[j] == before[k].0;
                        assert(sel[j] == before[k].0);
                    }
                }
                match document.element(index) {
                    Some(element) => {
                        assert(element.view() == es[index as int]);
                        match restyle(element, edit) {
                            Some(next) => {
                                if !next.same_content(element) {
                                    reps.push((index, next));
                                }
                            },
                            None => {},
                        }
                    },
                    None => {
                        assert(index >= es.len());
                    },
                }
                assert(index < es.len() && restyle_changes(es[index as int], edit) ==> reps@.len()
                    == before.len() + 1 && reps@[reps@.len() - 1].0 == index);
                proof {
                    assert forall|k: int| 0 <= k < reps@.len() implies sel.take(i + 1).contains(
                        #[trigger] reps@[k].0,
                    ) by {
                        if k < before.len() {
                            let j = choose|j: int|
                                0 <= j < i && #[trigger] sel.take(i as int)[j] == before[k].0;
                            assert(sel.take(i + 1)[j] == before[k].0);
                        } else {
                            assert(sel.take(i + 1)[i as int] == index);
                        }
                    }
                    assert forall|p: int|
                        0 <= p < es.len() && sel.take(i + 1).contains(p as usize) && restyle_changes(
                            es[p],
                            edit,
                        ) implies exists|k: int|
                        0 <= k < reps@.len() && #[trigger] reps@[k].0 == p by {
                        let j = choose|j: int| 0 <= j < i + 1 && #[trigger] sel.take(i + 1)[j] == p as usize;
                        if j < i {
                            assert(sel.take(i as int)[j] == p as usize);
                            assert(sel.take(i as int).contains(p as usize));
                            let k = choose|k: int| 0 <= k < before.len() && #[trigger] before[k].0 == p;
                            assert(reps@[k].0 == p);
                        } else {
                            assert(reps@[reps@.len() - 1].0 == p);
                        }
                    }
                }
                i += 1;
            }
            assert(sel.take(sel.len() as int) =~= sel);
        } else {
            assert(sel =~= Seq::<usize>::empty());
        }
        if reps.len() == 0 {
            return 0;
        }
        proof {
            let a = choose|a: int|
                0 <= a < d.layers.len() && #[trigger] d.layers[a].id == d.active_layer_id;
            lemma_layer_found(d.layers, d.active_layer_id, a);
            assert(reps@[0].0 < active_elements(d).len());
            assert forall|p: int| 0 <= p < es.len() implies #[trigger] replaced_elements(es, reps@)[p]
                == restyled_elements(es, sel, edit)[p] by {
                if exists|k: int| 0 <= k < reps@.len() && #[trigger] reps@[k].0 == p {
                    let k = choose|k: int| 0 <= k < reps@.len() && #[trigger] reps@[k].0 == p;
                    assert(first_replacement_at(reps@, p, k));
                    lemma_first_replacement_unique(reps@, p, k);
                    let j = choose|j: int| 0 <= j < sel.len() && #[trigger] sel[j] == reps@[k].0;
                    assert(sel.contains(p as usize));
                } else {
                    assert(!exists|k: int| first_replacement_at(reps@, p, k));
                    if sel.contains(p as usize) && restyle_changes(es[p], edit) {
                        assert(sel.take(sel.len() as int).contains(p as usize));
                    }
                }
            }
            assert(replaced_elements(es, reps@) =~= restyled_elements(es, sel, edit));
        }
        let mut document = self.history.current().deep_copy();
        let active_layer_id = document.active_layer_id();
        let replaced = document.replace_elements(&reps);
        proof {
            let a = layer_position(d.layers, d.active_layer_id)->Some_0;
            lemma_elements_change_keeps_structure(d, a, restyled_elements(es, sel, edit));
            assert(ids_below_max(document@.layers));
        }
        if !replaced {
            return 0;
        }
        if self.history.replace_document(document) {
            self.selection_layer_id = Some(active_layer_id);
            self.set_info(message);
            reps.len()
        } else {
            0
        }
    }
    /// Applies `edit` to the one selected shape, as one undoable step that leaves it
    /// alone selected; `false`, with nothing changed, unless exactly one shape is
    /// selected and the edit changes it.
    pub fn replace_selected_shape(&mut self, edit: ShapeEdit, message: String) -> (r: bool)
        requires
            editor_well_formed(old(self)@),
        ensures
            r == single_restyle_applies(old(self)@, edit),
            r == (shape_targets(old(self)@).len() == 1 && !shape_eq(
                shape_edited(shape_targets(old(self)@)[0].1, edit),
                shape_targets(old(self)@)[0].1,
            )),
            final(self)@ == single_restyled(old(self)@, edit, message@),
            editor_well_formed(final(self)@),
    {
        proof {
            lemma_single_restyle_applies(self@, edit);
        }
        let ghost d = self@.history.current;
        let (index, shape) = match self.selected_shape_edit_target() {
            Some(target) => target,
            None => return false,
        };
        let next = edited_shape(shape, edit);
        if next.same_content(&shape) {
            return false;
        }
        proof {
            lemma_selected_shapes_found(d, self@.selection);
            let a = choose|a: int|
                0 <= a < d.layers.len() && #[trigger] d.layers[a].id == d.active_layer_id;
            lemma_layer_found(d.layers, d.active_layer_id, a);
            let p = layer_position(d.layers, d.active_layer_id)->Some_0;
            lemma_elements_change_keeps_structure(
                d,
                p,
                d.layers[p].elements.update(index as int, ElementView::Shape(next)),
            );
        }
        let mut document = self.history.current().deep_copy();
        let replaced = document.replace_element(index, PaintElement::Shape(next));
        if !replaced {
            return false;
        }
        assert(ids_below_max(document@.layers));
        let active_layer_id = document.active_layer_id();
        if self.history.replace_document(document) {
            self.selection.set_only(index);
            self.selection_layer_id = Some(active_layer_id);
            self.set_info(message);
            true
        } else {
            false
        }
    }

    /// `replace_selected` for a shape edit.
    pub fn replace_selected_shapes(&mut self, edit: ShapeEdit, message: String) -> (r: usize)
        requires
            editor_well_formed(old(self)@),
        ensures
            final(self)@ == restyled_editor(old(self)@, StyleEdit::Shape(edit), message@),
            restyle_applies(old(self)@, StyleEdit::Shape(edit)) == (restyle_count_of(
                old(self)@,
                StyleEdit::Shape(edit),
            ) > 0),
            r == restyle_count_of(old(self)@, StyleEdit::Shape(edit)),
            editor_well_formed(final(self)@),
    {
        self.replace_selected(StyleEdit::Shape(edit), message)
    }

    /// `replace_selected` for a stroke edit.
    pub fn replace_selected_strokes(&mut self, edit: StrokeEdit, message: String) -> (r: usize)
        requires
            editor_well_formed(old(self)@),
        ensures
            final(self)@ == restyled_editor(old(self)@, StyleEdit::Stroke(edit), message@),
            restyle_applies(old(self)@, StyleEdit::Stroke(edit)) == (restyle_count_of(
                old(self)@,
                StyleEdit::Stroke(edit),
            ) > 0),
            r == restyle_count_of(old(self)@, StyleEdit::Stroke(edit)),
            editor_well_formed(final(self)@),
    {
        self.replace_selected(StyleEdit::Stroke(edit), message)
    }

    /// `replace_selected` for a fill edit.
    pub fn replace_selected_fills(&mut self, edit: FillEdit, message: String) -> (r: usize)
        requires
            editor_well_formed(old(self)@),
        ensures
            final(self)@ == restyled_editor(old(self)@, StyleEdit::Fill(edit), message@),
            restyle_applies(old(self)@, StyleEdit::Fill(edit)) == (restyle_count_of(
                old(self)@,
                StyleEdit::Fill(edit),
            ) > 0),
            r == restyle_count_of(old(self)@, StyleEdit::Fill(edit)),
            editor_well_formed(final(self)@),
    {
        self.replace_selected(StyleEdit::Fill(edit), message)
    }
    /// The stroke part of a color pick; returns the note on where the color went.
    #[verifier::spinoff_prover]
    #[verifier::rlimit(40)]
    fn apply_stroke_color(&mut self, color: RgbaColor) -> (r: Option<String>)
        requires
            editor_well_formed(old(self)@),
        ensures
            final(self)@ == stroke_color_stage(old(self)@, color).0,
            note_matches(r, stroke_color_stage(old(self)@, color).1),
            editor_well_formed(final(self)@),
    {
        self.tool_colors.stroke_color = color;
        let shapes = self.selected_shape_edit_targets();
        if shapes.len() > 1 {
            let changed = self.replace_selected_shapes(
                ShapeEdit::StrokeColor(color),
                counted_text("選択中の図形", shapes.len(), "個の線色を変更しました。"),
            );
            if changed > 0 {
                Some(counted_text("選択中の図形", changed, "個にも反映しました。"))
            } else {
                None
            }
        } else if shapes.len() == 1 && self.replace_selected_shape(
            ShapeEdit::StrokeColor(color),
            framed_text("選択中の", shapes[0].1.kind.label(), "の線色を変更しました。"),
        ) {
            Some(framed_text("選択中の", shapes[0].1.kind.label(), "にも反映しました。"))
        } else {
            let strokes = self.selected_stroke_edit_targets();
            if strokes.len() > 0 {
                let changed = self.replace_selected_strokes(
                    StrokeEdit::Color(color),
                    counted_text("選択中の線", strokes.len(), "個の色を変更しました。"),
                );
                if changed > 0 {
                    Some(counted_text("選択中の線", changed, "個にも反映しました。"))
                } else {
                    None
                }
            } else {
                None
            }
        }
    }

    /// The fill part of a color pick; returns the note on where the color went.
    #[verifier::spinoff_prover]
    #[verifier::rlimit(40)]
    fn apply_fill_color(&mut self, color: RgbaColor) -> (r: Option<String>)
        requires
            editor_well_formed(old(self)@),
        ensures
            final(self)@ == fill_color_stage(old(self)@, color).0,
            note_matches(r, fill_color_stage(old(self)@, color).1),
            editor_well_formed(final(self)@),
    {
        self.tool_colors.fill_color = color;
        self.tool_colors.fill_enabled = true;
        let shapes = self.selected_shape_edit_targets();
        let mut fill_target_count: usize = 0;
        let mut k: usize = 0;
        while k < shapes.len()
            invariant
                k <= shapes@.len(),
                fill_target_count == fill_supported_count(shapes@.take(k as int)),
            decreases shapes@.len() - k,
        {
            proof {
                assert(shapes@.take(k + 1).drop_last() =~= shapes@.take(k as int));
                lemma_fill_counts_bounded(shapes@.take(k as int));
            }
            if shapes[k].1.kind.supports_fill() {
                fill_target_count += 1;
            }
            k += 1;
        }
        assert(shapes@.take(shapes@.len() as int) =~= shapes@);
        if shapes.len() > 1 && fill_target_count > 0 {
            let changed = self.replace_selected_shapes(
                ShapeEdit::Fill(Some(color)),
                counted_text("選択中の図形", fill_target_count, "個の塗り色を変更しました。"),
            );
            if changed > 0 {
                Some(counted_text("塗り対応の図形", changed, "個にも反映しました。"))
            } else {
                None
            }
        } else if shapes.len() > 0 && shapes[0].1.kind.supports_fill() && self.replace_selected_shape(
            ShapeEdit::Fill(Some(color)),
            framed_text("選択中の", shapes[0].1.kind.label(), "の塗り色を変更しました。"),
        ) {
            Some(framed_text("選択中の", shapes[0].1.kind.label(), "にも反映しました。"))
        } else {
            let fills = self.selected_fill_edit_targets();
            if fills.len() > 0 {
                let changed = self.replace_selected_fills(
                    FillEdit::Color(color),
                    counted_text("選択中の塗り", fills.len(), "個の色を変更しました。"),
                );
                if changed > 0 {
                    Some(counted_text("選択中の塗り", changed, "個にも反映しました。"))
                } else {
                    None
                }
            } else {
                None
            }
        }
    }

    /// Applies a picked color to the color the quick picks target and to the selected
    /// elements it fits, then records it as recent and announces it.
    pub fn apply_color_to_target(&mut self, color: RgbaColor, announce: String)
        requires
            editor_well_formed(old(self)@),
        ensures
            final(self)@ == color_applied(old(self)@, color, announce@),
            editor_well_formed(final(self)@),
    {
        let applied = match self.tool_colors.quick_color_target {
            ColorTarget::Stroke => self.apply_stroke_color(color),
            ColorTarget::Fill => self.apply_fill_color(color),
        };
        self.push_recent_color(color);
        match applied {
            Some(note) => {
                let mut text = announce;
                text.append(" ");
                text.append(note.as_str());
                self.set_info(text);
            },
            None => {
                self.set_info(announce);
            },
        }
    }

    /// A color from the palette or the recent colors, announced with its source.
    pub fn apply_quick_color(&mut self, color: RgbaColor, source: &str)
        requires
            editor_well_formed(old(self)@),
        ensures
            final(self)@ == color_applied(
                old(self)@,
                color,
                source@ + "から"@ + color_target_label(old(self)@.tool_colors.quick_color_target)
                    + "を更新しました。"@,
            ),
            editor_well_formed(final(self)@),
    {
        let target = self.tool_colors.quick_color_target;
        let announce = framed_text(source, "から", target.label());
        let mut announce = announce;
        announce.append("を更新しました。");
        self.apply_color_to_target(color, announce);
    }
    /// The text of the layer name field.
    pub fn layer_name_draft(&self) -> (r: &str)
        ensures
            r@ == self@.layer_name_draft,
    {
        self.layer_name_draft.as_str()
    }

    pub fn set_layer_name_draft(&mut self, text: String)
        ensures
            final(self)@ == (EditorView { layer_name_draft: text@, ..old(self)@ }),
    {
        self.layer_name_draft = text;
    }

    /// Makes the layer name field follow the active layer.
    pub fn sync_layer_name_draft(&mut self)
        ensures
            final(self)@ == draft_synced(old(self)@),
    {
        let (layer_id, layer_name) = match self.history.current().active_layer() {
            Some(layer) => (layer.id, layer.name.clone()),
            None => {
                self.layer_name_draft_for = None;
                self.layer_name_draft = String::new();
                return;
            },
        };
        if self.layer_name_draft_for != Some(layer_id) {
            self.layer_name_draft_for = Some(layer_id);
            self.layer_name_draft = layer_name;
        }
    }

    /// Records a changed set of layers; see `layer_change_applied`.
    #[verifier::spinoff_prover]
    #[verifier::rlimit(30)]
    pub fn apply_layer_document_change(&mut self, document: PaintDocument, message: String)
        requires
            editor_well_formed(old(self)@),
            ids_below_max(document@.layers),
            layout_repairable(document@),
        ensures
            final(self)@ == layer_change_applied(old(self)@, document@, message@),
            editor_well_formed(final(self)@),
    {
        if self.history.replace_document(document) {
            self.selection.clear();
            self.selection_layer_id = None;
            self.sync_layer_name_draft();
            self.set_info(message);
        }
    }

    /// Records changed layout aids; see `configuration_change_applied`.
    #[verifier::spinoff_prover]
    #[verifier::rlimit(30)]
    pub fn apply_document_configuration_change(&mut self, document: PaintDocument, message: String)
        requires
            editor_well_formed(old(self)@),
            ids_below_max(document@.layers),
            layout_repairable(document@),
        ensures
            final(self)@ == configuration_change_applied(old(self)@, document@, message@),
            editor_well_formed(final(self)@),
    {
        if self.history.replace_document(document) {
            self.sync_layer_name_draft();
            self.set_info(message);
        }
    }

    /// Records a drawing whose selection moved to layer `layer_id`: when the drawing
    /// changes, one undoable step that selects the distinct positions of `indices`
    /// there and shows `message`.
    #[verifier::spinoff_prover]
    #[verifier::rlimit(30)]
    pub fn apply_layer_selection_document_change(
        &mut self,
        document: PaintDocument,
        layer_id: LayerId,
        indices: Vec<usize>,
        message: String,
    )
        requires
            editor_well_formed(old(self)@),
            ids_below_max(document@.layers),
            layout_repairable(document@),
        ensures
            document_changes(old(self)@, document@) ==> sorted_distinct_of(
                final(self)@.selection,
                indices@,
            ) && final(self)@ == with_info(
                draft_synced(
                    EditorView {
                        selection: final(self)@.selection,
                        selection_layer: Some(layer_id),
                        ..with_document(old(self)@, document@)
                    },
                ),
                message@,
            ),
            !document_changes(old(self)@, document@) ==> final(self)@ == old(self)@,
            editor_well_formed(final(self)@),
    {
        if self.history.replace_document(document) {
            self.selection.set_indices(indices);
            self.selection_layer_id = Some(layer_id);
            self.sync_layer_name_draft();
            self.set_info(message);
        }
    }

    /// Makes layer `layer_id` active; see `active_layer_switched`.
    #[verifier::spinoff_prover]
    #[verifier::rlimit(30)]
    pub fn set_active_layer(&mut self, layer_id: LayerId)
        requires
            editor_well_formed(old(self)@),
        ensures
            final(self)@ == active_layer_switched(old(self)@, layer_id),
            editor_well_formed(final(self)@),
    {
        if self.history.set_active_layer(layer_id) {
            let cleared = self.selection.len() > 0;
            self.selection.clear();
            self.selection_layer_id = None;
            self.sync_layer_name_draft();
            match self.history.current().active_layer() {
                Some(layer) => {
                    let mut text = string_of("作業レイヤーを ");
                    text.append(layer.name.as_str());
                    if cleared {
                        text.append(" に切り替えました。選択は新しいレイヤーに合わせて解除しました。");
                    } else {
                        text.append(" に切り替えました。");
                    }
                    self.set_info(text);
                },
                None => {},
            }
        }
    }

    /// Names the layer of the selection, with the count for several elements.
    pub fn selection_layer_context(&self) -> (r: Option<String>)
        ensures
            r is Some == selection_layer_text(self@) is Some,
            r matches Some(t) ==> t@ == selection_layer_text(self@)->Some_0,
    {
        let layer_id = match self.selection_layer_id {
            Some(id) => id,
            None => return None,
        };
        let count = self.selection.len();
        if count == 0 {
            return None;
        }
        let layer = match self.history.current().layer(layer_id) {
            Some(layer) => layer,
            None => return None,
        };
        let mut text = string_of("選択レイヤー: ");
        text.append(layer.name.as_str());
        if count != 1 {
            text.append("（");
            push_decimal(&mut text, count as u64);
            text.append("個）");
        }
        Some(text)
    }
    /// Adds an empty layer above the others and makes it active.
    pub fn add_layer(&mut self)
        requires
            editor_well_formed(old(self)@),
            can_add_layer(old(self)@.history.current),
        ensures
            final(self)@ == layer_change_applied(
                old(self)@,
                added_layer(old(self)@.history.current),
                layer_name_or(
                    added_layer(old(self)@.history.current),
                    fresh_layer_id(old(self)@.history.current),
                    "新しいレイヤー"@,
                ) + " を追加しました。"@,
            ),
            document_changes(old(self)@, added_layer(old(self)@.history.current)),
            editor_well_formed(final(self)@),
    {
        proof {
            lemma_layer_edits_change(self@);
        }
        let (next, layer_id) = self.history.current().add_layer_document();
        let mut message = match next.layer(layer_id) {
            Some(layer) => layer.name.clone(),
            None => string_of("新しいレイヤー"),
        };
        message.append(" を追加しました。");
        proof {
            let d = self@.history.current;
            lemma_well_formed_ids(d);
            assert(ids_below_max(next@.layers)) by {
                assert forall|k: int| 0 <= k < next@.layers.len() implies #[trigger] next@.layers[k].id
                    < u64::MAX by {
                    if k < d.layers.len() {
                        assert(next@.layers[k] == d.layers[k]);
                    }
                }
            }
        }
        self.apply_layer_document_change(next, message);
    }

    /// Adds a copy of the active layer above it and makes the copy active.
    pub fn duplicate_active_layer(&mut self)
        requires
            editor_well_formed(old(self)@),
            can_add_layer(old(self)@.history.current),
        ensures
            final(self)@ == optional_layer_change(
                old(self)@,
                match duplicated_layer(old(self)@.history.current) {
                    Some(p) => Some(p.0),
                    None => None,
                },
                |n: DocumentView|
                    layer_name_or(
                        n,
                        duplicated_layer(old(self)@.history.current)->Some_0.1,
                        "レイヤーのコピー"@,
                    ) + " を追加しました。"@,
            ),
            duplicated_layer(old(self)@.history.current) matches Some(p) ==> document_changes(
                old(self)@,
                p.0,
            ),
            editor_well_formed(final(self)@),
    {
        proof {
            lemma_layer_edits_change(self@);
        }
        let ghost d = self@.history.current;
        match self.history.current().duplicate_active_layer_document() {
            Some((next, layer_id)) => {
                let mut message = match next.layer(layer_id) {
                    Some(layer) => layer.name.clone(),
                    None => string_of("レイヤーのコピー"),
                };
                message.append(" を追加しました。");
                proof {
                    lemma_well_formed_ids(d);
                    let i = layer_position(d.layers, d.active_layer_id)->Some_0;
                    assert forall|k: int| 0 <= k < next@.layers.len() implies #[trigger] next@.layers[k].id
                        < u64::MAX by {
                        if k < i + 1 {
                            assert(next@.layers[k] == d.layers[k]);
                        } else if k > i + 1 {
                            assert(next@.layers[k] == d.layers[k - 1]);
                        }
                    }
                }
                self.apply_layer_document_change(next, message);
            },
            None => {},
        }
    }

    /// Deletes the active layer when another remains; the one below, or the new
    /// bottom layer, becomes active.
    pub fn delete_active_layer(&mut self)
        requires
            editor_well_formed(old(self)@),
        ensures
            final(self)@ == optional_layer_change(
                old(self)@,
                deleted_active_layer(old(self)@.history.current),
                |n: DocumentView|
                    "現在のレイヤーを削除しました。"@ + layer_name_or(
                        n,
                        n.active_layer_id,
                        "残りのレイヤー"@,
                    ) + " が作業レイヤーです。"@,
            ),
            deleted_active_layer(old(self)@.history.current) matches Some(n) ==> document_changes(
                old(self)@,
                n,
            ),
            editor_well_formed(final(self)@),
    {
        proof {
            lemma_layer_edits_change(self@);
        }
        let ghost d = self@.history.current;
        match self.history.current().delete_active_layer_document() {
            Some((next, next_active)) => {
                let mut message = string_of("現在のレイヤーを削除しました。");
                match next.layer(next_active) {
                    Some(layer) => message.append(layer.name.as_str()),
                    None => message.append("残りのレイヤー"),
                }
                message.append(" が作業レイヤーです。");
                proof {
                    lemma_well_formed_ids(d);
                    let i = layer_position(d.layers, d.active_layer_id)->Some_0;
                    assert forall|k: int| 0 <= k < next@.layers.len() implies #[trigger] next@.layers[k].id
                        < u64::MAX by {
                        if k < i {
                            assert(next@.layers[k] == d.layers[k]);
                        } else {
                            assert(next@.layers[k] == d.layers[k + 1]);
                        }
                    }
                }
                self.apply_layer_document_change(next, message);
            },
            None => {},
        }
    }

    /// Renames the active layer to the trimmed text of the name field.
    pub fn rename_active_layer(&mut self)
        requires
            editor_well_formed(old(self)@),
        ensures
            final(self)@ == optional_layer_change(
                old(self)@,
                renamed_active_layer(old(self)@.history.current, old(self)@.layer_name_draft),
                |n: DocumentView|
                    "レイヤー名を "@ + trimmed(old(self)@.layer_name_draft) + " に変更しました。"@,
            ),
            renamed_active_layer(old(self)@.history.current, old(self)@.layer_name_draft) matches Some(
                n,
            ) ==> document_changes(old(self)@, n),
            editor_well_formed(final(self)@),
    {
        proof {
            lemma_layer_edits_change(self@);
        }
        let ghost d = self@.history.current;
        let active_id = match self.history.current().active_layer() {
            Some(layer) => layer.id,
            None => return,
        };
        proof {
            let i = layer_position(d.layers, d.active_layer_id)->Some_0;
            assert(active_id == d.active_layer_id);
        }
        match self.history.current().renamed_layer_document(active_id, self.layer_name_draft.as_str()) {
            Some(next) => {
                let mut message = string_of("レイヤー名を ");
                let trimmed_name = trim(self.layer_name_draft.as_str());
                message.append(trimmed_name.as_str());
                message.append(" に変更しました。");
                proof {
                    lemma_well_formed_ids(d);
                    let i = layer_position(d.layers, d.active_layer_id)->Some_0;
                    assert forall|k: int| 0 <= k < next@.layers.len() implies #[trigger] next@.layers[k].id
                        < u64::MAX by {
                        assert(next@.layers[k].id == d.layers[k].id);
                    }
                }
                self.apply_layer_document_change(next, message);
            },
            None => {},
        }
    }

    /// Shows layer `layer_id` if hidden and hides it if shown.
    pub fn toggle_layer_visibility(&mut self, layer_id: LayerId)
        requires
            editor_well_formed(old(self)@),
        ensures
            toggled_visibility(old(self)@.history.current, layer_id) matches Some(n) ==> document_changes(
                old(self)@,
                n,
            ),
            final(self)@ == optional_layer_change(
                old(self)@,
                toggled_visibility(old(self)@.history.current, layer_id),
                |n: DocumentView| visibility_text(n, layer_id),
            ),
            editor_well_formed(final(self)@),
    {
        let ghost d = self@.history.current;
        proof {
            lemma_layer_flag_toggles_change(self@, layer_id);
        }
        match self.history.current().toggled_layer_visibility_document(layer_id) {
            Some(next) => {
                let message = match next.layer(layer_id) {
                    Some(layer) => {
                        let mut text = layer.name.clone();
                        if layer.visible {
                            text.append(" を表示しました。");
                        } else {
                            text.append(" を非表示にしました。");
                        }
                        text
                    },
                    None => string_of("レイヤーの表示状態を変更しました。"),
                };
                proof {
                    lemma_well_formed_ids(d);
                    assert forall|k: int| 0 <= k < next@.layers.len() implies #[trigger] next@.layers[k].id
                        < u64::MAX by {
                        assert(next@.layers[k].id == d.layers[k].id);
                    }
                }
                self.apply_layer_document_change(next, message);
            },
            None => {},
        }
    }

    /// Locks layer `layer_id` if unlocked and unlocks it if locked.
    pub fn toggle_layer_locked(&mut self, layer_id: LayerId)
        requires
            editor_well_formed(old(self)@),
        ensures
            toggled_locked(old(self)@.history.current, layer_id) matches Some(n) ==> document_changes(
                old(self)@,
                n,
            ),
            final(self)@ == optional_layer_change(
                old(self)@,
                toggled_locked(old(self)@.history.current, layer_id),
                |n: DocumentView| lock_text(n, layer_id),
            ),
            editor_well_formed(final(self)@),
    {
        let ghost d = self@.history.current;
        proof {
            lemma_layer_flag_toggles_change(self@, layer_id);
        }
        match self.history.current().toggled_layer_locked_document(layer_id) {
            Some(next) => {
                let message = match next.layer(layer_id) {
                    Some(layer) => {
                        let mut text = layer.name.clone();
                        if layer.locked {
                            text.append(" をロックしました。");
                        } else {
                            text.append(" のロックを解除しました。");
                        }
                        text
                    },
                    None => string_of("レイヤーのロック状態を変更しました。"),
                };
                proof {
                    lemma_well_formed_ids(d);
                    assert forall|k: int| 0 <= k < next@.layers.len() implies #[trigger] next@.layers[k].id
                        < u64::MAX by {
                        assert(next@.layers[k].id == d.layers[k].id);
                    }
                }
                self.apply_layer_document_change(next, message);
            },
            None => {},
        }
    }

    /// Moves layer `layer_id` one place up.
    pub fn move_layer_up(&mut self, layer_id: LayerId)
        requires
            editor_well_formed(old(self)@),
        ensures
            final(self)@ == optional_layer_change(
                old(self)@,
                moved_layer_up(old(self)@.history.current, layer_id),
                |n: DocumentView| "レイヤーを上へ移動しました。"@,
            ),
            editor_well_formed(final(self)@),
    {
        let ghost d = self@.history.current;
        match self.history.current().moved_layer_up_document(layer_id) {
            Some(next) => {
                proof {
                    lemma_well_formed_ids(d);
                    let i = layer_position(d.layers, layer_id)->Some_0;
                    assert forall|k: int| 0 <= k < next@.layers.len() implies #[trigger] next@.layers[k].id
                        < u64::MAX by {
                        if k == i {
                            assert(next@.layers[k] == d.layers[i + 1]);
                        } else if k == i + 1 {
                            assert(next@.layers[k] == d.layers[i]);
                        } else {
                            assert(next@.layers[k] == d.layers[k]);
                        }
                    }
                }
                self.apply_layer_document_change(next, string_of("レイヤーを上へ移動しました。"));
            },
            None => {},
        }
    }

    /// Moves layer `layer_id` one place down.
    pub fn move_layer_down(&mut self, layer_id: LayerId)
        requires
            editor_well_formed(old(self)@),
        ensures
            final(self)@ == optional_layer_change(
                old(self)@,
                moved_layer_down(old(self)@.history.current, layer_id),
                |n: DocumentView| "レイヤーを下へ移動しました。"@,
            ),
            editor_well_formed(final(self)@),
    {
        let ghost d = self@.history.current;
        match self.history.current().moved_layer_down_document(layer_id) {
            Some(next) => {
                proof {
                    lemma_well_formed_ids(d);
                    let i = layer_position(d.layers, layer_id)->Some_0;
                    assert forall|k: int| 0 <= k < next@.layers.len() implies #[trigger] next@.layers[k].id
                        < u64::MAX by {
                        if k == i - 1 {
                            assert(next@.layers[k] == d.layers[i]);
                        } else if k == i {
                            assert(next@.layers[k] == d.layers[i - 1]);
                        } else {
                            assert(next@.layers[k] == d.layers[k]);
                        }
                    }
                }
                self.apply_layer_document_change(next, string_of("レイヤーを下へ移動しました。"));
            },
            None => {},
        }
    }
    fn toggle_aid(&mut self, next: PaintDocument, on: bool, on_text: &str, off_text: &str)
        requires
            editor_well_formed(old(self)@),
            next@.layers == old(self)@.history.current.layers,
            next@.canvas_size == old(self)@.history.current.canvas_size,
            next@.guides.lines == old(self)@.history.current.guides.lines,
        ensures
            final(self)@ == aid_toggled(old(self)@, next@, on, on_text@, off_text@),
            editor_well_formed(final(self)@),
    {
        proof {
            lemma_well_formed_ids(self@.history.current);
        }
        let message = if on {
            string_of(on_text)
        } else {
            string_of(off_text)
        };
        self.apply_document_configuration_change(next, message);
    }

    pub fn toggle_rulers_visibility(&mut self)
        requires
            editor_well_formed(old(self)@),
        ensures
            document_changes(old(self)@, rulers_toggled(old(self)@.history.current)),
            final(self)@ == aid_toggled(
                old(self)@,
                rulers_toggled(old(self)@.history.current),
                !old(self)@.history.current.rulers.visible,
                "ルーラーを表示しました。"@,
                "ルーラーを非表示にしました。"@,
            ),
            editor_well_formed(final(self)@),
    {
        proof {
            lemma_aid_toggles_change(self@);
        }
        match self.history.current().toggled_rulers_visibility_document() {
            Some(next) => {
                let on = next.rulers().visible;
                self.toggle_aid(next, on, "ルーラーを表示しました。", "ルーラーを非表示にしました。");
            },
            None => {},
        }
    }

    pub fn toggle_grid_visibility(&mut self)
        requires
            editor_well_formed(old(self)@),
        ensures
            document_changes(old(self)@, grid_toggled(old(self)@.history.current)),
            final(self)@ == aid_toggled(
                old(self)@,
                grid_toggled(old(self)@.history.current),
                !old(self)@.history.current.grid.visible,
                "グリッドを表示しました。"@,
                "グリッドを非表示にしました。"@,
            ),
            editor_well_formed(final(self)@),
    {
        proof {
            lemma_aid_toggles_change(self@);
        }
        match self.history.current().toggled_grid_visibility_document() {
            Some(next) => {
                let on = next.grid().visible;
                self.toggle_aid(next, on, "グリッドを表示しました。", "グリッドを非表示にしました。");
            },
            None => {},
        }
    }

    pub fn toggle_grid_snap(&mut self)
        requires
            editor_well_formed(old(self)@),
        ensures
            document_changes(old(self)@, grid_snap_toggled(old(self)@.history.current)),
            final(self)@ == aid_toggled(
                old(self)@,
                grid_snap_toggled(old(self)@.history.current),
                !old(self)@.history.current.grid.snap_enabled,
                "グリッド吸着をオンにしました。"@,
                "グリッド吸着をオフにしました。"@,
            ),
            editor_well_formed(final(self)@),
    {
        proof {
            lemma_aid_toggles_change(self@);
        }
        match self.history.current().toggled_grid_snap_document() {
            Some(next) => {
                let on = next.grid().snap_enabled;
                self.toggle_aid(next, on, "グリッド吸着をオンにしました。", "グリッド吸着をオフにしました。");
            },
            None => {},
        }
    }

    pub fn toggle_smart_guides_visibility(&mut self)
        requires
            editor_well_formed(old(self)@),
        ensures
            document_changes(old(self)@, smart_guides_toggled(old(self)@.history.current)),
            final(self)@ == aid_toggled(
                old(self)@,
                smart_guides_toggled(old(self)@.history.current),
                !old(self)@.history.current.smart_guides.visible,
                "スマートガイドをオンにしました。"@,
                "スマートガイドをオフにしました。"@,
            ),
            editor_well_formed(final(self)@),
    {
        proof {
            lemma_aid_toggles_change(self@);
        }
        match self.history.current().toggled_smart_guides_visibility_document() {
            Some(next) => {
                let on = next.smart_guides().visible;
                self.toggle_aid(next, on, "スマートガイドをオンにしました。", "スマートガイドをオフにしました。");
            },
            None => {},
        }
    }

    pub fn toggle_guides_visibility(&mut self)
        requires
            editor_well_formed(old(self)@),
        ensures
            document_changes(old(self)@, guides_toggled(old(self)@.history.current)),
            final(self)@ == aid_toggled(
                old(self)@,
                guides_toggled(old(self)@.history.current),
                !old(self)@.history.current.guides.visible,
                "ガイドを表示しました。"@,
                "ガイドを非表示にしました。"@,
            ),
            editor_well_formed(final(self)@),
    {
        proof {
            lemma_aid_toggles_change(self@);
        }
        match self.history.current().toggled_guides_visibility_document() {
            Some(next) => {
                let on = next.guides().visible;
                self.toggle_aid(next, on, "ガイドを表示しました。", "ガイドを非表示にしました。");
            },
            None => {},
        }
    }

    pub fn toggle_guides_snap(&mut self)
        requires
            editor_well_formed(old(self)@),
        ensures
            document_changes(old(self)@, guides_snap_toggled(old(self)@.history.current)),
            final(self)@ == aid_toggled(
                old(self)@,
                guides_snap_toggled(old(self)@.history.current),
                !old(self)@.history.current.guides.snap_enabled,
                "ガイド吸着をオンにしました。"@,
                "ガイド吸着をオフにしました。"@,
            ),
            editor_well_formed(final(self)@),
    {
        proof {
            lemma_aid_toggles_change(self@);
        }
        match self.history.current().toggled_guides_snap_document() {
            Some(next) => {
                let on = next.guides().snap_enabled;
                self.toggle_aid(next, on, "ガイド吸着をオンにしました。", "ガイド吸着をオフにしました。");
            },
            None => {},
        }
    }

    /// Moves the selected elements to the end of layer `layer_id`, which becomes
    /// active with them selected.
    pub fn move_selection_to_layer(&mut self, layer_id: LayerId)
        requires
            editor_well_formed(old(self)@),
        ensures
            transfer_goes_ahead(old(self)@, layer_id, false) ==> sorted_distinct_of(
                final(self)@.selection,
                transferred_selection(old(self)@.history.current, old(self)@.selection, layer_id),
            ),
            final(self)@ == selection_transferred(old(self)@, layer_id, false, final(self)@.selection),
            transfer_allowed(old(self)@.history.current, old(self)@.selection, layer_id)
                ==> document_changes(
                old(self)@,
                transferred(old(self)@.history.current, old(self)@.selection, layer_id, false),
            ),
            editor_well_formed(final(self)@),
    {
        self.transfer_selection_to_layer(layer_id, false)
    }

    /// Copies the selected elements to the end of layer `layer_id`, which becomes
    /// active with the copies selected.
    pub fn duplicate_selection_to_layer(&mut self, layer_id: LayerId)
        requires
            editor_well_formed(old(self)@),
        ensures
            transfer_goes_ahead(old(self)@, layer_id, true) ==> sorted_distinct_of(
                final(self)@.selection,
                transferred_selection(old(self)@.history.current, old(self)@.selection, layer_id),
            ),
            final(self)@ == selection_transferred(old(self)@, layer_id, true, final(self)@.selection),
            transfer_allowed(old(self)@.history.current, old(self)@.selection, layer_id)
                ==> document_changes(
                old(self)@,
                transferred(old(self)@.history.current, old(self)@.selection, layer_id, true),
            ),
            editor_well_formed(final(self)@),
    {
        self.transfer_selection_to_layer(layer_id, true)
    }

    #[verifier::spinoff_prover]
    #[verifier::rlimit(40)]
    fn transfer_selection_to_layer(&mut self, layer_id: LayerId, duplicate: bool)
        requires
            editor_well_formed(old(self)@),
        ensures
            transfer_goes_ahead(old(self)@, layer_id, duplicate) ==> sorted_distinct_of(
                final(self)@.selection,
                transferred_selection(old(self)@.history.current, old(self)@.selection, layer_id),
            ),
            final(self)@ == selection_transferred(
                old(self)@,
                layer_id,
                duplicate,
                final(self)@.selection,
            ),
            transfer_allowed(old(self)@.history.current, old(self)@.selection, layer_id)
                ==> document_changes(
                old(self)@,
                transferred(old(self)@.history.current, old(self)@.selection, layer_id, duplicate),
            ),
            editor_well_formed(final(self)@),
    {
        proof {
            if transfer_allowed(self@.history.current, self@.selection, layer_id) {
                lemma_transfer_changes(self@, layer_id, duplicate);
            }
        }
        let ghost d = self@.history.current;
        if self.selection_layer_id != Some(self.history.current().active_layer_id()) {
            return;
        }
        if self.selection.len() == 0 {
            return;
        }
        let (editable, mut message) = match self.history.current().layer(layer_id) {
            Some(destination) => (destination.is_editable(), destination.name.clone()),
            None => return,
        };
        if !editable {
            if duplicate {
                message.append(" は表示中かつロック解除されていないと、要素を複製できません。");
            } else {
                message.append(" は表示中かつロック解除されていないと、要素を移動できません。");
            }
            self.set_error(message);
            return;
        }
        let outcome = if duplicate {
            self.history.current().duplicated_selection_to_layer_document(
                self.selection.indices(),
                layer_id,
            )
        } else {
            self.history.current().moved_selection_to_layer_document(
                self.selection.indices(),
                layer_id,
            )
        };
        match outcome {
            Some((next, next_selection)) => {
                let count = next_selection.len();
                let mut text = if count == 1 {
                    string_of("選択中の要素を ")
                } else {
                    let mut t = string_of("選択中の ");
                    push_decimal(&mut t, count as u64);
                    t.append(" 個の要素を ");
                    t
                };
                match next.layer(layer_id) {
                    Some(layer) => text.append(layer.name.as_str()),
                    None => if duplicate {
                        text.append("複製先レイヤー")
                    } else {
                        text.append("移動先レイヤー")
                    },
                }
                if duplicate {
                    text.append(" へ複製しました。");
                } else {
                    text.append(" へ移動しました。");
                }
                proof {
                    lemma_transfer_ids(d, self@.selection, layer_id, duplicate);
                }
                self.apply_layer_selection_document_change(next, layer_id, next_selection, text);
            },
            None => {},
        }
    }

    /// Undo; an edit in progress on the canvas is dropped instead when there was one.
    pub fn perform_undo(&mut self, interaction_discarded: bool)
        requires
            editor_well_formed(old(self)@),
        ensures
            final(self)@ == undo_performed(old(self)@, interaction_discarded),
            editor_well_formed(final(self)@),
    {
        if interaction_discarded {
            self.set_info(string_of("進行中の操作を取り消しました。"));
        } else if self.history.undo() {
            self.selection.clear();
            self.selection_layer_id = None;
            self.sync_layer_name_draft();
            self.set_info(string_of("ひとつ前に戻しました。"));
        }
    }

    pub fn perform_redo(&mut self)
        requires
            editor_well_formed(old(self)@),
        ensures
            final(self)@ == redo_performed(old(self)@),
            editor_well_formed(final(self)@),
    {
        if self.history.redo() {
            self.selection.clear();
            self.selection_layer_id = None;
            self.sync_layer_name_draft();
            self.set_info(string_of("やり直しました。"));
        }
    }

    /// Empties every layer as one undoable step.
    pub fn perform_clear(&mut self, interaction_discarded: bool)
        requires
            editor_well_formed(old(self)@),
        ensures
            final(self)@ == clear_performed(old(self)@, interaction_discarded),
            editor_well_formed(final(self)@),
    {
        if self.history.clear() {
            self.selection.clear();
            self.selection_layer_id = None;
            self.sync_layer_name_draft();
            self.set_info(string_of("キャンバスをクリアしました。"));
        } else if interaction_discarded {
            self.set_info(string_of("進行中の操作を取り消しました。"));
        }
    }

    /// The Escape key: when it discarded an edit in progress on the canvas, the status
    /// line says so; otherwise nothing changes.
    pub fn report_escape(&mut self, interaction_discarded: bool)
        ensures
            final(self)@ == (if interaction_discarded {
                with_info(old(self)@, "進行中の操作をキャンセルしました。"@)
            } else {
                old(self)@
            }),
    {
        if interaction_discarded {
            self.set_info(string_of("進行中の操作をキャンセルしました。"));
        }
    }

    /// Adds a finished stroke, shape or fill to the active layer as one undoable step.
    pub fn commit_element(&mut self, element: PaintElement)
        requires
            editor_well_formed(old(self)@),
        ensures
            final(self)@ == with_info(
                EditorView {
                    history: edited(
                        old(self)@.history,
                        with_pushed_element(old(self)@.history.current, element.view()),
                    ),
                    selection: Seq::empty(),
                    selection_layer: None,
                    ..old(self)@
                },
                kind_label_of(element.view()) + "を追加しました。"@,
            ),
            editor_well_formed(final(self)@),
    {
        let mut message = string_of(element.kind_label());
        message.append("を追加しました。");
        if self.history.commit_element(element) {
            self.selection.clear();
            self.selection_layer_id = None;
            self.set_info(message);
        }
    }

    /// Records an edit of the selection made on the canvas: when the drawing changes,
    /// one undoable step that selects the positions the edit reports.
    #[verifier::spinoff_prover]
    #[verifier::rlimit(40)]
    pub fn apply_document_edit(&mut self, edit: CommittedDocumentEdit)
        requires
            editor_well_formed(old(self)@),
            ids_below_max(edit.document@.layers),
            layout_repairable(edit.document@),
        ensures
            document_changes(old(self)@, edit.document@) ==> sorted_distinct_of(
                final(self)@.selection,
                edit.selection_indices@,
            ) && final(self)@ == with_info(
                draft_synced(
                    EditorView {
                        selection: final(self)@.selection,
                        selection_layer: Some(edit.document@.active_layer_id),
                        ..with_document(old(self)@, edit.document@)
                    },
                ),
                edit_text(edit.mode, final(self)@.selection.len() > 1),
            ),
            !document_changes(old(self)@, edit.document@) ==> final(self)@ == old(self)@,
            editor_well_formed(final(self)@),
    {
        let CommittedDocumentEdit { document, selection_indices, mode } = edit;
        let selection_layer_id = document.active_layer_id();
        if self.history.replace_document(document) {
            self.selection.set_indices(selection_indices);
            self.selection_layer_id = Some(selection_layer_id);
            let several = self.selection.len() > 1;
            self.set_info(string_of(edit_message(mode, several)));
            self.sync_layer_name_draft();
        }
    }

    /// The current drawing differs from the one last saved or opened.
    pub fn is_dirty(&self) -> (r: bool)
        ensures
            r == !document_eq(self@.saved_snapshot, self@.history.current),
    {
        !self.saved_snapshot.same_content(self.history.current())
    }

    pub fn document_name(&self) -> (r: &str)
        ensures
            r@ == self@.document_name,
    {
        self.document_name.as_str()
    }

    /// After saving: the file's name is kept and the current drawing counts as saved.
    pub fn finish_save(&mut self, saved: SavedDocument)
        ensures
            final(self)@ == with_info(
                EditorView {
                    document_name: saved.file_name@,
                    saved_snapshot: old(self)@.history.current,
                    ..old(self)@
                },
                "再編集用の JSON を "@ + saved.file_name@ + " として保存しました。"@,
            ),
    {
        let mut message = string_of("再編集用の JSON を ");
        message.append(saved.file_name.as_str());
        message.append(" として保存しました。");
        self.document_name = saved.file_name;
        self.saved_snapshot = self.history.current().deep_copy();
        self.set_info(message);
    }

    /// After exporting a PNG: the status line names the file and whether the background
    /// was kept.
    pub fn finish_export(&mut self, exported: ExportedImage, background: RasterBackground)
        ensures
            final(self)@ == with_info(
                old(self)@,
                (if background is Opaque {
                    "PNG を "@
                } else {
                    "透過PNG を "@
                }) + exported.file_name@ + " として書き出しました。"@,
            ),
    {
        let mut message = match background {
            RasterBackground::Opaque => string_of("PNG を "),
            RasterBackground::Transparent => string_of("透過PNG を "),
        };
        message.append(exported.file_name.as_str());
        message.append(" として書き出しました。");
        self.set_info(message);
    }

    /// After exporting an SVG: the status line names the file and what the vector form
    /// keeps.
    pub fn finish_svg_export(&mut self, exported: ExportedImage)
        ensures
            final(self)@ == with_info(
                old(self)@,
                "SVG を "@ + exported.file_name@
                    + " として書き出しました。図形や線は再利用向けに出力し、ブラシ質感は簡略化、バケツ塗りは行ごとの矩形へ整えて出力します。"@,
            ),
    {
        let mut message = string_of("SVG を ");
        message.append(exported.file_name.as_str());
        message.append(" として書き出しました。図形や線は再利用向けに出力し、ブラシ質感は簡略化、バケツ塗りは行ごとの矩形へ整えて出力します。");
        self.set_info(message);
    }

    /// After opening a file: its drawing becomes current as one undoable step (when it
    /// differs), with nothing selected, and counts as saved.
    pub fn finish_load(&mut self, loaded: LoadedDocument)
        requires
            editor_well_formed(old(self)@),
            ids_below_max(loaded.document@.layers),
            layout_repairable(loaded.document@),
        ensures
            final(self)@ == with_info(
                draft_synced(
                    EditorView {
                        history: if document_changes(old(self)@, loaded.document@) {
                            edited(old(self)@.history, repaired(loaded.document@))
                        } else {
                            old(self)@.history
                        },
                        selection: Seq::empty(),
                        selection_layer: None,
                        document_name: loaded.file_name@,
                        saved_snapshot: loaded.document@,
                        ..old(self)@
                    },
                ),
                loaded.file_name@ + " を開きました。"@,
            ),
            editor_well_formed(final(self)@),
    {
        let LoadedDocument { file_name, document } = loaded;
        self.selection.clear();
        self.selection_layer_id = None;
        let copy = document.deep_copy();
        self.history.replace_document(copy);
        let mut message = file_name.clone();
        message.append(" を開きました。");
        self.document_name = file_name;
        self.saved_snapshot = document;
        self.sync_layer_name_draft();
        self.set_info(message);
    }

    /// Reports a failed file action: a cancelled dialog as information, anything else
    /// as an error; success changes nothing.
    pub fn report_storage_result(&mut self, action: &str, result: Result<(), StorageError>)
        ensures
            final(self)@ == (match result {
                Ok(()) => old(self)@,
                Err(StorageError::Cancelled) => with_info(
                    old(self)@,
                    storage_error_text(action@, StorageError::Cancelled),
                ),
                Err(error) => EditorView {
                    status_kind: StatusKind::Error,
                    status_text: storage_error_text(action@, error),
                    ..old(self)@
                },
            }),
    {
        match result {
            Ok(()) => {},
            Err(error) => {
                let message = storage_error_message(action, &error);
                match error {
                    StorageError::Cancelled => self.set_info(message),
                    _ => self.set_error(message),
                }
            },
        }
    }
    /// Removes guide `index`, naming its axis and position (whole pixels) in the status
    /// line; nothing happens without such a guide.
    pub fn remove_guide(&mut self, index: usize)
        requires
            editor_well_formed(old(self)@),
        ensures
            final(self)@ == (if index < old(self)@.history.current.guides.lines.len() {
                configuration_change_applied(
                    old(self)@,
                    guide_removed(old(self)@.history.current, index as int),
                    old(self)@.history.current.guides.lines[index as int].axis.spec_label()
                        + "ガイド（"@ + units_text(
                        old(self)@.history.current.guides.lines[index as int].position.bits,
                    ) + "px）を削除しました。"@,
                )
            } else {
                old(self)@
            }),
            editor_well_formed(final(self)@),
    {
        let guide = if index < self.history.current().guides().lines.len() {
            self.history.current().guides().lines[index]
        } else {
            return;
        };
        match self.history.current().remove_guide_document(index) {
            Some(next) => {
                let mut message = string_of(guide.axis.label());
                message.append("ガイド（");
                let position = format_units(guide.position);
                message.append(position.as_str());
                message.append("px）を削除しました。");
                proof {
                    lemma_well_formed_ids(self@.history.current);
                    lemma_guide_removal_repairable(self@.history.current, index as int);
                }
                self.apply_document_configuration_change(next, message);
            },
            None => {},
        }
    }
    /// Moves the selected elements to the top or bottom of the active layer, or one step
    /// up or down, keeping their relative order; nothing happens while the canvas is in
    /// the middle of an edit or when nothing would move.
    pub fn apply_stack_order(&mut self, command: StackOrderCommand, has_canvas_interaction: bool)
        requires
            editor_well_formed(old(self)@),
        ensures
            ({
                let r = stack_reorder(old(self)@.history.current, old(self)@.selection, command);
                if has_canvas_interaction || old(self)@.selection.len() == 0 || r is None {
                    final(self)@ == old(self)@
                } else {
                    &&& sorted_distinct_of(final(self)@.selection, r->Some_0.1)
                    &&& if document_changes(old(self)@, r->Some_0.0) {
                        final(self)@ == with_info(
                            draft_synced(
                                EditorView {
                                    selection: final(self)@.selection,
                                    selection_layer: Some(r->Some_0.0.active_layer_id),
                                    ..with_document(old(self)@, r->Some_0.0)
                                },
                            ),
                            edit_text(
                                DocumentEditMode::Reorder(command),
                                final(self)@.selection.len() > 1,
                            ),
                        )
                    } else {
                        final(self)@ == (EditorView {
                            selection: final(self)@.selection,
                            ..old(self)@
                        })
                    }
                }
            }),
            editor_well_formed(final(self)@),
    {
        if has_canvas_interaction || self.selection.len() == 0 {
            return;
        }
        let ghost d = self@.history.current;
        let outcome = self.history.current().reordered_document(self.selection.indices(), command);
        match outcome {
            Some((next, positions)) => {
                self.selection.set_indices(copy_positions(&positions));
                proof {
                    lemma_well_formed_ids(d);
                    assert forall|k: int| 0 <= k < next@.layers.len() implies #[trigger] next@.layers[k].id
                        < u64::MAX by {
                        assert(next@.layers[k].id == d.layers[k].id);
                    }
                }
                self.apply_document_edit(
                    CommittedDocumentEdit {
                        document: next,
                        selection_indices: positions,
                        mode: DocumentEditMode::Reorder(command),
                    },
                );
            },
            None => {},
        }
    }

    /// Records the selected elements lined up on the canvas: `aligned` is the drawing
    /// with them moved into line (none when they could not be). Nothing happens while the
    /// canvas is in the middle of an edit or with fewer than two elements selected; the
    /// selection stays as it is.
    pub fn apply_alignment(
        &mut self,
        alignment: AlignmentKind,
        aligned: Option<PaintDocument>,
        has_canvas_interaction: bool,
    )
        requires
            editor_well_formed(old(self)@),
            aligned matches Some(d) ==> ids_below_max(d@.layers) && layout_repairable(d@),
        ensures
            ({
                if has_canvas_interaction || old(self)@.selection.len() < 2 || aligned is None {
                    final(self)@ == old(self)@
                } else if document_changes(old(self)@, aligned->Some_0@) {
                    final(self)@ == with_info(
                        draft_synced(
                            EditorView {
                                selection_layer: Some(aligned->Some_0@.active_layer_id),
                                ..with_document(old(self)@, aligned->Some_0@)
                            },
                        ),
                        edit_text(DocumentEditMode::Align(alignment), true),
                    )
                } else {
                    final(self)@ == old(self)@
                }
            }),
            editor_well_formed(final(self)@),
    {
        if has_canvas_interaction || self.selection.len() < 2 {
            return;
        }
        let next = match aligned {
            Some(next) => next,
            None => return,
        };
        let current = self.selection.indices();
        let ghost old_selection = current@;
        let mut positions: Vec<usize> = Vec::new();
        let mut i: usize = 0;
        while i < current.len()
            invariant
                i <= current@.len(),
                positions@ == current@.take(i as int),
            decreases current@.len() - i,
        {
            positions.push(current[i]);
            i += 1;
            proof {
                assert(positions@ =~= current@.take(i as int));
            }
        }
        proof {
            assert(positions@ =~= old_selection);
        }
        self.apply_document_edit(
            CommittedDocumentEdit {
                document: next,
                selection_indices: positions,
                mode: DocumentEditMode::Align(alignment),
            },
        );
        proof {
            if document_changes(old(self)@, next@) {
                lemma_sorted_distinct_unique(self@.selection, old_selection);
            }
        }
    }
    /// Whether a pressed shortcut acts now; see `shortcut_acts`.
    pub fn shortcut_enabled(
        &self,
        command: ShortcutCommand,
        has_canvas_interaction: bool,
        has_pending_storage_task: bool,
        selection_has_group: bool,
    ) -> (r: bool)
        ensures
            r == shortcut_acts(
                self@,
                command,
                has_canvas_interaction,
                has_pending_storage_task,
                selection_has_group,
            ),
    {
        match command {
            ShortcutCommand::Undo => has_canvas_interaction || self.history.can_undo(),
            ShortcutCommand::Redo => !has_canvas_interaction && self.history.can_redo(),
            ShortcutCommand::Save | ShortcutCommand::Load | ShortcutCommand::ExportPng => {
                !has_canvas_interaction && !has_pending_storage_task
            },
            ShortcutCommand::Group => !has_canvas_interaction && self.selection.len() >= 2,
            ShortcutCommand::Ungroup => !has_canvas_interaction && selection_has_group,
            _ => !has_canvas_interaction,
        }
    }

    /// A single-key tool shortcut: the select key goes the way of the select button, the
    /// others switch tools with an announcement; other keys do nothing.
    pub fn handle_tool_shortcut(&mut self, key: char)
        ensures
            final(self)@ == (match shortcut_tool(key) {
                Some(tool) => tool_button_pressed(old(self)@, tool),
                None => old(self)@,
            }),
    {
        let tool = if key == 'v' {
            CanvasToolKind::Select
        } else if key == 'b' {
            CanvasToolKind::Brush
        } else if key == 'r' {
            CanvasToolKind::Rectangle
        } else if key == 'o' {
            CanvasToolKind::Ellipse
        } else if key == 'l' {
            CanvasToolKind::Line
        } else if key == 'e' {
            CanvasToolKind::Eraser
        } else {
            return;
        };
        if tool == CanvasToolKind::Select {
            self.apply_tool_button_selection(tool);
        } else {
            self.set_active_tool(tool, true);
        }
    }
}

impl Default for PaintApp {
    /// A new editor with default settings and the tutorial closed.
    fn default() -> (app: Self)
        ensures
            app@ == started_editor(false, Seq::empty(), false),
            editor_well_formed(app@),
    {
        let mut app = PaintApp::with_ui_state(UiStatePersistence::default());
        app.tutorial_visible = false;
        app.set_info(
            string_of("まずは左のペンか図形ツールで 1 つ描いてみましょう。困ったらヘルプを開けます。"),
        );
        app
    }
}

} // verus!
