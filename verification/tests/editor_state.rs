use rust_paint_foundation::document::PaintDocument;
use rust_paint_foundation::editor::{
    CommittedDocumentEdit, PaintApp, ShortcutCommand, UiStatePersistence,
};
use rust_paint_foundation::element::{FillElement, FillSpan, PaintElement, ShapeElement, Stroke};
use rust_paint_foundation::model::{
    AlignmentKind, GuideAxis, GuideLine, PaintPoint, RgbaColor, Scalar, ShapeKind,
    StackOrderCommand, ToolKind,
};
use rust_paint_foundation::selection::{CanvasToolKind, DocumentEditMode};
use rust_paint_foundation::storage::{LoadedDocument, SavedDocument, StorageError};
use rust_paint_foundation::style::ShapeStyleTarget;
use rust_paint_foundation::tools::{ToolColorSettings, ToolWidthSettings, RECENT_COLOR_LIMIT};
use rust_paint_foundation::ui::{ColorTarget, StatusKind};

fn s(v: f32) -> Scalar {
    Scalar::from_bits(v.to_bits())
}

fn p(x: f32, y: f32) -> PaintPoint {
    PaintPoint::new(s(x), s(y))
}

fn widths(draw: f32, eraser: f32) -> ToolWidthSettings {
    ToolWidthSettings { draw_width: s(draw), eraser_width: s(eraser) }
}

fn with_quick_target(app: &mut PaintApp, target: ColorTarget) {
    let colors = ToolColorSettings { quick_color_target: target, ..app.tool_colors() };
    app.set_tool_colors(colors);
}

fn select_all_of_active_layer(app: &mut PaintApp, indices: Vec<usize>) {
    let layer_id = app.document().active_layer_id();
    app.set_selection_indices(layer_id, indices);
    app.set_active_tool(CanvasToolKind::Select, false);
}

fn stroke(tool: ToolKind, color: RgbaColor, width: f32, points: &[(f32, f32)]) -> Stroke {
    let mut stroke = Stroke::new(tool, color, s(width));
    for (x, y) in points {
        stroke.push_point(p(*x, *y));
    }
    stroke
}

#[test]
fn multi_select_mode_switches_to_select_tool() {
    let mut app = PaintApp::default();
    app.set_active_tool(CanvasToolKind::Brush, false);

    app.set_multi_select_mode(true);

    assert!(app.multi_select_mode());
    assert_eq!(app.active_tool(), CanvasToolKind::Select);
}

#[test]
fn switching_to_non_select_tool_turns_off_multi_select_mode() {
    let mut app = PaintApp::default();
    app.set_multi_select_mode(true);

    app.set_active_tool(CanvasToolKind::Brush, false);

    assert!(!app.multi_select_mode());
    assert_eq!(app.active_tool(), CanvasToolKind::Brush);
}

#[test]
fn select_button_path_exits_multi_select_mode() {
    let mut app = PaintApp::default();
    app.set_multi_select_mode(true);

    app.apply_tool_button_selection(CanvasToolKind::Select);

    assert!(!app.multi_select_mode());
    assert_eq!(app.active_tool(), CanvasToolKind::Select);
}

#[test]
fn eraser_uses_its_own_width_setting() {
    let mut app = PaintApp::default();
    app.set_tool_widths(widths(5.0, 19.0));
    app.set_active_tool(CanvasToolKind::Eraser, false);

    assert_eq!(app.tool_settings().width, s(19.0));
}

#[test]
fn shape_tools_reuse_draw_width_setting() {
    let mut app = PaintApp::default();
    app.set_tool_widths(widths(9.0, 23.0));
    app.set_active_tool(CanvasToolKind::Rectangle, false);

    assert_eq!(app.tool_settings().width, s(9.0));
}

#[test]
fn recent_colors_dedupe_and_truncate() {
    let mut app = PaintApp::default();
    let color_a = RgbaColor::from_rgba(10, 20, 30, 255);
    let color_b = RgbaColor::from_rgba(40, 50, 60, 255);

    app.push_recent_color(color_a);
    app.push_recent_color(color_b);
    app.push_recent_color(color_a);

    assert_eq!(app.recent_colors()[0], color_a);
    assert_eq!(app.recent_colors()[1], color_b);

    for index in 0..(RECENT_COLOR_LIMIT + 3) {
        app.push_recent_color(RgbaColor::from_rgba(index as u8, 0, 0, 255));
    }

    assert_eq!(app.recent_colors().len(), RECENT_COLOR_LIMIT);
}

#[test]
fn quick_color_target_fill_enables_fill() {
    let mut app = PaintApp::default();
    let colors = ToolColorSettings {
        fill_enabled: false,
        quick_color_target: ColorTarget::Fill,
        ..app.tool_colors()
    };
    app.set_tool_colors(colors);

    app.apply_quick_color(RgbaColor::from_rgba(120, 90, 60, 180), "最近使った色");

    assert!(app.tool_colors().fill_enabled);
    assert_eq!(app.tool_colors().fill_color, RgbaColor::from_rgba(120, 90, 60, 180));
}

#[test]
fn single_selected_shape_context_prefers_selected_shape_style() {
    let mut app = PaintApp::default();
    let mut document = PaintDocument::default();
    document.push_shape(
        ShapeElement::new(
            ShapeKind::Rectangle,
            RgbaColor::from_rgba(20, 40, 60, 255),
            s(9.0),
            p(10.0, 10.0),
            p(80.0, 60.0),
        )
        .with_fill_color(Some(RgbaColor::from_rgba(200, 180, 90, 140))),
    );
    assert!(app.replace_document(document));
    select_all_of_active_layer(&mut app, vec![0]);

    let context = app.current_shape_style_context().expect("selected rectangle context");

    assert!(context.is_selected_shape());
    assert_eq!(context.kind, ShapeKind::Rectangle);
    assert_eq!(context.paint_mode_label(), "線と塗り");
    assert_eq!(context.stroke_summary_label(), "線 100% / 9.0px");
    assert_eq!(context.fill_summary_label(), "塗り 55%");
    assert_eq!(context.stroke_color, RgbaColor::from_rgba(20, 40, 60, 255));
    assert_eq!(context.fill_color, Some(RgbaColor::from_rgba(200, 180, 90, 140)));
    assert_eq!(context.width, s(9.0));
}

#[test]
fn selected_line_shape_context_stays_stroke_only() {
    let mut app = PaintApp::default();
    let mut document = PaintDocument::default();
    document.push_shape(ShapeElement::new(
        ShapeKind::Line,
        RgbaColor::from_rgba(20, 40, 60, 220),
        s(6.0),
        p(10.0, 10.0),
        p(80.0, 60.0),
    ));
    assert!(app.replace_document(document));
    select_all_of_active_layer(&mut app, vec![0]);

    let context = app.current_shape_style_context().expect("selected line context");

    assert!(context.is_selected_shape());
    assert_eq!(context.kind, ShapeKind::Line);
    assert!(!context.supports_fill());
    assert_eq!(context.paint_mode_label(), "線だけ");
    assert_eq!(context.fill_summary_label(), "塗りなし");
    assert_eq!(context.fill_color, None);
}

#[test]
fn quick_color_updates_selected_shape_stroke_when_selecting_shape() {
    let mut app = PaintApp::default();
    let mut document = PaintDocument::default();
    document.push_shape(ShapeElement::new(
        ShapeKind::Rectangle,
        RgbaColor::from_rgba(20, 40, 60, 255),
        s(9.0),
        p(10.0, 10.0),
        p(80.0, 60.0),
    ));
    assert!(app.replace_document(document));
    select_all_of_active_layer(&mut app, vec![0]);
    with_quick_target(&mut app, ColorTarget::Stroke);

    app.apply_quick_color(RgbaColor::from_rgba(180, 30, 120, 200), "最近使った色");

    let Some(PaintElement::Shape(shape)) = app.document().element(0) else {
        panic!("selected element should stay a shape");
    };
    assert_eq!(shape.color, RgbaColor::from_rgba(180, 30, 120, 200));
}

#[test]
fn multi_selected_shape_context_tracks_shape_count_and_fill_support() {
    let mut app = PaintApp::default();
    let mut document = PaintDocument::default();
    document.push_shape(ShapeElement::new(
        ShapeKind::Rectangle,
        RgbaColor::from_rgba(20, 40, 60, 255),
        s(9.0),
        p(10.0, 10.0),
        p(80.0, 60.0),
    ));
    document.push_shape(
        ShapeElement::new(
            ShapeKind::Line,
            RgbaColor::from_rgba(120, 50, 40, 255),
            s(6.0),
            p(100.0, 20.0),
            p(180.0, 80.0),
        )
        .with_fill_color(Some(RgbaColor::from_rgba(250, 180, 90, 180))),
    );
    assert!(app.replace_document(document));
    select_all_of_active_layer(&mut app, vec![0, 1]);

    let context = app.current_shape_style_context().expect("multi selected shape context");

    assert!(context.is_selected_shapes());
    assert_eq!(context.shape_count, 2);
    assert_eq!(context.total_selection_count, 2);
    assert_eq!(context.fill_supported_count, 1);
    assert_eq!(context.paint_mode_label(), "線だけ");
    assert_eq!(context.fill_summary_label(), "塗りなし");
    assert_eq!(
        context.fill_scope_note(),
        Some("直線には塗りを適用せず、四角形 / 楕円だけに反映します。")
    );
}

#[test]
fn quick_color_updates_multiple_selected_shape_strokes() {
    let mut app = PaintApp::default();
    let mut document = PaintDocument::default();
    document.push_shape(ShapeElement::new(
        ShapeKind::Rectangle,
        RgbaColor::from_rgba(20, 40, 60, 255),
        s(9.0),
        p(10.0, 10.0),
        p(80.0, 60.0),
    ));
    document.push_shape(ShapeElement::new(
        ShapeKind::Ellipse,
        RgbaColor::from_rgba(70, 90, 110, 255),
        s(7.0),
        p(90.0, 20.0),
        p(160.0, 90.0),
    ));
    assert!(app.replace_document(document));
    select_all_of_active_layer(&mut app, vec![0, 1]);
    with_quick_target(&mut app, ColorTarget::Stroke);

    app.apply_quick_color(RgbaColor::from_rgba(180, 30, 120, 200), "最近使った色");

    let Some(PaintElement::Shape(first)) = app.document().element(0) else {
        panic!("first selected element should stay a shape");
    };
    let Some(PaintElement::Shape(second)) = app.document().element(1) else {
        panic!("second selected element should stay a shape");
    };
    assert_eq!(first.color, RgbaColor::from_rgba(180, 30, 120, 200));
    assert_eq!(second.color, RgbaColor::from_rgba(180, 30, 120, 200));
}

#[test]
fn fill_color_updates_skip_selected_lines() {
    let mut app = PaintApp::default();
    let mut document = PaintDocument::default();
    document.push_shape(
        ShapeElement::new(
            ShapeKind::Rectangle,
            RgbaColor::from_rgba(20, 40, 60, 255),
            s(9.0),
            p(10.0, 10.0),
            p(80.0, 60.0),
        )
        .with_fill_color(Some(RgbaColor::from_rgba(200, 180, 90, 140))),
    );
    document.push_shape(ShapeElement::new(
        ShapeKind::Line,
        RgbaColor::from_rgba(120, 50, 40, 255),
        s(6.0),
        p(100.0, 20.0),
        p(180.0, 80.0),
    ));
    assert!(app.replace_document(document));
    select_all_of_active_layer(&mut app, vec![0, 1]);
    with_quick_target(&mut app, ColorTarget::Fill);

    app.apply_quick_color(RgbaColor::from_rgba(180, 30, 120, 200), "最近使った色");

    let Some(PaintElement::Shape(rectangle)) = app.document().element(0) else {
        panic!("rectangle should stay a shape");
    };
    let Some(PaintElement::Shape(line)) = app.document().element(1) else {
        panic!("line should stay a shape");
    };
    assert_eq!(
        rectangle.effective_fill_color(),
        Some(RgbaColor::from_rgba(180, 30, 120, 200))
    );
    assert_eq!(line.effective_fill_color(), None);
}

#[test]
fn selection_paint_context_detects_stroke_only_selection() {
    let mut app = PaintApp::default();
    let mut document = PaintDocument::default();
    document.push_stroke(stroke(
        ToolKind::Brush,
        RgbaColor::from_rgba(20, 40, 60, 255),
        9.0,
        &[(10.0, 10.0), (30.0, 30.0)],
    ));
    assert!(app.replace_document(document));
    select_all_of_active_layer(&mut app, vec![0]);

    let context = app.current_selection_paint_context().expect("stroke-only selection context");

    assert!(context.has_strokes());
    assert!(!context.has_fills());
    assert_eq!(context.stroke_count, 1);
    assert_eq!(context.stroke_width, Some(s(9.0)));
    assert_eq!(context.selection_label(), "線 1個");
}

#[test]
fn selection_paint_context_ignores_mixed_shape_selection() {
    let mut app = PaintApp::default();
    let mut document = PaintDocument::default();
    document.push_shape(ShapeElement::new(
        ShapeKind::Rectangle,
        RgbaColor::from_rgba(20, 40, 60, 255),
        s(9.0),
        p(10.0, 10.0),
        p(80.0, 60.0),
    ));
    document.push_stroke(stroke(
        ToolKind::Brush,
        RgbaColor::from_rgba(90, 20, 60, 255),
        7.0,
        &[(100.0, 20.0), (140.0, 40.0)],
    ));
    assert!(app.replace_document(document));
    select_all_of_active_layer(&mut app, vec![0, 1]);

    assert!(app.current_selection_paint_context().is_none());
}

#[test]
fn quick_color_updates_selected_strokes_when_no_shapes_are_selected() {
    let mut app = PaintApp::default();
    let mut document = PaintDocument::default();
    document.push_stroke(stroke(
        ToolKind::Brush,
        RgbaColor::from_rgba(20, 40, 60, 255),
        9.0,
        &[(10.0, 10.0), (30.0, 30.0)],
    ));
    document.push_stroke(stroke(
        ToolKind::Pencil,
        RgbaColor::from_rgba(80, 90, 120, 220),
        6.0,
        &[(40.0, 10.0), (80.0, 30.0)],
    ));
    assert!(app.replace_document(document));
    select_all_of_active_layer(&mut app, vec![0, 1]);
    with_quick_target(&mut app, ColorTarget::Stroke);

    app.apply_quick_color(RgbaColor::from_rgba(180, 30, 120, 200), "最近使った色");

    let Some(PaintElement::Stroke(first)) = app.document().element(0) else {
        panic!("first selected element should stay a stroke");
    };
    let Some(PaintElement::Stroke(second)) = app.document().element(1) else {
        panic!("second selected element should stay a stroke");
    };
    assert_eq!(first.color, RgbaColor::from_rgba(180, 30, 120, 200));
    assert_eq!(second.color, RgbaColor::from_rgba(180, 30, 120, 200));
}

#[test]
fn quick_color_updates_selected_fills_when_no_shapes_are_selected() {
    let mut app = PaintApp::default();
    let mut document = PaintDocument::default();
    document.push_fill(FillElement::new(
        RgbaColor::from_rgba(20, 40, 60, 180),
        p(0.0, 0.0),
        vec![FillSpan { y: 0, x_start: 0, x_end: 5 }],
    ));
    document.push_fill(FillElement::new(
        RgbaColor::from_rgba(80, 90, 120, 200),
        p(10.0, 10.0),
        vec![FillSpan { y: 0, x_start: 0, x_end: 4 }],
    ));
    assert!(app.replace_document(document));
    select_all_of_active_layer(&mut app, vec![0, 1]);
    with_quick_target(&mut app, ColorTarget::Fill);

    app.apply_quick_color(RgbaColor::from_rgba(180, 30, 120, 200), "最近使った色");

    let Some(PaintElement::Fill(first)) = app.document().element(0) else {
        panic!("first selected element should stay a fill");
    };
    let Some(PaintElement::Fill(second)) = app.document().element(1) else {
        panic!("second selected element should stay a fill");
    };
    assert_eq!(first.color, RgbaColor::from_rgba(180, 30, 120, 200));
    assert_eq!(second.color, RgbaColor::from_rgba(180, 30, 120, 200));
}

#[test]
fn selection_layer_context_mentions_active_layer_and_count() {
    let mut app = PaintApp::default();
    let layer_id = app.document().active_layer_id();
    app.set_selection_indices(layer_id, vec![0, 2, 4]);

    assert_eq!(
        app.selection_layer_context().as_deref(),
        Some("選択レイヤー: レイヤー 1（3個）")
    );
}

#[test]
fn switching_active_layer_reports_selection_clear() {
    let mut app = PaintApp::default();
    app.add_layer();
    let source_layer_id = app.document().active_layer_id();
    app.set_selection_indices(source_layer_id, vec![0]);
    let target_layer_id = app
        .document()
        .layers()
        .iter()
        .find(|layer| layer.id != source_layer_id)
        .map(|layer| layer.id)
        .expect("second layer");

    app.set_active_layer(target_layer_id);

    assert!(app.status_message().text.contains("選択は新しいレイヤーに合わせて解除"));
}

#[test]
fn default_editor_starts_with_brush_and_hint() {
    let app = PaintApp::default();
    assert_eq!(app.active_tool(), CanvasToolKind::Brush);
    assert!(!app.tutorial_visible());
    assert_eq!(app.document_name(), "untitled.paint.json");
    assert_eq!(app.layer_name_draft(), "レイヤー 1");
    assert!(!app.is_dirty());
    assert!(app.status_message().text.starts_with("まずは左のペン"));
}

#[test]
fn saved_settings_cut_recent_colors_and_show_tutorial() {
    let colors = (0..20u8).map(|i| RgbaColor::from_rgba(i, i, i, 255)).collect();
    let app = PaintApp::with_ui_state(UiStatePersistence {
        tutorial_dismissed: false,
        recent_colors: colors,
    });
    assert_eq!(app.recent_colors().len(), RECENT_COLOR_LIMIT);
    assert_eq!(app.recent_colors()[11], RgbaColor::from_rgba(11, 11, 11, 255));
    assert!(app.tutorial_visible());
    assert!(app.status_message().text.contains("ミニチュートリアル"));
}

#[test]
fn announced_tool_switch_names_the_tool() {
    let mut app = PaintApp::default();
    app.set_active_tool(CanvasToolKind::Ellipse, true);
    assert_eq!(
        app.status_message().text,
        "Ellipse に切り替えました。楕円の線と塗りを描きます。"
    );
    assert!(app.tool_uses_fill());
    app.set_active_tool(CanvasToolKind::Line, true);
    assert!(!app.tool_uses_fill());
}

#[test]
fn new_shape_context_follows_the_tool_colors() {
    let mut app = PaintApp::default();
    assert!(app.current_shape_style_context().is_none());
    app.set_active_tool(CanvasToolKind::Rectangle, false);
    let context = app.current_shape_style_context().expect("new shape context");
    assert_eq!(context.target, ShapeStyleTarget::NewShape);
    assert_eq!(context.selection_label(), "次に描く図形");
    assert_eq!(context.total_selection_count, 0);
    assert_eq!(context.fill_color, None);
    assert_eq!(context.paint_mode_label(), "線だけ");
}

#[test]
fn stroke_quick_color_reports_where_it_went() {
    let mut app = PaintApp::default();
    let mut document = PaintDocument::default();
    document.push_stroke(stroke(
        ToolKind::Brush,
        RgbaColor::from_rgba(20, 40, 60, 255),
        9.0,
        &[(10.0, 10.0), (30.0, 30.0)],
    ));
    assert!(app.replace_document(document));
    select_all_of_active_layer(&mut app, vec![0]);

    app.apply_quick_color(RgbaColor::from_rgba(1, 2, 3, 255), "簡易パレット");

    assert_eq!(
        app.status_message().text,
        "簡易パレットから線色を更新しました。 選択中の線1個にも反映しました。"
    );
    assert_eq!(app.recent_colors()[0], RgbaColor::from_rgba(1, 2, 3, 255));
    assert!(app.history().can_undo());
    app.perform_undo(false);
    let Some(PaintElement::Stroke(restored)) = app.document().element(0) else {
        panic!("stroke expected");
    };
    assert_eq!(restored.color, RgbaColor::from_rgba(20, 40, 60, 255));
    assert_eq!(app.selection_count(), 0);
}

#[test]
fn same_color_pick_changes_nothing_in_the_drawing() {
    let mut app = PaintApp::default();
    let mut document = PaintDocument::default();
    document.push_shape(ShapeElement::new(
        ShapeKind::Rectangle,
        RgbaColor::from_rgba(20, 40, 60, 255),
        s(9.0),
        p(10.0, 10.0),
        p(80.0, 60.0),
    ));
    assert!(app.replace_document(document));
    select_all_of_active_layer(&mut app, vec![0]);
    let undo_before = app.history().can_undo();

    app.apply_quick_color(RgbaColor::from_rgba(20, 40, 60, 255), "最近使った色");

    assert_eq!(app.status_message().text, "最近使った色から線色を更新しました。");
    assert_eq!(app.history().can_undo(), undo_before);
}

#[test]
fn layer_operations_update_the_status_and_name_field() {
    let mut app = PaintApp::default();
    app.add_layer();
    assert_eq!(app.status_message().text, "レイヤー 2 を追加しました。");
    assert_eq!(app.layer_name_draft(), "レイヤー 2");

    app.set_layer_name_draft("  背景  ".to_owned());
    app.rename_active_layer();
    assert_eq!(app.status_message().text, "レイヤー名を 背景 に変更しました。");

    let id = app.document().active_layer_id();
    app.toggle_layer_visibility(id);
    assert_eq!(app.status_message().text, "背景 を非表示にしました。");
    app.toggle_layer_locked(id);
    assert_eq!(app.status_message().text, "背景 をロックしました。");

    app.move_layer_down(id);
    assert_eq!(app.status_message().text, "レイヤーを下へ移動しました。");
    assert_eq!(app.document().layers()[0].id, id);

    app.delete_active_layer();
    assert_eq!(
        app.status_message().text,
        "現在のレイヤーを削除しました。レイヤー 1 が作業レイヤーです。"
    );
    assert_eq!(app.document().layer_count(), 1);
}

#[test]
fn layout_aid_toggles_report_their_state() {
    let mut app = PaintApp::default();
    let grid_visible = app.document().grid().visible;
    app.toggle_grid_visibility();
    assert_eq!(app.document().grid().visible, !grid_visible);
    app.toggle_rulers_visibility();
    assert_eq!(app.status_message().text, "ルーラーを非表示にしました。");
    app.toggle_rulers_visibility();
    assert_eq!(app.status_message().text, "ルーラーを表示しました。");
    app.perform_undo(false);
    assert_eq!(app.status_message().text, "ひとつ前に戻しました。");
    app.perform_redo();
    assert_eq!(app.status_message().text, "やり直しました。");
}

#[test]
fn hidden_destination_layer_is_reported_as_error() {
    let mut app = PaintApp::default();
    let mut document = PaintDocument::default();
    document.push_shape(ShapeElement::new(
        ShapeKind::Rectangle,
        RgbaColor::charcoal(),
        s(4.0),
        p(10.0, 10.0),
        p(40.0, 40.0),
    ));
    let (mut next, destination) = document.add_layer_document();
    next.set_active_layer(1);
    let hidden = next.toggled_layer_visibility_document(destination).expect("toggle");
    assert!(app.replace_document(hidden));
    app.set_selection_indices(1, vec![0]);

    app.move_selection_to_layer(destination);

    assert_eq!(app.status_message().kind, StatusKind::Error);
    assert_eq!(
        app.status_message().text,
        "レイヤー 2 は表示中かつロック解除されていないと、要素を移動できません。"
    );
}

#[test]
fn moving_selection_to_layer_selects_it_there() {
    let mut app = PaintApp::default();
    let mut document = PaintDocument::default();
    document.push_shape(ShapeElement::new(
        ShapeKind::Rectangle,
        RgbaColor::charcoal(),
        s(4.0),
        p(10.0, 10.0),
        p(40.0, 40.0),
    ));
    let (mut next, destination) = document.add_layer_document();
    next.set_active_layer(1);
    assert!(app.replace_document(next));
    app.set_selection_indices(1, vec![0]);

    app.duplicate_selection_to_layer(destination);

    assert_eq!(app.status_message().text, "選択中の要素を レイヤー 2 へ複製しました。");
    assert_eq!(app.document().active_layer_id(), destination);
    assert_eq!(app.selection_indices(), &[0]);
    assert_eq!(app.selection_layer_context().as_deref(), Some("選択レイヤー: レイヤー 2"));
}

#[test]
fn committed_elements_and_edits_are_announced() {
    let mut app = PaintApp::default();
    app.commit_element(PaintElement::Shape(ShapeElement::new(
        ShapeKind::Ellipse,
        RgbaColor::charcoal(),
        s(4.0),
        p(10.0, 10.0),
        p(40.0, 40.0),
    )));
    assert_eq!(app.status_message().text, "楕円を追加しました。");
    assert!(app.is_dirty());

    let mut moved = app.document().deep_copy();
    moved.push_shape(ShapeElement::new(
        ShapeKind::Line,
        RgbaColor::charcoal(),
        s(2.0),
        p(0.0, 0.0),
        p(5.0, 5.0),
    ));
    app.apply_document_edit(CommittedDocumentEdit {
        document: moved,
        selection_indices: vec![1, 0, 1],
        mode: DocumentEditMode::Align(AlignmentKind::Left),
    });
    assert_eq!(app.status_message().text, "左揃えにしました。");
    assert_eq!(app.selection_indices(), &[0, 1]);

    app.perform_clear(false);
    assert_eq!(app.status_message().text, "キャンバスをクリアしました。");
    app.perform_clear(true);
    assert_eq!(app.status_message().text, "進行中の操作を取り消しました。");
}

#[test]
fn file_actions_update_name_and_saved_state() {
    let mut app = PaintApp::default();
    app.commit_element(PaintElement::Shape(ShapeElement::new(
        ShapeKind::Rectangle,
        RgbaColor::charcoal(),
        s(4.0),
        p(10.0, 10.0),
        p(40.0, 40.0),
    )));
    app.finish_save(SavedDocument { file_name: "sketch.paint.json".to_owned() });
    assert!(!app.is_dirty());
    assert_eq!(app.document_name(), "sketch.paint.json");
    assert_eq!(
        app.status_message().text,
        "再編集用の JSON を sketch.paint.json として保存しました。"
    );

    app.finish_load(LoadedDocument {
        file_name: "other.paint.json".to_owned(),
        document: PaintDocument::default(),
    });
    assert_eq!(app.status_message().text, "other.paint.json を開きました。");
    assert!(!app.is_dirty());
    assert!(!app.document().has_elements());

    app.report_storage_result("load", Err(StorageError::Cancelled));
    assert_eq!(app.status_message().kind, StatusKind::Info);
    assert_eq!(app.status_message().text, "JSONを開くをキャンセルしました。");
    app.report_storage_result("export", Err(StorageError::Io("disk full".to_owned())));
    assert_eq!(app.status_message().kind, StatusKind::Error);
    assert_eq!(app.status_message().text, "PNG書き出しできませんでした: disk full");
}

#[test]
fn the_last_layer_cannot_be_deleted() {
    let mut app = PaintApp::default();
    let before = app.status_message().text.clone();
    app.delete_active_layer();
    assert_eq!(app.document().layer_count(), 1);
    assert_eq!(app.status_message().text, before);
    assert!(!app.history().can_undo());
}

#[test]
fn removing_a_guide_names_its_position() {
    let mut app = PaintApp::default();
    let mut document = app.document().deep_copy();
    document.guides.lines.push(GuideLine::new(GuideAxis::Vertical, s(128.4)));
    assert!(app.replace_document(document));
    app.remove_guide(0);
    assert_eq!(app.status_message().text, "縦ガイド（128px）を削除しました。");
    assert!(app.document().guides().lines.is_empty());
    app.remove_guide(0);
    assert_eq!(app.status_message().text, "縦ガイド（128px）を削除しました。");
}

#[test]
fn stack_order_moves_the_selection_and_follows_it() {
    let mut app = PaintApp::default();
    let mut document = PaintDocument::default();
    for shade in 1..=3u8 {
        document.push_shape(ShapeElement::new(
            ShapeKind::Rectangle,
            RgbaColor::from_rgba(shade, 0, 0, 255),
            s(2.0),
            p(0.0, 0.0),
            p(10.0, 10.0),
        ));
    }
    assert!(app.replace_document(document));
    app.set_selection_indices(1, vec![0]);

    app.apply_stack_order(StackOrderCommand::BringToFront, true);
    assert_eq!(app.selection_indices(), &[0]);

    app.apply_stack_order(StackOrderCommand::BringToFront, false);
    assert_eq!(app.status_message().text, "選択中の要素を最前面へ移動しました。");
    assert_eq!(app.selection_indices(), &[2]);
    let Some(PaintElement::Shape(top)) = app.document().element(2) else {
        panic!("shape expected");
    };
    assert_eq!(top.color, RgbaColor::from_rgba(1, 0, 0, 255));

    let before = app.status_message().text.clone();
    app.apply_stack_order(StackOrderCommand::BringToFront, false);
    assert_eq!(app.status_message().text, before);
}

#[test]
fn keyboard_shortcuts_respect_the_editor_state() {
    let mut app = PaintApp::default();
    assert!(!app.shortcut_enabled(ShortcutCommand::Undo, false, false, false));
    assert!(app.shortcut_enabled(ShortcutCommand::Undo, true, false, false));
    assert!(app.shortcut_enabled(ShortcutCommand::Save, false, false, false));
    assert!(!app.shortcut_enabled(ShortcutCommand::Save, false, true, false));
    assert!(!app.shortcut_enabled(ShortcutCommand::Group, false, false, false));
    app.set_selection_indices(1, vec![0, 1]);
    assert!(app.shortcut_enabled(ShortcutCommand::Group, false, false, false));
    assert!(!app.shortcut_enabled(ShortcutCommand::ZoomIn, true, false, false));

    app.handle_tool_shortcut('r');
    assert_eq!(app.active_tool(), CanvasToolKind::Rectangle);
    app.handle_tool_shortcut('x');
    assert_eq!(app.active_tool(), CanvasToolKind::Rectangle);
    app.set_multi_select_mode(true);
    app.handle_tool_shortcut('v');
    assert!(!app.multi_select_mode());
    assert_eq!(app.active_tool(), CanvasToolKind::Select);
}
