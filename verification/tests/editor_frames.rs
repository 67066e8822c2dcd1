use rust_paint_foundation::document::PaintDocument;
use rust_paint_foundation::editor::{storage_pending_message, PaintApp, TutorialAction};
use rust_paint_foundation::element::{PaintElement, ShapeElement, Stroke};
use rust_paint_foundation::model::{
    AlignmentKind, PaintPoint, RgbaColor, Scalar, ShapeKind, ToolKind,
};
use rust_paint_foundation::selection::{CanvasToolKind, DocumentEditMode};
use rust_paint_foundation::storage::{ExportedImage, SavedDocument};
use rust_paint_foundation::svg::RasterBackground;

fn s(v: f32) -> Scalar {
    Scalar::from_bits(v.to_bits())
}

fn p(x: f32, y: f32) -> PaintPoint {
    PaintPoint::new(s(x), s(y))
}

fn rectangle(x: f32) -> ShapeElement {
    ShapeElement::new(
        ShapeKind::Rectangle,
        RgbaColor::from_rgba(20, 40, 60, 255),
        s(4.0),
        p(x, 10.0),
        p(x + 30.0, 40.0),
    )
}

fn two_rectangles_selected() -> PaintApp {
    let mut app = PaintApp::default();
    let mut document = PaintDocument::default();
    document.push_shape(rectangle(10.0));
    document.push_shape(rectangle(100.0));
    assert!(app.replace_document(document));
    let layer_id = app.document().active_layer_id();
    app.set_selection_indices(layer_id, vec![1, 0]);
    app.set_active_tool(CanvasToolKind::Select, false);
    app
}

fn left_aligned(app: &PaintApp) -> PaintDocument {
    let mut next = app.document().deep_copy();
    next.layers[0].elements[1] = PaintElement::Shape(rectangle(10.0));
    next
}

#[test]
fn alignment_is_recorded_and_keeps_the_selection() {
    let mut app = two_rectangles_selected();
    let next = left_aligned(&app);

    app.apply_alignment(AlignmentKind::Left, Some(next), false);

    let Some(PaintElement::Shape(moved)) = app.document().element(1) else {
        panic!("shape expected");
    };
    assert_eq!(moved.start, p(10.0, 10.0));
    assert_eq!(app.selection_indices(), &[0, 1]);
    assert_eq!(app.status_message().text, "左揃えにしました。");
    app.perform_undo(false);
    let Some(PaintElement::Shape(restored)) = app.document().element(1) else {
        panic!("shape expected");
    };
    assert_eq!(restored.start, p(100.0, 10.0));
}

#[test]
fn alignment_waits_for_the_canvas_and_needs_two_elements() {
    let unmoved = |app: &PaintApp| match app.document().element(1) {
        Some(PaintElement::Shape(shape)) => shape.start == p(100.0, 10.0),
        _ => false,
    };
    let mut app = two_rectangles_selected();
    let next = left_aligned(&app);
    app.apply_alignment(AlignmentKind::Left, Some(next), true);
    assert!(unmoved(&app));

    let layer_id = app.document().active_layer_id();
    app.set_selection_indices(layer_id, vec![1]);
    let next = left_aligned(&app);
    app.apply_alignment(AlignmentKind::Left, Some(next), false);
    assert!(unmoved(&app));

    app.set_selection_indices(layer_id, vec![0, 1]);
    app.apply_alignment(AlignmentKind::Left, None, false);
    assert!(unmoved(&app));
}

#[test]
fn selection_summary_describes_what_is_selected() {
    let mut app = two_rectangles_selected();
    assert_eq!(app.selection_summary(None), "Selection: 2 elements (move / align / order)");
    assert_eq!(
        app.selection_summary(Some(DocumentEditMode::Move)),
        "Selection: 2 elements (moving)"
    );

    let layer_id = app.document().active_layer_id();
    app.set_selection_indices(layer_id, vec![1]);
    assert_eq!(app.selection_summary(None), "Selection: 四角形 #2 (move / resize / rotate)");
    assert_eq!(
        app.selection_summary(Some(DocumentEditMode::Rotate)),
        "Selection: 四角形 #2 (rotating)"
    );

    app.clear_selection();
    assert_eq!(app.selection_summary(None), "Selection: None");
}

#[test]
fn selection_summary_of_a_single_stroke_offers_moving_only() {
    let mut app = PaintApp::default();
    let mut document = PaintDocument::default();
    let mut stroke = Stroke::new(ToolKind::Brush, RgbaColor::from_rgba(1, 2, 3, 255), s(3.0));
    stroke.push_point(p(1.0, 1.0));
    document.push_stroke(stroke);
    assert!(app.replace_document(document));
    let layer_id = app.document().active_layer_id();
    app.set_selection_indices(layer_id, vec![0]);

    assert_eq!(app.selection_summary(None), "Selection: ペン #1 (move only)");
}

#[test]
fn selection_past_the_elements_is_dropped() {
    let mut app = two_rectangles_selected();
    let layer_id = app.document().active_layer_id();
    app.set_selection_indices(layer_id, vec![0, 1, 5, 9]);

    app.sync_selection_with_document();

    assert_eq!(app.selection_indices(), &[0, 1]);
}

#[test]
fn tutorial_steps_forward_back_and_completes() {
    let mut app = PaintApp::default();
    app.open_tutorial();
    assert_eq!(app.tutorial_step_index(), 0);
    assert_eq!(app.tutorial_forward_action(), TutorialAction::Next);

    app.apply_tutorial_action(Some(TutorialAction::Back), true);
    assert_eq!(app.tutorial_step_index(), 0);

    for _ in 0..5 {
        app.apply_tutorial_action(Some(TutorialAction::Next), true);
    }
    assert_eq!(app.tutorial_step_index(), 3);
    assert_eq!(app.tutorial_forward_action(), TutorialAction::Complete);

    app.apply_tutorial_action(Some(TutorialAction::Back), true);
    assert_eq!(app.tutorial_step_index(), 2);

    app.apply_tutorial_action(Some(TutorialAction::Complete), true);
    assert!(!app.tutorial_visible());
    assert_eq!(
        app.status_message().text,
        "チュートリアルを閉じました。必要ならヘルプからもう一度開けます。"
    );
}

#[test]
fn closing_the_tutorial_window_skips_it() {
    let mut app = PaintApp::default();
    app.open_tutorial();

    app.apply_tutorial_action(None, true);
    assert!(app.tutorial_visible());

    app.apply_tutorial_action(None, false);
    assert!(!app.tutorial_visible());
    assert_eq!(
        app.status_message().text,
        "チュートリアルをスキップしました。必要ならヘルプから開けます。"
    );
}

#[test]
fn opening_the_tutorial_hides_the_help() {
    let mut app = PaintApp::default();
    app.set_show_help(true);
    assert!(app.show_help());

    app.open_tutorial();

    assert!(!app.show_help());
}

#[test]
fn changed_settings_are_handed_out_once() {
    let mut app = PaintApp::default();
    assert!(app.take_ui_state_to_persist(true).is_none());

    app.push_recent_color(RgbaColor::from_rgba(9, 9, 9, 255));
    app.close_tutorial(false);
    assert!(app.take_ui_state_to_persist(false).is_none());

    let state = app.take_ui_state_to_persist(true).expect("settings changed");
    assert!(state.tutorial_dismissed);
    assert_eq!(state.recent_colors, vec![RgbaColor::from_rgba(9, 9, 9, 255)]);
    assert!(app.take_ui_state_to_persist(true).is_none());
}

#[test]
fn browser_file_actions_have_waiting_messages() {
    assert_eq!(
        storage_pending_message("load"),
        "ブラウザのファイル選択を開きました。.paint.json を選んでください。"
    );
    assert_eq!(
        storage_pending_message("export-svg"),
        "ブラウザで SVG ダウンロードを準備しています..."
    );
    assert_eq!(storage_pending_message("other"), "ブラウザのファイル操作を待っています...");
}

#[test]
fn long_press_switches_to_the_requested_tool() {
    let mut app = PaintApp::default();
    app.set_active_tool(CanvasToolKind::Brush, false);

    app.apply_requested_tool(CanvasToolKind::Select);
    assert_eq!(app.active_tool(), CanvasToolKind::Select);
    assert_eq!(
        app.status_message().text,
        "長押しから選択に入りました。続けてドラッグして移動や編集ができます。"
    );

    app.report_escape(true);
    app.apply_requested_tool(CanvasToolKind::Select);
    assert_eq!(app.status_message().text, "進行中の操作をキャンセルしました。");
}

#[test]
fn escape_reports_only_a_discarded_edit() {
    let mut app = PaintApp::default();
    let before = app.status_message().text.clone();

    app.report_escape(false);
    assert_eq!(app.status_message().text, before);

    app.report_escape(true);
    assert_eq!(app.status_message().text, "進行中の操作をキャンセルしました。");
}

#[test]
fn saving_a_drawing_without_nan_leaves_nothing_unsaved() {
    let mut app = two_rectangles_selected();
    assert!(app.is_dirty());

    app.finish_save(SavedDocument { file_name: "a.paint.json".to_owned() });

    assert!(!app.is_dirty());
}

#[test]
fn a_drawing_with_nan_never_counts_as_saved() {
    let mut app = PaintApp::default();
    let mut document = PaintDocument::default();
    document.push_shape(ShapeElement::new(
        ShapeKind::Line,
        RgbaColor::from_rgba(1, 2, 3, 255),
        s(f32::NAN),
        p(0.0, 0.0),
        p(5.0, 5.0),
    ));
    assert!(app.replace_document(document));

    app.finish_save(SavedDocument { file_name: "b.paint.json".to_owned() });

    assert!(app.is_dirty());
}

#[test]
fn exports_are_announced_by_kind() {
    let mut app = PaintApp::default();

    app.finish_export(ExportedImage { file_name: "a.png".to_owned() }, RasterBackground::Opaque);
    assert_eq!(app.status_message().text, "PNG を a.png として書き出しました。");

    app.finish_export(ExportedImage { file_name: "b.png".to_owned() }, RasterBackground::Transparent);
    assert_eq!(app.status_message().text, "透過PNG を b.png として書き出しました。");

    app.finish_svg_export(ExportedImage { file_name: "c.svg".to_owned() });
    assert!(app.status_message().text.starts_with("SVG を c.svg として書き出しました。"));
}
