use rust_paint_foundation::document::PaintDocument;
use rust_paint_foundation::editor::{PaintApp, SelectionHit};
use rust_paint_foundation::element::{ShapeElement, Stroke};
use rust_paint_foundation::input::{
    canvas_input_step, escape_step, stroke_is_committable, zoom_applies, InteractionMode, PanMode,
    PointerEvent, PressAction,
};
use rust_paint_foundation::model::{PaintPoint, RgbaColor, Scalar, ShapeKind, ToolKind};
use rust_paint_foundation::selection::CanvasToolKind;

fn s(v: f32) -> Scalar {
    Scalar::from_bits(v.to_bits())
}

fn p(x: f32, y: f32) -> PaintPoint {
    PaintPoint::new(s(x), s(y))
}

fn quiet() -> PointerEvent {
    PointerEvent {
        hovered: true,
        has_position: true,
        primary_pressed: false,
        primary_down: false,
        primary_released: false,
        middle_pressed: false,
        middle_down: false,
        space_down: false,
        shift: false,
    }
}

fn rectangle(x: f32) -> ShapeElement {
    ShapeElement::new(ShapeKind::Rectangle, RgbaColor::from_rgba(1, 2, 3, 255), s(4.0), p(x, 0.0), p(x + 10.0, 10.0))
}

fn app_with_two_shapes() -> PaintApp {
    let mut app = PaintApp::default();
    let mut document = PaintDocument::default();
    document.push_shape(rectangle(0.0));
    document.push_shape(rectangle(50.0));
    assert!(app.replace_document(document));
    app
}

#[test]
fn pressing_with_a_pen_starts_drawing_and_release_commits() {
    let press = PointerEvent { primary_pressed: true, primary_down: true, ..quiet() };
    let (mode, action) = canvas_input_step(InteractionMode::Idle, CanvasToolKind::Brush, press);
    assert_eq!(mode, InteractionMode::Drawing);
    assert_eq!(action.press, PressAction::Stroke);

    let drag = PointerEvent { primary_down: true, ..quiet() };
    let (mode, action) = canvas_input_step(mode, CanvasToolKind::Brush, drag);
    assert_eq!(mode, InteractionMode::Drawing);
    assert!(action.update_preview && !action.commit_preview);

    let release = PointerEvent { primary_released: true, ..quiet() };
    let (mode, action) = canvas_input_step(mode, CanvasToolKind::Brush, release);
    assert_eq!(mode, InteractionMode::Idle);
    assert!(action.commit_preview);
}

#[test]
fn space_drag_and_middle_drag_pan_until_released() {
    let space = PointerEvent { primary_pressed: true, primary_down: true, space_down: true, ..quiet() };
    let (mode, action) = canvas_input_step(InteractionMode::Idle, CanvasToolKind::Brush, space);
    assert_eq!(mode, InteractionMode::Panning(PanMode::SpaceDrag));
    assert_eq!(action.press, PressAction::Nothing);

    let held = PointerEvent { primary_down: true, space_down: true, ..quiet() };
    let (mode, action) = canvas_input_step(mode, CanvasToolKind::Brush, held);
    assert_eq!(mode, InteractionMode::Panning(PanMode::SpaceDrag));
    assert!(action.pan);
    let (mode, _) = canvas_input_step(mode, CanvasToolKind::Brush, PointerEvent { primary_down: true, ..quiet() });
    assert_eq!(mode, InteractionMode::Idle);

    let middle = PointerEvent { middle_pressed: true, middle_down: true, ..quiet() };
    let (mode, _) = canvas_input_step(InteractionMode::Idle, CanvasToolKind::Select, middle);
    assert_eq!(mode, InteractionMode::Panning(PanMode::MiddleDrag));
    let (mode, _) = canvas_input_step(mode, CanvasToolKind::Select, quiet());
    assert_eq!(mode, InteractionMode::Idle);
}

#[test]
fn select_tool_press_reports_shift_and_off_canvas_does_nothing() {
    let press = PointerEvent { primary_pressed: true, shift: true, ..quiet() };
    let (mode, action) = canvas_input_step(InteractionMode::Idle, CanvasToolKind::Select, press);
    assert_eq!(mode, InteractionMode::Idle);
    assert_eq!(action.press, PressAction::Selection { extend: true });

    let away = PointerEvent { hovered: false, primary_pressed: true, ..quiet() };
    let (mode, action) = canvas_input_step(InteractionMode::Idle, CanvasToolKind::Rectangle, away);
    assert_eq!(mode, InteractionMode::Idle);
    assert_eq!(action.press, PressAction::Nothing);
}

#[test]
fn shift_click_adds_and_removes_elements() {
    let mut app = app_with_two_shapes();
    assert_eq!(app.press_selection(SelectionHit::Element(1), true), InteractionMode::Idle);
    assert_eq!(app.press_selection(SelectionHit::Element(0), true), InteractionMode::Idle);
    assert_eq!(app.selection_indices(), &[0, 1]);
    app.press_selection(SelectionHit::Element(1), true);
    assert_eq!(app.selection_indices(), &[0]);
    app.press_selection(SelectionHit::Nothing, true);
    assert_eq!(app.selection_indices(), &[0]);
}

#[test]
fn plain_click_selects_one_and_starts_moving() {
    let mut app = app_with_two_shapes();
    app.press_selection(SelectionHit::Element(0), true);
    app.press_selection(SelectionHit::Element(1), true);

    assert_eq!(app.press_selection(SelectionHit::Element(1), false), InteractionMode::EditingSelection);
    assert_eq!(app.selection_indices(), &[0, 1]);

    app.clear_selection();
    assert_eq!(app.press_selection(SelectionHit::Element(1), false), InteractionMode::EditingSelection);
    assert_eq!(app.selection_indices(), &[1]);
    assert_eq!(app.press_selection(SelectionHit::Control, false), InteractionMode::EditingSelection);

    assert_eq!(app.press_selection(SelectionHit::Nothing, false), InteractionMode::Idle);
    assert_eq!(app.selection_count(), 0);
}

#[test]
fn pen_and_shape_presses_build_their_previews() {
    let mut app = app_with_two_shapes();
    app.press_selection(SelectionHit::Element(0), false);
    app.set_active_tool(CanvasToolKind::Eraser, false);

    let stroke = app.start_stroke(p(3.0, 4.0));
    assert_eq!(stroke.tool, ToolKind::Eraser);
    assert_eq!(stroke.color, app.document().background);
    assert_eq!(stroke.width, app.tool_widths().eraser_width);
    assert_eq!(stroke.points, vec![p(3.0, 4.0)]);
    assert_eq!(app.selection_count(), 0);

    app.set_active_tool(CanvasToolKind::Line, false);
    let line = app.start_shape(p(1.0, 1.0)).expect("line");
    assert_eq!(line.kind, ShapeKind::Line);
    assert_eq!(line.start, line.end);
    assert_eq!(line.fill_color, None);
    app.set_active_tool(CanvasToolKind::Brush, false);
    assert!(app.start_shape(p(1.0, 1.0)).is_none());
}

#[test]
fn arranging_needs_an_editable_layer_and_enough_elements() {
    let mut document = PaintDocument::default();
    document.push_shape(rectangle(0.0));
    document.push_shape(rectangle(50.0));
    document.push_shape(rectangle(90.0));
    assert_eq!(document.arrangeable_indices(&[2, 0, 2], 2), Some(vec![0, 2]));
    assert_eq!(document.arrangeable_indices(&[2, 0, 2], 3), None);
    assert_eq!(document.arrangeable_indices(&[0, 1, 2, 7], 3), Some(vec![0, 1, 2]));
    document.layers[0].locked = true;
    assert_eq!(document.arrangeable_indices(&[0, 1, 2], 2), None);
}

#[test]
fn grouping_is_refused_on_a_locked_or_hidden_layer() {
    let mut document = PaintDocument::default();
    document.push_shape(rectangle(0.0));
    document.push_shape(rectangle(50.0));
    assert!(document.grouped_document(&[0, 1]).is_some());
    document.layers[0].locked = true;
    assert!(document.grouped_document(&[0, 1]).is_none());
    document.layers[0].locked = false;
    document.layers[0].visible = false;
    assert!(document.grouped_document(&[0, 1]).is_none());
}

#[test]
fn escape_throws_away_drawing_and_editing_only() {
    assert_eq!(escape_step(InteractionMode::Drawing), (InteractionMode::Idle, true));
    assert_eq!(escape_step(InteractionMode::EditingSelection), (InteractionMode::Idle, true));
    assert_eq!(escape_step(InteractionMode::Panning(PanMode::MiddleDrag)), (InteractionMode::Idle, false));
    assert_eq!(escape_step(InteractionMode::Idle), (InteractionMode::Idle, false));
}

#[test]
fn only_strokes_with_points_are_kept() {
    let mut stroke = Stroke::new(ToolKind::Brush, RgbaColor::from_rgba(1, 2, 3, 255), s(2.0));
    assert!(!stroke_is_committable(&stroke));
    stroke.push_point(p(1.0, 1.0));
    assert!(stroke_is_committable(&stroke));
}

#[test]
fn zoom_waits_for_drawing_and_selection_edits() {
    assert!(zoom_applies(InteractionMode::Idle, quiet()));
    assert!(zoom_applies(InteractionMode::Panning(PanMode::SpaceDrag), quiet()));
    assert!(!zoom_applies(InteractionMode::Drawing, quiet()));
    assert!(!zoom_applies(InteractionMode::EditingSelection, quiet()));
    assert!(!zoom_applies(InteractionMode::Idle, PointerEvent { hovered: false, ..quiet() }));
}
