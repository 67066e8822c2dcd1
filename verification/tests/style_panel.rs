use rust_paint_foundation::document::PaintDocument;
use rust_paint_foundation::editor::PaintApp;
use rust_paint_foundation::element::{PaintElement, ShapeElement, Stroke};
use rust_paint_foundation::model::{
    GuideAxis, GuideLine, PaintPoint, RgbaColor, Scalar, ShapeKind, ToolKind,
};
use rust_paint_foundation::selection::CanvasToolKind;
use rust_paint_foundation::tools::{quick_palette, ToolColorSettings, RECENT_COLOR_LIMIT};
use rust_paint_foundation::ui::ColorTarget;

fn s(v: f32) -> Scalar {
    Scalar::from_bits(v.to_bits())
}

fn p(x: f32, y: f32) -> PaintPoint {
    PaintPoint::new(s(x), s(y))
}

fn rectangle_with_fill() -> ShapeElement {
    ShapeElement::new(
        ShapeKind::Rectangle,
        RgbaColor::from_rgba(20, 40, 60, 255),
        s(9.0),
        p(10.0, 10.0),
        p(80.0, 60.0),
    )
    .with_fill_color(Some(RgbaColor::from_rgba(200, 180, 90, 140)))
}

fn app_with_selected(elements: Vec<PaintElement>, indices: Vec<usize>) -> PaintApp {
    let mut app = PaintApp::default();
    let mut document = PaintDocument::default();
    for element in elements {
        match element {
            PaintElement::Shape(shape) => document.push_shape(shape),
            PaintElement::Stroke(stroke) => document.push_stroke(stroke),
            _ => panic!("only shapes and strokes are used here"),
        }
    }
    assert!(app.replace_document(document));
    let layer_id = app.document().active_layer_id();
    app.set_selection_indices(layer_id, indices);
    app.set_active_tool(CanvasToolKind::Select, false);
    app
}

fn first_shape(app: &PaintApp) -> ShapeElement {
    match app.document().element(0) {
        Some(PaintElement::Shape(shape)) => shape.clone(),
        _ => panic!("a shape was expected first"),
    }
}

fn brush_stroke(color: RgbaColor) -> Stroke {
    let mut stroke = Stroke::new(ToolKind::Brush, color, s(9.0));
    stroke.push_point(p(10.0, 10.0));
    stroke.push_point(p(30.0, 30.0));
    stroke
}

#[test]
fn shape_width_slider_resizes_the_selected_rectangle() {
    let mut app = app_with_selected(vec![PaintElement::Shape(rectangle_with_fill())], vec![0]);

    app.set_shape_width(s(12.0));

    assert_eq!(first_shape(&app).width, s(12.0));
    assert_eq!(app.tool_widths().draw_width, s(12.0));
    assert_eq!(app.status_message().text, "四角形の線幅を 12.0px に変更しました。");
    assert!(app.history().can_undo());
}

#[test]
fn shape_width_for_the_next_shape_only_changes_the_setting() {
    let mut app = PaintApp::default();
    app.set_active_tool(CanvasToolKind::Ellipse, false);

    app.set_shape_width(s(4.5));

    assert_eq!(app.tool_widths().draw_width, s(4.5));
    assert_eq!(app.status_message().text, "次に描く楕円の線幅を 4.5px に変更しました。");
    assert!(!app.history().can_undo());
}

#[test]
fn stroke_only_button_drops_the_fill_of_the_selected_rectangle() {
    let mut app = app_with_selected(vec![PaintElement::Shape(rectangle_with_fill())], vec![0]);

    app.set_shape_paint_mode(false);

    assert_eq!(first_shape(&app).effective_fill_color(), None);
    assert!(!app.tool_colors().fill_enabled);
    assert_eq!(app.status_message().text, "選択中の四角形を線だけにしました。");

    app.perform_undo(false);
    assert_eq!(
        first_shape(&app).effective_fill_color(),
        Some(RgbaColor::from_rgba(200, 180, 90, 140))
    );
}

#[test]
fn stroke_and_fill_button_for_the_next_rectangle() {
    let mut app = PaintApp::default();
    app.set_active_tool(CanvasToolKind::Rectangle, false);

    app.set_shape_paint_mode(true);

    assert!(app.tool_colors().fill_enabled);
    assert_eq!(app.status_message().text, "次に描く四角形を線と塗りにします。");
}

#[test]
fn line_tool_has_no_paint_mode_buttons() {
    let mut app = PaintApp::default();
    app.set_active_tool(CanvasToolKind::Line, false);
    let before = app.status_message().text.clone();

    app.set_shape_paint_mode(true);

    assert!(!app.tool_colors().fill_enabled);
    assert_eq!(app.status_message().text, before);
}

#[test]
fn stroke_opacity_slider_changes_selected_strokes() {
    let mut app = app_with_selected(
        vec![PaintElement::Stroke(brush_stroke(RgbaColor::from_rgba(20, 40, 60, 255)))],
        vec![0],
    );

    app.set_stroke_opacity(50);

    let Some(PaintElement::Stroke(stroke)) = app.document().element(0) else {
        panic!("stroke expected");
    };
    assert_eq!(stroke.color, RgbaColor::from_rgba(20, 40, 60, 128));
    assert_eq!(app.tool_colors().stroke_color, RgbaColor::from_rgba(20, 40, 60, 128));
    assert_eq!(app.recent_colors()[0], RgbaColor::from_rgba(20, 40, 60, 128));
    assert_eq!(app.status_message().text, "選択中の線1個の不透明度を 50% に変更しました。");
}

#[test]
fn stroke_color_without_selection_only_changes_the_tool() {
    let mut app = PaintApp::default();

    app.set_stroke_color(RgbaColor::from_rgba(9, 8, 7, 255));

    assert_eq!(app.tool_colors().stroke_color, RgbaColor::from_rgba(9, 8, 7, 255));
    assert_eq!(app.status_message().text, "線色を変更しました。");
    assert!(!app.history().can_undo());
}

#[test]
fn stroke_color_recolors_two_selected_shapes() {
    let mut app = app_with_selected(
        vec![
            PaintElement::Shape(rectangle_with_fill()),
            PaintElement::Shape(ShapeElement::new(
                ShapeKind::Line,
                RgbaColor::from_rgba(120, 50, 40, 255),
                s(6.0),
                p(100.0, 20.0),
                p(180.0, 80.0),
            )),
        ],
        vec![0, 1],
    );

    app.set_stroke_color(RgbaColor::from_rgba(1, 2, 3, 255));

    assert_eq!(first_shape(&app).color, RgbaColor::from_rgba(1, 2, 3, 255));
    let Some(PaintElement::Shape(line)) = app.document().element(1) else {
        panic!("line expected");
    };
    assert_eq!(line.color, RgbaColor::from_rgba(1, 2, 3, 255));
    assert_eq!(app.status_message().text, "選択中の図形2個の線色を変更しました。");
}

#[test]
fn fill_opacity_slider_changes_the_selected_rectangle() {
    let mut app = app_with_selected(vec![PaintElement::Shape(rectangle_with_fill())], vec![0]);

    app.set_shape_fill_opacity(100);

    assert_eq!(
        first_shape(&app).effective_fill_color(),
        Some(RgbaColor::from_rgba(200, 180, 90, 255))
    );
    assert!(app.tool_colors().fill_enabled);
    assert_eq!(app.status_message().text, "四角形の塗りの不透明度を 100% に変更しました。");
}

#[test]
fn fill_check_box_turns_fill_off_and_on() {
    let mut app = app_with_selected(vec![PaintElement::Shape(rectangle_with_fill())], vec![0]);

    app.set_shape_fill_enabled(false);
    assert_eq!(first_shape(&app).effective_fill_color(), None);
    assert_eq!(app.status_message().text, "四角形の塗りをオフにしました。");

    app.set_shape_fill_color(RgbaColor::from_rgba(5, 6, 7, 200));
    assert_eq!(
        first_shape(&app).effective_fill_color(),
        Some(RgbaColor::from_rgba(5, 6, 7, 200))
    );
    assert_eq!(app.status_message().text, "四角形の塗り色を変更しました。");
}

#[test]
fn selected_stroke_width_slider_changes_every_selected_stroke() {
    let mut app = app_with_selected(
        vec![
            PaintElement::Stroke(brush_stroke(RgbaColor::from_rgba(20, 40, 60, 255))),
            PaintElement::Stroke(brush_stroke(RgbaColor::from_rgba(60, 40, 20, 255))),
        ],
        vec![0, 1],
    );

    app.set_selected_stroke_width(s(3.0));

    for index in 0..2 {
        let Some(PaintElement::Stroke(stroke)) = app.document().element(index) else {
            panic!("stroke expected");
        };
        assert_eq!(stroke.width, s(3.0));
    }
    assert_eq!(app.status_message().text, "選択中の線2個の太さを 3.0px に変更しました。");
}

#[test]
fn draw_width_slider_reports_one_decimal() {
    let mut app = PaintApp::default();

    app.set_draw_width(s(7.25));

    assert_eq!(app.tool_widths().draw_width, s(7.25));
    assert_eq!(
        app.status_message().text,
        format!("描く太さを {:.1}px に変更しました。描画ツールと図形に使います。", 7.25f32)
    );
}

#[test]
fn draw_width_slider_is_not_offered_while_styling_a_shape() {
    let mut app = PaintApp::default();
    app.set_active_tool(CanvasToolKind::Rectangle, false);
    let before = app.tool_widths();

    app.set_draw_width(s(20.0));

    assert_eq!(app.tool_widths(), before);
}

#[test]
fn eraser_width_slider_keeps_the_drawing_width() {
    let mut app = PaintApp::default();
    let draw = app.tool_widths().draw_width;

    app.set_eraser_width(s(30.0));

    assert_eq!(app.tool_widths().eraser_width, s(30.0));
    assert_eq!(app.tool_widths().draw_width, draw);
    assert_eq!(app.status_message().text, "消しゴム太さを 30.0px に変更しました。");
}

#[test]
fn quick_target_leaves_fill_for_a_selected_line() {
    let mut app = app_with_selected(
        vec![PaintElement::Shape(ShapeElement::new(
            ShapeKind::Line,
            RgbaColor::from_rgba(120, 50, 40, 255),
            s(6.0),
            p(100.0, 20.0),
            p(180.0, 80.0),
        ))],
        vec![0],
    );
    let colors = ToolColorSettings { quick_color_target: ColorTarget::Fill, ..app.tool_colors() };
    app.set_tool_colors(colors);

    app.sync_quick_color_target();

    assert_eq!(app.tool_colors().quick_color_target, ColorTarget::Stroke);
}

#[test]
fn quick_target_stays_when_both_are_offered() {
    let mut app = PaintApp::default();
    let colors = ToolColorSettings { quick_color_target: ColorTarget::Fill, ..app.tool_colors() };
    app.set_tool_colors(colors);

    app.sync_quick_color_target();

    assert_eq!(app.tool_colors().quick_color_target, ColorTarget::Fill);
}

#[test]
fn quick_palette_holds_twelve_colors_in_order() {
    let palette = quick_palette();

    assert_eq!(palette.len(), RECENT_COLOR_LIMIT);
    assert_eq!(palette[0], RgbaColor::from_rgba(37, 37, 41, 255));
    assert_eq!(palette[4], RgbaColor::from_rgba(255, 199, 64, 255));
    assert_eq!(palette[11], RgbaColor::from_rgba(96, 125, 139, 255));
}

#[test]
fn grid_spacing_change_is_announced_and_undoable() {
    let mut app = PaintApp::default();
    let mut next = app.document().deep_copy();
    next.grid.spacing = s(24.0);
    assert!(next.layer_ids_below_max());

    app.apply_grid_spacing_change(next);

    assert_eq!(app.document().grid().spacing, s(24.0));
    assert_eq!(app.status_message().text, "グリッド間隔を 24px に設定しました。");
    assert!(app.history().can_undo());
}

#[test]
fn added_guide_is_announced_with_its_axis() {
    let mut app = PaintApp::default();
    let mut next = app.document().deep_copy();
    next.guides.lines.push(GuideLine::new(GuideAxis::Vertical, s(320.0)));

    app.apply_added_guide(next, GuideAxis::Vertical, s(320.0));

    assert_eq!(app.document().guides().lines.len(), 1);
    assert_eq!(app.status_message().text, "縦ガイドを 320px に追加しました。");
}

#[test]
fn unchanged_grid_spacing_is_not_recorded() {
    let mut app = PaintApp::default();
    let next = app.document().deep_copy();
    let before = app.status_message().text.clone();

    app.apply_grid_spacing_change(next);

    assert!(!app.history().can_undo());
    assert_eq!(app.status_message().text, before);
}

#[test]
fn exhausted_layer_ids_are_detected() {
    let mut document = PaintDocument::default();
    assert!(document.layer_ids_below_max());
    document.layers[0].id = u64::MAX;
    assert!(!document.layer_ids_below_max());
}
