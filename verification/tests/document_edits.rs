use rust_paint_foundation::document::PaintDocument;
use rust_paint_foundation::history::DocumentHistory;
use rust_paint_foundation::model::{GuideAxis, GuideLine};
use rust_paint_foundation::element::{FillElement, FillSpan, GroupElement, PaintElement, ShapeElement, Stroke};
use rust_paint_foundation::model::{
    CanvasSize, LayerId, PaintPoint, RgbaColor, Scalar, ShapeHandle, ShapeKind, StackOrderCommand,
    ToolKind,
};

fn s(v: f32) -> Scalar {
    Scalar::from_bits(v.to_bits())
}

fn p(x: f32, y: f32) -> PaintPoint {
    PaintPoint::new(s(x), s(y))
}

fn sample_stroke() -> Stroke {
    let mut stroke = Stroke::new(ToolKind::Brush, RgbaColor::charcoal(), s(8.0));
    stroke.push_point(p(10.0, 10.0));
    stroke.push_point(p(60.0, 10.0));
    stroke
}

fn sample_shape() -> ShapeElement {
    ShapeElement::new(
        ShapeKind::Rectangle,
        RgbaColor::charcoal(),
        s(4.0),
        p(80.0, 20.0),
        p(140.0, 70.0),
    )
}

fn layered_transfer_document() -> (PaintDocument, LayerId, LayerId) {
    let mut document = PaintDocument::default();
    let source_layer_id = document.active_layer_id();
    document.push_shape(sample_shape());
    document.push_stroke(sample_stroke());

    let (mut next, destination_layer_id) = document.add_layer_document();
    next.push_shape(ShapeElement::new(
        ShapeKind::Ellipse,
        RgbaColor::new(32, 96, 220, 255),
        s(3.0),
        p(24.0, 24.0),
        p(60.0, 52.0),
    ));
    assert!(next.set_active_layer(source_layer_id));
    (next, source_layer_id, destination_layer_id)
}

fn colors(document: &PaintDocument) -> Vec<RgbaColor> {
    document
        .active_layer()
        .expect("active layer")
        .elements
        .iter()
        .map(|element| match element {
            PaintElement::Shape(shape) => shape.color,
            PaintElement::Stroke(_) => RgbaColor::white(),
            PaintElement::Fill(_) => RgbaColor::new(2, 2, 2, 255),
            PaintElement::Group(_) => RgbaColor::new(1, 1, 1, 255),
        })
        .collect()
}

fn three_squares() -> PaintDocument {
    let mut document = PaintDocument::default();
    document.push_shape(ShapeElement::new(
        ShapeKind::Rectangle,
        RgbaColor::new(200, 0, 0, 255),
        s(2.0),
        p(10.0, 10.0),
        p(30.0, 30.0),
    ));
    document.push_shape(ShapeElement::new(
        ShapeKind::Rectangle,
        RgbaColor::new(0, 200, 0, 255),
        s(2.0),
        p(15.0, 15.0),
        p(35.0, 35.0),
    ));
    document.push_shape(ShapeElement::new(
        ShapeKind::Rectangle,
        RgbaColor::new(0, 0, 200, 255),
        s(2.0),
        p(20.0, 20.0),
        p(40.0, 40.0),
    ));
    document
}

#[test]
fn bring_to_front_preserves_relative_order() {
    let document = three_squares();
    let (reordered, indices) = document
        .reordered_document(&[0, 1], StackOrderCommand::BringToFront)
        .expect("reorder should succeed");

    assert_eq!(
        colors(&reordered),
        vec![
            RgbaColor::new(0, 0, 200, 255),
            RgbaColor::new(200, 0, 0, 255),
            RgbaColor::new(0, 200, 0, 255),
        ]
    );
    assert_eq!(indices, vec![1, 2]);
}

#[test]
fn send_to_back_and_single_steps() {
    let document = three_squares();
    let (back, indices) = document
        .reordered_document(&[2], StackOrderCommand::SendToBack)
        .expect("send to back");
    assert_eq!(colors(&back)[0], RgbaColor::new(0, 0, 200, 255));
    assert_eq!(indices, vec![0]);
    let (forward, indices) = document
        .reordered_document(&[0], StackOrderCommand::BringForward)
        .expect("bring forward");
    assert_eq!(colors(&forward)[1], RgbaColor::new(200, 0, 0, 255));
    assert_eq!(indices, vec![1]);
    let (backward, indices) = document
        .reordered_document(&[1], StackOrderCommand::SendBackward)
        .expect("send backward");
    assert_eq!(colors(&backward)[0], RgbaColor::new(0, 200, 0, 255));
    assert_eq!(indices, vec![0]);
    assert!(document
        .reordered_document(&[2], StackOrderCommand::BringToFront)
        .is_none());
    assert!(document
        .reordered_document(&[0], StackOrderCommand::SendBackward)
        .is_none());
}

#[test]
fn grouped_and_ungrouped_documents_preserve_internal_order() {
    let mut document = PaintDocument::default();
    document.push_shape(ShapeElement::new(
        ShapeKind::Rectangle,
        RgbaColor::new(255, 0, 0, 255),
        s(2.0),
        p(10.0, 10.0),
        p(30.0, 30.0),
    ));
    document.push_stroke(sample_stroke());
    document.push_shape(ShapeElement::new(
        ShapeKind::Ellipse,
        RgbaColor::new(0, 0, 255, 255),
        s(2.0),
        p(40.0, 12.0),
        p(70.0, 32.0),
    ));

    let (grouped, selection) = document
        .grouped_document(&[0, 2])
        .expect("grouping should succeed");
    assert_eq!(selection, vec![0]);

    let Some(PaintElement::Group(group)) = grouped.element(0) else {
        panic!("first element should become a group");
    };
    assert_eq!(group.elements.len(), 2);
    assert!(matches!(group.elements[0], PaintElement::Shape(_)));
    assert!(matches!(group.elements[1], PaintElement::Shape(_)));

    let (ungrouped, selection) = grouped
        .ungrouped_document(&[0])
        .expect("ungrouping should succeed");
    assert_eq!(selection, vec![0, 1]);
    assert_eq!(ungrouped.element_count(), 3);
    assert_eq!(ungrouped.element(0), document.element(0));
    assert_eq!(ungrouped.element(1), document.element(2));
    assert_eq!(ungrouped.element(2), document.element(1));
}

#[test]
fn grouping_needs_two_elements_and_ungrouping_a_group() {
    let document = three_squares();
    assert!(document.grouped_document(&[1]).is_none());
    assert!(document.grouped_document(&[1, 1, 7]).is_none());
    assert!(document.ungrouped_document(&[0, 1]).is_none());
}

#[test]
fn selection_contains_group_detects_group_elements() {
    let document = PaintDocument::from_flat_elements(
        CanvasSize::default(),
        RgbaColor::white(),
        vec![PaintElement::Group(GroupElement {
            elements: vec![PaintElement::Stroke(sample_stroke())],
        })],
    );

    assert!(document.selection_contains_group(&[0]));
    assert!(!document.selection_contains_group(&[1]));
}

#[test]
fn hidden_or_locked_destination_rejects_layer_transfer() {
    let (document, _, destination_layer_id) = layered_transfer_document();
    let hidden = document
        .toggled_layer_visibility_document(destination_layer_id)
        .expect("hide destination layer");
    assert!(hidden
        .moved_selection_to_layer_document(&[0], destination_layer_id)
        .is_none());
    assert!(hidden
        .duplicated_selection_to_layer_document(&[0], destination_layer_id)
        .is_none());

    let locked = document
        .toggled_layer_locked_document(destination_layer_id)
        .expect("lock destination layer");
    assert!(locked
        .moved_selection_to_layer_document(&[0], destination_layer_id)
        .is_none());
    assert!(locked
        .duplicated_selection_to_layer_document(&[0], destination_layer_id)
        .is_none());
}

#[test]
fn add_then_delete_layer_restores_layers() {
    let mut document = PaintDocument::default();
    document.push_shape(sample_shape());
    let (added, id) = document.add_layer_document();
    assert_eq!(id, 2);
    assert_eq!(added.layers()[1].name, "レイヤー 2");
    let (deleted, active) = added.delete_active_layer_document().expect("delete");
    assert_eq!(deleted.layers(), document.layers());
    assert_eq!(active, document.layers()[0].id);
    assert!(document.delete_active_layer_document().is_none());
}

#[test]
fn toggles_twice_give_back_the_drawing() {
    let (document, source, destination) = layered_transfer_document();
    let twice = document
        .toggled_layer_visibility_document(destination)
        .unwrap()
        .toggled_layer_visibility_document(destination)
        .unwrap();
    assert_eq!(twice, document);
    let twice = document
        .toggled_layer_locked_document(source)
        .unwrap()
        .toggled_layer_locked_document(source)
        .unwrap();
    assert_eq!(twice, document);
    assert!(document.toggled_layer_locked_document(99).is_none());
    let grid = document
        .toggled_grid_visibility_document()
        .unwrap()
        .toggled_grid_visibility_document()
        .unwrap();
    assert_eq!(grid, document);
}

#[test]
fn moving_a_layer_up_then_down_restores_order() {
    let (document, source, destination) = layered_transfer_document();
    let up = document.moved_layer_up_document(source).expect("move up");
    assert_eq!(up.layers()[1].id, source);
    assert!(up.moved_layer_up_document(source).is_none());
    let down = up.moved_layer_down_document(source).expect("move down");
    assert_eq!(down, document);
    assert!(document.moved_layer_down_document(source).is_none());
    assert!(document.moved_layer_up_document(destination).is_none());
}

#[test]
fn rename_trims_and_refuses_empty_or_same_names() {
    let document = PaintDocument::default();
    let renamed = document.renamed_layer_document(1, "  背景  ").expect("rename");
    assert_eq!(renamed.layers()[0].name, "背景");
    assert!(document.renamed_layer_document(1, "   ").is_none());
    assert!(document.renamed_layer_document(1, "レイヤー 1").is_none());
    assert!(document.renamed_layer_document(5, "x").is_none());
}

#[test]
fn duplicate_active_layer_names_the_copy() {
    let mut document = PaintDocument::default();
    document.push_shape(sample_shape());
    let (duplicated, id) = document.duplicate_active_layer_document().expect("duplicate");
    assert_eq!(duplicated.layers()[1].name, "レイヤー 1 のコピー");
    assert_eq!(duplicated.layers()[1].id, id);
    assert_eq!(duplicated.next_layer_id, id + 1);
}

#[test]
fn push_fill_and_counts() {
    let mut document = PaintDocument::default();
    assert!(!document.has_elements());
    document.push_fill(FillElement::new(
        RgbaColor::new(1, 2, 3, 255),
        p(0.0, 0.0),
        vec![FillSpan { y: 0, x_start: 0, x_end: 3 }],
    ));
    document.push_stroke(sample_stroke());
    assert!(document.has_strokes());
    assert_eq!(document.element_count(), 2);
    assert_eq!(document.total_element_count(), 2);
    assert_eq!(document.element(0).map(|e| e.kind_label()), Some("塗り"));
    assert_eq!(document.visible_layers().len(), 1);
}

#[test]
fn remove_guide_and_toggle_settings() {
    let document = PaintDocument::default();
    assert!(document.remove_guide_document(0).is_none());
    let rulers = document.toggled_rulers_visibility_document().unwrap();
    assert!(!rulers.rulers.visible);
    let smart = document.toggled_smart_guides_visibility_document().unwrap();
    assert!(!smart.smart_guides.visible);
    let snap = document.toggled_grid_snap_document().unwrap();
    assert_ne!(snap.grid.snap_enabled, document.grid.snap_enabled);
    let guides = document.toggled_guides_visibility_document().unwrap();
    assert_ne!(guides.guides.visible, document.guides.visible);
    let guide_snap = document.toggled_guides_snap_document().unwrap();
    assert_ne!(guide_snap.guides.snap_enabled, document.guides.snap_enabled);
}

fn five_colored_squares() -> PaintDocument {
    let mut document = PaintDocument::default();
    for shade in 1..=5u8 {
        document.push_shape(ShapeElement::new(
            ShapeKind::Rectangle,
            RgbaColor::new(shade * 10, 0, 0, 255),
            s(2.0),
            p(shade as f32 * 10.0, 0.0),
            p(shade as f32 * 10.0 + 5.0, 5.0),
        ));
    }
    document
}

#[test]
fn stepping_a_split_selection_keeps_its_relative_order() {
    let document = five_colored_squares();
    let (forward, indices) = document
        .reordered_document(&[0, 2], StackOrderCommand::BringForward)
        .expect("bring forward");
    let shades: Vec<u8> = colors(&forward).iter().map(|c| c.r).collect();
    assert_eq!(shades, vec![20, 10, 40, 30, 50]);
    assert_eq!(indices, vec![1, 3]);

    let (backward, indices) = document
        .reordered_document(&[2, 4], StackOrderCommand::SendBackward)
        .expect("send backward");
    let shades: Vec<u8> = colors(&backward).iter().map(|c| c.r).collect();
    assert_eq!(shades, vec![10, 30, 20, 50, 40]);
    assert_eq!(indices, vec![1, 3]);
}

#[test]
fn opposite_corner_of_the_opposite_corner_is_the_corner() {
    for handle in [
        ShapeHandle::TopLeft,
        ShapeHandle::TopRight,
        ShapeHandle::BottomRight,
        ShapeHandle::BottomLeft,
    ] {
        let opposite = handle.opposite_corner().expect("corner");
        assert_ne!(opposite, handle);
        assert_eq!(opposite.opposite_corner(), Some(handle));
    }
    assert_eq!(ShapeHandle::Start.opposite_corner(), None);
    assert_eq!(ShapeHandle::End.opposite_corner(), None);
}

#[test]
fn repairing_a_broken_layer_structure_once_is_enough() {
    let mut broken = PaintDocument::default();
    broken.push_shape(sample_shape());
    broken.active_layer_id = 42;
    broken.next_layer_id = 0;

    let once = broken.sanitized();
    assert_eq!(once.active_layer_id, once.layers[0].id);
    assert_eq!(once.next_layer_id, 2);
    let twice = once.deep_copy().sanitized();
    assert_eq!(twice, once);

    let mut empty = PaintDocument::default();
    empty.layers.clear();
    let repaired = empty.sanitized();
    assert_eq!(repaired.layers.len(), 1);
    assert_eq!(repaired.layers[0].name, "レイヤー 1");
}

#[test]
fn repairing_raises_the_grid_spacing_and_orders_clamped_guides() {
    let mut document = PaintDocument::default();
    document.grid.spacing = s(2.0);
    document.guides.lines = vec![
        GuideLine::new(GuideAxis::Vertical, s(5000.0)),
        GuideLine::new(GuideAxis::Horizontal, s(30.0)),
        GuideLine::new(GuideAxis::Vertical, s(-4.0)),
        GuideLine::new(GuideAxis::Horizontal, s(10.0)),
    ];
    assert!(document.layout_is_repairable());
    let width = document.canvas_size.width;

    let repaired = document.sanitized();

    assert_eq!(repaired.grid.spacing, s(8.0));
    assert_eq!(
        repaired.guides.lines,
        vec![
            GuideLine::new(GuideAxis::Horizontal, s(10.0)),
            GuideLine::new(GuideAxis::Horizontal, s(30.0)),
            GuideLine::new(GuideAxis::Vertical, s(0.0)),
            GuideLine::new(GuideAxis::Vertical, width),
        ]
    );
    assert_eq!(repaired.deep_copy().sanitized(), repaired);
}

#[test]
fn replacing_with_a_drawing_that_repairs_to_the_current_one_changes_nothing() {
    let mut history = DocumentHistory::new(PaintDocument::default());
    let mut narrow = PaintDocument::default();
    narrow.grid.spacing = s(2.0);
    assert_eq!(history.current().grid.spacing, s(48.0));

    let mut eight = PaintDocument::default();
    eight.grid.spacing = s(8.0);
    assert!(history.replace_document(eight));
    assert!(!history.replace_document(narrow));
    assert_eq!(history.current().grid.spacing, s(8.0));
}

#[test]
fn guides_across_a_negative_canvas_side_cannot_be_repaired() {
    let mut document = PaintDocument::default();
    document.canvas_size.height = s(-1.0);
    assert!(document.layout_is_repairable());
    document.guides.lines.push(GuideLine::new(GuideAxis::Horizontal, s(3.0)));
    assert!(!document.layout_is_repairable());
}

#[test]
fn ungrouping_a_fresh_group_restores_the_run_and_selects_it() {
    let mut document = PaintDocument::default();
    document.push_shape(sample_shape());
    document.push_stroke(sample_stroke());
    document.push_shape(sample_shape());
    document.push_stroke(sample_stroke());

    let (grouped, selection) = document.grouped_document(&[2, 1]).expect("group");
    assert_eq!(selection, vec![1]);
    let (ungrouped, selection) = grouped.ungrouped_document(&[1]).expect("ungroup");
    assert_eq!(ungrouped, document);
    assert_eq!(selection, vec![1, 2]);
}

#[test]
fn a_guide_at_nan_is_kept_and_ordered_as_zero_hundredths() {
    let mut document = PaintDocument::default();
    document.guides.lines = vec![
        GuideLine::new(GuideAxis::Vertical, s(100.0)),
        GuideLine::new(GuideAxis::Vertical, s(f32::NAN)),
        GuideLine::new(GuideAxis::Horizontal, s(5.0)),
    ];
    assert!(document.layout_is_repairable());

    let repaired = document.deep_copy().sanitized();
    assert_eq!(
        repaired.guides.lines,
        vec![
            GuideLine::new(GuideAxis::Horizontal, s(5.0)),
            GuideLine::new(GuideAxis::Vertical, s(f32::NAN)),
            GuideLine::new(GuideAxis::Vertical, s(100.0)),
        ]
    );

    let mut history = DocumentHistory::new(PaintDocument::default());
    assert!(history.replace_document(document));
    assert_eq!(history.current().guides.lines.len(), 3);
    assert!(history.undo());
    assert!(history.current().guides.lines.is_empty());
    assert!(history.can_redo());
}

#[test]
fn a_nan_guide_among_differing_near_zero_guides_cannot_be_ordered() {
    let mut document = PaintDocument::default();
    document.guides.lines = vec![
        GuideLine::new(GuideAxis::Vertical, s(f32::NAN)),
        GuideLine::new(GuideAxis::Vertical, s(0.001)),
        GuideLine::new(GuideAxis::Vertical, s(0.002)),
    ];
    assert!(!document.layout_is_repairable());
    document.guides.lines[2].axis = GuideAxis::Horizontal;
    assert!(document.layout_is_repairable());
}
