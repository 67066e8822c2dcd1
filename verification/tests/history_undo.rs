use rust_paint_foundation::document::PaintDocument;
use rust_paint_foundation::element::{GroupElement, PaintElement, ShapeElement, Stroke};
use rust_paint_foundation::history::DocumentHistory;
use rust_paint_foundation::model::{
    CanvasSize, GuideAxis, GuideLine, LayerId, PaintPoint, PaintVector, RgbaColor, Scalar,
    ShapeKind, ToolKind,
};

fn s(v: f32) -> Scalar {
    Scalar::from_bits(v.to_bits())
}

fn p(x: f32, y: f32) -> PaintPoint {
    PaintPoint::new(s(x), s(y))
}

fn sample_stroke() -> Stroke {
    let mut stroke = Stroke::new(ToolKind::Brush, RgbaColor::charcoal(), s(8.0));
    stroke.push_point(p(10.0, 10.0));
    stroke.push_point(p(60.0, 10.0));
    stroke
}

fn sample_shape() -> ShapeElement {
    ShapeElement::new(
        ShapeKind::Rectangle,
        RgbaColor::charcoal(),
        s(4.0),
        p(80.0, 20.0),
        p(140.0, 70.0),
    )
}

fn layered_transfer_document() -> (PaintDocument, LayerId, LayerId) {
    let mut document = PaintDocument::default();
    let source_layer_id = document.active_layer_id();
    document.push_shape(sample_shape());
    document.push_stroke(sample_stroke());

    let (mut next, destination_layer_id) = document.add_layer_document();
    next.push_shape(ShapeElement::new(
        ShapeKind::Ellipse,
        RgbaColor::new(32, 96, 220, 255),
        s(3.0),
        p(24.0, 24.0),
        p(60.0, 52.0),
    ));
    assert!(next.set_active_layer(source_layer_id));
    (next, source_layer_id, destination_layer_id)
}

#[test]
fn history_tracks_replace_for_shape_editing() {
    let mut history = DocumentHistory::new(PaintDocument::default());
    history.commit_shape(sample_shape());

    let rotated = ShapeElement::with_rotation(
        ShapeKind::Rectangle,
        RgbaColor::charcoal(),
        s(4.0),
        p(80.0, 20.0),
        p(140.0, 70.0),
        s(0.5),
    );
    let replacement = PaintElement::Shape(rotated);
    assert!(history.replace_element(0, replacement));
    assert!(history.undo());
    assert!(history.redo());
}

#[test]
fn history_replace_clears_redo() {
    let mut history = DocumentHistory::new(PaintDocument::default());
    history.commit_stroke(sample_stroke());
    assert!(history.undo());
    assert!(history.can_redo());

    let mut replacement = PaintDocument::default();
    replacement.push_shape(sample_shape());
    assert!(history.replace_document(replacement));

    assert!(!history.can_redo());
}

#[test]
fn history_replace_document_supports_multi_move_undo_redo() {
    let mut history = DocumentHistory::new(PaintDocument::default());
    history.commit_shape(sample_shape());
    history.commit_stroke(sample_stroke());

    let mut moved = history.current().deep_copy();
    let moved_shape = ShapeElement::new(
        ShapeKind::Rectangle,
        RgbaColor::charcoal(),
        s(4.0),
        p(80.0 + 12.0, 20.0 - 8.0),
        p(140.0 + 12.0, 70.0 - 8.0),
    );
    let mut moved_stroke = Stroke::new(ToolKind::Brush, RgbaColor::charcoal(), s(8.0));
    moved_stroke.push_point(p(10.0 + 12.0, 10.0 - 8.0));
    moved_stroke.push_point(p(60.0 + 12.0, 10.0 - 8.0));
    assert!(moved.replace_elements(&vec![
        (0, PaintElement::Shape(moved_shape)),
        (1, PaintElement::Stroke(moved_stroke)),
    ]));
    assert!(history.replace_document(moved.deep_copy()));
    assert_eq!(history.current(), &moved);
    assert!(history.undo());
    assert!(history.redo());
    assert_eq!(history.current(), &moved);
}

#[test]
fn replace_document_skips_identical_state() {
    let document = PaintDocument::default();
    let mut history = DocumentHistory::new(document.deep_copy());
    assert!(!history.replace_document(document));
}

#[test]
fn history_replace_document_tracks_group_undo_redo() {
    let mut history = DocumentHistory::new(PaintDocument::default());
    history.commit_shape(sample_shape());
    history.commit_stroke(sample_stroke());

    let grouped = history
        .current()
        .grouped_document(&[0, 1])
        .expect("group should succeed")
        .0;
    assert!(history.replace_document(grouped.deep_copy()));
    assert!(history.undo());
    assert!(history.redo());
    assert_eq!(history.current(), &grouped);
}

#[test]
fn layer_add_delete_tracks_undo_redo() {
    let mut history = DocumentHistory::new(PaintDocument::default());
    let (with_layer, new_layer_id) = history.current().add_layer_document();
    assert!(history.replace_document(with_layer.deep_copy()));
    assert_eq!(history.current().layer_count(), 2);
    assert_eq!(history.current().active_layer_id(), new_layer_id);
    assert!(history.undo());
    assert_eq!(history.current().layer_count(), 1);
    assert!(history.redo());
    assert_eq!(history.current().layer_count(), 2);

    let deleted = history
        .current()
        .delete_active_layer_document()
        .expect("delete layer should succeed")
        .0;
    assert!(history.replace_document(deleted.deep_copy()));
    assert_eq!(history.current().layer_count(), 1);
}

#[test]
fn duplicate_active_layer_tracks_undo_redo() {
    let mut document = PaintDocument::default();
    document.push_shape(sample_shape());
    let mut history = DocumentHistory::new(document);

    let (duplicated, duplicate_id) = history
        .current()
        .duplicate_active_layer_document()
        .expect("duplicate layer should succeed");
    assert!(history.replace_document(duplicated.deep_copy()));
    assert_eq!(history.current().layer_count(), 2);
    assert_eq!(history.current().active_layer_id(), duplicate_id);
    assert_eq!(
        history
            .current()
            .layer(duplicate_id)
            .unwrap()
            .elements
            .len(),
        1
    );

    assert!(history.undo());
    assert_eq!(history.current().layer_count(), 1);
    assert!(history.redo());
    assert_eq!(history.current().layer_count(), 2);
}

#[test]
fn move_selection_to_another_layer_tracks_undo_redo() {
    let (document, source_layer_id, destination_layer_id) = layered_transfer_document();
    let (moved, selection) = document
        .moved_selection_to_layer_document(&[0, 1], destination_layer_id)
        .expect("move to other layer should succeed");

    assert_eq!(moved.active_layer_id(), destination_layer_id);
    assert_eq!(selection, vec![1, 2]);
    assert_eq!(moved.layer(source_layer_id).unwrap().elements.len(), 0);
    assert_eq!(moved.layer(destination_layer_id).unwrap().elements.len(), 3);

    let mut history = DocumentHistory::new(document.deep_copy());
    assert!(history.replace_document(moved.deep_copy()));
    assert_eq!(history.current(), &moved);
    assert!(history.undo());
    assert_eq!(history.current(), &document);
    assert!(history.redo());
    assert_eq!(history.current(), &moved);
}

#[test]
fn duplicate_selection_to_another_layer_tracks_undo_redo() {
    let (document, source_layer_id, destination_layer_id) = layered_transfer_document();
    let (duplicated, selection) = document
        .duplicated_selection_to_layer_document(&[0, 1], destination_layer_id)
        .expect("duplicate to other layer should succeed");

    assert_eq!(duplicated.active_layer_id(), destination_layer_id);
    assert_eq!(selection, vec![1, 2]);
    assert_eq!(duplicated.layer(source_layer_id).unwrap().elements.len(), 2);
    assert_eq!(
        duplicated
            .layer(destination_layer_id)
            .unwrap()
            .elements
            .len(),
        3
    );

    let mut history = DocumentHistory::new(document.deep_copy());
    assert!(history.replace_document(duplicated.deep_copy()));
    assert_eq!(history.current(), &duplicated);
    assert!(history.undo());
    assert_eq!(history.current(), &document);
    assert!(history.redo());
    assert_eq!(history.current(), &duplicated);
}

#[test]
fn undo_after_edit_returns_previous_drawing_and_redo_returns_edit() {
    let mut history = DocumentHistory::new(PaintDocument::default());
    assert!(!history.can_undo());
    assert!(!history.undo());
    assert!(!history.redo());
    let before = history.current().deep_copy();
    assert!(history.commit_shape(sample_shape()));
    let after = history.current().deep_copy();
    assert_eq!(after.element_count(), 1);
    assert!(history.undo());
    assert_eq!(history.current(), &before);
    assert!(history.can_redo());
    assert!(!history.can_undo());
    assert!(history.redo());
    assert_eq!(history.current(), &after);
    assert!(history.undo());
    assert!(history.redo());
    assert_eq!(history.current(), &after);
}

#[test]
fn clear_empties_layers_once() {
    let mut history = DocumentHistory::new(PaintDocument::default());
    assert!(!history.clear());
    history.commit_stroke(sample_stroke());
    assert!(history.clear());
    assert!(!history.current().has_elements());
    assert!(!history.clear());
    assert!(history.undo());
    assert_eq!(history.current().element_count(), 1);
}

#[test]
fn replace_element_refuses_missing_and_identical_elements() {
    let mut history = DocumentHistory::new(PaintDocument::default());
    history.commit_shape(sample_shape());
    assert!(!history.replace_element(0, PaintElement::Shape(sample_shape())));
    assert!(!history.replace_element(3, PaintElement::Stroke(sample_stroke())));
    assert!(history.replace_element(0, PaintElement::Stroke(sample_stroke())));
    assert!(history.can_undo());
}

#[test]
fn translate_element_needs_motion_and_an_element() {
    let mut history = DocumentHistory::new(PaintDocument::default());
    history.commit_shape(sample_shape());
    let moved = ShapeElement::new(
        ShapeKind::Rectangle,
        RgbaColor::charcoal(),
        s(4.0),
        p(85.0, 20.0),
        p(145.0, 70.0),
    );
    let zero = PaintVector::new(s(0.0), s(0.0));
    let right = PaintVector::new(s(5.0), s(0.0));
    assert!(!history.translate_element(0, zero, PaintElement::Shape(moved)));
    assert!(!history.translate_element(4, right, PaintElement::Shape(moved)));
    assert!(history.translate_element(0, right, PaintElement::Shape(moved)));
    assert_eq!(
        history.current().element(0),
        Some(&PaintElement::Shape(moved))
    );
}

#[test]
fn set_active_layer_is_not_an_undo_step() {
    let (with_layer, new_id) = PaintDocument::default().add_layer_document();
    let mut history = DocumentHistory::new(with_layer);
    assert!(history.set_active_layer(1));
    assert_eq!(history.current().active_layer_id(), 1);
    assert!(!history.can_undo());
    assert!(!history.set_active_layer(new_id + 40));
    assert_eq!(history.current().active_layer_id(), 1);
}

#[test]
fn new_history_repairs_layer_structure() {
    let mut document = PaintDocument::from_flat_elements(
        CanvasSize::default(),
        RgbaColor::white(),
        vec![PaintElement::Group(GroupElement { elements: vec![] })],
    );
    document.active_layer_id = 77;
    document.next_layer_id = 0;
    let history = DocumentHistory::new(document);
    assert_eq!(history.current().active_layer_id(), 1);
    assert_eq!(history.current().next_layer_id, 2);
    let mut empty = PaintDocument::default();
    empty.layers.clear();
    let history = DocumentHistory::new(empty);
    assert_eq!(history.current().layer_count(), 1);
    assert_eq!(history.current().layers()[0].name, "レイヤー 1");
}

#[test]
fn guide_and_grid_settings_track_undo_redo() {
    let mut history = DocumentHistory::new(PaintDocument::default());

    let with_grid_hidden = history
        .current()
        .toggled_grid_visibility_document()
        .expect("toggle grid visibility");
    assert!(history.replace_document(with_grid_hidden.deep_copy()));
    assert!(!history.current().grid.visible);
    assert!(history.undo());
    assert!(history.current().grid.visible);
    assert!(history.redo());
    assert!(!history.current().grid.visible);

    // The guide, spacing and moved-guide drawings, as the editor's floating-point helpers
    // make them.
    let mut with_guide = history.current().deep_copy();
    with_guide.guides.lines.push(GuideLine::new(GuideAxis::Vertical, s(128.0)));
    assert!(history.replace_document(with_guide));
    assert_eq!(history.current().guides.lines.len(), 1);
    assert!(history.undo());
    assert!(history.current().guides.lines.is_empty());
    assert!(history.redo());
    assert_eq!(history.current().guides.lines.len(), 1);

    let mut spaced = history.current().deep_copy();
    spaced.grid.spacing = s(32.0);
    assert!(history.replace_document(spaced));
    assert_eq!(history.current().grid.spacing, s(32.0));
    assert!(history.undo());
    assert_eq!(history.current().grid.spacing, s(48.0));
    assert!(history.redo());
    assert_eq!(history.current().grid.spacing, s(32.0));

    let mut moved = history.current().deep_copy();
    moved.guides.lines[0].position = s(196.0);
    assert!(history.replace_document(moved));
    assert_eq!(history.current().guides.lines[0].position, s(196.0));
    assert!(history.undo());
    assert_eq!(history.current().guides.lines[0].position, s(128.0));
    assert!(history.redo());
    assert_eq!(history.current().guides.lines[0].position, s(196.0));
}
