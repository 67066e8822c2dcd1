use rust_paint_foundation::document::PaintDocument;
use rust_paint_foundation::model::{AlignmentKind, RgbaColor, ShapeKind, StackOrderCommand};
use rust_paint_foundation::selection::{
    normalize_selection_indices, CanvasToolKind, DocumentEditMode, SelectionState,
};

#[test]
fn normalize_selection_indices_sorts_and_deduplicates() {
    let mut indices = vec![3, 1, 2, 3, 1];
    normalize_selection_indices(&mut indices);
    assert_eq!(indices, vec![1, 2, 3]);
}

#[test]
fn normalizing_twice_changes_nothing() {
    let mut indices = vec![9, 0, 4, 4, 7, 0];
    normalize_selection_indices(&mut indices);
    let once = indices.clone();
    normalize_selection_indices(&mut indices);
    assert_eq!(indices, once);
    assert_eq!(once, vec![0, 4, 7, 9]);
    let mut empty: Vec<usize> = Vec::new();
    normalize_selection_indices(&mut empty);
    assert!(empty.is_empty());
}

#[test]
fn toggle_adds_in_order_and_removes() {
    let mut selection = SelectionState::new();
    selection.toggle(5);
    selection.toggle(2);
    selection.toggle(9);
    assert_eq!(selection.indices(), &[2, 5, 9]);
    selection.toggle(5);
    assert_eq!(selection.indices(), &[2, 9]);
    assert!(selection.contains(9));
    assert!(!selection.contains(5));
    assert_eq!(selection.len(), 2);
}

#[test]
fn toggling_twice_restores_the_selection() {
    let mut selection = SelectionState::default();
    selection.set_indices(vec![4, 1, 8]);
    let before = selection.indices().to_vec();
    selection.toggle(3);
    selection.toggle(3);
    assert_eq!(selection.indices(), before.as_slice());
    selection.toggle(8);
    selection.toggle(8);
    assert_eq!(selection.indices(), before.as_slice());
}

#[test]
fn single_set_only_and_clear() {
    let mut selection = SelectionState::new();
    assert!(selection.is_empty());
    assert_eq!(selection.single(), None);
    selection.set_only(7);
    assert_eq!(selection.single(), Some(7));
    selection.toggle(2);
    assert_eq!(selection.single(), None);
    selection.clear();
    assert!(selection.is_empty());
}

#[test]
fn retain_valid_drops_positions_past_the_active_layer() {
    let mut document = PaintDocument::default();
    let shape = rust_paint_foundation::element::ShapeElement::new(
        ShapeKind::Rectangle,
        RgbaColor::charcoal(),
        rust_paint_foundation::model::Scalar::from_bits(4.0f32.to_bits()),
        rust_paint_foundation::model::PaintPoint::new(
            rust_paint_foundation::model::Scalar::from_bits(1.0f32.to_bits()),
            rust_paint_foundation::model::Scalar::from_bits(1.0f32.to_bits()),
        ),
        rust_paint_foundation::model::PaintPoint::new(
            rust_paint_foundation::model::Scalar::from_bits(9.0f32.to_bits()),
            rust_paint_foundation::model::Scalar::from_bits(9.0f32.to_bits()),
        ),
    );
    document.push_shape(shape);
    document.push_shape(shape);
    let mut selection = SelectionState::new();
    selection.set_indices(vec![0, 1, 2, 6]);
    selection.retain_valid(&document);
    assert_eq!(selection.indices(), &[0, 1]);
}

#[test]
fn canvas_tool_labels_and_shapes() {
    assert_eq!(CanvasToolKind::Select.label(), "Select");
    assert_eq!(CanvasToolKind::Eraser.label(), "Eraser");
    assert_eq!(CanvasToolKind::Rectangle.shape_kind(), Some(ShapeKind::Rectangle));
    assert_eq!(CanvasToolKind::Ellipse.shape_kind(), Some(ShapeKind::Ellipse));
    assert_eq!(CanvasToolKind::Line.shape_kind(), Some(ShapeKind::Line));
    assert_eq!(CanvasToolKind::Brush.shape_kind(), None);
}

#[test]
fn edit_mode_labels() {
    assert_eq!(DocumentEditMode::Move.label(), "moving");
    assert_eq!(DocumentEditMode::Resize.label(), "resizing");
    assert_eq!(DocumentEditMode::Rotate.label(), "rotating");
    assert_eq!(DocumentEditMode::Align(AlignmentKind::Top).label(), "aligning");
    assert_eq!(
        DocumentEditMode::Reorder(StackOrderCommand::SendToBack).label(),
        "reordering"
    );
}
