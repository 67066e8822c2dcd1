use rust_paint_foundation::fill::PixelGrid;
use rust_paint_foundation::model::{CanvasSize, RgbaColor};
use rust_paint_foundation::element::{PaintElement, Stroke};
use rust_paint_foundation::model::{Scalar, ToolKind};
use rust_paint_foundation::storage::{
    normalize_file_name, to_png_file_name, EditablePaintFile, EditableVersion,
    FileFormatDescriptor, PaintDocumentV1, PaintDocumentV3, StorageError, StorageFacade,
    StorageFeature,
};
use rust_paint_foundation::svg::RenderError;
use rust_paint_foundation::document::PaintDocument;

fn header(id: &str, version: u32) -> Result<FileFormatDescriptor, String> {
    Ok(FileFormatDescriptor { id: id.to_string(), version })
}

const ID: &str = "rust-paint-foundation/document";

#[test]
fn png_names_follow_document_names() {
    assert_eq!(to_png_file_name("drawing.paint.json"), "drawing.png");
    assert_eq!(to_png_file_name("notes.json"), "notes.png");
    assert_eq!(to_png_file_name("image.png"), "image.png");
    assert_eq!(to_png_file_name(""), "untitled.png");
    assert_eq!(to_png_file_name("スケッチ"), "スケッチ.png");
    assert_eq!(to_png_file_name(".json"), ".png");
    let facade = StorageFacade::new();
    assert_eq!(facade.suggested_png_file_name("a.paint.json"), "a.png");
    assert_eq!(facade.suggested_file_name(), "untitled.paint.json");
}

#[test]
fn facade_labels() {
    let facade = StorageFacade::default();
    assert_eq!(facade.editable_format_label(), "Editable JSON envelope v4 (.paint.json)");
    assert_eq!(facade.planned_edit_format(), facade.editable_format_label());
    assert_eq!(facade.planned_export_format(), "PNG raster export (.png)");
    assert_eq!(
        facade.storage_strategy_summary(),
        "Native uses file dialogs. Web uses browser download/upload."
    );
    assert_eq!(StorageFeature::WorkingDocument.label(), "editable local document format");
    assert_eq!(StorageFeature::PngExport.label(), "PNG export");
}

#[test]
fn editable_versions_are_told_apart() {
    let facade = StorageFacade::new();
    assert_eq!(facade.editable_version(10, header(ID, 4)), Ok(EditableVersion::Current));
    assert_eq!(facade.editable_version(10, header(ID, 3)), Ok(EditableVersion::Flat));
    assert_eq!(facade.editable_version(10, header(ID, 2)), Ok(EditableVersion::Flat));
    assert_eq!(facade.editable_version(10, header(ID, 1)), Ok(EditableVersion::Legacy));
}

#[test]
fn decode_rejects_wrong_format_id() {
    let facade = StorageFacade::new();
    assert_eq!(
        facade.editable_version(10, header("other/format", 4)),
        Err(StorageError::UnsupportedFormat("other/format".to_string()))
    );
}

#[test]
fn editable_version_errors() {
    let facade = StorageFacade::new();
    assert_eq!(facade.editable_version(0, header(ID, 4)), Err(StorageError::EmptyFile));
    assert_eq!(
        facade.editable_version(5, Err("expected value".to_string())),
        Err(StorageError::Deserialize("expected value".to_string()))
    );
    assert_eq!(
        facade.editable_version(5, header(ID, 9)),
        Err(StorageError::UnsupportedVersion(9))
    );
    assert_eq!(
        facade.editable_version(5, header(ID, 0)),
        Err(StorageError::UnsupportedVersion(0))
    );
}

#[test]
fn storage_error_messages() {
    assert_eq!(StorageError::Cancelled.message(), "The file dialog was cancelled");
    assert_eq!(StorageError::EmptyFile.message(), "The selected file was empty");
    assert_eq!(
        StorageError::UnsupportedFormat("x".to_string()).message(),
        "Unsupported paint document format: x"
    );
    assert_eq!(
        StorageError::UnsupportedVersion(17).message(),
        "Unsupported paint document version: 17"
    );
    assert_eq!(StorageError::Serialize("e".to_string()).message(), "Failed to serialize document: e");
    assert_eq!(StorageError::Deserialize("e".to_string()).message(), "Failed to read document: e");
    assert_eq!(StorageError::Render("e".to_string()).message(), "Failed to render export: e");
    assert_eq!(StorageError::Io("e".to_string()).message(), "File I/O failed: e");
    assert_eq!(
        RenderError::InvalidCanvasSize.message(),
        "Canvas size must be finite and greater than zero"
    );
    assert_eq!(
        RenderError::PngEncode("boom".to_string()).message(),
        "PNG encoding failed: boom"
    );
}

#[test]
fn normalize_file_name_falls_back_when_empty() {
    assert_eq!(normalize_file_name(String::new(), "untitled.png"), "untitled.png");
    assert_eq!(normalize_file_name("a.png".to_string(), "untitled.png"), "a.png");
}

#[test]
fn envelope_and_older_drawings() {
    let file = EditablePaintFile::from_document(PaintDocument::default());
    assert_eq!(file.format.id, ID);
    assert_eq!(file.format.version, 4);
    assert_eq!(file.metadata.title, None);
    let mut stroke = Stroke::new(ToolKind::Brush, RgbaColor::charcoal(), Scalar::from_bits(6.0f32.to_bits()));
    stroke.push_point(rust_paint_foundation::model::PaintPoint::new(Scalar::zero(), Scalar::zero()));
    let v1 = PaintDocumentV1 {
        canvas_size: CanvasSize::default(),
        background: RgbaColor::white(),
        strokes: vec![stroke.deep_copy(), stroke.deep_copy()],
    };
    let current = v1.into_current();
    assert_eq!(current.layer_count(), 1);
    assert_eq!(current.element_count(), 2);
    assert_eq!(current.element(1), Some(&PaintElement::Stroke(stroke.deep_copy())));
    let v3 = PaintDocumentV3 {
        canvas_size: CanvasSize::default(),
        background: RgbaColor::new(1, 2, 3, 255),
        elements: vec![PaintElement::Stroke(stroke)],
    };
    let current = v3.into_current();
    assert_eq!(current.background, RgbaColor::new(1, 2, 3, 255));
    assert_eq!(current.active_layer_id(), 1);
    assert_eq!(current.next_layer_id, 2);
}

#[test]
fn png_export_encodes_or_reports() {
    let facade = StorageFacade::new();
    let grid = PixelGrid { width: 2, height: 1, data: vec![255, 0, 0, 255, 0, 0, 0, 0] };
    let bytes = facade.export_png_bytes(Ok(grid)).expect("png bytes");
    assert_eq!(&bytes[..8], &[137, 80, 78, 71, 13, 10, 26, 10]);
    assert!(bytes.len() > 8);
    let empty = PixelGrid { width: 0, height: 1, data: vec![] };
    assert_eq!(
        facade.export_png_bytes(Ok(empty)),
        Err(StorageError::Render("Canvas size must be finite and greater than zero".to_string()))
    );
    let mismatched = PixelGrid { width: 2, height: 2, data: vec![0; 4] };
    assert!(facade.export_png_bytes(Ok(mismatched)).is_err());
    assert_eq!(
        facade.export_png_bytes(Err(RenderError::PngEncode("x".to_string()))),
        Err(StorageError::Render("PNG encoding failed: x".to_string()))
    );
}
