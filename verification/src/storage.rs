use vstd::prelude::*;

use crate::document::{fresh_document_view, first_layer_name, PaintDocument};
use crate::element::{elements_view, ElementView, PaintElement, Stroke};
use crate::fill::PixelGrid;
use crate::layer::LayerView;
use crate::model::{CanvasSize, RgbaColor, DEFAULT_LAYER_ID};
use crate::svg::{encode_png, pixmap_accepts, png_encodable, png_encoding, RenderError};
use crate::text::{decimal_chars, push_decimal, string_of};
use vstd::string::StringExecFns;

verus! {

/// Version of the editable file format written today.
pub const EDITABLE_FORMAT_VERSION: u32 = 4;

/// Version with flat element lists and no layers.
pub const PREVIOUS_EDITABLE_FORMAT_VERSION: u32 = 3;

/// Version with flat element lists, before groups.
pub const EARLIER_EDITABLE_FORMAT_VERSION: u32 = 2;

/// First version, holding strokes only.
pub const LEGACY_EDITABLE_FORMAT_VERSION: u32 = 1;

pub open spec fn editable_format_id() -> Seq<char> {
    "rust-paint-foundation/document"@
}

pub open spec fn default_file_name() -> Seq<char> {
    "untitled.paint.json"@
}

pub open spec fn default_png_file_name() -> Seq<char> {
    "untitled.png"@
}

/// What the storage layer offers.
#[derive(Debug, Clone, Copy, PartialEq, Eq, Structural)]
pub enum StorageFeature {
    WorkingDocument,
    PngExport,
}

impl StorageFeature {
    pub fn label(self) -> (r: &'static str)
        ensures
            r@ == (match self {
                StorageFeature::WorkingDocument => "editable local document format"@,
                StorageFeature::PngExport => "PNG export"@,
            }),
    {
        match self {
            StorageFeature::WorkingDocument => "editable local document format",
            StorageFeature::PngExport => "PNG export",
        }
    }
}

/// Why saving, loading or exporting failed.
#[derive(Debug, Clone, PartialEq, Eq)]
pub enum StorageError {
    Cancelled,
    EmptyFile,
    UnsupportedFormat(String),
    UnsupportedVersion(u32),
    Serialize(String),
    Deserialize(String),
    Render(String),
    Io(String),
}

impl StorageError {
    pub open spec fn spec_message(&self) -> Seq<char> {
        match self {
            StorageError::Cancelled => "The file dialog was cancelled"@,
            StorageError::EmptyFile => "The selected file was empty"@,
            StorageError::UnsupportedFormat(found) => "Unsupported paint document format: "@
                + found@,
            StorageError::UnsupportedVersion(version) => "Unsupported paint document version: "@
                + decimal_chars(*version as nat),
            StorageError::Serialize(error) => "Failed to serialize document: "@ + error@,
            StorageError::Deserialize(error) => "Failed to read document: "@ + error@,
            StorageError::Render(error) => "Failed to render export: "@ + error@,
            StorageError::Io(error) => "File I/O failed: "@ + error@,
        }
    }

    /// The text shown for the error.
    pub fn message(&self) -> (r: String)
        ensures
            r@ == self.spec_message(),
    {
        match self {
            StorageError::Cancelled => string_of("The file dialog was cancelled"),
            StorageError::EmptyFile => string_of("The selected file was empty"),
            StorageError::UnsupportedFormat(found) => {
                let mut s = string_of("Unsupported paint document format: ");
                s.append(found.as_str());
                s
            },
            StorageError::UnsupportedVersion(version) => {
                let mut s = string_of("Unsupported paint document version: ");
                push_decimal(&mut s, *version as u64);
                s
            },
            StorageError::Serialize(error) => {
                let mut s = string_of("Failed to serialize document: ");
                s.append(error.as_str());
                s
            },
            StorageError::Deserialize(error) => {
                let mut s = string_of("Failed to read document: ");
                s.append(error.as_str());
                s
            },
            StorageError::Render(error) => {
                let mut s = string_of("Failed to render export: ");
                s.append(error.as_str());
                s
            },
            StorageError::Io(error) => {
                let mut s = string_of("File I/O failed: ");
                s.append(error.as_str());
                s
            },
        }
    }
}

/// A drawing written to a file.
#[derive(Debug, Clone, PartialEq)]
pub struct SavedDocument {
    pub file_name: String,
}

/// A picture written to a file.
#[derive(Debug, Clone, PartialEq)]
pub struct ExportedImage {
    pub file_name: String,
}

/// A drawing read from a file.
#[derive(Debug)]
pub struct LoadedDocument {
    pub file_name: String,
    pub document: PaintDocument,
}

/// The format id and version at the head of an editable file.
#[derive(Debug, Clone, PartialEq, Eq)]
pub struct FileFormatDescriptor {
    pub id: String,
    pub version: u32,
}

/// Optional facts about an editable file.
#[derive(Debug, Clone, PartialEq, Eq)]
pub struct FileMetadata {
    pub title: Option<String>,
}

/// The envelope an editable file holds: format, metadata and the drawing.
#[derive(Debug)]
pub struct EditablePaintFile {
    pub format: FileFormatDescriptor,
    pub metadata: FileMetadata,
    pub document: PaintDocument,
}

impl EditablePaintFile {
    /// The envelope written today for `document`, without a title.
    pub fn from_document(document: PaintDocument) -> (f: Self)
        ensures
            f.format.id@ == editable_format_id(),
            f.format.version == EDITABLE_FORMAT_VERSION,
            f.metadata.title is None,
            f.document@ == document@,
    {
        EditablePaintFile {
            format: FileFormatDescriptor {
                id: string_of("rust-paint-foundation/document"),
                version: EDITABLE_FORMAT_VERSION,
            },
            metadata: FileMetadata { title: None },
            document,
        }
    }
}

/// The drawing of a version 2 or 3 file: one flat list of elements.
#[derive(Debug)]
pub struct PaintDocumentV3 {
    pub canvas_size: CanvasSize,
    pub background: RgbaColor,
    pub elements: Vec<PaintElement>,
}

/// The single layer a flat element list becomes.
pub open spec fn flat_layers(elements: Seq<ElementView>) -> Seq<LayerView> {
    seq![
        LayerView {
            id: DEFAULT_LAYER_ID,
            name: first_layer_name(),
            visible: true,
            locked: false,
            elements,
        },
    ]
}

impl PaintDocumentV3 {
    /// The same drawing as one layer with default layout aids.
    pub fn into_current(self) -> (d: PaintDocument)
        ensures
            d@ == fresh_document_view(
                self.canvas_size,
                self.background,
                flat_layers(elements_view(self.elements@)),
            ),
    {
        PaintDocument::from_flat_elements(self.canvas_size, self.background, self.elements)
    }
}

/// The drawing of a version 1 file: strokes only.
#[derive(Debug)]
pub struct PaintDocumentV1 {
    pub canvas_size: CanvasSize,
    pub background: RgbaColor,
    pub strokes: Vec<Stroke>,
}

impl PaintDocumentV1 {
    /// The same drawing as one layer of strokes with default layout aids.
    pub fn into_current(self) -> (d: PaintDocument)
        ensures
            d@ == fresh_document_view(
                self.canvas_size,
                self.background,
                flat_layers(Seq::new(self.strokes@.len(), |i: int| ElementView::Stroke(self.strokes@[i]@))),
            ),
    {
        let strokes = self.strokes;
        let ghost s = strokes@;
        let mut elements: Vec<PaintElement> = Vec::new();
        let mut rest = strokes;
        let mut reversed: Vec<Stroke> = Vec::new();
        while rest.len() > 0
            invariant
                reversed@.len() + rest@.len() == s.len(),
                forall|k: int| 0 <= k < rest@.len() ==> #[trigger] rest@[k] == s[k],
                forall|k: int|
                    0 <= k < reversed@.len() ==> #[trigger] reversed@[k] == s[s.len() - 1 - k],
            decreases rest@.len(),
        {
            let stroke = rest.pop().unwrap();
            reversed.push(stroke);
        }
        while reversed.len() > 0
            invariant
                reversed@.len() + elements@.len() == s.len(),
                forall|k: int|
                    0 <= k < reversed@.len() ==> #[trigger] reversed@[k] == s[s.len() - 1 - k],
                forall|k: int|
                    0 <= k < elements@.len() ==> #[trigger] elements@[k] == PaintElement::Stroke(
                        s[k],
                    ),
            decreases reversed@.len(),
        {
            let stroke = reversed.pop().unwrap();
            elements.push(PaintElement::Stroke(stroke));
        }
        assert(elements_view(elements@) =~= Seq::new(
            s.len(),
            |i: int| ElementView::Stroke(s[i]@),
        ));
        PaintDocument::from_flat_elements(self.canvas_size, self.background, elements)
    }
}

/// Which drawing an editable file holds, by its version.
#[derive(Debug, Clone, Copy, PartialEq, Eq, Structural)]
pub enum EditableVersion {
    Current,
    Flat,
    Legacy,
}

/// The same text.
pub fn same_text(a: &str, b: &str) -> (r: bool)
    ensures
        r == (a@ == b@),
{
    let n = a.unicode_len();
    if n != b.unicode_len() {
        return false;
    }
    let mut i: usize = 0;
    while i < n
        invariant
            n == a@.len(),
            n == b@.len(),
            i <= n,
            forall|k: int| 0 <= k < i ==> #[trigger] a@[k] == b@[k],
        decreases n - i,
    {
        if a.get_char(i) != b.get_char(i) {
            return false;
        }
        i += 1;
    }
    assert(a@ =~= b@);
    true
}

/// `s` ends with `suffix`.
pub open spec fn has_suffix(s: Seq<char>, suffix: Seq<char>) -> bool {
    s.len() >= suffix.len() && s.subrange(s.len() - suffix.len(), s.len() as int) == suffix
}

fn ends_with(s: &str, suffix: &str) -> (r: bool)
    ensures
        r == has_suffix(s@, suffix@),
{
    let n = s.unicode_len();
    let m = suffix.unicode_len();
    if m > n {
        return false;
    }
    let mut i: usize = 0;
    while i < m
        invariant
            n == s@.len(),
            m == suffix@.len(),
            m <= n,
            i <= m,
            forall|k: int| 0 <= k < i ==> #[trigger] suffix@[k] == s@[n - m + k],
        decreases m - i,
    {
        if s.get_char(n - m + i) != suffix.get_char(i) {
            assert(s@.subrange(n - m, n as int)[i as int] == s@[n - m + i]);
            return false;
        }
        i += 1;
    }
    assert(s@.subrange(n - m, n as int) =~= suffix@);
    true
}

impl StorageFacade {
    /// Which drawing an editable file of `byte_count` bytes holds, given its header as
    /// read (or the reader's complaint): empty files, unreadable headers, other formats
    /// and unknown versions are refused, in that order.
    pub fn editable_version(&self, byte_count: usize, header: Result<FileFormatDescriptor, String>) -> (r: Result<EditableVersion, StorageError>)
        ensures
            byte_count == 0 ==> r == Err::<EditableVersion, StorageError>(StorageError::EmptyFile),
            byte_count > 0 ==> (match header {
                Err(e) => r == Err::<EditableVersion, StorageError>(StorageError::Deserialize(e)),
                Ok(h) => if h.id@ != editable_format_id() {
                    r == Err::<EditableVersion, StorageError>(StorageError::UnsupportedFormat(h.id))
                } else if h.version == EDITABLE_FORMAT_VERSION {
                    r == Ok::<EditableVersion, StorageError>(EditableVersion::Current)
                } else if h.version == PREVIOUS_EDITABLE_FORMAT_VERSION || h.version
                    == EARLIER_EDITABLE_FORMAT_VERSION {
                    r == Ok::<EditableVersion, StorageError>(EditableVersion::Flat)
                } else if h.version == LEGACY_EDITABLE_FORMAT_VERSION {
                    r == Ok::<EditableVersion, StorageError>(EditableVersion::Legacy)
                } else {
                    r == Err::<EditableVersion, StorageError>(StorageError::UnsupportedVersion(h.version))
                },
            }),
    {
        if byte_count == 0 {
            return Err(StorageError::EmptyFile);
        }
        let header = match header {
            Ok(h) => h,
            Err(e) => return Err(StorageError::Deserialize(e)),
        };
        if !same_text(header.id.as_str(), "rust-paint-foundation/document") {
            return Err(StorageError::UnsupportedFormat(header.id));
        }
        if header.version == EDITABLE_FORMAT_VERSION {
            Ok(EditableVersion::Current)
        } else if header.version == PREVIOUS_EDITABLE_FORMAT_VERSION || header.version
            == EARLIER_EDITABLE_FORMAT_VERSION {
            Ok(EditableVersion::Flat)
        } else if header.version == LEGACY_EDITABLE_FORMAT_VERSION {
            Ok(EditableVersion::Legacy)
        } else {
            Err(StorageError::UnsupportedVersion(header.version))
        }
    }

    /// PNG bytes of a rendered picture, or the rendering or encoding failure as a
    /// storage error.
    pub fn export_png_bytes(&self, rendered: Result<PixelGrid, RenderError>) -> (r: Result<Vec<u8>, StorageError>)
        ensures
            rendered matches Err(e) ==> (r matches Err(StorageError::Render(m)) && m@
                == e.spec_message()),
            rendered matches Ok(g) ==> ({
                let accepted = pixmap_accepts(g.width, g.height, g.data@.len());
                &&& !accepted ==> (r matches Err(StorageError::Render(m)) && m@
                    == RenderError::InvalidCanvasSize.spec_message())
                &&& r is Ok <==> (accepted && png_encodable(g.width, g.height, g.data@))
                &&& r matches Ok(bytes) ==> bytes@ == png_encoding(g.width, g.height, g.data@)
                &&& r matches Err(e) ==> (e matches StorageError::Render(m) && (accepted
                    ==> m@.len() >= 21 && m@.subrange(0, 21) == "PNG encoding failed: "@))
            }),
    {
        match rendered {
            Err(e) => Err(StorageError::Render(e.message())),
            Ok(grid) => {
                let ghost g = grid;
                match encode_png(grid.width, grid.height, grid.data) {
                    Ok(bytes) => Ok(bytes),
                    Err(e) => {
                        let m = e.message();
                        proof {
                            if let RenderError::PngEncode(inner) = e {
                                reveal_strlit("PNG encoding failed: ");
                                assert(m@.subrange(0, 21) =~= "PNG encoding failed: "@);
                            }
                        }
                        Err(StorageError::Render(m))
                    },
                }
            },
        }
    }
}

/// The file-handling front: file names, format labels and the editable format's rules.
#[derive(Debug, Clone, Copy)]
pub struct StorageFacade;

impl StorageFacade {
    pub fn new() -> (r: Self) {
        StorageFacade
    }

    pub fn suggested_file_name(&self) -> (r: &'static str)
        ensures
            r@ == default_file_name(),
    {
        "untitled.paint.json"
    }

    /// The PNG name that goes with a drawing's name (see `to_png_file_name`).
    pub fn suggested_png_file_name(&self, document_name: &str) -> (r: String)
        ensures
            r@ == png_name_of(document_name@),
    {
        to_png_file_name(document_name)
    }

    pub fn editable_format_label(&self) -> (r: &'static str)
        ensures
            r@ == "Editable JSON envelope v4 (.paint.json)"@,
    {
        "Editable JSON envelope v4 (.paint.json)"
    }

    pub fn planned_export_format(&self) -> (r: &'static str)
        ensures
            r@ == "PNG raster export (.png)"@,
    {
        "PNG raster export (.png)"
    }

    pub fn storage_strategy_summary(&self) -> (r: &'static str)
        ensures
            r@ == "Native uses file dialogs. Web uses browser download/upload."@,
    {
        "Native uses file dialogs. Web uses browser download/upload."
    }

    /// Same as `editable_format_label`.
    pub fn planned_edit_format(&self) -> (r: &'static str)
        ensures
            r@ == "Editable JSON envelope v4 (.paint.json)"@,
    {
        self.editable_format_label()
    }
}

impl Default for StorageFacade {
    fn default() -> (r: Self) {
        StorageFacade
    }
}

/// `name` without `suffix` (which it ends with).
pub open spec fn without_suffix(name: Seq<char>, suffix: Seq<char>) -> Seq<char> {
    name.subrange(0, name.len() - suffix.len())
}

/// The PNG file name for a drawing's name: the ".paint.json", ".json" or ".png" ending
/// becomes ".png", an empty name becomes "untitled.png", and any other name gets
/// ".png" appended.
pub open spec fn png_name_of(name: Seq<char>) -> Seq<char> {
    if has_suffix(name, ".paint.json"@) {
        without_suffix(name, ".paint.json"@) + ".png"@
    } else if has_suffix(name, ".json"@) {
        without_suffix(name, ".json"@) + ".png"@
    } else if has_suffix(name, ".png"@) {
        without_suffix(name, ".png"@) + ".png"@
    } else if name.len() == 0 {
        default_png_file_name()
    } else {
        name + ".png"@
    }
}

fn strip_and_add_png(name: &str, suffix: &str) -> (r: String)
    requires
        has_suffix(name@, suffix@),
    ensures
        r@ == without_suffix(name@, suffix@) + ".png"@,
{
    let n = name.unicode_len();
    let m = suffix.unicode_len();
    let stem = name.substring_char(0, n - m);
    let mut r = stem.to_owned();
    r.append(".png");
    r
}

/// The PNG file name for a drawing's name; see `png_name_of`.
pub fn to_png_file_name(document_name: &str) -> (r: String)
    ensures
        r@ == png_name_of(document_name@),
{
    if ends_with(document_name, ".paint.json") {
        strip_and_add_png(document_name, ".paint.json")
    } else if ends_with(document_name, ".json") {
        strip_and_add_png(document_name, ".json")
    } else if ends_with(document_name, ".png") {
        strip_and_add_png(document_name, ".png")
    } else if document_name.unicode_len() == 0 {
        string_of("untitled.png")
    } else {
        let mut r = document_name.to_owned();
        r.append(".png");
        r
    }
}

/// The file name a save dialog reported, or `fallback` when it reported none.
pub fn normalize_file_name(file_name: String, fallback: &str) -> (r: String)
    ensures
        r@ == (if file_name@.len() == 0 {
            fallback@
        } else {
            file_name@
        }),
{
    if file_name.unicode_len() == 0 {
        fallback.to_owned()
    } else {
        file_name
    }
}

} // verus!
