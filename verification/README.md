# rust_paint_foundation

The core of a layered paint program, written in Verus: the drawing model, the undo
history, selection and stacking order, bucket fill, the editable file format rules and
the editing state behind the tool panels, each with a contract that Verus proves.

## Layout

- `src/` — the verified library
  - `model.rs`, `element.rs`, `layer.rs`, `document.rs`: drawings, their elements and
    layers, and the document operations (layers, grouping, stacking order, moving the
    selection between layers, layout aids)
  - `history.rs`: undo and redo over whole drawings, each stored repaired (layer
    structure, grid spacing, guides clamped and ordered)
  - `selection.rs`, `indices.rs`, `arrange.rs`: selections and the orderings they drive
  - `fill.rs`: flood fill over a rendered pixel grid
  - `svg.rs`, `decimal.rs`, `text.rs`: text and number output (SVG pieces, PNG encoding,
    fixed-point formatting of single-precision numbers)
  - `storage.rs`: file names, format versions and storage errors
  - `editor.rs`, `tools.rs`, `style.rs`, `restyle.rs`, `ui.rs`: the editing state — tools,
    colors, recent colors, restyling the selection, layer and file actions, status texts
  - `input.rs`: the canvas's pointer handling as a state machine (drawing, panning,
    selecting, Escape)
  - `panel.rs`: the actions of the style and layout panels (widths, colors, opacity,
    fill, quick color target, grid spacing and guides)
  - `laws.rs`: properties relating several operations, stated and proved
- `tests/` — tests run against the compiled library
- `app/` — a command-line program around the library: file I/O, JSON (de)serialization,
  rasterization and the floating-point geometry of shapes and strokes; its `draw`
  command replays a drag on the canvas through the input state machine and the editor
