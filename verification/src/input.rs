use vstd::prelude::*;

use crate::element::Stroke;
use crate::selection::CanvasToolKind;

verus! {

/// How a pan of the view was started, and so what keeps it going.
#[derive(Debug, Clone, Copy, PartialEq, Eq, Structural)]
pub enum PanMode {
    SpaceDrag,
    MiddleDrag,
}

/// What the pointer is doing on the canvas between frames.
#[derive(Debug, Clone, Copy, PartialEq, Eq, Structural)]
pub enum InteractionMode {
    Idle,
    Drawing,
    Panning(PanMode),
    EditingSelection,
}

/// The pointer and keyboard state of one frame, as far as the canvas reads it.
#[derive(Debug, Clone, Copy, PartialEq, Eq, Structural)]
pub struct PointerEvent {
    /// The pointer is over the canvas.
    pub hovered: bool,
    /// The pointer has a position to act at.
    pub has_position: bool,
    pub primary_pressed: bool,
    pub primary_down: bool,
    pub primary_released: bool,
    pub middle_pressed: bool,
    pub middle_down: bool,
    /// The space bar is held.
    pub space_down: bool,
    /// Shift is held.
    pub shift: bool,
}

/// What a press of the primary button starts.
#[derive(Debug, Clone, Copy, PartialEq, Eq, Structural)]
pub enum PressAction {
    Nothing,
    /// Select, move or edit with the select tool; `extend` adds to the selection.
    Selection { extend: bool },
    /// A freehand stroke (brush or eraser).
    Stroke,
    /// A rectangle, ellipse or line.
    Shape,
}

/// The work one frame of pointer input asks of the canvas.
#[derive(Debug, Clone, Copy, PartialEq, Eq, Structural)]
pub struct CanvasAction {
    pub press: PressAction,
    /// Move the end of the stroke or shape being drawn to the pointer.
    pub update_preview: bool,
    /// Finish the stroke or shape being drawn.
    pub commit_preview: bool,
    /// Move the view by the pointer's motion.
    pub pan: bool,
    /// Follow the pointer with the selection being moved or edited.
    pub update_selection: bool,
    /// Finish moving or editing the selection.
    pub finish_selection: bool,
    pub repaint: bool,
}

pub open spec fn no_action() -> CanvasAction {
    CanvasAction {
        press: PressAction::Nothing,
        update_preview: false,
        commit_preview: false,
        pan: false,
        update_selection: false,
        finish_selection: false,
        repaint: false,
    }
}

/// One frame of the canvas's pointer handling. When idle, a middle press over the canvas
/// starts panning, as does a primary press with the space bar held; any other primary
/// press over the canvas starts what the tool does (drawing at once for the pens and
/// shapes; the select tool's outcome depends on what is under the pointer). While
/// drawing, the preview follows the held button and a release finishes it. A pan goes on
/// while its button (and, for the space drag, the space bar) is held. Editing the
/// selection follows the held button and a release finishes it.
pub open spec fn input_step(
    mode: InteractionMode,
    tool: CanvasToolKind,
    ev: PointerEvent,
) -> (InteractionMode, CanvasAction) {
    match mode {
        InteractionMode::Idle => if ev.hovered && ev.middle_pressed {
            (
                InteractionMode::Panning(PanMode::MiddleDrag),
                CanvasAction { repaint: true, ..no_action() },
            )
        } else if ev.hovered && ev.space_down && ev.primary_pressed {
            (
                InteractionMode::Panning(PanMode::SpaceDrag),
                CanvasAction { repaint: true, ..no_action() },
            )
        } else if ev.hovered && ev.primary_pressed && ev.has_position {
            match tool {
                CanvasToolKind::Select => (
                    InteractionMode::Idle,
                    CanvasAction {
                        press: PressAction::Selection { extend: ev.shift },
                        repaint: true,
                        ..no_action()
                    },
                ),
                CanvasToolKind::Brush | CanvasToolKind::Eraser => (
                    InteractionMode::Drawing,
                    CanvasAction { press: PressAction::Stroke, repaint: true, ..no_action() },
                ),
                _ => (
                    InteractionMode::Drawing,
                    CanvasAction { press: PressAction::Shape, repaint: true, ..no_action() },
                ),
            }
        } else {
            (InteractionMode::Idle, no_action())
        },
        InteractionMode::Drawing => {
            let update = ev.primary_down && ev.has_position;
            (
                if ev.primary_released {
                    InteractionMode::Idle
                } else {
                    InteractionMode::Drawing
                },
                CanvasAction {
                    update_preview: update,
                    commit_preview: ev.primary_released,
                    repaint: update || ev.primary_released,
                    ..no_action()
                },
            )
        },
        InteractionMode::Panning(m) => {
            let still = match m {
                PanMode::SpaceDrag => ev.primary_down && ev.space_down,
                PanMode::MiddleDrag => ev.middle_down,
            };
            (
                if still {
                    InteractionMode::Panning(m)
                } else {
                    InteractionMode::Idle
                },
                CanvasAction { pan: true, ..no_action() },
            )
        },
        InteractionMode::EditingSelection => {
            let update = ev.primary_down && ev.has_position;
            (
                if ev.primary_released {
                    InteractionMode::Idle
                } else {
                    InteractionMode::EditingSelection
                },
                CanvasAction {
                    update_selection: update,
                    finish_selection: ev.primary_released,
                    repaint: update || ev.primary_released,
                    ..no_action()
                },
            )
        },
    }
}

fn nothing() -> (r: CanvasAction)
    ensures
        r == no_action(),
{
    CanvasAction {
        press: PressAction::Nothing,
        update_preview: false,
        commit_preview: false,
        pan: false,
        update_selection: false,
        finish_selection: false,
        repaint: false,
    }
}

/// See `input_step`.
pub fn canvas_input_step(mode: InteractionMode, tool: CanvasToolKind, ev: PointerEvent) -> (r: (
    InteractionMode,
    CanvasAction,
))
    ensures
        r == input_step(mode, tool, ev),
{
    match mode {
        InteractionMode::Idle => {
            if ev.hovered && ev.middle_pressed {
                (
                    InteractionMode::Panning(PanMode::MiddleDrag),
                    CanvasAction { repaint: true, ..nothing() },
                )
            } else if ev.hovered && ev.space_down && ev.primary_pressed {
                (
                    InteractionMode::Panning(PanMode::SpaceDrag),
                    CanvasAction { repaint: true, ..nothing() },
                )
            } else if ev.hovered && ev.primary_pressed && ev.has_position {
                match tool {
                    CanvasToolKind::Select => (
                        InteractionMode::Idle,
                        CanvasAction {
                            press: PressAction::Selection { extend: ev.shift },
                            repaint: true,
                            ..nothing()
                        },
                    ),
                    CanvasToolKind::Brush | CanvasToolKind::Eraser => (
                        InteractionMode::Drawing,
                        CanvasAction { press: PressAction::Stroke, repaint: true, ..nothing() },
                    ),
                    _ => (
                        InteractionMode::Drawing,
                        CanvasAction { press: PressAction::Shape, repaint: true, ..nothing() },
                    ),
                }
            } else {
                (InteractionMode::Idle, nothing())
            }
        },
        InteractionMode::Drawing => {
            let update = ev.primary_down && ev.has_position;
            let next = if ev.primary_released {
                InteractionMode::Idle
            } else {
                InteractionMode::Drawing
            };
            (
                next,
                CanvasAction {
                    update_preview: update,
                    commit_preview: ev.primary_released,
                    repaint: update || ev.primary_released,
                    ..nothing()
                },
            )
        },
        InteractionMode::Panning(m) => {
            let still = match m {
                PanMode::SpaceDrag => ev.primary_down && ev.space_down,
                PanMode::MiddleDrag => ev.middle_down,
            };
            let next = if still {
                InteractionMode::Panning(m)
            } else {
                InteractionMode::Idle
            };
            (next, CanvasAction { pan: true, ..nothing() })
        },
        InteractionMode::EditingSelection => {
            let update = ev.primary_down && ev.has_position;
            let next = if ev.primary_released {
                InteractionMode::Idle
            } else {
                InteractionMode::EditingSelection
            };
            (
                next,
                CanvasAction {
                    update_selection: update,
                    finish_selection: ev.primary_released,
                    repaint: update || ev.primary_released,
                    ..nothing()
                },
            )
        },
    }
}

/// The Escape key: any drawing or editing of the selection in progress is thrown away
/// (the second result says whether there was one), and the canvas goes idle, a pan
/// included.
pub fn escape_step(mode: InteractionMode) -> (r: (InteractionMode, bool))
    ensures
        r == (InteractionMode::Idle, mode is Drawing || mode is EditingSelection),
{
    let discarded = match mode {
        InteractionMode::Drawing | InteractionMode::EditingSelection => true,
        _ => false,
    };
    (InteractionMode::Idle, discarded)
}

/// A stroke is worth keeping when it has at least one point.
pub fn stroke_is_committable(stroke: &Stroke) -> (r: bool)
    ensures
        r == (stroke@.points.len() > 0),
{
    stroke.points.len() > 0
}

/// Whether the zoom gesture of this frame (wheel or pinch) applies: only over the canvas,
/// and not while a stroke or shape is being drawn or the selection is being moved or
/// edited. It is decided on the mode the frame starts in.
pub open spec fn zoom_allowed(mode: InteractionMode, ev: PointerEvent) -> bool {
    ev.hovered && !(mode is Drawing) && !(mode is EditingSelection)
}

/// See `zoom_allowed`.
pub fn zoom_applies(mode: InteractionMode, ev: PointerEvent) -> (r: bool)
    ensures
        r == zoom_allowed(mode, ev),
{
    ev.hovered && match mode {
        InteractionMode::Drawing | InteractionMode::EditingSelection => false,
        _ => true,
    }
}

} // verus!
