use vstd::prelude::*;

use crate::decimal::{format_tenths, format_units, tenths_text, units_text};
use crate::document::{ids_below_max, layout_repairable, PaintDocument};
use crate::editor::{
    counted_text, editor_well_formed, framed_text, recent_pushed, restyle_result, restyled_editor,
    selection_paint_context_of, shape_style_context_of, with_info, EditorView, PaintApp,
    configuration_change_applied,
};
use crate::model::{GuideAxis, RgbaColor, Scalar};
use crate::restyle::{opacity_set, FillEdit, ShapeEdit, StrokeEdit, StyleEdit};
use crate::style::{ShapeStyleContext, ShapeStyleTarget};
use crate::text::{decimal_chars, push_decimal, string_of};
use crate::tools::{ToolColorSettings, ToolWidthSettings};
use crate::ui::{set_alpha_percent, ColorTarget};
use vstd::string::StringExecFns;

verus! {

/// The text for one selected shape or for several.
pub open spec fn one_or_many(c: ShapeStyleContext, one: Seq<char>, many: Seq<char>) -> Seq<char> {
    if c.target is SelectedShape {
        one
    } else {
        many
    }
}

/// An edit from the shape style panel: the selected shapes take it and the status line
/// shows `done`, or `pending` when none of them changed; for the next shape drawn only
/// the tool settings change and the status line shows `next`.
pub open spec fn shape_panel_edit(
    w: EditorView,
    c: ShapeStyleContext,
    edit: ShapeEdit,
    done: Seq<char>,
    pending: Seq<char>,
    next: Seq<char>,
) -> EditorView {
    if c.target is NewShape {
        with_info(w, next)
    } else if restyle_result(w, StyleEdit::Shape(edit)) > 0 {
        restyled_editor(w, StyleEdit::Shape(edit), done)
    } else {
        with_info(w, pending)
    }
}

/// The "stroke only" and "stroke and fill" buttons of a shape that can carry a fill:
/// the fill goes off, or on with the shapes' fill color (the tool's when they have
/// none), for the tool and the selected shapes.
pub open spec fn shape_paint_mode_set(v: EditorView, with_fill: bool) -> EditorView {
    match shape_style_context_of(v) {
        None => v,
        Some(c) => {
            let k = c.kind.spec_label();
            if !c.spec_supports_fill() {
                v
            } else if !with_fill {
                let w = EditorView {
                    tool_colors: ToolColorSettings { fill_enabled: false, ..v.tool_colors },
                    ..v
                };
                shape_panel_edit(
                    w,
                    c,
                    ShapeEdit::Fill(None),
                    one_or_many(
                        c,
                        "選択中の"@ + k + "を線だけにしました。"@,
                        "選択中の図形"@ + decimal_chars(c.shape_count as nat) + "個を線だけにしました。"@,
                    ),
                    one_or_many(
                        c,
                        k + "を線だけにします。"@,
                        "選択中の図形"@ + decimal_chars(c.shape_count as nat) + "個を線だけにします。"@,
                    ),
                    "次に描く"@ + k + "を線だけにします。"@,
                )
            } else {
                let fill = match c.fill_color {
                    Some(f) => f,
                    None => v.tool_colors.fill_color,
                };
                let w = EditorView {
                    tool_colors: ToolColorSettings {
                        fill_enabled: true,
                        fill_color: fill,
                        ..v.tool_colors
                    },
                    ..v
                };
                shape_panel_edit(
                    w,
                    c,
                    ShapeEdit::Fill(Some(fill)),
                    one_or_many(
                        c,
                        "選択中の"@ + k + "を線と塗りにしました。"@,
                        "選択中の図形"@ + decimal_chars(c.fill_supported_count as nat)
                            + "個を線と塗りにしました。"@,
                    ),
                    one_or_many(
                        c,
                        k + "を線と塗りにします。"@,
                        "選択中の図形"@ + decimal_chars(c.fill_supported_count as nat)
                            + "個を線と塗りにします。"@,
                    ),
                    "次に描く"@ + k + "を線と塗りにします。"@,
                )
            }
        },
    }
}

/// The shape width slider: the width becomes the drawing width and the width of the
/// selected shapes, reported with one decimal.
pub open spec fn shape_width_set(v: EditorView, width: Scalar) -> EditorView {
    match shape_style_context_of(v) {
        None => v,
        Some(c) => {
            let k = c.kind.spec_label();
            let t = tenths_text(width.bits);
            let n = decimal_chars(c.shape_count as nat);
            let w = EditorView {
                tool_widths: ToolWidthSettings { draw_width: width, ..v.tool_widths },
                ..v
            };
            shape_panel_edit(
                w,
                c,
                ShapeEdit::Width(width),
                one_or_many(
                    c,
                    k + "の線幅を "@ + t + "px に変更しました。"@,
                    "選択中の図形"@ + n + "個の線幅を "@ + t + "px に変更しました。"@,
                ),
                one_or_many(
                    c,
                    k + "の線幅を "@ + t + "px にします。"@,
                    "選択中の図形"@ + n + "個の線幅を "@ + t + "px にします。"@,
                ),
                "次に描く"@ + k + "の線幅を "@ + t + "px に変更しました。"@,
            )
        },
    }
}

/// The width slider of selected strokes: the width becomes the drawing width and the
/// width of every selected stroke.
pub open spec fn stroke_width_set(v: EditorView, width: Scalar) -> EditorView {
    if shape_style_context_of(v) is Some {
        v
    } else {
        match selection_paint_context_of(v) {
            Some(p) => if p.stroke_width is Some {
                restyled_editor(
                    EditorView {
                        tool_widths: ToolWidthSettings { draw_width: width, ..v.tool_widths },
                        ..v
                    },
                    StyleEdit::Stroke(StrokeEdit::Width(width)),
                    "選択中の線"@ + decimal_chars(p.stroke_count as nat) + "個の太さを "@
                        + tenths_text(width.bits) + "px に変更しました。"@,
                )
            } else {
                v
            },
            None => v,
        }
    }
}

/// The stroke color the panel shows: the shape's, else the selected strokes', else the
/// tool's.
pub open spec fn stroke_source(v: EditorView) -> RgbaColor {
    match shape_style_context_of(v) {
        Some(c) => c.stroke_color,
        None => match selection_paint_context_of(v) {
            Some(p) => match p.stroke_color {
                Some(s) => s,
                None => v.tool_colors.stroke_color,
            },
            None => v.tool_colors.stroke_color,
        },
    }
}

/// The fill color the panel shows: the shapes' fill, else the selected fills', else the
/// tool's.
pub open spec fn fill_source(v: EditorView) -> RgbaColor {
    match shape_style_context_of(v) {
        Some(c) => match c.fill_color {
            Some(f) => f,
            None => match selection_paint_context_of(v) {
                Some(p) => match p.fill_color {
                    Some(f) => f,
                    None => v.tool_colors.fill_color,
                },
                None => v.tool_colors.fill_color,
            },
        },
        None => match selection_paint_context_of(v) {
            Some(p) => match p.fill_color {
                Some(f) => f,
                None => v.tool_colors.fill_color,
            },
            None => v.tool_colors.fill_color,
        },
    }
}

/// The shape panel edits selected shapes in state `v`.
pub open spec fn edits_selected_shapes(v: EditorView) -> bool {
    shape_style_context_of(v) matches Some(c) && !(c.target is NewShape)
}

/// A stroke color change: the selected shapes take `shape_edit`, else the selected
/// strokes take `stroke_edit`, else only the tool changes and `plain` is shown.
pub open spec fn stroke_paint_edit(
    v: EditorView,
    w: EditorView,
    shape_edit: ShapeEdit,
    shape_done: Seq<char>,
    stroke_edit: StrokeEdit,
    stroke_done: Seq<char>,
    plain: Seq<char>,
) -> EditorView {
    if edits_selected_shapes(v) {
        restyled_editor(w, StyleEdit::Shape(shape_edit), shape_done)
    } else if selection_paint_context_of(v) is Some {
        restyled_editor(w, StyleEdit::Stroke(stroke_edit), stroke_done)
    } else {
        with_info(w, plain)
    }
}

/// The stroke color button: the color becomes the tool's stroke color and a recent
/// color, and recolors the selected shapes or strokes.
pub open spec fn stroke_color_set(v: EditorView, color: RgbaColor) -> EditorView {
    let w = recent_pushed(
        EditorView { tool_colors: ToolColorSettings { stroke_color: color, ..v.tool_colors }, ..v },
        color,
    );
    let c = shape_style_context_of(v)->Some_0;
    let k = c.kind.spec_label();
    let p = selection_paint_context_of(v)->Some_0;
    stroke_paint_edit(
        v,
        w,
        ShapeEdit::StrokeColor(color),
        one_or_many(
            c,
            k + "の線色を変更しました。"@,
            "選択中の図形"@ + decimal_chars(c.shape_count as nat) + "個の線色を変更しました。"@,
        ),
        StrokeEdit::Color(color),
        "選択中の線"@ + decimal_chars(p.stroke_count as nat) + "個の色を変更しました。"@,
        "線色を変更しました。"@,
    )
}

/// The stroke opacity slider: the shown stroke color at `percent` percent opacity
/// becomes the tool's stroke color and a recent color; the selected shapes take that
/// color, or each selected stroke takes the opacity.
pub open spec fn stroke_opacity_set(v: EditorView, percent: u8) -> EditorView {
    let next = opacity_set(stroke_source(v), percent);
    let w = recent_pushed(
        EditorView { tool_colors: ToolColorSettings { stroke_color: next, ..v.tool_colors }, ..v },
        next,
    );
    let c = shape_style_context_of(v)->Some_0;
    let k = c.kind.spec_label();
    let p = selection_paint_context_of(v)->Some_0;
    let pc = decimal_chars(percent as nat);
    stroke_paint_edit(
        v,
        w,
        ShapeEdit::StrokeColor(next),
        one_or_many(
            c,
            k + "の線の不透明度を "@ + pc + "% に変更しました。"@,
            "選択中の図形"@ + decimal_chars(c.shape_count as nat) + "個の線の不透明度を "@ + pc
                + "% に変更しました。"@,
        ),
        StrokeEdit::Opacity(percent),
        "選択中の線"@ + decimal_chars(p.stroke_count as nat) + "個の不透明度を "@ + pc
            + "% に変更しました。"@,
        "線の不透明度を "@ + pc + "% に変更しました。"@,
    )
}

/// A fill change from the shape panel: the tool fill becomes `tool_fill` with filling
/// `enabled`; the selected shapes take `fill`, else `plain` is shown.
pub open spec fn shape_fill_edit(
    v: EditorView,
    w: EditorView,
    fill: Option<RgbaColor>,
    done: Seq<char>,
    plain: Seq<char>,
) -> EditorView {
    if edits_selected_shapes(v) {
        restyled_editor(w, StyleEdit::Shape(ShapeEdit::Fill(fill)), done)
    } else {
        with_info(w, plain)
    }
}

/// The "use fill" check box of the shape panel.
pub open spec fn shape_fill_enabled_set(v: EditorView, enabled: bool) -> EditorView {
    match shape_style_context_of(v) {
        None => v,
        Some(c) => {
            let source = fill_source(v);
            let k = c.kind.spec_label();
            let w = EditorView {
                tool_colors: ToolColorSettings {
                    fill_enabled: enabled,
                    fill_color: if enabled {
                        source
                    } else {
                        v.tool_colors.fill_color
                    },
                    ..v.tool_colors
                },
                ..v
            };
            let state = if enabled {
                "オン"@
            } else {
                "オフ"@
            };
            shape_fill_edit(
                v,
                w,
                if enabled {
                    Some(source)
                } else {
                    None
                },
                one_or_many(
                    c,
                    k + "の塗りを"@ + state + "にしました。"@,
                    "選択中の図形"@ + decimal_chars(c.fill_supported_count as nat) + "個の塗りを"@
                        + state + "にしました。"@,
                ),
                "図形の塗りを"@ + state + "にしました。"@,
            )
        },
    }
}

/// The fill color button of the shape panel.
pub open spec fn shape_fill_color_set(v: EditorView, color: RgbaColor) -> EditorView {
    match shape_style_context_of(v) {
        None => v,
        Some(c) => {
            let w = recent_pushed(
                EditorView {
                    tool_colors: ToolColorSettings {
                        fill_color: color,
                        fill_enabled: true,
                        ..v.tool_colors
                    },
                    ..v
                },
                color,
            );
            shape_fill_edit(
                v,
                w,
                Some(color),
                one_or_many(
                    c,
                    c.kind.spec_label() + "の塗り色を変更しました。"@,
                    "選択中の図形"@ + decimal_chars(c.fill_supported_count as nat)
                        + "個の塗り色を変更しました。"@,
                ),
                "塗り色を変更しました。"@,
            )
        },
    }
}

/// The fill opacity slider of the shape panel: the shown fill color at `percent`
/// percent opacity becomes the fill of the tool and of the selected shapes.
pub open spec fn shape_fill_opacity_set(v: EditorView, percent: u8) -> EditorView {
    match shape_style_context_of(v) {
        None => v,
        Some(c) => {
            let next = opacity_set(fill_source(v), percent);
            let pc = decimal_chars(percent as nat);
            let w = recent_pushed(
                EditorView {
                    tool_colors: ToolColorSettings {
                        fill_color: next,
                        fill_enabled: true,
                        ..v.tool_colors
                    },
                    ..v
                },
                next,
            );
            shape_fill_edit(
                v,
                w,
                Some(next),
                one_or_many(
                    c,
                    c.kind.spec_label() + "の塗りの不透明度を "@ + pc + "% に変更しました。"@,
                    "選択中の図形"@ + decimal_chars(c.fill_supported_count as nat)
                        + "個の塗りの不透明度を "@ + pc + "% に変更しました。"@,
                ),
                "塗りの不透明度を "@ + pc + "% に変更しました。"@,
            )
        },
    }
}

/// The fill color button for selected fills.
pub open spec fn selected_fill_color_set(v: EditorView, color: RgbaColor) -> EditorView {
    if shape_style_context_of(v) is Some {
        v
    } else {
        match selection_paint_context_of(v) {
            Some(p) => restyled_editor(
                recent_pushed(
                    EditorView {
                        tool_colors: ToolColorSettings {
                            fill_color: color,
                            fill_enabled: true,
                            ..v.tool_colors
                        },
                        ..v
                    },
                    color,
                ),
                StyleEdit::Fill(FillEdit::Color(color)),
                "選択中の塗り"@ + decimal_chars(p.fill_count as nat) + "個の色を変更しました。"@,
            ),
            None => v,
        }
    }
}

/// The fill opacity slider for selected fills: each keeps its color at `percent`
/// percent opacity; the shown fill color at that opacity becomes the tool's.
pub open spec fn selected_fill_opacity_set(v: EditorView, percent: u8) -> EditorView {
    if shape_style_context_of(v) is Some {
        v
    } else {
        match selection_paint_context_of(v) {
            Some(p) => {
                let next = opacity_set(fill_source(v), percent);
                restyled_editor(
                    recent_pushed(
                        EditorView {
                            tool_colors: ToolColorSettings {
                                fill_color: next,
                                fill_enabled: true,
                                ..v.tool_colors
                            },
                            ..v
                        },
                        next,
                    ),
                    StyleEdit::Fill(FillEdit::Opacity(percent)),
                    "選択中の塗り"@ + decimal_chars(p.fill_count as nat) + "個の不透明度を "@
                        + decimal_chars(percent as nat) + "% に変更しました。"@,
                )
            },
            None => v,
        }
    }
}

/// "<a><b><c><d><e>".
fn joined(a: &str, b: &str, c: &str, d: &str, e: &str) -> (r: String)
    ensures
        r@ == a@ + b@ + c@ + d@ + e@,
{
    let mut s = string_of(a);
    s.append(b);
    s.append(c);
    s.append(d);
    s.append(e);
    s
}

impl PaintApp {
    /// Runs an edit from the shape style panel; see `shape_panel_edit`.
    fn apply_shape_panel_edit(
        &mut self,
        c: ShapeStyleContext,
        edit: ShapeEdit,
        done: String,
        pending: String,
        next: String,
    )
        requires
            editor_well_formed(old(self)@),
        ensures
            final(self)@ == shape_panel_edit(old(self)@, c, edit, done@, pending@, next@),
            editor_well_formed(final(self)@),
    {
        if c.target == ShapeStyleTarget::NewShape {
            self.set_info(next);
        } else {
            let changed = self.replace_selected_shapes(edit, done);
            if changed == 0 {
                self.set_info(pending);
            }
        }
    }

    /// The "stroke only" (`with_fill` false) and "stroke and fill" buttons of the shape
    /// style panel; see `shape_paint_mode_set`.
    pub fn set_shape_paint_mode(&mut self, with_fill: bool)
        requires
            editor_well_formed(old(self)@),
        ensures
            final(self)@ == shape_paint_mode_set(old(self)@, with_fill),
            editor_well_formed(final(self)@),
    {
        let c = match self.current_shape_style_context() {
            Some(c) => c,
            None => return,
        };
        if !c.supports_fill() {
            return;
        }
        let k = c.kind.label();
        let one = c.target == ShapeStyleTarget::SelectedShape;
        if !with_fill {
            let colors = ToolColorSettings { fill_enabled: false, ..self.tool_colors() };
            self.set_tool_colors(colors);
            let done = if one {
                framed_text("選択中の", k, "を線だけにしました。")
            } else {
                counted_text("選択中の図形", c.shape_count, "個を線だけにしました。")
            };
            let pending = if one {
                framed_text(k, "を線だけにします。", "")
            } else {
                counted_text("選択中の図形", c.shape_count, "個を線だけにします。")
            };
            let next = framed_text("次に描く", k, "を線だけにします。");
            proof {
                assert(""@ =~= Seq::<char>::empty()) by {
                    reveal_strlit("");
                }
            }
            self.apply_shape_panel_edit(c, ShapeEdit::Fill(None), done, pending, next);
        } else {
            let fill = match c.fill_color {
                Some(f) => f,
                None => self.tool_colors().fill_color,
            };
            let colors = ToolColorSettings {
                fill_enabled: true,
                fill_color: fill,
                ..self.tool_colors()
            };
            self.set_tool_colors(colors);
            let done = if one {
                framed_text("選択中の", k, "を線と塗りにしました。")
            } else {
                counted_text("選択中の図形", c.fill_supported_count, "個を線と塗りにしました。")
            };
            let pending = if one {
                framed_text(k, "を線と塗りにします。", "")
            } else {
                counted_text("選択中の図形", c.fill_supported_count, "個を線と塗りにします。")
            };
            let next = framed_text("次に描く", k, "を線と塗りにします。");
            proof {
                assert(""@ =~= Seq::<char>::empty()) by {
                    reveal_strlit("");
                }
            }
            self.apply_shape_panel_edit(c, ShapeEdit::Fill(Some(fill)), done, pending, next);
        }
    }

    /// The width slider of the shape style panel; see `shape_width_set`.
    pub fn set_shape_width(&mut self, width: Scalar)
        requires
            editor_well_formed(old(self)@),
        ensures
            final(self)@ == shape_width_set(old(self)@, width),
            editor_well_formed(final(self)@),
    {
        let c = match self.current_shape_style_context() {
            Some(c) => c,
            None => return,
        };
        let widths = ToolWidthSettings { draw_width: width, ..self.tool_widths() };
        self.set_tool_widths(widths);
        let k = c.kind.label();
        let t = format_tenths(width);
        let one = c.target == ShapeStyleTarget::SelectedShape;
        let mut count = String::new();
        push_decimal(&mut count, c.shape_count as u64);
        let done = if one {
            joined(k, "の線幅を ", t.as_str(), "px に変更しました。", "")
        } else {
            joined("選択中の図形", count.as_str(), "個の線幅を ", t.as_str(), "px に変更しました。")
        };
        let pending = if one {
            joined(k, "の線幅を ", t.as_str(), "px にします。", "")
        } else {
            joined("選択中の図形", count.as_str(), "個の線幅を ", t.as_str(), "px にします。")
        };
        let next = joined("次に描く", k, "の線幅を ", t.as_str(), "px に変更しました。");
        proof {
            assert(""@ =~= Seq::<char>::empty()) by {
                reveal_strlit("");
            }
        }
        self.apply_shape_panel_edit(c, ShapeEdit::Width(width), done, pending, next);
    }

    /// The width slider for selected strokes; see `stroke_width_set`.
    pub fn set_selected_stroke_width(&mut self, width: Scalar)
        requires
            editor_well_formed(old(self)@),
        ensures
            final(self)@ == stroke_width_set(old(self)@, width),
            editor_well_formed(final(self)@),
    {
        if self.current_shape_style_context().is_some() {
            return;
        }
        let p = match self.current_selection_paint_context() {
            Some(p) => p,
            None => return,
        };
        if p.stroke_width.is_none() {
            return;
        }
        let widths = ToolWidthSettings { draw_width: width, ..self.tool_widths() };
        self.set_tool_widths(widths);
        let mut count = String::new();
        push_decimal(&mut count, p.stroke_count as u64);
        let t = format_tenths(width);
        let message = joined("選択中の線", count.as_str(), "個の太さを ", t.as_str(), "px に変更しました。");
        self.replace_selected_strokes(StrokeEdit::Width(width), message);
    }

    /// The stroke color the panel shows.
    fn shown_stroke_color(&self) -> (r: RgbaColor)
        ensures
            r == stroke_source(self@),
    {
        match self.current_shape_style_context() {
            Some(c) => c.stroke_color,
            None => match self.current_selection_paint_context() {
                Some(p) => match p.stroke_color {
                    Some(s) => s,
                    None => self.tool_colors().stroke_color,
                },
                None => self.tool_colors().stroke_color,
            },
        }
    }

    /// The fill color the panel shows.
    fn shown_fill_color(&self) -> (r: RgbaColor)
        ensures
            r == fill_source(self@),
    {
        let from_selection = match self.current_selection_paint_context() {
            Some(p) => match p.fill_color {
                Some(f) => f,
                None => self.tool_colors().fill_color,
            },
            None => self.tool_colors().fill_color,
        };
        match self.current_shape_style_context() {
            Some(c) => match c.fill_color {
                Some(f) => f,
                None => from_selection,
            },
            None => from_selection,
        }
    }

    fn apply_stroke_paint_edit(
        &mut self,
        shapes: bool,
        strokes: bool,
        shape_edit: ShapeEdit,
        shape_done: String,
        stroke_edit: StrokeEdit,
        stroke_done: String,
        plain: String,
    )
        requires
            editor_well_formed(old(self)@),
        ensures
            final(self)@ == (if shapes {
                restyled_editor(old(self)@, StyleEdit::Shape(shape_edit), shape_done@)
            } else if strokes {
                restyled_editor(old(self)@, StyleEdit::Stroke(stroke_edit), stroke_done@)
            } else {
                with_info(old(self)@, plain@)
            }),
            editor_well_formed(final(self)@),
    {
        if shapes {
            self.replace_selected_shapes(shape_edit, shape_done);
        } else if strokes {
            self.replace_selected_strokes(stroke_edit, stroke_done);
        } else {
            self.set_info(plain);
        }
    }

    /// The stroke color button; see `stroke_color_set`.
    pub fn set_stroke_color(&mut self, color: RgbaColor)
        requires
            editor_well_formed(old(self)@),
        ensures
            final(self)@ == stroke_color_set(old(self)@, color),
            editor_well_formed(final(self)@),
    {
        let shape = self.current_shape_style_context();
        let paint = self.current_selection_paint_context();
        let colors = ToolColorSettings { stroke_color: color, ..self.tool_colors() };
        self.set_tool_colors(colors);
        self.push_recent_color(color);
        let (shapes, shape_done) = match shape {
            Some(c) => {
                let one = c.target == ShapeStyleTarget::SelectedShape;
                let text = if one {
                    framed_text(c.kind.label(), "の線色を変更しました。", "")
                } else {
                    counted_text("選択中の図形", c.shape_count, "個の線色を変更しました。")
                };
                (c.target != ShapeStyleTarget::NewShape, text)
            },
            None => (false, String::new()),
        };
        let (strokes, stroke_done) = match paint {
            Some(p) => (true, counted_text("選択中の線", p.stroke_count, "個の色を変更しました。")),
            None => (false, String::new()),
        };
        proof {
            assert(""@ =~= Seq::<char>::empty()) by {
                reveal_strlit("");
            }
        }
        self.apply_stroke_paint_edit(
            shapes,
            strokes,
            ShapeEdit::StrokeColor(color),
            shape_done,
            StrokeEdit::Color(color),
            stroke_done,
            string_of("線色を変更しました。"),
        );
    }

    /// The stroke opacity slider; see `stroke_opacity_set`.
    pub fn set_stroke_opacity(&mut self, percent: u8)
        requires
            editor_well_formed(old(self)@),
        ensures
            final(self)@ == stroke_opacity_set(old(self)@, percent),
            editor_well_formed(final(self)@),
    {
        let shape = self.current_shape_style_context();
        let paint = self.current_selection_paint_context();
        let next = set_alpha_percent(self.shown_stroke_color(), percent);
        let colors = ToolColorSettings { stroke_color: next, ..self.tool_colors() };
        self.set_tool_colors(colors);
        self.push_recent_color(next);
        let mut pc = String::new();
        push_decimal(&mut pc, percent as u64);
        let (shapes, shape_done) = match shape {
            Some(c) => {
                let one = c.target == ShapeStyleTarget::SelectedShape;
                let text = if one {
                    joined(c.kind.label(), "の線の不透明度を ", pc.as_str(), "% に変更しました。", "")
                } else {
                    let mut n = String::new();
                    push_decimal(&mut n, c.shape_count as u64);
                    let mut t = joined("選択中の図形", n.as_str(), "個の線の不透明度を ", pc.as_str(), "");
                    t.append("% に変更しました。");
                    t
                };
                (c.target != ShapeStyleTarget::NewShape, text)
            },
            None => (false, String::new()),
        };
        let (strokes, stroke_done) = match paint {
            Some(p) => {
                let mut n = String::new();
                push_decimal(&mut n, p.stroke_count as u64);
                let mut t = joined("選択中の線", n.as_str(), "個の不透明度を ", pc.as_str(), "");
                t.append("% に変更しました。");
                (true, t)
            },
            None => (false, String::new()),
        };
        let plain = joined("線の不透明度を ", pc.as_str(), "% に変更しました。", "", "");
        proof {
            assert(""@ =~= Seq::<char>::empty()) by {
                reveal_strlit("");
            }
        }
        self.apply_stroke_paint_edit(
            shapes,
            strokes,
            ShapeEdit::StrokeColor(next),
            shape_done,
            StrokeEdit::Opacity(percent),
            stroke_done,
            plain,
        );
    }

    fn apply_shape_fill_edit(&mut self, shapes: bool, fill: Option<RgbaColor>, done: String, plain: String)
        requires
            editor_well_formed(old(self)@),
        ensures
            final(self)@ == (if shapes {
                restyled_editor(old(self)@, StyleEdit::Shape(ShapeEdit::Fill(fill)), done@)
            } else {
                with_info(old(self)@, plain@)
            }),
            editor_well_formed(final(self)@),
    {
        if shapes {
            self.replace_selected_shapes(ShapeEdit::Fill(fill), done);
        } else {
            self.set_info(plain);
        }
    }

    /// The "use fill" check box of the shape panel; see `shape_fill_enabled_set`.
    pub fn set_shape_fill_enabled(&mut self, enabled: bool)
        requires
            editor_well_formed(old(self)@),
        ensures
            final(self)@ == shape_fill_enabled_set(old(self)@, enabled),
            editor_well_formed(final(self)@),
    {
        let c = match self.current_shape_style_context() {
            Some(c) => c,
            None => return,
        };
        let source = self.shown_fill_color();
        let current = self.tool_colors();
        let colors = ToolColorSettings {
            fill_enabled: enabled,
            fill_color: if enabled {
                source
            } else {
                current.fill_color
            },
            ..current
        };
        self.set_tool_colors(colors);
        let state = if enabled {
            "オン"
        } else {
            "オフ"
        };
        let done = if c.target == ShapeStyleTarget::SelectedShape {
            joined(c.kind.label(), "の塗りを", state, "にしました。", "")
        } else {
            let mut n = String::new();
            push_decimal(&mut n, c.fill_supported_count as u64);
            joined("選択中の図形", n.as_str(), "個の塗りを", state, "にしました。")
        };
        let plain = joined("図形の塗りを", state, "にしました。", "", "");
        proof {
            assert(""@ =~= Seq::<char>::empty()) by {
                reveal_strlit("");
            }
        }
        self.apply_shape_fill_edit(
            c.target != ShapeStyleTarget::NewShape,
            if enabled {
                Some(source)
            } else {
                None
            },
            done,
            plain,
        );
    }

    /// The fill color button of the shape panel; see `shape_fill_color_set`.
    pub fn set_shape_fill_color(&mut self, color: RgbaColor)
        requires
            editor_well_formed(old(self)@),
        ensures
            final(self)@ == shape_fill_color_set(old(self)@, color),
            editor_well_formed(final(self)@),
    {
        let c = match self.current_shape_style_context() {
            Some(c) => c,
            None => return,
        };
        let colors = ToolColorSettings { fill_color: color, fill_enabled: true, ..self.tool_colors() };
        self.set_tool_colors(colors);
        self.push_recent_color(color);
        let done = if c.target == ShapeStyleTarget::SelectedShape {
            framed_text(c.kind.label(), "の塗り色を変更しました。", "")
        } else {
            counted_text("選択中の図形", c.fill_supported_count, "個の塗り色を変更しました。")
        };
        proof {
            assert(""@ =~= Seq::<char>::empty()) by {
                reveal_strlit("");
            }
        }
        self.apply_shape_fill_edit(
            c.target != ShapeStyleTarget::NewShape,
            Some(color),
            done,
            string_of("塗り色を変更しました。"),
        );
    }

    /// The fill opacity slider of the shape panel; see `shape_fill_opacity_set`.
    pub fn set_shape_fill_opacity(&mut self, percent: u8)
        requires
            editor_well_formed(old(self)@),
        ensures
            final(self)@ == shape_fill_opacity_set(old(self)@, percent),
            editor_well_formed(final(self)@),
    {
        let c = match self.current_shape_style_context() {
            Some(c) => c,
            None => return,
        };
        let next = set_alpha_percent(self.shown_fill_color(), percent);
        let colors = ToolColorSettings { fill_color: next, fill_enabled: true, ..self.tool_colors() };
        self.set_tool_colors(colors);
        self.push_recent_color(next);
        let mut pc = String::new();
        push_decimal(&mut pc, percent as u64);
        let done = if c.target == ShapeStyleTarget::SelectedShape {
            joined(c.kind.label(), "の塗りの不透明度を ", pc.as_str(), "% に変更しました。", "")
        } else {
            let mut n = String::new();
            push_decimal(&mut n, c.fill_supported_count as u64);
            let mut t = joined("選択中の図形", n.as_str(), "個の塗りの不透明度を ", pc.as_str(), "");
            t.append("% に変更しました。");
            t
        };
        let plain = joined("塗りの不透明度を ", pc.as_str(), "% に変更しました。", "", "");
        proof {
            assert(""@ =~= Seq::<char>::empty()) by {
                reveal_strlit("");
            }
        }
        self.apply_shape_fill_edit(c.target != ShapeStyleTarget::NewShape, Some(next), done, plain);
    }

    /// The fill color button for selected fills; see `selected_fill_color_set`.
    pub fn set_selected_fill_color(&mut self, color: RgbaColor)
        requires
            editor_well_formed(old(self)@),
        ensures
            final(self)@ == selected_fill_color_set(old(self)@, color),
            editor_well_formed(final(self)@),
    {
        if self.current_shape_style_context().is_some() {
            return;
        }
        let p = match self.current_selection_paint_context() {
            Some(p) => p,
            None => return,
        };
        let colors = ToolColorSettings { fill_color: color, fill_enabled: true, ..self.tool_colors() };
        self.set_tool_colors(colors);
        self.push_recent_color(color);
        let message = counted_text("選択中の塗り", p.fill_count, "個の色を変更しました。");
        self.replace_selected_fills(FillEdit::Color(color), message);
    }

    /// The fill opacity slider for selected fills; see `selected_fill_opacity_set`.
    pub fn set_selected_fill_opacity(&mut self, percent: u8)
        requires
            editor_well_formed(old(self)@),
        ensures
            final(self)@ == selected_fill_opacity_set(old(self)@, percent),
            editor_well_formed(final(self)@),
    {
        if self.current_shape_style_context().is_some() {
            return;
        }
        let p = match self.current_selection_paint_context() {
            Some(p) => p,
            None => return,
        };
        let next = set_alpha_percent(self.shown_fill_color(), percent);
        let colors = ToolColorSettings { fill_color: next, fill_enabled: true, ..self.tool_colors() };
        self.set_tool_colors(colors);
        self.push_recent_color(next);
        let mut n = String::new();
        push_decimal(&mut n, p.fill_count as u64);
        let mut pc = String::new();
        push_decimal(&mut pc, percent as u64);
        let message = joined("選択中の塗り", n.as_str(), "個の不透明度を ", pc.as_str(), "% に変更しました。");
        self.replace_selected_fills(FillEdit::Opacity(percent), message);
    }
}


/// Whether the color panel offers stroke controls: not for a selection of fills only.
pub open spec fn stroke_controls_available(v: EditorView) -> bool {
    match selection_paint_context_of(v) {
        Some(p) => p.stroke_count > 0,
        None => true,
    }
}

/// Whether the color panel offers fill controls: for shapes that can carry a fill, for
/// a selection that holds fills, and for the tools.
pub open spec fn fill_controls_available(v: EditorView) -> bool {
    match shape_style_context_of(v) {
        Some(c) => c.spec_supports_fill(),
        None => match selection_paint_context_of(v) {
            Some(p) => p.fill_count > 0,
            None => true,
        },
    }
}

/// The quick color target moved off a kind of paint that the panel does not offer.
pub open spec fn quick_target_synced(v: EditorView) -> EditorView {
    let t = v.tool_colors.quick_color_target;
    let t1 = if !stroke_controls_available(v) && t == ColorTarget::Stroke {
        ColorTarget::Fill
    } else {
        t
    };
    let t2 = if !fill_controls_available(v) && t1 == ColorTarget::Fill {
        ColorTarget::Stroke
    } else {
        t1
    };
    EditorView { tool_colors: ToolColorSettings { quick_color_target: t2, ..v.tool_colors }, ..v }
}

/// The drawing width slider, offered when no shape is being styled.
pub open spec fn draw_width_set(v: EditorView, width: Scalar) -> EditorView {
    if shape_style_context_of(v) is Some {
        v
    } else {
        with_info(
            EditorView { tool_widths: ToolWidthSettings { draw_width: width, ..v.tool_widths }, ..v },
            "描く太さを "@ + tenths_text(width.bits) + "px に変更しました。描画ツールと図形に使います。"@,
        )
    }
}

/// The eraser width slider.
pub open spec fn eraser_width_set(v: EditorView, width: Scalar) -> EditorView {
    with_info(
        EditorView { tool_widths: ToolWidthSettings { eraser_width: width, ..v.tool_widths }, ..v },
        "消しゴム太さを "@ + tenths_text(width.bits) + "px に変更しました。"@,
    )
}

impl PaintApp {
    /// Moves the quick color target off stroke or fill when the panel does not offer it;
    /// see `quick_target_synced`.
    pub fn sync_quick_color_target(&mut self)
        ensures
            final(self)@ == quick_target_synced(old(self)@),
    {
        let stroke_available = match self.current_selection_paint_context() {
            Some(p) => p.has_strokes(),
            None => true,
        };
        let fill_available = match self.current_shape_style_context() {
            Some(c) => c.supports_fill(),
            None => match self.current_selection_paint_context() {
                Some(p) => p.has_fills(),
                None => true,
            },
        };
        let colors = self.tool_colors();
        let mut target = colors.quick_color_target;
        if !stroke_available && target == ColorTarget::Stroke {
            target = ColorTarget::Fill;
        }
        if !fill_available && target == ColorTarget::Fill {
            target = ColorTarget::Stroke;
        }
        self.set_tool_colors(ToolColorSettings { quick_color_target: target, ..colors });
    }

    /// The drawing width slider; see `draw_width_set`.
    pub fn set_draw_width(&mut self, width: Scalar)
        ensures
            final(self)@ == draw_width_set(old(self)@, width),
    {
        if self.current_shape_style_context().is_some() {
            return;
        }
        let widths = ToolWidthSettings { draw_width: width, ..self.tool_widths() };
        self.set_tool_widths(widths);
        let t = format_tenths(width);
        let message = joined("描く太さを ", t.as_str(), "px に変更しました。描画ツールと図形に使います。", "", "");
        proof {
            assert(""@ =~= Seq::<char>::empty()) by {
                reveal_strlit("");
            }
        }
        self.set_info(message);
    }

    /// The eraser width slider; see `eraser_width_set`.
    pub fn set_eraser_width(&mut self, width: Scalar)
        ensures
            final(self)@ == eraser_width_set(old(self)@, width),
    {
        let widths = ToolWidthSettings { eraser_width: width, ..self.tool_widths() };
        self.set_tool_widths(widths);
        let t = format_tenths(width);
        let message = joined("消しゴム太さを ", t.as_str(), "px に変更しました。", "", "");
        proof {
            assert(""@ =~= Seq::<char>::empty()) by {
                reveal_strlit("");
            }
        }
        self.set_info(message);
    }

    /// Records a drawing whose grid spacing was changed, naming the new spacing in whole
    /// pixels; see `configuration_change_applied`.
    pub fn apply_grid_spacing_change(&mut self, next: PaintDocument)
        requires
            editor_well_formed(old(self)@),
            ids_below_max(next@.layers),
            layout_repairable(next@),
        ensures
            final(self)@ == configuration_change_applied(
                old(self)@,
                next@,
                "グリッド間隔を "@ + units_text(next@.grid.spacing.bits) + "px に設定しました。"@,
            ),
            editor_well_formed(final(self)@),
    {
        let spacing = format_units(next.grid().spacing);
        let message = joined("グリッド間隔を ", spacing.as_str(), "px に設定しました。", "", "");
        proof {
            assert(""@ =~= Seq::<char>::empty()) by {
                reveal_strlit("");
            }
        }
        self.apply_document_configuration_change(next, message);
    }

    /// Records a drawing with a guide added on `axis` at `position`, naming both (the
    /// position in whole pixels); see `configuration_change_applied`.
    pub fn apply_added_guide(&mut self, next: PaintDocument, axis: GuideAxis, position: Scalar)
        requires
            editor_well_formed(old(self)@),
            ids_below_max(next@.layers),
            layout_repairable(next@),
        ensures
            final(self)@ == configuration_change_applied(
                old(self)@,
                next@,
                axis.spec_label() + "ガイドを "@ + units_text(position.bits) + "px に追加しました。"@,
            ),
            editor_well_formed(final(self)@),
    {
        let p = format_units(position);
        let message = joined(axis.label(), "ガイドを ", p.as_str(), "px に追加しました。", "");
        proof {
            assert(""@ =~= Seq::<char>::empty()) by {
                reveal_strlit("");
            }
        }
        self.apply_document_configuration_change(next, message);
    }
}

} // verus!
