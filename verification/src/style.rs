use vstd::prelude::*;

use crate::decimal::{format_tenths, tenths_text};
use crate::model::{RgbaColor, Scalar, ShapeKind};
use crate::text::{decimal_chars, push_decimal, string_of};
use crate::ui::alpha_percent;
use vstd::string::StringExecFns;

verus! {

/// Which shapes the shape style panel edits.
#[derive(Debug, Clone, Copy, PartialEq, Eq, Structural)]
pub enum ShapeStyleTarget {
    SelectedShape,
    SelectedShapes,
    NewShape,
}

/// What the shape style panel shows: the shapes it edits and a representative style.
#[derive(Debug, Clone, Copy, PartialEq, Eq)]
pub struct ShapeStyleContext {
    pub target: ShapeStyleTarget,
    pub kind: ShapeKind,
    pub stroke_color: RgbaColor,
    pub fill_color: Option<RgbaColor>,
    pub width: Scalar,
    pub shape_count: usize,
    pub total_selection_count: usize,
    pub fill_supported_count: usize,
    pub fill_enabled_count: usize,
}

/// The opacity of `c` in percent, as `alpha_percent` computes it.
pub open spec fn opacity_percent(c: RgbaColor) -> nat {
    ((200 * c.a as int + 255) / 510) as nat
}

pub open spec fn shape_selection_label(c: ShapeStyleContext) -> Seq<char> {
    match c.target {
        ShapeStyleTarget::SelectedShape => "選択中"@,
        ShapeStyleTarget::SelectedShapes => if c.total_selection_count == c.shape_count {
            decimal_chars(c.shape_count as nat) + "個の図形"@
        } else {
            decimal_chars(c.total_selection_count as nat) + "個選択 / 図形"@ + decimal_chars(
                c.shape_count as nat,
            ) + "個"@
        },
        ShapeStyleTarget::NewShape => "次に描く図形"@,
    }
}

pub open spec fn shape_reflection_label(c: ShapeStyleContext) -> Option<Seq<char>> {
    match c.target {
        ShapeStyleTarget::SelectedShape => Some("選択中へ反映"@),
        ShapeStyleTarget::SelectedShapes => Some(
            if c.total_selection_count == c.shape_count {
                "図形"@ + decimal_chars(c.shape_count as nat) + "個へ反映"@
            } else {
                "選択"@ + decimal_chars(c.total_selection_count as nat) + "個中 図形"@
                    + decimal_chars(c.shape_count as nat) + "個へ反映"@
            },
        ),
        ShapeStyleTarget::NewShape => None,
    }
}

pub open spec fn shape_edit_summary(c: ShapeStyleContext) -> Seq<char> {
    match c.target {
        ShapeStyleTarget::SelectedShape => "選択中の図形へすぐ反映されます。"@,
        ShapeStyleTarget::SelectedShapes => if c.total_selection_count == c.shape_count {
            "選択中の図形"@ + decimal_chars(c.shape_count as nat) + "個へまとめて反映されます。"@
        } else {
            "選択中"@ + decimal_chars(c.total_selection_count as nat) + "個のうち図形"@
                + decimal_chars(c.shape_count as nat) + "個へまとめて反映されます。"@
        },
        ShapeStyleTarget::NewShape => "次に描く図形へ反映されます。"@,
    }
}

impl ShapeStyleContext {
    pub open spec fn spec_supports_fill(self) -> bool {
        self.fill_supported_count > 0
    }

    pub open spec fn spec_fill_enabled(self) -> bool {
        self.spec_supports_fill() && self.fill_enabled_count == self.fill_supported_count
    }

    pub open spec fn spec_has_any_fill(self) -> bool {
        self.fill_enabled_count > 0
    }

    pub fn is_selected_shape(self) -> (r: bool)
        ensures
            r == (self.target is SelectedShape),
    {
        matches!(self.target, ShapeStyleTarget::SelectedShape)
    }

    pub fn is_selected_shapes(self) -> (r: bool)
        ensures
            r == (self.target is SelectedShapes),
    {
        matches!(self.target, ShapeStyleTarget::SelectedShapes)
    }

    /// The panel edits selected shapes rather than the next shape drawn.
    pub fn is_selection_target(self) -> (r: bool)
        ensures
            r == !(self.target is NewShape),
    {
        match self.target {
            ShapeStyleTarget::SelectedShape | ShapeStyleTarget::SelectedShapes => true,
            ShapeStyleTarget::NewShape => false,
        }
    }

    /// At least one of the shapes can carry a fill.
    pub fn supports_fill(self) -> (r: bool)
        ensures
            r == self.spec_supports_fill(),
    {
        self.fill_supported_count > 0
    }

    /// Every shape that can carry a fill has one.
    pub fn fill_enabled(self) -> (r: bool)
        ensures
            r == self.spec_fill_enabled(),
    {
        self.supports_fill() && self.fill_enabled_count == self.fill_supported_count
    }

    pub fn has_any_fill(self) -> (r: bool)
        ensures
            r == self.spec_has_any_fill(),
    {
        self.fill_enabled_count > 0
    }

    /// "選択中", "n個の図形", "t個選択 / 図形n個" or "次に描く図形".
    pub fn selection_label(self) -> (r: String)
        ensures
            r@ == shape_selection_label(self),
    {
        match self.target {
            ShapeStyleTarget::SelectedShape => string_of("選択中"),
            ShapeStyleTarget::SelectedShapes => {
                let mut s = String::new();
                if self.total_selection_count == self.shape_count {
                    push_decimal(&mut s, self.shape_count as u64);
                    s.append("個の図形");
                } else {
                    push_decimal(&mut s, self.total_selection_count as u64);
                    s.append("個選択 / 図形");
                    push_decimal(&mut s, self.shape_count as u64);
                    s.append("個");
                }
                s
            },
            ShapeStyleTarget::NewShape => string_of("次に描く図形"),
        }
    }

    /// The kind's name for one shape, "図形 n個" for several.
    pub fn kind_summary_label(self) -> (r: String)
        ensures
            r@ == (if self.target is SelectedShapes {
                "図形 "@ + decimal_chars(self.shape_count as nat) + "個"@
            } else {
                self.kind.spec_label()
            }),
    {
        match self.target {
            ShapeStyleTarget::SelectedShapes => {
                let mut s = string_of("図形 ");
                push_decimal(&mut s, self.shape_count as u64);
                s.append("個");
                s
            },
            _ => string_of(self.kind.label()),
        }
    }

    /// A note when a fill reaches only part of the shapes.
    pub fn fill_scope_note(self) -> (r: Option<&'static str>)
        ensures
            r is Some == (self.spec_supports_fill() && self.fill_supported_count
                < self.shape_count),
            r matches Some(t) ==> t@ == "直線には塗りを適用せず、四角形 / 楕円だけに反映します。"@,
    {
        if self.supports_fill() && self.fill_supported_count < self.shape_count {
            Some("直線には塗りを適用せず、四角形 / 楕円だけに反映します。")
        } else {
            None
        }
    }

    /// The chip naming the shapes an edit reaches; none for the next shape.
    pub fn reflection_chip_label(self) -> (r: Option<String>)
        ensures
            r is Some == shape_reflection_label(self) is Some,
            r matches Some(t) ==> t@ == shape_reflection_label(self)->Some_0,
    {
        match self.target {
            ShapeStyleTarget::SelectedShape => Some(string_of("選択中へ反映")),
            ShapeStyleTarget::SelectedShapes => {
                let mut s = String::new();
                if self.total_selection_count == self.shape_count {
                    s.append("図形");
                    push_decimal(&mut s, self.shape_count as u64);
                    s.append("個へ反映");
                } else {
                    s.append("選択");
                    push_decimal(&mut s, self.total_selection_count as u64);
                    s.append("個中 図形");
                    push_decimal(&mut s, self.shape_count as u64);
                    s.append("個へ反映");
                }
                Some(s)
            },
            ShapeStyleTarget::NewShape => None,
        }
    }

    /// "線 p% / w px": the stroke's opacity and its width with one decimal.
    pub fn stroke_summary_label(self) -> (r: String)
        ensures
            r@ == "線 "@ + decimal_chars(opacity_percent(self.stroke_color)) + "% / "@ + tenths_text(
                self.width.bits,
            ) + "px"@,
    {
        let mut s = string_of("線 ");
        push_decimal(&mut s, alpha_percent(self.stroke_color) as u64);
        s.append("% / ");
        let width = format_tenths(self.width);
        s.append(width.as_str());
        s.append("px");
        s
    }

    /// "塗りなし", "塗り p%" (p the fill's opacity), "塗りあり" or "一部に塗り".
    pub fn fill_summary_label(self) -> (r: String)
        ensures
            r@ == (if !self.spec_supports_fill() || !self.spec_has_any_fill() {
                "塗りなし"@
            } else if self.spec_fill_enabled() {
                match self.fill_color {
                    Some(fill) => "塗り "@ + decimal_chars(opacity_percent(fill)) + "%"@,
                    None => "塗りあり"@,
                }
            } else {
                "一部に塗り"@
            }),
    {
        if !self.supports_fill() || !self.has_any_fill() {
            string_of("塗りなし")
        } else if self.fill_enabled() {
            match self.fill_color {
                Some(fill) => {
                    let mut s = string_of("塗り ");
                    push_decimal(&mut s, alpha_percent(fill) as u64);
                    s.append("%");
                    s
                },
                None => string_of("塗りあり"),
            }
        } else {
            string_of("一部に塗り")
        }
    }

    /// Where an edit of the panel lands.
    pub fn edit_summary(self) -> (r: String)
        ensures
            r@ == shape_edit_summary(self),
    {
        match self.target {
            ShapeStyleTarget::SelectedShape => string_of("選択中の図形へすぐ反映されます。"),
            ShapeStyleTarget::SelectedShapes => {
                let mut s = String::new();
                if self.total_selection_count == self.shape_count {
                    s.append("選択中の図形");
                    push_decimal(&mut s, self.shape_count as u64);
                    s.append("個へまとめて反映されます。");
                } else {
                    s.append("選択中");
                    push_decimal(&mut s, self.total_selection_count as u64);
                    s.append("個のうち図形");
                    push_decimal(&mut s, self.shape_count as u64);
                    s.append("個へまとめて反映されます。");
                }
                s
            },
            ShapeStyleTarget::NewShape => string_of("次に描く図形へ反映されます。"),
        }
    }

    /// "線だけ", "線と塗り" or "一部に塗り".
    pub fn paint_mode_label(self) -> (r: &'static str)
        ensures
            r@ == (if !self.spec_supports_fill() || !self.spec_has_any_fill() {
                "線だけ"@
            } else if self.spec_fill_enabled() {
                "線と塗り"@
            } else {
                "一部に塗り"@
            }),
    {
        if !self.supports_fill() || !self.has_any_fill() {
            "線だけ"
        } else if self.fill_enabled() {
            "線と塗り"
        } else {
            "一部に塗り"
        }
    }
}

/// What the paint panel shows for a selection of strokes and fills only.
#[derive(Debug, Clone, Copy, PartialEq, Eq)]
pub struct SelectionPaintContext {
    pub stroke_count: usize,
    pub fill_count: usize,
    pub total_selection_count: usize,
    pub stroke_color: Option<RgbaColor>,
    pub stroke_width: Option<Scalar>,
    pub fill_color: Option<RgbaColor>,
}

pub open spec fn paint_selection_label(stroke_count: nat, fill_count: nat) -> Seq<char> {
    if fill_count == 0 {
        "線 "@ + decimal_chars(stroke_count) + "個"@
    } else if stroke_count == 0 {
        "塗り "@ + decimal_chars(fill_count) + "個"@
    } else {
        "線 "@ + decimal_chars(stroke_count) + "個 / 塗り "@ + decimal_chars(fill_count) + "個"@
    }
}

impl SelectionPaintContext {
    pub fn has_strokes(self) -> (r: bool)
        ensures
            r == (self.stroke_count > 0),
    {
        self.stroke_count > 0
    }

    pub fn has_fills(self) -> (r: bool)
        ensures
            r == (self.fill_count > 0),
    {
        self.fill_count > 0
    }

    /// "線 n個", "塗り m個" or "線 n個 / 塗り m個".
    pub fn selection_label(self) -> (r: String)
        ensures
            r@ == paint_selection_label(self.stroke_count as nat, self.fill_count as nat),
    {
        let mut s = String::new();
        if self.fill_count == 0 {
            s.append("線 ");
            push_decimal(&mut s, self.stroke_count as u64);
            s.append("個");
        } else if self.stroke_count == 0 {
            s.append("塗り ");
            push_decimal(&mut s, self.fill_count as u64);
            s.append("個");
        } else {
            s.append("線 ");
            push_decimal(&mut s, self.stroke_count as u64);
            s.append("個 / 塗り ");
            push_decimal(&mut s, self.fill_count as u64);
            s.append("個");
        }
        s
    }

    /// The selection label when the strokes and fills are the whole selection, else
    /// "選択t個へ反映".
    pub fn reflection_chip_label(self) -> (r: String)
        ensures
            r@ == (if self.total_selection_count == self.stroke_count + self.fill_count {
                paint_selection_label(self.stroke_count as nat, self.fill_count as nat)
            } else {
                "選択"@ + decimal_chars(self.total_selection_count as nat) + "個へ反映"@
            }),
    {
        let whole = match self.stroke_count.checked_add(self.fill_count) {
            Some(sum) => sum == self.total_selection_count,
            None => false,
        };
        if whole {
            self.selection_label()
        } else {
            let mut s = string_of("選択");
            push_decimal(&mut s, self.total_selection_count as u64);
            s.append("個へ反映");
            s
        }
    }

    pub fn edit_summary(self) -> (r: &'static str)
        ensures
            r@ == (if self.stroke_count > 0 && self.fill_count > 0 {
                "選択中の線と塗りへすぐ反映されます。"@
            } else if self.stroke_count > 0 {
                "選択中の線へすぐ反映されます。"@
            } else if self.fill_count > 0 {
                "選択中の塗りへすぐ反映されます。"@
            } else {
                "選択中の要素へすぐ反映されます。"@
            }),
    {
        match (self.has_strokes(), self.has_fills()) {
            (true, true) => "選択中の線と塗りへすぐ反映されます。",
            (true, false) => "選択中の線へすぐ反映されます。",
            (false, true) => "選択中の塗りへすぐ反映されます。",
            (false, false) => "選択中の要素へすぐ反映されます。",
        }
    }
}

} // verus!
