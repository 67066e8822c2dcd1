use vstd::prelude::*;

use crate::model::{RgbaColor, Scalar};
use crate::selection::CanvasToolKind;
use crate::ui::ColorTarget;

verus! {

/// How many recently used colors are remembered.
pub const RECENT_COLOR_LIMIT: usize = 12;

/// The colors of the quick palette, in the order they are offered.
pub open spec fn quick_palette_colors() -> Seq<(u8, u8, u8, u8)> {
    seq![
        (37u8, 37u8, 41u8, 255u8),
        (255, 255, 255, 255),
        (220, 64, 64, 255),
        (255, 143, 0, 255),
        (255, 199, 64, 255),
        (76, 175, 80, 255),
        (0, 150, 136, 255),
        (33, 150, 243, 255),
        (63, 81, 181, 255),
        (156, 39, 176, 255),
        (121, 85, 72, 255),
        (96, 125, 139, 255),
    ]
}

/// The quick palette; see `quick_palette_colors`.
pub fn quick_palette() -> (r: Vec<RgbaColor>)
    ensures
        r@.len() == quick_palette_colors().len(),
        forall|i: int|
            0 <= i < r@.len() ==> (#[trigger] r@[i].r, r@[i].g, r@[i].b, r@[i].a)
                == quick_palette_colors()[i],
{
    let r = vec![
        RgbaColor::from_rgba(37, 37, 41, 255),
        RgbaColor::from_rgba(255, 255, 255, 255),
        RgbaColor::from_rgba(220, 64, 64, 255),
        RgbaColor::from_rgba(255, 143, 0, 255),
        RgbaColor::from_rgba(255, 199, 64, 255),
        RgbaColor::from_rgba(76, 175, 80, 255),
        RgbaColor::from_rgba(0, 150, 136, 255),
        RgbaColor::from_rgba(33, 150, 243, 255),
        RgbaColor::from_rgba(63, 81, 181, 255),
        RgbaColor::from_rgba(156, 39, 176, 255),
        RgbaColor::from_rgba(121, 85, 72, 255),
        RgbaColor::from_rgba(96, 125, 139, 255),
    ];
    assert(r@.len() == 12);
    r
}

/// Stroke widths of the tools: one shared by the pens and shapes, one for the eraser.
#[derive(Debug, Clone, Copy, PartialEq, Eq)]
pub struct ToolWidthSettings {
    pub draw_width: Scalar,
    pub eraser_width: Scalar,
}

impl ToolWidthSettings {
    pub open spec fn spec_for_tool(self, tool: CanvasToolKind) -> Scalar {
        if tool is Eraser {
            self.eraser_width
        } else {
            self.draw_width
        }
    }

    /// The width `tool` draws with.
    pub fn for_tool(self, tool: CanvasToolKind) -> (r: Scalar)
        ensures
            r == self.spec_for_tool(tool),
    {
        match tool {
            CanvasToolKind::Eraser => self.eraser_width,
            _ => self.draw_width,
        }
    }
}

/// 6.0 and 12.0.
impl Default for ToolWidthSettings {
    fn default() -> (s: Self)
        ensures
            s.draw_width.bits == 0x40c0_0000u32,
            s.eraser_width.bits == 0x4140_0000u32,
    {
        ToolWidthSettings {
            draw_width: Scalar::from_bits(0x40c0_0000u32),
            eraser_width: Scalar::from_bits(0x4140_0000u32),
        }
    }
}

/// The colors new strokes and shapes get, and which of them a quick pick changes.
#[derive(Debug, Clone, Copy, PartialEq, Eq, Structural)]
pub struct ToolColorSettings {
    pub stroke_color: RgbaColor,
    pub fill_color: RgbaColor,
    pub fill_enabled: bool,
    pub quick_color_target: ColorTarget,
}

impl Default for ToolColorSettings {
    fn default() -> (s: Self)
        ensures
            s == (ToolColorSettings {
                stroke_color: RgbaColor { r: 37, g: 37, b: 41, a: 255 },
                fill_color: RgbaColor { r: 255, g: 199, b: 64, a: 180 },
                fill_enabled: false,
                quick_color_target: ColorTarget::Stroke,
            }),
    {
        ToolColorSettings {
            stroke_color: RgbaColor::charcoal(),
            fill_color: RgbaColor::from_rgba(255, 199, 64, 180),
            fill_enabled: false,
            quick_color_target: ColorTarget::Stroke,
        }
    }
}

/// What the canvas draws with: the tool, its colors and width, and the input modes.
#[derive(Debug, Clone, Copy, PartialEq, Eq)]
pub struct ToolSettings {
    pub tool: CanvasToolKind,
    pub stroke_color: RgbaColor,
    pub fill_color: Option<RgbaColor>,
    pub width: Scalar,
    pub multi_select_mode: bool,
    pub finger_draw_enabled: bool,
}

/// `s` without the entries equal to `c`, in their order.
pub open spec fn without_color(s: Seq<RgbaColor>, c: RgbaColor) -> Seq<RgbaColor>
    decreases s.len(),
{
    if s.len() == 0 {
        s
    } else {
        let rest = without_color(s.drop_last(), c);
        if s.last() == c {
            rest
        } else {
            rest.push(s.last())
        }
    }
}

/// The first `n` entries of `s`, or all of them when there are fewer.
pub open spec fn first_entries(s: Seq<RgbaColor>, n: int) -> Seq<RgbaColor> {
    if s.len() <= n {
        s
    } else {
        s.take(n)
    }
}

/// The recent colors after using `c`: unchanged when `c` is already first; else `c`
/// moves to the front, its other occurrences go, and the list is cut to the limit.
pub open spec fn recent_colors_with(s: Seq<RgbaColor>, c: RgbaColor) -> Seq<RgbaColor> {
    if s.len() > 0 && s[0] == c {
        s
    } else {
        first_entries(seq![c] + without_color(s, c), RECENT_COLOR_LIMIT as int)
    }
}

/// Records `color` as the most recently used color.
pub fn push_recent_color(colors: &mut Vec<RgbaColor>, color: RgbaColor)
    ensures
        final(colors)@ == recent_colors_with(old(colors)@, color),
{
    if colors.len() > 0 && colors[0] == color {
        return;
    }
    let ghost s = colors@;
    let mut out: Vec<RgbaColor> = Vec::new();
    out.push(color);
    let mut i: usize = 0;
    while i < colors.len()
        invariant
            s == colors@,
            i <= s.len(),
            out@ == seq![color] + without_color(s.take(i as int), color),
        decreases s.len() - i,
    {
        let c = colors[i];
        proof {
            assert(s.take(i + 1).drop_last() =~= s.take(i as int));
            assert(s.take(i + 1).last() == c);
        }
        if c != color {
            out.push(c);
            assert(out@ =~= seq![color] + without_color(s.take(i + 1), color));
        }
        i += 1;
    }
    assert(s.take(s.len() as int) =~= s);
    out.truncate(RECENT_COLOR_LIMIT);
    assert(out@ =~= first_entries(seq![color] + without_color(s, color), RECENT_COLOR_LIMIT as int));
    *colors = out;
}

} // verus!
