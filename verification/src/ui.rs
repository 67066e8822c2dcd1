use vstd::prelude::*;

use crate::model::{AlignmentKind, DistributionKind, RgbaColor, StackOrderCommand};
use crate::selection::CanvasToolKind;
use crate::text::{decimal_chars, push_decimal, string_of};
use vstd::string::StringExecFns;

verus! {

/// Whether a status line reports progress or a failure.
#[derive(Debug, Clone, Copy, PartialEq, Eq, Structural)]
pub enum StatusKind {
    Info,
    Error,
}

/// The line of text at the bottom of the window.
#[derive(Debug)]
pub struct StatusMessage {
    pub kind: StatusKind,
    pub text: String,
}

impl StatusMessage {
    pub fn info(text: String) -> (m: Self)
        ensures
            m.kind == StatusKind::Info,
            m.text@ == text@,
    {
        StatusMessage { kind: StatusKind::Info, text }
    }

    pub fn error(text: String) -> (m: Self)
        ensures
            m.kind == StatusKind::Error,
            m.text@ == text@,
    {
        StatusMessage { kind: StatusKind::Error, text }
    }
}

/// Which color a quick color pick changes.
#[derive(Debug, Clone, Copy, PartialEq, Eq, Structural)]
pub enum ColorTarget {
    Stroke,
    Fill,
}

impl ColorTarget {
    pub fn label(self) -> (r: &'static str)
        ensures
            r@ == (match self {
                ColorTarget::Stroke => "線色"@,
                ColorTarget::Fill => "塗り色"@,
            }),
    {
        match self {
            ColorTarget::Stroke => "線色",
            ColorTarget::Fill => "塗り色",
        }
    }
}

/// Which arrangement commands a selection allows.
#[derive(Debug, Clone, Copy, PartialEq, Eq, Structural)]
pub struct SelectionArrangeContext {
    pub selection_count: usize,
    pub can_reorder: bool,
    pub can_align: bool,
    pub can_distribute: bool,
}

pub open spec fn arrange_chip(can_distribute: bool, compact: bool) -> Seq<char> {
    if can_distribute {
        if compact {
            "整列・等間隔"@
        } else {
            "整列・等間隔・順序"@
        }
    } else if compact {
        "整列・順序"@
    } else {
        "整列・重なり順"@
    }
}

impl SelectionArrangeContext {
    /// Reordering needs one selected element, aligning two and distributing three, and
    /// none of them is offered while the canvas is being dragged.
    pub fn from_state(selection_count: usize, has_canvas_interaction: bool) -> (c: Self)
        ensures
            c.selection_count == selection_count,
            c.can_reorder == (!has_canvas_interaction && selection_count >= 1),
            c.can_align == (!has_canvas_interaction && selection_count >= 2),
            c.can_distribute == (!has_canvas_interaction && selection_count >= 3),
    {
        SelectionArrangeContext {
            selection_count,
            can_reorder: !has_canvas_interaction && selection_count >= 1,
            can_align: !has_canvas_interaction && selection_count >= 2,
            can_distribute: !has_canvas_interaction && selection_count >= 3,
        }
    }

    /// The arrangement panel is shown when aligning is possible.
    pub fn show_panel(self) -> (r: bool)
        ensures
            r == self.can_align,
    {
        self.can_align
    }

    /// The chip naming the arrangement commands on offer, when the panel is shown.
    pub fn summary_chip_label(self, compact: bool) -> (r: Option<String>)
        ensures
            r is Some <==> self.can_align,
            r matches Some(s) ==> s@ == arrange_chip(self.can_distribute, compact),
    {
        if !self.show_panel() {
            None
        } else if self.can_distribute {
            Some(
                if compact {
                    string_of("整列・等間隔")
                } else {
                    string_of("整列・等間隔・順序")
                },
            )
        } else if compact {
            Some(string_of("整列・順序"))
        } else {
            Some(string_of("整列・重なり順"))
        }
    }

    /// "n個選択中 · 整列 / 等間隔" when distributing is possible, else "… / 順序".
    pub fn panel_status_label(self) -> (r: String)
        ensures
            r@ == decimal_chars(self.selection_count as nat) + (if self.can_distribute {
                "個選択中 · 整列 / 等間隔"@
            } else {
                "個選択中 · 整列 / 順序"@
            }),
    {
        let mut s = String::new();
        push_decimal(&mut s, self.selection_count as u64);
        if self.can_distribute {
            s.append("個選択中 · 整列 / 等間隔");
        } else {
            s.append("個選択中 · 整列 / 順序");
        }
        s
    }
}

pub fn on_off_label(value: bool) -> (r: &'static str)
    ensures
        r@ == (if value {
            "オン"@
        } else {
            "オフ"@
        }),
{
    if value {
        "オン"
    } else {
        "オフ"
    }
}

/// The opacity of `color` in percent, rounded to the nearest integer.
pub fn alpha_percent(color: RgbaColor) -> (r: u8)
    ensures
        r == (200 * color.a as int + 255) / 510,
{
    let a = color.a as u32;
    ((200 * a + 255) / 510) as u8
}

/// `color` with its opacity set to `percent` percent of full, rounded to the nearest
/// step and capped at full.
pub fn set_alpha_percent(color: RgbaColor, percent: u8) -> (c: RgbaColor)
    ensures
        c.r == color.r,
        c.g == color.g,
        c.b == color.b,
        c.a == (if (255 * percent as int + 50) / 100 > 255 {
            255
        } else {
            (255 * percent as int + 50) / 100
        }),
{
    let scaled = (255 * (percent as u32) + 50) / 100;
    let alpha: u8 = if scaled > 255 {
        255
    } else {
        scaled as u8
    };
    RgbaColor::from_rgba(color.r, color.g, color.b, alpha)
}

/// One line on the character of a freehand tool.
pub fn brush_kind_summary(tool: CanvasToolKind) -> (r: &'static str)
    ensures
        r@ == (match tool {
            CanvasToolKind::Brush => "もっとも素直でくっきり"@,
            _ => ""@,
        }),
{
    match tool {
        CanvasToolKind::Brush => "もっとも素直でくっきり",
        _ => "",
    }
}

/// Names what snapping is on for.
pub fn snap_summary_label(grid_snap: bool, guides_snap: bool) -> (r: &'static str)
    ensures
        r@ == (if grid_snap && guides_snap {
            "グリッド・ガイド"@
        } else if grid_snap {
            "グリッド"@
        } else if guides_snap {
            "ガイド"@
        } else {
            "オフ"@
        }),
{
    match (grid_snap, guides_snap) {
        (true, true) => "グリッド・ガイド",
        (true, false) => "グリッド",
        (false, true) => "ガイド",
        (false, false) => "オフ",
    }
}

pub open spec fn tool_tooltip(tool: CanvasToolKind) -> Seq<char> {
    match tool {
        CanvasToolKind::Select => "選ぶ・動かす・変形するツールです。"@,
        CanvasToolKind::Brush => "もっとも素直でくっきり描けるペンです。"@,
        CanvasToolKind::Eraser => "背景色でなぞって消します。"@,
        CanvasToolKind::Rectangle => "四角形の線と塗りを描きます。"@,
        CanvasToolKind::Ellipse => "楕円の線と塗りを描きます。"@,
        CanvasToolKind::Line => "始点から終点まで直線を描きます。"@,
    }
}

pub fn tool_button_tooltip(tool: CanvasToolKind) -> (r: &'static str)
    ensures
        r@ == tool_tooltip(tool),
{
    match tool {
        CanvasToolKind::Select => "選ぶ・動かす・変形するツールです。",
        CanvasToolKind::Brush => "もっとも素直でくっきり描けるペンです。",
        CanvasToolKind::Eraser => "背景色でなぞって消します。",
        CanvasToolKind::Rectangle => "四角形の線と塗りを描きます。",
        CanvasToolKind::Ellipse => "楕円の線と塗りを描きます。",
        CanvasToolKind::Line => "始点から終点まで直線を描きます。",
    }
}

/// "<tool> に切り替えました。<tooltip>"
pub fn tool_switch_message(tool: CanvasToolKind) -> (r: String)
    ensures
        r@ == tool.spec_label() + " に切り替えました。"@ + tool_tooltip(tool),
{
    let label = tool.label();
    let mut s = string_of(label);
    s.append(" に切り替えました。");
    s.append(tool_button_tooltip(tool));
    s
}

pub open spec fn layer_edit_state(visible: bool, locked: bool) -> Seq<char> {
    if !visible {
        "非表示"@
    } else if locked {
        "表示のみ"@
    } else {
        "編集できます"@
    }
}

pub open spec fn layer_content_state(element_count: nat) -> Seq<char> {
    if element_count == 0 {
        "空レイヤー"@
    } else {
        decimal_chars(element_count) + "個の要素"@
    }
}

/// "<edit state> · <content>", e.g. "編集できます · 3個の要素".
pub fn layer_row_summary(visible: bool, locked: bool, element_count: usize) -> (r: String)
    ensures
        r@ == layer_edit_state(visible, locked) + " · "@ + layer_content_state(element_count as nat),
{
    let mut s = if !visible {
        string_of("非表示")
    } else if locked {
        string_of("表示のみ")
    } else {
        string_of("編集できます")
    };
    s.append(" · ");
    if element_count == 0 {
        s.append("空レイヤー");
    } else {
        push_decimal(&mut s, element_count as u64);
        s.append("個の要素");
        assert(s@ =~= layer_edit_state(visible, locked) + " · "@ + layer_content_state(
            element_count as nat,
        ));
    }
    s
}

pub fn arrangement_button_label(alignment: AlignmentKind) -> (r: &'static str)
    ensures
        r@ == (match alignment {
            AlignmentKind::Left => "左"@,
            AlignmentKind::HorizontalCenter => "中央"@,
            AlignmentKind::Right => "右"@,
            AlignmentKind::Top => "上"@,
            AlignmentKind::VerticalCenter => "中央"@,
            AlignmentKind::Bottom => "下"@,
        }),
{
    match alignment {
        AlignmentKind::Left => "左",
        AlignmentKind::HorizontalCenter => "中央",
        AlignmentKind::Right => "右",
        AlignmentKind::Top => "上",
        AlignmentKind::VerticalCenter => "中央",
        AlignmentKind::Bottom => "下",
    }
}

pub fn distribution_button_label(distribution: DistributionKind) -> (r: &'static str)
    ensures
        r@ == (match distribution {
            DistributionKind::Horizontal => "横等間隔"@,
            DistributionKind::Vertical => "縦等間隔"@,
        }),
{
    match distribution {
        DistributionKind::Horizontal => "横等間隔",
        DistributionKind::Vertical => "縦等間隔",
    }
}

pub fn stack_order_button_label(command: StackOrderCommand) -> (r: &'static str)
    ensures
        r@ == (match command {
            StackOrderCommand::BringToFront => "最前面"@,
            StackOrderCommand::BringForward => "前へ"@,
            StackOrderCommand::SendBackward => "後ろへ"@,
            StackOrderCommand::SendToBack => "最背面"@,
        }),
{
    match command {
        StackOrderCommand::BringToFront => "最前面",
        StackOrderCommand::BringForward => "前へ",
        StackOrderCommand::SendBackward => "後ろへ",
        StackOrderCommand::SendToBack => "最背面",
    }
}

/// One page of the first-run guide.
#[derive(Debug, Clone, Copy)]
pub struct TutorialStepContent {
    pub title: &'static str,
    pub body: &'static str,
    pub action: &'static str,
}

/// Number of pages of the first-run guide.
pub fn tutorial_step_count() -> (r: usize)
    ensures
        r == 4,
{
    4
}

pub open spec fn tutorial_title(step_index: int) -> Seq<char> {
    if step_index == 0 {
        "まずは 1 つ描いてみましょう"@
    } else if step_index == 1 {
        "選んで動かせます"@
    } else if step_index == 2 {
        "複数選択でまとめて整理できます"@
    } else {
        "保存方法は 2 つです"@
    }
}

pub open spec fn tutorial_body(step_index: int) -> Seq<char> {
    if step_index == 0 {
        "ペン、えんぴつ、クレヨン、マーカーか図形ツールを選んで、キャンバスをドラッグします。まずは色を大きくいじらず、1 つ描くだけでも十分です。"@
    } else if step_index == 1 {
        "選択ツールに切り替えると、要素をクリックして動かしたり、図形ならサイズ変更や回転もできます。"@
    } else if step_index == 2 {
        "Shift+Click やドラッグ選択で複数選べます。タブレットでは「複数選択モード」を使うと、タップだけで追加選択できます。"@
    } else {
        "JSON保存 は続きから再編集したいとき用です。PNG書き出し は見たままの共有用、透過PNG は素材向け、SVG書き出し は図形や線の再利用向けです。"@
    }
}

pub open spec fn tutorial_action(step_index: int) -> Seq<char> {
    if step_index == 0 {
        "左の道具から 1 つ選んで、中央でドラッグしてみます。迷ったら「ペン」か「四角形」から始めると自然です。"@
    } else if step_index == 1 {
        "「選択」に切り替えて、描いた要素をクリックしてみます。ドラッグで移動、ハンドルで変形できます。"@
    } else if step_index == 2 {
        "複数選んだら、整列・等間隔・グループ化やドラッグ移動を試してみます。"@
    } else {
        "まず覚えるなら「JSON保存」と「PNG書き出し」で十分です。必要になったら透過PNGやSVGも使えます。"@
    }
}

/// Page `step_index` of the first-run guide; indices past the end give the last page.
pub fn tutorial_step(step_index: usize) -> (r: TutorialStepContent)
    ensures
        r.title@ == tutorial_title(step_index as int),
        r.body@ == tutorial_body(step_index as int),
        r.action@ == tutorial_action(step_index as int),
{
    match step_index {
        0 => TutorialStepContent {
            title: "まずは 1 つ描いてみましょう",
            body: "ペン、えんぴつ、クレヨン、マーカーか図形ツールを選んで、キャンバスをドラッグします。まずは色を大きくいじらず、1 つ描くだけでも十分です。",
            action: "左の道具から 1 つ選んで、中央でドラッグしてみます。迷ったら「ペン」か「四角形」から始めると自然です。",
        },
        1 => TutorialStepContent {
            title: "選んで動かせます",
            body: "選択ツールに切り替えると、要素をクリックして動かしたり、図形ならサイズ変更や回転もできます。",
            action: "「選択」に切り替えて、描いた要素をクリックしてみます。ドラッグで移動、ハンドルで変形できます。",
        },
        2 => TutorialStepContent {
            title: "複数選択でまとめて整理できます",
            body: "Shift+Click やドラッグ選択で複数選べます。タブレットでは「複数選択モード」を使うと、タップだけで追加選択できます。",
            action: "複数選んだら、整列・等間隔・グループ化やドラッグ移動を試してみます。",
        },
        _ => TutorialStepContent {
            title: "保存方法は 2 つです",
            body: "JSON保存 は続きから再編集したいとき用です。PNG書き出し は見たままの共有用、透過PNG は素材向け、SVG書き出し は図形や線の再利用向けです。",
            action: "まず覚えるなら「JSON保存」と「PNG書き出し」で十分です。必要になったら透過PNGやSVGも使えます。",
        },
    }
}

} // verus!
