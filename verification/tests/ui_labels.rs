use rust_paint_foundation::model::{AlignmentKind, DistributionKind, RgbaColor, StackOrderCommand};
use rust_paint_foundation::selection::CanvasToolKind;
use rust_paint_foundation::ui::{
    alpha_percent, arrangement_button_label, brush_kind_summary, distribution_button_label,
    layer_row_summary, on_off_label, set_alpha_percent, snap_summary_label,
    stack_order_button_label, tool_button_tooltip, tool_switch_message, tutorial_step,
    tutorial_step_count, ColorTarget, SelectionArrangeContext, StatusKind, StatusMessage,
};

#[test]
fn selection_arrange_context_only_shows_panel_for_multi_selection() {
    let single = SelectionArrangeContext::from_state(1, false);
    assert!(!single.show_panel());
    assert!(single.can_reorder);
    assert!(!single.can_align);

    let multi = SelectionArrangeContext::from_state(2, false);
    assert!(multi.show_panel());
    assert!(multi.can_align);
    assert!(!multi.can_distribute);
}

#[test]
fn selection_arrange_context_summary_prefers_distribution_for_three_items() {
    let two = SelectionArrangeContext::from_state(2, false);
    let three = SelectionArrangeContext::from_state(3, false);

    assert_eq!(
        two.summary_chip_label(false).as_deref(),
        Some("整列・重なり順")
    );
    assert_eq!(
        three.summary_chip_label(false).as_deref(),
        Some("整列・等間隔・順序")
    );
}

#[test]
fn snap_summary_label_describes_active_snap_targets() {
    assert_eq!(snap_summary_label(true, true), "グリッド・ガイド");
    assert_eq!(snap_summary_label(true, false), "グリッド");
    assert_eq!(snap_summary_label(false, true), "ガイド");
    assert_eq!(snap_summary_label(false, false), "オフ");
}

#[test]
fn arrange_context_is_off_during_canvas_interaction() {
    let busy = SelectionArrangeContext::from_state(5, true);
    assert!(!busy.can_reorder);
    assert!(!busy.can_align);
    assert!(!busy.can_distribute);
    assert!(!busy.show_panel());
    assert_eq!(busy.summary_chip_label(true), None);
    let none = SelectionArrangeContext::from_state(0, false);
    assert!(!none.can_reorder);
}

#[test]
fn arrange_context_compact_chips_and_status() {
    let two = SelectionArrangeContext::from_state(2, false);
    let three = SelectionArrangeContext::from_state(3, false);
    assert_eq!(two.summary_chip_label(true).as_deref(), Some("整列・順序"));
    assert_eq!(three.summary_chip_label(true).as_deref(), Some("整列・等間隔"));
    assert_eq!(two.panel_status_label(), "2個選択中 · 整列 / 順序");
    assert_eq!(three.panel_status_label(), "3個選択中 · 整列 / 等間隔");
    let many = SelectionArrangeContext::from_state(12, false);
    assert_eq!(many.panel_status_label(), "12個選択中 · 整列 / 等間隔");
}

#[test]
fn alpha_percent_rounds_to_nearest_percent() {
    assert_eq!(alpha_percent(RgbaColor::new(0, 0, 0, 255)), 100);
    assert_eq!(alpha_percent(RgbaColor::new(0, 0, 0, 0)), 0);
    assert_eq!(alpha_percent(RgbaColor::new(0, 0, 0, 128)), 50);
    assert_eq!(alpha_percent(RgbaColor::new(0, 0, 0, 1)), 0);
    assert_eq!(alpha_percent(RgbaColor::new(0, 0, 0, 3)), 1);
    for a in 0..=255u8 {
        let expected = ((a as f32 / 255.0) * 100.0).round().clamp(0.0, 100.0) as u8;
        assert_eq!(alpha_percent(RgbaColor::new(1, 2, 3, a)), expected);
    }
}

#[test]
fn set_alpha_percent_rounds_and_caps() {
    let color = RgbaColor::new(10, 20, 30, 255);
    assert_eq!(set_alpha_percent(color, 50), RgbaColor::new(10, 20, 30, 128));
    assert_eq!(set_alpha_percent(color, 10), RgbaColor::new(10, 20, 30, 26));
    assert_eq!(set_alpha_percent(color, 100), RgbaColor::new(10, 20, 30, 255));
    assert_eq!(set_alpha_percent(color, 200), RgbaColor::new(10, 20, 30, 255));
    for p in 0..=255u8 {
        let expected = ((p as f32 / 100.0) * 255.0).round().clamp(0.0, 255.0) as u8;
        assert_eq!(set_alpha_percent(color, p).a, expected);
    }
}

#[test]
fn on_off_and_color_target_labels() {
    assert_eq!(on_off_label(true), "オン");
    assert_eq!(on_off_label(false), "オフ");
    assert_eq!(ColorTarget::Stroke.label(), "線色");
    assert_eq!(ColorTarget::Fill.label(), "塗り色");
}

#[test]
fn status_messages_keep_kind_and_text() {
    let info = StatusMessage::info("保存しました".to_string());
    assert_eq!(info.kind, StatusKind::Info);
    assert_eq!(info.text, "保存しました");
    let error = StatusMessage::error("失敗しました".to_string());
    assert_eq!(error.kind, StatusKind::Error);
    assert_eq!(error.text, "失敗しました");
}

#[test]
fn layer_row_summary_describes_state_and_content() {
    assert_eq!(layer_row_summary(false, false, 0), "非表示 · 空レイヤー");
    assert_eq!(layer_row_summary(true, true, 1), "表示のみ · 1個の要素");
    assert_eq!(layer_row_summary(true, false, 3), "編集できます · 3個の要素");
    assert_eq!(layer_row_summary(false, true, 120), "非表示 · 120個の要素");
}

#[test]
fn button_labels_follow_commands() {
    assert_eq!(arrangement_button_label(AlignmentKind::Left), "左");
    assert_eq!(arrangement_button_label(AlignmentKind::HorizontalCenter), "中央");
    assert_eq!(arrangement_button_label(AlignmentKind::VerticalCenter), "中央");
    assert_eq!(arrangement_button_label(AlignmentKind::Bottom), "下");
    assert_eq!(distribution_button_label(DistributionKind::Horizontal), "横等間隔");
    assert_eq!(distribution_button_label(DistributionKind::Vertical), "縦等間隔");
    assert_eq!(stack_order_button_label(StackOrderCommand::BringToFront), "最前面");
    assert_eq!(stack_order_button_label(StackOrderCommand::SendBackward), "後ろへ");
}

#[test]
fn tool_messages_combine_label_and_tooltip() {
    assert_eq!(
        tool_switch_message(CanvasToolKind::Rectangle),
        "Rectangle に切り替えました。四角形の線と塗りを描きます。"
    );
    assert_eq!(tool_button_tooltip(CanvasToolKind::Eraser), "背景色でなぞって消します。");
    assert_eq!(brush_kind_summary(CanvasToolKind::Brush), "もっとも素直でくっきり");
    assert_eq!(brush_kind_summary(CanvasToolKind::Line), "");
}

#[test]
fn tutorial_has_four_pages_and_clamps_past_the_end() {
    assert_eq!(tutorial_step_count(), 4);
    assert_eq!(tutorial_step(0).title, "まずは 1 つ描いてみましょう");
    assert_eq!(tutorial_step(1).title, "選んで動かせます");
    assert_eq!(tutorial_step(2).title, "複数選択でまとめて整理できます");
    assert_eq!(tutorial_step(3).title, "保存方法は 2 つです");
    assert_eq!(tutorial_step(9).title, tutorial_step(3).title);
    assert_eq!(tutorial_step(9).action, tutorial_step(3).action);
}
