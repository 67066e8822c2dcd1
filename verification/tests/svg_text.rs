use rust_paint_foundation::model::RgbaColor;
use rust_paint_foundation::svg::{encode_png, escape_svg_attr, svg_opacity, svg_rgb, RenderError};

#[test]
fn svg_rgb_writes_lower_case_hex() {
    assert_eq!(svg_rgb(RgbaColor::new(48, 140, 220, 180)), "#308cdc");
    assert_eq!(svg_rgb(RgbaColor::new(0, 0, 0, 0)), "#000000");
    assert_eq!(svg_rgb(RgbaColor::new(255, 171, 16, 1)), "#ffab10");
}

#[test]
fn svg_opacity_writes_four_decimals() {
    assert_eq!(svg_opacity(RgbaColor::new(48, 140, 220, 180)), "0.7059");
    assert_eq!(svg_opacity(RgbaColor::new(0, 0, 0, 255)), "1.0000");
    assert_eq!(svg_opacity(RgbaColor::new(0, 0, 0, 0)), "0.0000");
    for a in 0..=255u8 {
        let expected = format!("{:.4}", (a as f32 / 255.0).clamp(0.0, 1.0));
        assert_eq!(svg_opacity(RgbaColor::new(0, 0, 0, a)), expected);
    }
}

#[test]
fn escape_svg_attr_writes_entities() {
    assert_eq!(escape_svg_attr("a&b"), "a&amp;b");
    assert_eq!(escape_svg_attr("\"<tag>\""), "&quot;&lt;tag&gt;&quot;");
    assert_eq!(escape_svg_attr("レイヤー 1"), "レイヤー 1");
    assert_eq!(escape_svg_attr("&amp;"), "&amp;amp;");
    assert_eq!(escape_svg_attr(""), "");
}

#[test]
fn encode_png_refuses_empty_pictures() {
    assert_eq!(encode_png(0, 0, vec![]), Err(RenderError::InvalidCanvasSize));
    let bytes = encode_png(1, 1, vec![10, 20, 30, 255]).expect("png");
    assert_eq!(&bytes[1..4], b"PNG");
}
