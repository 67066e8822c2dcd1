use rust_paint_foundation::document::PaintDocument;
use rust_paint_foundation::element::FillSpan;
use rust_paint_foundation::fill::{
    channel_distance, extract_fill_region, flood_fill_document, pixel_color, pixel_index,
    rgba_within_tolerance, AbsoluteFillSpan, FloodFillFailure, PixelGrid,
};
use rust_paint_foundation::model::{CanvasSize, PaintPoint, RgbaColor, Scalar};

fn s(v: f32) -> Scalar {
    Scalar::from_bits(v.to_bits())
}

/// A white grid with a dark square outline from (2, 2) to (w - 3, h - 3).
fn outlined_grid(width: u32, height: u32) -> PixelGrid {
    let mut data = Vec::new();
    for y in 0..height {
        for x in 0..width {
            let on_outline = (x == 2 || x == width - 3) && (2..=height - 3).contains(&y)
                || (y == 2 || y == height - 3) && (2..=width - 3).contains(&x);
            if on_outline {
                data.extend_from_slice(&[37, 37, 41, 255]);
            } else {
                data.extend_from_slice(&[255, 255, 255, 255]);
            }
        }
    }
    PixelGrid { width, height, data }
}

fn covered(spans: &[AbsoluteFillSpan], x: u32, y: u32) -> bool {
    spans
        .iter()
        .any(|span| span.y == y && span.x_start <= x && x < span.x_end)
}

#[test]
fn pixel_index_counts_rows_first() {
    assert_eq!(pixel_index(10, 0, 0), 0);
    assert_eq!(pixel_index(10, 3, 2), 23);
    assert_eq!(pixel_index(7, 6, 4), 34);
}

#[test]
fn channel_distance_and_tolerance() {
    assert_eq!(channel_distance(10, 250), 240);
    assert_eq!(channel_distance(250, 10), 240);
    assert_eq!(channel_distance(7, 7), 0);
    let a = RgbaColor::new(100, 100, 100, 255);
    assert!(rgba_within_tolerance(a, RgbaColor::new(106, 94, 100, 249), 6));
    assert!(!rgba_within_tolerance(a, RgbaColor::new(107, 100, 100, 255), 6));
    assert!(!rgba_within_tolerance(a, RgbaColor::new(100, 100, 100, 248), 6));
}

#[test]
fn pixel_color_demultiplies_premultiplied_pixels() {
    let grid = PixelGrid {
        width: 2,
        height: 1,
        data: vec![2, 3, 5, 40, 10, 20, 30, 255],
    };
    assert_eq!(pixel_color(&grid, 0, 0), Some(RgbaColor::new(13, 19, 32, 40)));
    assert_eq!(pixel_color(&grid, 1, 0), Some(RgbaColor::new(10, 20, 30, 255)));
    assert_eq!(pixel_color(&grid, 0, 1), None);
    let broken = PixelGrid { width: 1, height: 1, data: vec![90, 0, 0, 10] };
    assert_eq!(pixel_color(&broken, 0, 0), None);
}

#[test]
fn region_inside_outline_is_its_interior() {
    let grid = outlined_grid(12, 10);
    let target = pixel_color(&grid, 5, 5).unwrap();
    let spans = extract_fill_region(&grid, 5, 5, target, 6);
    for y in 0..10 {
        for x in 0..12 {
            let inside = (3..=8).contains(&x) && (3..=6).contains(&y);
            assert_eq!(covered(&spans, x, y), inside, "pixel {x},{y}");
        }
    }
    let total: u32 = spans.iter().map(|span| span.x_end - span.x_start).sum();
    assert_eq!(total, 6 * 4);
}

#[test]
fn region_outside_outline_wraps_around_it() {
    let grid = outlined_grid(12, 10);
    let target = pixel_color(&grid, 0, 0).unwrap();
    let spans = extract_fill_region(&grid, 0, 0, target, 6);
    let total: u32 = spans.iter().map(|span| span.x_end - span.x_start).sum();
    assert_eq!(total, 12 * 10 - 8 * 6);
    assert!(!covered(&spans, 5, 5));
    assert!(!covered(&spans, 2, 2));
    assert!(covered(&spans, 11, 9));
}

#[test]
fn flood_fill_fills_the_enclosed_area() {
    let grid = outlined_grid(12, 10);
    let document = PaintDocument::default();
    let fill = RgbaColor::new(48, 140, 220, 255);
    let result = flood_fill_document(&document, &grid, PaintPoint::new(s(5.5), s(4.2)), fill)
        .expect("fill inside");
    assert_eq!(result.pixel_count, 24);
    assert_eq!(result.element.color, fill);
    assert_eq!(result.element.origin.x.bits, 3.0f32.to_bits());
    assert_eq!(result.element.origin.y.bits, 3.0f32.to_bits());
    assert_eq!(result.element.spans.len(), 4);
    for span in &result.element.spans {
        assert_eq!((span.x_start, span.x_end), (0, 6));
    }
    let mut rows: Vec<u32> = result.element.spans.iter().map(|span| span.y).collect();
    rows.sort();
    assert_eq!(rows, vec![0, 1, 2, 3]);
}

#[test]
fn flood_fill_reports_each_failure() {
    let grid = outlined_grid(12, 10);
    let document = PaintDocument::default();
    let fill = RgbaColor::new(48, 140, 220, 255);
    assert_eq!(
        flood_fill_document(&document, &grid, PaintPoint::new(s(-0.5), s(3.0)), fill).err(),
        Some(FloodFillFailure::OutsideCanvas)
    );
    assert_eq!(
        flood_fill_document(&document, &grid, PaintPoint::new(s(12.0), s(3.0)), fill).err(),
        Some(FloodFillFailure::OutsideCanvas)
    );
    assert_eq!(
        flood_fill_document(&document, &grid, PaintPoint::new(s(4.0), s(f32::INFINITY)), fill)
            .err(),
        Some(FloodFillFailure::OutsideCanvas)
    );
    assert_eq!(
        flood_fill_document(
            &document,
            &grid,
            PaintPoint::new(s(4.0), s(4.0)),
            RgbaColor::new(252, 250, 255, 255)
        )
        .err(),
        Some(FloodFillFailure::SameColor)
    );
    let locked = document.toggled_layer_locked_document(1).unwrap();
    assert_eq!(
        flood_fill_document(&locked, &grid, PaintPoint::new(s(4.0), s(4.0)), fill).err(),
        Some(FloodFillFailure::ActiveLayerNotEditable)
    );
}

#[test]
fn failure_messages() {
    assert_eq!(
        FloodFillFailure::OutsideCanvas.message(),
        "キャンバスの外は塗れません。"
    );
    assert_eq!(
        FloodFillFailure::SameColor.message(),
        "同じ色なので見た目は変わりませんでした。"
    );
    assert_eq!(
        FloodFillFailure::RegionNotFound.message(),
        "閉じた領域が見つかりませんでした。"
    );
    assert_eq!(FloodFillFailure::RenderFailed.message(), "塗りの準備中に失敗しました。");
    assert_eq!(
        FloodFillFailure::ActiveLayerNotEditable.message(),
        "現在のレイヤーは編集できません。表示とロックを確認してください。"
    );
}

#[test]
fn fill_span_width_saturates() {
    assert_eq!(FillSpan { y: 0, x_start: 2, x_end: 7 }.width(), 5);
    assert_eq!(FillSpan { y: 0, x_start: 7, x_end: 2 }.width(), 0);
}

#[test]
fn scalar_from_u32_matches_float_conversion() {
    for n in [0u32, 1, 2, 3, 7, 255, 1024, 16_777_215, 16_777_216, 16_777_217, 16_777_219, 33_554_435, 4_294_967_295, 123_456_789] {
        assert_eq!(Scalar::from_u32(n).bits, (n as f32).to_bits(), "n = {n}");
    }
}

#[test]
fn scalar_floor_and_comparisons_follow_floats() {
    for v in [0.0f32, -0.0, 0.4, 1.0, 2.5, 1023.99, 16777216.0, 4.0e9, 5.0e9, -3.5, f32::NAN, f32::INFINITY] {
        assert_eq!(s(v).floor_to_u32(), v.floor() as u32, "v = {v}");
    }
    let values = [0.0f32, -0.0, 1.5, -2.0, f32::INFINITY, f32::NEG_INFINITY, f32::NAN, 7.0];
    for a in values {
        for b in values {
            assert_eq!(s(a).less_than(s(b)), a < b, "{a} < {b}");
            assert_eq!(s(a).at_least(s(b)), a >= b, "{a} >= {b}");
        }
    }
}

/// The picture of a white `width` × `height` canvas with the given dark pixels.
fn picture(width: u32, height: u32, dark: impl Fn(u32, u32) -> bool) -> PixelGrid {
    let mut data = Vec::new();
    for y in 0..height {
        for x in 0..width {
            if dark(x, y) {
                data.extend_from_slice(&[37, 37, 41, 255]);
            } else {
                data.extend_from_slice(&[255, 255, 255, 255]);
            }
        }
    }
    PixelGrid { width, height, data }
}

fn small_document() -> PaintDocument {
    let mut document = PaintDocument::default();
    document.canvas_size = CanvasSize::new(s(64.0), s(64.0));
    document
}

#[test]
fn flood_fill_fills_inside_closed_rectangle() {
    let document = small_document();
    // The rectangle outline from (12, 12) to (52, 52), 4 pixels wide.
    let grid = picture(64, 64, |x, y| {
        let band = |v: u32| (10..14).contains(&v) || (50..54).contains(&v);
        let span = |v: u32| (10..54).contains(&v);
        (band(x) && span(y)) || (band(y) && span(x))
    });

    let result = flood_fill_document(
        &document,
        &grid,
        PaintPoint::new(s(32.0), s(32.0)),
        RgbaColor::from_rgba(255, 64, 64, 200),
    )
    .expect("fill should succeed");

    assert!(result.pixel_count > 200);
    assert_eq!(result.element.color, RgbaColor::from_rgba(255, 64, 64, 200));
    assert!(!result.element.spans.is_empty());
}

#[test]
fn flood_fill_rejects_same_color_target() {
    let document = PaintDocument::default();
    let grid = picture(1600, 900, |_, _| false);
    let result = flood_fill_document(
        &document,
        &grid,
        PaintPoint::new(s(4.0), s(4.0)),
        RgbaColor::white(),
    );

    assert_eq!(result, Err(FloodFillFailure::SameColor));
}

#[test]
fn flood_fill_stops_at_visible_strokes() {
    let document = small_document();
    // A vertical brush stroke 6 pixels wide along x = 20.
    let grid = picture(64, 64, |x, _| (17..23).contains(&x));

    let result = flood_fill_document(
        &document,
        &grid,
        PaintPoint::new(s(8.0), s(32.0)),
        RgbaColor::from_rgba(255, 180, 60, 220),
    )
    .expect("fill should succeed");

    let origin_x = f32::from_bits(result.element.origin.x.bits);
    let max_x = result
        .element
        .spans
        .iter()
        .map(|span| origin_x + span.x_end as f32)
        .fold(0.0f32, f32::max);
    assert!(max_x < 20.0, "fill should stay on the left side");
}

#[test]
fn flood_fill_uses_visible_layers_as_boundaries() {
    let mut document = small_document();
    document.push_shape(rust_paint_foundation::element::ShapeElement::new(
        rust_paint_foundation::model::ShapeKind::Rectangle,
        RgbaColor::charcoal(),
        s(4.0),
        PaintPoint::new(s(12.0), s(12.0)),
        PaintPoint::new(s(52.0), s(52.0)),
    ));
    let (mut layered, fill_layer_id) = document.add_layer_document();
    layered = layered.moved_layer_down_document(fill_layer_id).expect("move layer down");
    assert!(layered.set_active_layer(fill_layer_id));
    // The visible layers composited: the outline of the upper layer's rectangle.
    let grid = picture(64, 64, |x, y| {
        let band = |v: u32| (10..14).contains(&v) || (50..54).contains(&v);
        let span = |v: u32| (10..54).contains(&v);
        (band(x) && span(y)) || (band(y) && span(x))
    });

    let result = flood_fill_document(
        &layered,
        &grid,
        PaintPoint::new(s(32.0), s(32.0)),
        RgbaColor::from_rgba(64, 120, 220, 180),
    )
    .expect("fill should respect visible upper layer");

    let origin_x = f32::from_bits(result.element.origin.x.bits);
    let origin_y = f32::from_bits(result.element.origin.y.bits);
    for span in &result.element.spans {
        assert!(origin_x + span.x_start as f32 >= 14.0, "fill should stay inside the upper outline");
        assert!(origin_x + span.x_end as f32 <= 50.0, "fill should stay inside the upper outline");
        assert!(origin_y + span.y as f32 >= 14.0, "fill should stay inside the upper outline");
        assert!(origin_y + span.y as f32 + 1.0 <= 50.0, "fill should stay inside the upper outline");
    }
}

fn sorted_runs(spans: &[AbsoluteFillSpan]) -> Vec<(u32, u32, u32)> {
    let mut runs: Vec<(u32, u32, u32)> = spans
        .iter()
        .map(|span| (span.y, span.x_start, span.x_end))
        .collect();
    runs.sort();
    runs
}

#[test]
fn region_spans_are_the_maximal_runs_of_each_row() {
    let grid = outlined_grid(12, 10);
    let inside = extract_fill_region(&grid, 5, 5, pixel_color(&grid, 5, 5).unwrap(), 6);
    assert_eq!(
        sorted_runs(&inside),
        vec![(3, 3, 9), (4, 3, 9), (5, 3, 9), (6, 3, 9)]
    );

    let outside = extract_fill_region(&grid, 0, 0, pixel_color(&grid, 0, 0).unwrap(), 6);
    let mut expected = Vec::new();
    for y in 0..10 {
        if (2..=7).contains(&y) {
            expected.push((y, 0, 2));
            expected.push((y, 10, 12));
        } else {
            expected.push((y, 0, 12));
        }
    }
    assert_eq!(sorted_runs(&outside), expected);

    assert_eq!(inside[0], AbsoluteFillSpan { y: 5, x_start: 3, x_end: 9 });
    assert_eq!(outside[0], AbsoluteFillSpan { y: 0, x_start: 0, x_end: 12 });
}
