use rust_paint_foundation::decimal::{format_tenths, format_units};
use rust_paint_foundation::model::Scalar;

fn s(v: f32) -> Scalar {
    Scalar::from_bits(v.to_bits())
}

fn samples() -> Vec<f32> {
    let mut values = vec![
        0.0,
        -0.0,
        0.04,
        0.05,
        0.15,
        0.25,
        0.35,
        0.45,
        0.5,
        1.5,
        2.5,
        9.0,
        9.95,
        12.25,
        -3.75,
        -0.04,
        48.0,
        1234.5678,
        8_388_608.0,
        16_777_215.0,
        1.0e10,
        3.0e38,
        f32::MAX,
        f32::MIN,
        f32::MIN_POSITIVE,
        1.0e-40,
        f32::EPSILON,
        f32::INFINITY,
        f32::NEG_INFINITY,
        f32::NAN,
    ];
    let mut bits: u32 = 0x1234_5677;
    for _ in 0..2000 {
        bits = bits.wrapping_mul(1_664_525).wrapping_add(1_013_904_223);
        values.push(f32::from_bits(bits));
    }
    for k in 0..400 {
        values.push(k as f32 * 0.05);
        values.push(k as f32 * 0.25 + 0.125);
    }
    values
}

#[test]
fn tenths_match_the_standard_formatting() {
    for value in samples() {
        assert_eq!(format_tenths(s(value)), format!("{:.1}", value), "value bits {:#x}", value.to_bits());
    }
}

#[test]
fn units_match_the_standard_formatting() {
    for value in samples() {
        assert_eq!(format_units(s(value)), format!("{:.0}", value), "value bits {:#x}", value.to_bits());
    }
}

#[test]
fn tenths_of_a_stroke_width() {
    assert_eq!(format_tenths(s(9.0)), "9.0");
    assert_eq!(format_tenths(s(0.25)), "0.2");
    assert_eq!(format_units(s(2.5)), "2");
    assert_eq!(format_units(s(-0.0)), "-0");
}
