use sluggrs::scalar::Scalar;

fn scalar(v: f32) -> Scalar {
    Scalar::from_bits(v.to_bits())
}

fn samples() -> Vec<f32> {
    let mut values = vec![
        0.0,
        -0.0,
        1.0,
        -1.0,
        0.125,
        -0.125,
        0.124999,
        0.1250001,
        0.375,
        -0.375,
        0.5,
        2.5,
        -2.5,
        8191.75,
        -8191.75,
        8191.875,
        8192.0,
        1e-45,
        -1e-45,
        1e-38,
        1e9,
        -1e9,
        5.3687e8,
        536_870_880.0,
        536_870_912.0,
        -536_870_912.0,
        -536_870_944.0,
        f32::MAX,
        f32::MIN,
        f32::INFINITY,
        f32::NEG_INFINITY,
        f32::NAN,
    ];
    let mut bits: u32 = 0x9e37_79b9;
    for _ in 0..20_000 {
        bits = bits.wrapping_mul(1_664_525).wrapping_add(1_013_904_223);
        values.push(f32::from_bits(bits));
        // Coordinates of ordinary glyphs.
        values.push((bits % 100_000) as f32 / 8.0 - 6000.0);
    }
    values
}

#[test]
fn quantize_is_four_times_rounded() {
    for v in samples() {
        let expected = (v * 4.0).round() as i32;
        assert_eq!(scalar(v).quantize(), expected, "{v}");
    }
}

#[test]
fn quantized_range_is_what_fits_sixteen_bits() {
    for v in samples() {
        assert_eq!(
            scalar(v).exceeds_quantized_range(),
            v.abs() * 4.0 > 32767.0,
            "{v}"
        );
    }
    assert!(!scalar(8191.75).exceeds_quantized_range());
    assert!(scalar(8191.7505).exceeds_quantized_range());
}

#[test]
fn comparisons_are_those_of_numbers() {
    let values = samples();
    for pair in values[..400].windows(2) {
        let (a, b) = (pair[0], pair[1]);
        assert_eq!(scalar(a).is_less(scalar(b)), a < b, "{a} {b}");
        assert_eq!(scalar(a).same(scalar(b)), a == b, "{a} {b}");
    }
    assert!(scalar(0.0).same(scalar(-0.0)));
    assert!(!scalar(f32::NAN).same(scalar(f32::NAN)));
    assert!(scalar(-0.0).is_zero());
    assert!(!scalar(f32::NAN).is_zero());
    assert!(scalar(f32::INFINITY).is_positive());
    assert!(!scalar(f32::NAN).is_positive());
    assert!(!scalar(-0.0).is_positive());
}

#[test]
fn least_and_greatest_pass_over_nan() {
    let values = samples();
    for pair in values[..400].windows(2) {
        let (a, b) = (pair[0], pair[1]);
        let least = f32::from_bits(scalar(a).min(scalar(b)).bits);
        let greatest = f32::from_bits(scalar(a).max(scalar(b)).bits);
        if a.is_nan() && b.is_nan() {
            assert!(least.is_nan() && greatest.is_nan());
        } else {
            assert_eq!(least, a.min(b));
            assert_eq!(greatest, a.max(b));
        }
    }
    assert!(scalar(f32::NAN).is_nan());
    assert!(!scalar(f32::INFINITY).is_finite());
    assert!(scalar(f32::MAX).is_finite());
}
