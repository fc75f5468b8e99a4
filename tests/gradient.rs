use mandelbread::utils::{distance_gradient, ConversionColor, Fraction};

#[test]
fn test_gradient_start_red() {
    // Value 0.0 should be pure Red (255, 0, 0)
    assert_eq!(distance_gradient::<0, 100>(Fraction::from_int(0)), ConversionColor(255, 0, 0));
}

#[test]
fn test_gradient_midpoint_green() {
    // Value 50.0 should be pure Green (0, 255, 0)
    assert_eq!(distance_gradient::<0, 100>(Fraction::from_int(50)), ConversionColor(0, 255, 0));
}

#[test]
fn test_gradient_end_blue() {
    // Value 100.0 should be pure Blue (0, 0, 255)
    assert_eq!(distance_gradient::<0, 100>(Fraction::from_int(100)), ConversionColor(0, 0, 255));
    assert_eq!(distance_gradient::<0, 1000>(Fraction::from_int(1000)), ConversionColor(0, 0, 255));
    assert_eq!(distance_gradient::<300, 1000>(Fraction::from_int(1000)), ConversionColor(0, 0, 255));
}

#[test]
fn test_first_segment_quarter_point() {
    // Value 25.0 should be 50% Red, 50% Green: 127.5 rounds to 128
    assert_eq!(distance_gradient::<0, 100>(Fraction::from_int(25)), ConversionColor(128, 128, 0));
    assert_eq!(distance_gradient::<0, 1000>(Fraction::from_int(250)), ConversionColor(128, 128, 0));
    assert_eq!(distance_gradient::<500, 1500>(Fraction::from_int(750)), ConversionColor(128, 128, 0));
}

#[test]
fn test_second_segment_quarter_point() {
    // Value 75.0 should be 50% Green, 50% Blue
    assert_eq!(distance_gradient::<0, 100>(Fraction::from_int(75)), ConversionColor(0, 128, 128));
}

#[test]
fn test_value_just_before_midpoint() {
    // 49.9: red 0.51 -> 1, green 254.49 -> 254
    assert_eq!(distance_gradient::<0, 100>(Fraction::new(499, 10)), ConversionColor(1, 254, 0));
}

#[test]
fn test_value_just_after_midpoint() {
    // 50.1: green 254.49 -> 254, blue 0.51 -> 1
    assert_eq!(distance_gradient::<0, 100>(Fraction::new(501, 10)), ConversionColor(0, 254, 1));
}

#[test]
fn test_clamping_below_zero() {
    // -10.0 is clamped to 0.0: pure Red
    assert_eq!(distance_gradient::<0, 100>(Fraction::from_int(-10)), ConversionColor(255, 0, 0));
}

#[test]
fn test_clamping_above_hundred() {
    // 110.0 is clamped to 100.0: pure Blue
    assert_eq!(distance_gradient::<0, 100>(Fraction::from_int(110)), ConversionColor(0, 0, 255));
}

#[test]
fn test_floating_point_precision() {
    assert_eq!(distance_gradient::<0, 100>(Fraction::from_int(1)), ConversionColor(250, 5, 0));
    assert_eq!(distance_gradient::<0, 100>(Fraction::from_int(99)), ConversionColor(0, 5, 250));
}

#[test]
fn gradient_fraction_with_large_denominator() {
    // 1/3 of the way: t = 2/3 in the first half, red 85, green 170
    assert_eq!(distance_gradient::<0, 3>(Fraction::new(1, 1)), ConversionColor(85, 170, 0));
    assert_eq!(
        distance_gradient::<0, 100>(Fraction::new(50_000_000_000, 1_000_000_000)),
        ConversionColor(0, 255, 0)
    );
}
