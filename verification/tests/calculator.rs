use rainfall::binary64::Binary64;
use rainfall::calculator::{calculate_results, Mean, MeanBand, Results};

fn pattern(f: f64) -> Binary64 {
    Binary64::from_bits(f.to_bits())
}

fn band_around(mean: f64) -> MeanBand {
    MeanBand { low: pattern(mean - 5.0), mean: pattern(mean), high: pattern(mean + 5.0) }
}

fn calculate(samples: &[f64]) -> Results {
    let sum = samples.iter().fold(0.0, |a, b| a + *b);
    let mean = sum / (samples.len() as f64);
    let patterns: Vec<Binary64> = samples.iter().map(|f| pattern(*f)).collect();
    calculate_results(&patterns, &band_around(mean))
}

fn number(mean: Mean) -> f64 {
    match mean {
        Mean::Defined(m) => f64::from_bits(m.to_bits()),
        Mean::Undefined => f64::NAN,
    }
}

#[test]
fn given_example() {
    let samples = [12.5, 18., 7., 0., 4.];
    let result = calculate(&samples);
    assert_eq!(8.3, number(result.mean));
    assert_eq!(1, result.above);
    assert_eq!(2, result.below);
}

#[test]
fn no_measurements_no_mean() {
    let result = calculate(&[]);
    assert!(result.mean.is_undefined());
    assert_eq!(Mean::Undefined, result.mean);
    assert_eq!(0, result.below);
    assert_eq!(0, result.above);
}

#[test]
fn no_measurements_no_mean_whatever_the_band() {
    let result = calculate_results(&[], &band_around(3.0));
    assert_eq!(Results { mean: Mean::Undefined, above: 0, below: 0 }, result);
}

#[test]
fn nan_mean_is_no_mean() {
    let samples = [pattern(1.0), pattern(2.0)];
    let result = calculate_results(&samples, &band_around(f64::NAN));
    assert_eq!(Results { mean: Mean::Undefined, above: 0, below: 0 }, result);
}

#[test]
fn mean_of_a_number_and_of_a_nan() {
    assert_eq!(Mean::Defined(pattern(2.5)), Mean::of(pattern(2.5)));
    assert_eq!(Mean::Undefined, Mean::of(pattern(f64::NAN)));
    assert_eq!(Mean::Undefined, Mean::of(pattern(-f64::NAN)));
    assert!(Mean::of(pattern(f64::NAN)).is_undefined());
    assert!(!Mean::of(pattern(0.0)).is_undefined());
    assert!(!Mean::of(pattern(f64::INFINITY)).is_undefined());
}

#[test]
fn mean_of_2_3_4_has_one_on_each_side() {
    let result = calculate(&[2., 3., 4.]);
    assert_eq!(Mean::Defined(pattern(3.0)), result.mean);
    assert_eq!(1, result.below);
    assert_eq!(1, result.above);
}

#[test]
fn measurement_at_the_mean_is_in_neither_band() {
    let result = calculate(&[10., 10., 10.]);
    assert_eq!(Mean::Defined(pattern(10.0)), result.mean);
    assert_eq!(0, result.below);
    assert_eq!(0, result.above);
}

#[test]
fn lower_bound_is_inside_and_upper_bound_too() {
    let samples = [pattern(15.0), pattern(20.0), pattern(25.0)];
    let result = calculate_results(&samples, &band_around(20.0));
    assert_eq!(Results { mean: Mean::Defined(pattern(20.0)), above: 1, below: 1 }, result);
}

#[test]
fn beyond_the_bounds_is_outside() {
    let samples = [pattern(14.999), pattern(25.001), pattern(0.0), pattern(1e9)];
    let result = calculate_results(&samples, &band_around(20.0));
    assert_eq!(Results { mean: Mean::Defined(pattern(20.0)), above: 0, below: 0 }, result);
}

#[test]
fn counts_each_band() {
    let samples: Vec<Binary64> =
        [15.0, 16.5, 19.999, 20.0, 20.001, 22.0, 24.0, 25.0, 26.0, 3.0].iter().map(|f| pattern(*f)).collect();
    let result = calculate_results(&samples, &band_around(20.0));
    assert_eq!(3, result.below);
    assert_eq!(4, result.above);
}

#[test]
fn band_below_a_small_mean_reaches_zero() {
    let result = calculate(&[0., 0., 3.]);
    assert_eq!(Mean::Defined(pattern(1.0)), result.mean);
    assert_eq!(2, result.below);
    assert_eq!(1, result.above);
}

#[test]
fn negative_zero_counts_like_zero() {
    let samples = [pattern(-0.0), pattern(0.0), pattern(2.0)];
    let at_zero = calculate_results(&samples, &band_around(0.0));
    assert_eq!(0, at_zero.below);
    assert_eq!(1, at_zero.above);
    let at_negative_zero = calculate_results(&samples, &band_around(-0.0));
    assert_eq!(0, at_negative_zero.below);
    assert_eq!(1, at_negative_zero.above);
    assert_eq!(Mean::Defined(pattern(-0.0)), at_negative_zero.mean);
}

#[test]
fn infinite_mean_has_empty_bands() {
    let result = calculate(&[f64::INFINITY, 1., 2.]);
    assert_eq!(Mean::Defined(pattern(f64::INFINITY)), result.mean);
    assert_eq!(0, result.below);
    assert_eq!(0, result.above);
}

#[test]
fn band_tests_agree_with_the_counts() {
    let band = band_around(8.3);
    assert!(band.is_below(pattern(7.0)));
    assert!(band.is_below(pattern(4.0)));
    assert!(!band.is_below(pattern(0.0)));
    assert!(!band.is_below(pattern(8.3)));
    assert!(band.is_above(pattern(12.5)));
    assert!(!band.is_above(pattern(18.0)));
    assert!(!band.is_above(pattern(8.3)));
}

#[test]
fn counts_are_no_more_than_the_measurements() {
    let samples = [10., 12., 14., 16., 18.];
    let result = calculate(&samples);
    assert_eq!(Mean::Defined(pattern(14.0)), result.mean);
    assert_eq!(2, result.below);
    assert_eq!(2, result.above);
    assert!(result.below + result.above < samples.len());
}

#[test]
fn far_measurement_is_in_neither_band() {
    let result = calculate(&[1., 2., 3., 4., 5., 6., 7., 8., 9., 100.]);
    assert_eq!(Mean::Defined(pattern(14.5)), result.mean);
    assert_eq!(0, result.below);
    assert_eq!(0, result.above);
}
