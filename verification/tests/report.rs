use rainfall::binary64::Binary64;
use rainfall::calculator::{calculate_results, Mean, MeanBand, Results};
use rainfall::reader::{read_measurements, Line};
use rainfall::report::{write_decimal, write_output};
use std::f64::NAN;

fn mean_text(mean: Mean) -> String {
    match mean {
        Mean::Defined(m) => format!("{}", f64::from_bits(m.to_bits())),
        Mean::Undefined => String::new(),
    }
}

fn assert_write(expected: &str, results: &Results) {
    let mut written = String::new();
    write_output(&mut written, results, &mean_text(results.mean));
    assert_eq!(expected.as_bytes(), written.as_bytes());
}

fn report_on(input: &str) -> String {
    let lines: Vec<Line> = input
        .lines()
        .map(|text| {
            let value = text.parse::<f64>().ok().map(|f| Binary64::from_bits(f.to_bits()));
            Line::new(text.to_string(), value)
        })
        .collect();
    let measurements = read_measurements(&lines);
    let sum = measurements.iter().fold(0.0, |a, m| a + f64::from_bits(m.to_bits()));
    let mean = sum / (measurements.len() as f64);
    let band = MeanBand {
        low: Binary64::from_bits((mean - 5.0).to_bits()),
        mean: Binary64::from_bits(mean.to_bits()),
        high: Binary64::from_bits((mean + 5.0).to_bits()),
    };
    let results = calculate_results(&measurements, &band);
    let mut written = String::new();
    write_output(&mut written, &results, &mean_text(results.mean));
    written
}

fn decimal(n: usize) -> String {
    let mut written = String::new();
    write_decimal(&mut written, n);
    written
}

#[test]
fn no_measurements_output() {
    assert_write(
        "No measurements provided.\n",
        &Results { mean: Mean::of(Binary64::from_bits(NAN.to_bits())), above: 0, below: 0 },
    );
}

#[test]
fn some_measurements_output() {
    assert_write(
        "Mean rainfall: 5 cm\nBelow count:   3\nAbove count:   2\n",
        &Results { mean: Mean::of(Binary64::from_bits(5f64.to_bits())), above: 2, below: 3 },
    );
}

#[test]
fn undefined_mean_output_leaves_out_the_counts() {
    let mut written = String::new();
    write_output(&mut written, &Results { mean: Mean::Undefined, above: 7, below: 9 }, "8.3");
    assert_eq!("No measurements provided.\n", written);
}

#[test]
fn output_goes_behind_what_is_there() {
    let mut written = String::from("Report\n");
    let results = Results { mean: Mean::Defined(Binary64::from_bits(8.3f64.to_bits())), above: 1, below: 2 };
    write_output(&mut written, &results, "8.3");
    assert_eq!("Report\nMean rainfall: 8.3 cm\nBelow count:   2\nAbove count:   1\n", written);
}

#[test]
fn output_with_large_counts() {
    let results = Results {
        mean: Mean::Defined(Binary64::from_bits(0.5f64.to_bits())),
        above: 1234567890,
        below: 100,
    };
    assert_write("Mean rainfall: 0.5 cm\nBelow count:   100\nAbove count:   1234567890\n", &results);
}

#[test]
fn decimal_numerals() {
    assert_eq!("0", decimal(0));
    assert_eq!("7", decimal(7));
    assert_eq!("9", decimal(9));
    assert_eq!("10", decimal(10));
    assert_eq!("11", decimal(11));
    assert_eq!("99", decimal(99));
    assert_eq!("100", decimal(100));
    assert_eq!("1002003", decimal(1002003));
    assert_eq!("65535", decimal(65535));
}

#[test]
fn decimal_numerals_are_those_of_the_formatter() {
    let mut n: usize = 1;
    for _ in 0..40 {
        assert_eq!(format!("{}", n), decimal(n));
        assert_eq!(format!("{}", n - 1), decimal(n - 1));
        n = n.wrapping_mul(3).wrapping_add(7);
    }
    assert_eq!(format!("{}", usize::MAX), decimal(usize::MAX));
}

#[test]
fn decimal_goes_behind_what_is_there() {
    let mut written = String::from("n = ");
    write_decimal(&mut written, 42);
    assert_eq!("n = 42", written);
}

#[test]
fn whole_run_on_the_given_example() {
    assert_eq!(
        "Mean rainfall: 8.3 cm\nBelow count:   2\nAbove count:   1\n",
        report_on("12.5\n18\n7\n0\n4\n")
    );
}

#[test]
fn whole_run_on_empty_input() {
    assert_eq!("No measurements provided.\n", report_on(""));
}

#[test]
fn whole_run_on_noise_alone() {
    assert_eq!("No measurements provided.\n", report_on("six\n-6\n\n 7\n"));
}

#[test]
fn whole_run_stops_at_the_terminator() {
    assert_eq!(
        "Mean rainfall: 3.5 cm\nBelow count:   1\nAbove count:   1\n",
        report_on("3\n4\n999\n500\n")
    );
}
