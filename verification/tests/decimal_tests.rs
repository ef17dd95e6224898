use hole::decimal::{format_units, parse_number};

fn parse(s: &str) -> Option<i64> {
    let chars: Vec<char> = s.chars().collect();
    parse_number(&chars)
}

#[test]
fn parse_number_reads_whole_numbers() {
    assert_eq!(parse("0"), Some(0));
    assert_eq!(parse("7"), Some(7_000_000));
    assert_eq!(parse("300"), Some(300_000_000));
    assert_eq!(parse("007"), Some(7_000_000));
    assert_eq!(parse("-42"), Some(-42_000_000));
    assert_eq!(parse("+42"), Some(42_000_000));
    assert_eq!(parse("-0"), Some(0));
}

#[test]
fn parse_number_reads_places() {
    assert_eq!(parse("1.5"), Some(1_500_000));
    assert_eq!(parse("1.05"), Some(1_050_000));
    assert_eq!(parse("1.000005"), Some(1_000_005));
    assert_eq!(parse("-0.000001"), Some(-1));
    assert_eq!(parse("5."), Some(5_000_000));
    assert_eq!(parse(".5"), Some(500_000));
    assert_eq!(parse("-.25"), Some(-250_000));
}

#[test]
fn parse_number_cuts_places_after_the_sixth() {
    assert_eq!(parse("1.2345678"), Some(1_234_567));
    assert_eq!(parse("1.2399999999"), Some(1_239_999));
    assert_eq!(parse("-1.9999999"), Some(-1_999_999));
    assert_eq!(parse("0.0000009"), Some(0));
}

#[test]
fn parse_number_reads_exponents() {
    assert_eq!(parse("1e2"), Some(100_000_000));
    assert_eq!(parse("1E2"), Some(100_000_000));
    assert_eq!(parse("1e+2"), Some(100_000_000));
    assert_eq!(parse("1.5e1"), Some(15_000_000));
    assert_eq!(parse("-2.5e-1"), Some(-250_000));
    assert_eq!(parse("12345e-3"), Some(12_345_000));
    assert_eq!(parse("1e-6"), Some(1));
    assert_eq!(parse("9e-7"), Some(0));
    assert_eq!(parse("1e0"), Some(1_000_000));
    assert_eq!(parse("5.e1"), Some(50_000_000));
    assert_eq!(parse(".5e1"), Some(5_000_000));
    assert_eq!(parse("1e9"), Some(1_000_000_000_000_000));
    assert_eq!(parse("0.000000001e18"), Some(1_000_000_000_000_000));
    assert_eq!(parse("1e-99999999999999999999999999999999999999"), Some(0));
    assert_eq!(parse("0e99999999999999999999999999999999999999"), Some(0));
    assert_eq!(parse("0.0e5"), Some(0));
    assert_eq!(parse("1e007"), Some(10_000_000_000_000));
}

#[test]
fn parse_number_refuses_what_is_no_number() {
    assert_eq!(parse(""), None);
    assert_eq!(parse("-"), None);
    assert_eq!(parse("+"), None);
    assert_eq!(parse("."), None);
    assert_eq!(parse("-."), None);
    assert_eq!(parse("x"), None);
    assert_eq!(parse("1x"), None);
    assert_eq!(parse("1.2x"), None);
    assert_eq!(parse("1.2.3"), None);
    assert_eq!(parse("--1"), None);
    assert_eq!(parse("1-"), None);
    assert_eq!(parse("1e"), None);
    assert_eq!(parse("1e+"), None);
    assert_eq!(parse("e5"), None);
    assert_eq!(parse(".e5"), None);
    assert_eq!(parse("1e5.0"), None);
    assert_eq!(parse("1e5e5"), None);
    assert_eq!(parse(" 1"), None);
    assert_eq!(parse("1,5"), None);
    assert_eq!(parse("inf"), None);
    assert_eq!(parse("NaN"), None);
}

#[test]
fn parse_number_refuses_what_lies_outside_the_field() {
    assert_eq!(parse("1000000000"), Some(1_000_000_000_000_000));
    assert_eq!(parse("-1000000000"), Some(-1_000_000_000_000_000));
    assert_eq!(parse("1000000000.000000"), Some(1_000_000_000_000_000));
    assert_eq!(parse("1000000000.000001"), None);
    assert_eq!(parse("1000000001"), None);
    assert_eq!(parse("-1000000001"), None);
    assert_eq!(parse("1e10"), None);
    assert_eq!(parse("1e25"), None);
    assert_eq!(parse("1e99999999999999999999999999999999999999"), None);
    assert_eq!(parse("0.0000000000000000000000001e40"), None);
    assert_eq!(parse("99999999999999999999999999999999999999999"), None);
    assert_eq!(parse("0000000000000000000000000000000000000000001"), Some(1_000_000));
}

#[test]
fn format_units_writes_pixels() {
    assert_eq!(format_units(0), "0");
    assert_eq!(format_units(300_000_000), "300");
    assert_eq!(format_units(-2_000_000), "-2");
    assert_eq!(format_units(1_500_000), "1.5");
    assert_eq!(format_units(1_050_000), "1.05");
    assert_eq!(format_units(1_000_005), "1.000005");
    assert_eq!(format_units(1), "0.000001");
    assert_eq!(format_units(-10), "-0.00001");
    assert_eq!(format_units(-999_999), "-0.999999");
    assert_eq!(format_units(123_456_789), "123.456789");
    assert_eq!(format_units(120_000), "0.12");
    assert_eq!(format_units(i64::MAX), "9223372036854.775807");
    assert_eq!(format_units(i64::MIN), "-9223372036854.775808");
}

#[test]
fn what_is_written_reads_back() {
    let samples: [i64; 13] = [
        0,
        1,
        -1,
        10,
        100,
        999,
        1_000,
        -1_001,
        123_456,
        -987_654_321,
        100_000,
        1_000_000_000_000_000,
        -1_000_000_000_000_000,
    ];
    for v in samples {
        assert_eq!(parse(&format_units(v)), Some(v));
    }
}
