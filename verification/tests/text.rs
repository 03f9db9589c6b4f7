use eve_arbitrage::text::{reads_as_float, parse_count, push_decimal, push_digits};

#[test]
fn parse_count_reads_plain_digits() {
    assert_eq!(parse_count("3"), Some(3));
    assert_eq!(parse_count("138"), Some(138));
    assert_eq!(parse_count("0"), Some(0));
    assert_eq!(parse_count("007"), Some(7));
}

#[test]
fn parse_count_reads_signs() {
    assert_eq!(parse_count("-42"), Some(-42));
    assert_eq!(parse_count("+42"), Some(42));
    assert_eq!(parse_count("-0"), Some(0));
}

#[test]
fn parse_count_refuses_what_is_no_whole_number() {
    assert_eq!(parse_count(""), None);
    assert_eq!(parse_count("-"), None);
    assert_eq!(parse_count("+"), None);
    assert_eq!(parse_count("12.5"), None);
    assert_eq!(parse_count(" 12"), None);
    assert_eq!(parse_count("12 "), None);
    assert_eq!(parse_count("1e3"), None);
    assert_eq!(parse_count("--1"), None);
    assert_eq!(parse_count("٣"), None);
}

#[test]
fn parse_count_keeps_to_sixty_four_bits() {
    assert_eq!(parse_count("9223372036854775807"), Some(i64::MAX));
    assert_eq!(parse_count("-9223372036854775808"), Some(i64::MIN));
    assert_eq!(parse_count("9223372036854775808"), None);
    assert_eq!(parse_count("-9223372036854775809"), None);
    assert_eq!(parse_count("99999999999999999999999999"), None);
}

#[test]
fn parse_count_agrees_with_the_standard_parser() {
    let samples = [
        "3", "-3", "+3", "", "x", "1x", "000", "9223372036854775807", "9223372036854775808",
        "-9223372036854775808", "18446744073709551616", "+-1", "1_000",
    ];
    for text in samples {
        assert_eq!(parse_count(text), text.parse::<i64>().ok(), "{:?}", text);
    }
}

#[test]
fn push_decimal_writes_as_the_standard_formatter() {
    for n in [0, 1, 9, 10, 34, 11192, 22544, -1, -10, i32::MAX, i32::MIN] {
        let mut out = String::from("id=");
        push_decimal(&mut out, n);
        assert_eq!(out, format!("id={}", n));
    }
}

#[test]
fn push_digits_appends() {
    let mut out = String::from("x");
    push_digits(&mut out, 0);
    push_digits(&mut out, 1030049082711);
    push_digits(&mut out, u64::MAX);
    assert_eq!(out, "x0103004908271118446744073709551615");
}

#[test]
fn reads_as_float_takes_prices_as_the_service_writes_them() {
    for text in ["3", "62.5", "865.2", "10000000.00", "0.01", "23200000.0", "0"] {
        assert!(reads_as_float(text), "{:?}", text);
    }
}

#[test]
fn reads_as_float_refuses_what_is_no_number() {
    for text in ["", "CANT PARSE!", "12,5", "1 000", "--1", ".", "+", "-", "e5", "1e", "1e+", "1.2.3"] {
        assert!(!reads_as_float(text), "{:?}", text);
    }
}

#[test]
fn reads_as_float_agrees_with_the_standard_parser() {
    let samples = [
        "", "0", "1", "-1", "+1", "1.", ".1", "1.5", "-.5", "+.5", ".", "-.", "+.", "1e5",
        "1E5", "1e+5", "1e-5", "1e", "1e+", "1e-", "e5", ".e5", "1.e5", ".1e5", "1.5e10",
        "1.5e1.0", "1..5", "1.5.", "inf", "INF", "Inf", "-inf", "+inf", "infinity", "INFINITY",
        "-Infinity", "InFiNiTy", "infinit", "infinityy", "nan", "NaN", "NAN", "-nan", "+NaN",
        "na", "nann", "in", " 1", "1 ", "1_0", "0x10", "1f", "1e5e5", "++1", "+-1", "1,5",
        "٣", "1٣", "1e٣", "12345678901234567890123456789012345678901234567890", "0.000000001",
        "1e400", "1e-400", "-0", "-0.0", "+0.0e+0", "i", "n", "e", "E", "1E", "1E-", "+e1",
        "-.e1", "5.e", ".5e", "5e5.", "ınf", "İNF", "nAn", "iNf", "infe5", "nan.", "inf.",
    ];
    for text in samples {
        assert_eq!(reads_as_float(text), text.parse::<f64>().is_ok(), "{:?}", text);
    }
}
