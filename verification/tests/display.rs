use eve_arbitrage::display::{
    FormatForDisplay, DISPLAY_DECIMALS, GROUPED_PATTERN, PERCENTAGE_PATTERN,
};
use numfmt::Formatter;

#[test]
fn format_thouthands() {
    let mut f: Formatter;
    f = "[n/ ]".parse().unwrap();
    assert_eq!("1 000.5", f.fmt2(1000.5));
}

#[test]
fn format_small() {
    let mut f: Formatter;
    f = "[n/ ]".parse().unwrap();
    assert_eq!("4.85", f.fmt2(4.85));
}

#[test]
fn format_whole_numbers_in_groups_of_three() {
    assert_eq!(1000000i64.format_for_display(), Some("1 000 000.0".to_string()));
    assert_eq!(1000i64.format_for_display(), Some("1 000.0".to_string()));
    assert_eq!(138i64.format_for_display(), Some("138.0".to_string()));
    assert_eq!((-1234i64).format_for_display(), Some("-1 234.0".to_string()));
}

#[test]
fn format_zero() {
    assert_eq!(0i64.format_for_display(), Some("0".to_string()));
    assert_eq!(0i64.format_for_display_percentage(), Some("0".to_string()));
}

#[test]
fn format_whole_numbers_as_percentages() {
    assert_eq!(1i64.format_for_display_percentage(), Some("100.0%".to_string()));
    assert_eq!(3i64.format_for_display_percentage(), Some("300.0%".to_string()));
}

#[test]
fn display_patterns() {
    assert_eq!(GROUPED_PATTERN, "[n/ ]");
    assert_eq!(PERCENTAGE_PATTERN, "[.2%]");
    assert_eq!(DISPLAY_DECIMALS, 2);
}
