use fan_control::readings::{is_battery_indicator, parse_millidegrees};

#[test]
fn parses_plain_reading() {
    assert_eq!(parse_millidegrees("45000\n"), Some(45000));
}

#[test]
fn parses_signed_and_padded_readings() {
    assert_eq!(parse_millidegrees("  -1200 \t"), Some(-1200));
    assert_eq!(parse_millidegrees("+78000"), Some(78000));
    assert_eq!(parse_millidegrees("000123"), Some(123));
    assert_eq!(parse_millidegrees("\u{a0}0\u{3000}"), Some(0));
}

#[test]
fn parses_i32_limits() {
    assert_eq!(parse_millidegrees("2147483647"), Some(i32::MAX));
    assert_eq!(parse_millidegrees("-2147483648"), Some(i32::MIN));
}

#[test]
fn rejects_out_of_range() {
    assert_eq!(parse_millidegrees("2147483648"), None);
    assert_eq!(parse_millidegrees("-2147483649"), None);
    assert_eq!(parse_millidegrees("99999999999999999999"), None);
}

#[test]
fn rejects_malformed() {
    assert_eq!(parse_millidegrees(""), None);
    assert_eq!(parse_millidegrees("  \n"), None);
    assert_eq!(parse_millidegrees("-"), None);
    assert_eq!(parse_millidegrees("+"), None);
    assert_eq!(parse_millidegrees("12a"), None);
    assert_eq!(parse_millidegrees("1 2"), None);
    assert_eq!(parse_millidegrees("--1"), None);
    assert_eq!(parse_millidegrees("4.5"), None);
}

#[test]
fn agrees_with_std_parse() {
    for s in ["7", " -0 ", "+-3", "3\n\n", "\t\t9999", "１２", "0x10", "-00042"] {
        assert_eq!(parse_millidegrees(s), s.trim().parse::<i32>().ok(), "{:?}", s);
    }
}

#[test]
fn battery_when_indicator_reads_zero() {
    assert!(is_battery_indicator("0\n"));
    assert!(is_battery_indicator(" 0 "));
    assert!(is_battery_indicator("0"));
}

#[test]
fn ac_for_anything_else() {
    assert!(!is_battery_indicator("1\n"));
    assert!(!is_battery_indicator("00"));
    assert!(!is_battery_indicator(""));
    assert!(!is_battery_indicator("0 0"));
    assert!(!is_battery_indicator("o"));
}
