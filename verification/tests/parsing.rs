use gpx_stats::config::Config;
use gpx_stats::fixed::parse_fixed;

#[test]
fn parses_plain_integers() {
    assert_eq!(parse_fixed("0"), Some(0));
    assert_eq!(parse_fixed("7"), Some(7_000_000_000));
    assert_eq!(parse_fixed("100"), Some(100_000_000_000));
}

#[test]
fn parses_signs_and_fractions() {
    assert_eq!(parse_fixed("12.5"), Some(12_500_000_000));
    assert_eq!(parse_fixed("-3.25"), Some(-3_250_000_000));
    assert_eq!(parse_fixed("+0.000000001"), Some(1));
    assert_eq!(parse_fixed("-0.001"), Some(-1_000_000));
    assert_eq!(parse_fixed("47.6425931"), Some(47_642_593_100));
}

#[test]
fn trailing_dot_counts_as_whole_number() {
    assert_eq!(parse_fixed("5."), Some(5_000_000_000));
}

#[test]
fn rejects_text_that_is_no_number() {
    assert_eq!(parse_fixed(""), None);
    assert_eq!(parse_fixed("abc"), None);
    assert_eq!(parse_fixed("-"), None);
    assert_eq!(parse_fixed(".5"), None);
    assert_eq!(parse_fixed("1e5"), None);
    assert_eq!(parse_fixed("1.2.3"), None);
    assert_eq!(parse_fixed(" 1"), None);
    assert_eq!(parse_fixed("1 "), None);
}

#[test]
fn rejects_more_than_nine_fraction_digits() {
    assert_eq!(parse_fixed("1.123456789"), Some(1_123_456_789));
    assert_eq!(parse_fixed("1.1234567890"), None);
}

#[test]
fn rejects_values_beyond_the_fixed_point_range() {
    assert_eq!(parse_fixed("9223372036.854775807"), Some(i64::MAX));
    assert_eq!(parse_fixed("9223372036.854775808"), None);
    assert_eq!(parse_fixed("9223372037"), None);
    assert_eq!(parse_fixed("99999999999999999999"), None);
}

#[test]
fn keeps_leading_zeros_harmless() {
    assert_eq!(parse_fixed("007.5"), Some(7_500_000_000));
    assert_eq!(parse_fixed("000000000000000001"), Some(1_000_000_000));
}

#[test]
fn config_needs_a_file_name_argument() {
    let args = vec![String::from("gpx_stats")];
    assert_eq!(Config::new(&args, Some((80, 24))), Err("not enough arguments"));
}

#[test]
fn config_needs_terminal_dimensions() {
    let args = vec![String::from("gpx_stats"), String::from("track.gpx")];
    assert_eq!(Config::new(&args, None), Err("Could not read terminal size"));
}

#[test]
fn config_takes_file_name_and_dimensions() {
    let args = vec![String::from("gpx_stats"), String::from("track.gpx")];
    let c = Config::new(&args, Some((80, 24))).ok().unwrap();
    assert_eq!(c.filename, "track.gpx");
    assert_eq!(c.terminal_width, 80);
    assert_eq!(c.terminal_height, 24);
}
