use uptimeplot::parse::{
    check_digits, digits_value, parse_coord_mm, parse_dec_degree, parse_field_u8,
    parse_seconds_micro,
};

#[test]
fn digit_runs() {
    assert_eq!(digits_value(b"12345", 0, 5), Some(12345));
    assert_eq!(digits_value(b"007", 0, 3), Some(7));
    assert_eq!(digits_value(b"12a45", 0, 5), None);
    assert_eq!(digits_value(b"", 0, 0), Some(0));
    assert!(check_digits(b"0123456789", 0, 10));
    assert!(!check_digits(b"12.3", 0, 4));
}

#[test]
fn coordinate_fields() {
    // The station catalog writes ECEF meters; the parser yields
    // millimeters with the fraction truncated past the third place.
    assert_eq!(parse_coord_mm(b"-3502544.587"), Some(-3_502_544_587));
    assert_eq!(parse_coord_mm(b"3950966.235"), Some(3_950_966_235));
    assert_eq!(parse_coord_mm(b"+3566381.192"), Some(3_566_381_192));
    assert_eq!(parse_coord_mm(b"0"), Some(0));
    assert_eq!(parse_coord_mm(b"12"), Some(12_000));
    assert_eq!(parse_coord_mm(b"1.2345678"), Some(1_234));
}

#[test]
fn coordinate_fields_refused() {
    assert_eq!(parse_coord_mm(b""), None);
    assert_eq!(parse_coord_mm(b"-"), None);
    assert_eq!(parse_coord_mm(b"."), None);
    assert_eq!(parse_coord_mm(b"1."), None);
    assert_eq!(parse_coord_mm(b".5"), None);
    assert_eq!(parse_coord_mm(b"1.2.3"), None);
    assert_eq!(parse_coord_mm(b"12x4"), None);
    assert_eq!(parse_coord_mm(b"1e3"), None);
    // Beyond the engine's coordinate bound of 1e8 meters.
    assert_eq!(parse_coord_mm(b"100000001.0"), None);
    assert_eq!(parse_coord_mm(b"99999999.9"), Some(99_999_999_900));
}

#[test]
fn seconds_fields() {
    assert_eq!(parse_seconds_micro(b"06.7"), Some(6_700_000));
    assert_eq!(parse_seconds_micro(b"08.6"), Some(8_600_000));
    assert_eq!(parse_seconds_micro(b"59.999999"), Some(59_999_999));
    assert_eq!(parse_seconds_micro(b"0"), Some(0));
    assert_eq!(parse_seconds_micro(b"60"), None);
    assert_eq!(parse_seconds_micro(b"60.0"), None);
    assert_eq!(parse_seconds_micro(b"-1"), None);
    assert_eq!(parse_seconds_micro(b"1.2.3"), None);
    // A seventh fraction digit is truncated, not rounded.
    assert_eq!(parse_seconds_micro(b"1.23456789"), Some(1_234_567));
}

#[test]
fn small_integer_fields() {
    assert_eq!(parse_field_u8(b"12"), Some(12));
    assert_eq!(parse_field_u8(b"00"), Some(0));
    assert_eq!(parse_field_u8(b"255"), Some(255));
    assert_eq!(parse_field_u8(b"256"), None);
    assert_eq!(parse_field_u8(b""), None);
    assert_eq!(parse_field_u8(b"1234"), None);
    assert_eq!(parse_field_u8(b"1.5"), None);
    assert_eq!(parse_field_u8(b"-1"), None);
}

#[test]
fn declination_degree_field_keeps_sign() {
    assert_eq!(parse_dec_degree(b"+02"), Some((false, 2)));
    assert_eq!(parse_dec_degree(b"02"), Some((false, 2)));
    assert_eq!(parse_dec_degree(b"-17"), Some((true, 17)));
    // The negative-zero field: magnitude zero, sign south.
    assert_eq!(parse_dec_degree(b"-00"), Some((true, 0)));
    assert_eq!(parse_dec_degree(b"-"), None);
    assert_eq!(parse_dec_degree(b"--1"), None);
}
