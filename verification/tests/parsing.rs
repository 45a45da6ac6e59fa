use speedy::text::{parse_u64_param, parse_u64_strict, str_eq, u64_to_dec};

#[test]
fn parses_plain_numbers() {
    assert_eq!(parse_u64_param("0"), 0);
    assert_eq!(parse_u64_param("5"), 5);
    assert_eq!(parse_u64_param("1048576"), 1048576);
    assert_eq!(parse_u64_param("18446744073709551615"), u64::MAX);
}

#[test]
fn accepts_leading_plus_sign() {
    assert_eq!(parse_u64_param("+42"), 42);
    assert_eq!(parse_u64_strict("+0"), Some(0));
}

#[test]
fn coerces_invalid_numbers_to_zero() {
    assert_eq!(parse_u64_param(""), 0);
    assert_eq!(parse_u64_param("+"), 0);
    assert_eq!(parse_u64_param("abc"), 0);
    assert_eq!(parse_u64_param("12x"), 0);
    assert_eq!(parse_u64_param("-3"), 0);
    assert_eq!(parse_u64_param("4 "), 0);
}

#[test]
fn coerces_overflow_to_zero() {
    assert_eq!(parse_u64_param("18446744073709551616"), 0);
    assert_eq!(parse_u64_param("99999999999999999999999"), 0);
    assert_eq!(parse_u64_strict("18446744073709551616"), None);
}

#[test]
fn renders_decimal() {
    assert_eq!(u64_to_dec(0).as_str(), "0");
    assert_eq!(u64_to_dec(7).as_str(), "7");
    assert_eq!(u64_to_dec(10).as_str(), "10");
    assert_eq!(u64_to_dec(209715).as_str(), "209715");
    assert_eq!(u64_to_dec(u64::MAX).as_str(), "18446744073709551615");
}

#[test]
fn render_and_parse_round_trip() {
    for n in [0u64, 1, 9, 10, 99, 100, 1048575, u64::MAX] {
        let s = u64_to_dec(n);
        assert_eq!(parse_u64_param(s.as_str()), n);
    }
}

#[test]
fn string_equality_is_exact() {
    assert!(str_eq("paused", "paused"));
    assert!(!str_eq("paused", "pause"));
    assert!(!str_eq("", "a"));
    assert!(str_eq("", ""));
}
