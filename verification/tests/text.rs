use breez_sdk_bindings::text::{bool_to_text, i64_text, parse_u32, u64_text};

#[test]
fn u64_text_writes_decimal() {
    assert_eq!(u64_text(0), "0");
    assert_eq!(u64_text(7), "7");
    assert_eq!(u64_text(10), "10");
    assert_eq!(u64_text(1234567890), "1234567890");
    assert_eq!(u64_text(u64::MAX), u64::MAX.to_string());
}

#[test]
fn i64_text_writes_sign_and_magnitude() {
    assert_eq!(i64_text(0), "0");
    assert_eq!(i64_text(-42), "-42");
    assert_eq!(i64_text(42), "42");
    assert_eq!(i64_text(i64::MIN), "-9223372036854775808");
    assert_eq!(i64_text(i64::MAX), i64::MAX.to_string());
}

#[test]
fn bool_text_is_true_or_false() {
    assert_eq!(bool_to_text(true), "true");
    assert_eq!(bool_to_text(false), "false");
}

#[test]
fn parse_u32_reads_what_std_reads() {
    let cases = [
        "", "0", "42", "+7", "+", "-1", "-0", "007", "4294967295", "4294967296", "99999999999",
        "12a", " 1", "1 ", "++1", "\u{0661}",
    ];
    for case in cases {
        assert_eq!(parse_u32(case), case.parse::<u32>().ok(), "input {:?}", case);
    }
}

#[test]
fn parse_u32_values() {
    assert_eq!(parse_u32("42"), Some(42));
    assert_eq!(parse_u32("+7"), Some(7));
    assert_eq!(parse_u32("4294967295"), Some(u32::MAX));
    assert_eq!(parse_u32("4294967296"), None);
    assert_eq!(parse_u32(""), None);
    assert_eq!(parse_u32("+"), None);
    assert_eq!(parse_u32("-1"), None);
}

#[test]
fn decimal_text_parses_back() {
    for n in [0u64, 1, 9, 10, 99, 100, 65535, 4294967295] {
        assert_eq!(parse_u32(&u64_text(n)), Some(n as u32));
    }
    assert_eq!(parse_u32(&u64_text(4294967296)), None);
}
