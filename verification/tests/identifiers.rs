use aegis_backend::decimal::{parse_u32, u32_to_string};

#[test]
fn pid_string_renders_decimal() {
    assert_eq!(u32_to_string(0), "0");
    assert_eq!(u32_to_string(7), "7");
    assert_eq!(u32_to_string(42), "42");
    assert_eq!(u32_to_string(1000), "1000");
    assert_eq!(u32_to_string(4294967295), "4294967295");
}

#[test]
fn parse_accepts_digit_runs() {
    assert_eq!(parse_u32("0"), Some(0));
    assert_eq!(parse_u32("42"), Some(42));
    assert_eq!(parse_u32("007"), Some(7));
    assert_eq!(parse_u32("4294967295"), Some(4294967295));
}

#[test]
fn parse_rejects_everything_else() {
    assert_eq!(parse_u32(""), None);
    assert_eq!(parse_u32("abc"), None);
    assert_eq!(parse_u32("12a"), None);
    assert_eq!(parse_u32("-1"), None);
    assert_eq!(parse_u32(" 7"), None);
    assert_eq!(parse_u32("4294967296"), None);
    assert_eq!(parse_u32("999999999999999999999"), None);
}

#[test]
fn rendering_then_parsing_round_trips() {
    for pid in [0u32, 1, 9, 10, 99, 123456789, 4294967295] {
        assert_eq!(parse_u32(&u32_to_string(pid)), Some(pid));
    }
}
