use dub_library::num::{i64_text, parse_i32, parse_i64, parse_u8, usize_text};

#[test]
fn integers_parse_as_str_parse_does() {
    assert_eq!(parse_i64("2971"), Some(2971));
    assert_eq!(parse_i64("+12"), Some(12));
    assert_eq!(parse_i64("-1"), Some(-1));
    assert_eq!(parse_i64("0007"), Some(7));
    assert_eq!(parse_i64(""), None);
    assert_eq!(parse_i64("-"), None);
    assert_eq!(parse_i64("1.5"), None);
    assert_eq!(parse_i64(" 1"), None);
    assert_eq!(parse_i64("9223372036854775807"), Some(i64::MAX));
    assert_eq!(parse_i64("-9223372036854775808"), Some(i64::MIN));
    assert_eq!(parse_i64("9223372036854775808"), None);
    assert_eq!(parse_i32("2147483648"), None);
    assert_eq!(parse_i32("2020"), Some(2020));
    assert_eq!(parse_u8("255"), Some(255));
    assert_eq!(parse_u8("256"), None);
    assert_eq!(parse_u8("-0"), None);
    assert_eq!(parse_u8("+40"), Some(40));
}

#[test]
fn integers_display_as_to_string_does() {
    for n in [0i64, 7, -1, 2971, i64::MAX, i64::MIN] {
        assert_eq!(i64_text(n), n.to_string());
        assert_eq!(parse_i64(&i64_text(n)), Some(n));
    }
    assert_eq!(usize_text(0), "0");
    assert_eq!(usize_text(120), "120");
}
