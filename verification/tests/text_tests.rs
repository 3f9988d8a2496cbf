use tellus_42::text::{
    chars_of, decimal_string, find_char, parse_u16_str, push_right_aligned, split_ws,
    string_of_all, trim_chars,
};

#[test]
fn trims_whitespace() {
    let t = trim_chars(&chars_of("  a b \t\n"));
    assert_eq!(string_of_all(&t), "a b");
    assert!(trim_chars(&chars_of(" \t ")).is_empty());
}

#[test]
fn splits_on_whitespace() {
    let parts = split_ws(&chars_of("  new 10\t12  x "));
    let words: Vec<String> = parts.iter().map(string_of_all).collect();
    assert_eq!(words, vec!["new", "10", "12", "x"]);
    assert!(split_ws(&chars_of("   ")).is_empty());
}

#[test]
fn parses_u16_like_std() {
    assert_eq!(parse_u16_str("0"), Some(0));
    assert_eq!(parse_u16_str("65535"), Some(65535));
    assert_eq!(parse_u16_str("+7"), Some(7));
    assert_eq!(parse_u16_str("007"), Some(7));
    assert_eq!(parse_u16_str("65536"), None);
    assert_eq!(parse_u16_str("-1"), None);
    assert_eq!(parse_u16_str("+"), None);
    assert_eq!(parse_u16_str(""), None);
    assert_eq!(parse_u16_str("1a"), None);
}

#[test]
fn decimal_formatting() {
    assert_eq!(decimal_string(0), "0");
    assert_eq!(decimal_string(1234567890), "1234567890");
    let mut s = String::from("x");
    push_right_aligned(&mut s, 42, 4);
    push_right_aligned(&mut s, 12345, 3);
    assert_eq!(s, "x  4212345");
}

#[test]
fn finds_characters() {
    let cs = chars_of("a=b=c");
    assert_eq!(find_char(&cs, 0, '='), 1);
    assert_eq!(find_char(&cs, 2, '='), 3);
    assert_eq!(find_char(&cs, 4, '='), 5);
}
