use jni_bindgen::text::{dec_string, dec_string_i32, ends_with, eq_ignore_ascii_case, join_char, pad_right, split_char, str_lt};

#[test]
fn split_and_join_round_trip() {
    let parts = split_char("com.acme.Widget", '.');
    assert_eq!(parts, vec!["com".to_string(), "acme".to_string(), "Widget".to_string()]);
    assert_eq!(join_char(&parts, '.'), "com.acme.Widget");
    // splitting keeps empty parts, so joining always restores the text
    for s in ["", ".", "a..b", ".lead", "trail."] {
        let p = split_char(s, '.');
        assert_eq!(join_char(&p, '.'), s);
    }
}

#[test]
fn lexicographic_order_is_by_code_point() {
    assert!(str_lt("alpha", "beta"));
    assert!(str_lt("alp", "alpha"));
    assert!(!str_lt("alpha", "alpha"));
    assert!(!str_lt("beta", "alpha"));
    assert!(str_lt("A", "a"));
}

#[test]
fn decimal_rendering_is_exact() {
    assert_eq!(dec_string(0), "0");
    assert_eq!(dec_string(90210), "90210");
    assert_eq!(dec_string(u64::MAX), "18446744073709551615");
    assert_eq!(dec_string_i32(-42), "-42");
    assert_eq!(dec_string_i32(i32::MIN), "-2147483648");
}

#[test]
fn padding_and_suffix_helpers() {
    assert_eq!(pad_right(String::from("ab"), 5), "ab   ");
    assert_eq!(pad_right(String::from("abcdef"), 3), "abcdef");
    assert!(ends_with("Widget.class", ".class"));
    assert!(!ends_with("Widget.clazz", ".class"));
    assert!(!ends_with("s", ".class"));
    assert!(eq_ignore_ascii_case("JaR", "jar"));
    assert!(!eq_ignore_ascii_case("jar", "jars"));
}
