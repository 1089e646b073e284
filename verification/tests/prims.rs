use ciris_accord::prims::{
    base64_standard_decode, base64url_nopad_encode, chars_of, concat2, concat3, copy_texts,
    hex_encode, i64_text, is_whitespace_char, json_string, now_utc, parse_rfc3339, random_32,
    render_rfc3339, render_rfc3339_millis, sha256, sha256_hex_of, text_eq, text_lt, trim,
    u64_text, usize_text, utf8_text, Instant,
};

#[test]
fn rfc3339_parses_to_utc_seconds_and_nanos() {
    assert_eq!(
        parse_rfc3339("2026-01-01T00:00:00Z"),
        Some(Instant { secs: 1_767_225_600, nanos: 0 })
    );
    assert_eq!(
        parse_rfc3339("2026-01-01T01:00:00.250+01:00"),
        Some(Instant { secs: 1_767_225_600, nanos: 250_000_000 })
    );
    assert_eq!(parse_rfc3339("yesterday"), None);
}

#[test]
fn instants_render_in_both_forms() {
    let t = Instant { secs: 1_767_225_600, nanos: 5_000_000 };
    assert_eq!(render_rfc3339_millis(t).as_deref(), Some("2026-01-01T00:00:00.005Z"));
    assert_eq!(render_rfc3339(t).as_deref(), Some("2026-01-01T00:00:00.005+00:00"));
    assert!(now_utc().expect("the test machine's clock reads after 1970").secs > 1_767_225_600);
}

#[test]
fn digests_and_encodings() {
    assert_eq!(hex_encode(&[0x00, 0xab, 0xff]), "00abff");
    assert_eq!(sha256(b"abc").len(), 32);
    assert_eq!(
        sha256_hex_of(b"abc"),
        "ba7816bf8f01cfea414140de5dae2223b00361a396177a9cb410ff61f20015ad"
    );
    assert_eq!(base64url_nopad_encode(&[0xfb, 0xff]), "-_8");
    assert_eq!(base64_standard_decode("+/8="), Some(vec![0xfb, 0xff]));
    assert_eq!(base64_standard_decode("*"), None);
    assert_eq!(random_32().map(|v| v.len()), Some(32));
}

#[test]
fn text_primitives() {
    assert_eq!(trim("\u{3000} a b \n"), "a b");
    assert!(text_lt("a", "b") && text_lt("a", "ab") && !text_lt("b", "a") && !text_lt("a", "a"));
    assert!(text_eq("x", "x") && !text_eq("x", "y"));
    assert_eq!(utf8_text(&[0xe2, 0x82, 0xac]).as_deref(), Some("€"));
    assert_eq!(utf8_text(&[0xff]), None);
    assert!(is_whitespace_char('\u{2003}') && !is_whitespace_char('x'));
    assert_eq!(chars_of("añb"), vec!['a', 'ñ', 'b']);
    assert_eq!(copy_texts(&vec!["a".to_string()]), vec!["a".to_string()]);
    assert_eq!(concat2("a", "b"), "ab");
    assert_eq!(concat3("a", "b", "c"), "abc");
}

#[test]
fn numbers_and_json_strings() {
    assert_eq!(usize_text(4096), "4096");
    assert_eq!(i64_text(0), "0");
    assert_eq!(u64_text(18_446_744_073_709_551_615), "18446744073709551615");
    assert_eq!(json_string("a\"b\\c\n\u{1}"), "\"a\\\"b\\\\c\\n\\u0001\"");
}
