use translate_gateway::key::{build_cache_key, hex_lower};

#[test]
fn key_is_the_md5_of_the_three_fields() {
    assert_eq!(build_cache_key("hello", Some("en"), "zh"), "a9c594c2a4d1384c062aed1c6fac0328");
    assert_eq!(build_cache_key("hello", None, "zh"), "cbc6685748858f7ae3bb7261375d3e10");
    assert_eq!(
        build_cache_key("héllo wörld", Some("en"), "zh"),
        "cacc71e42f2a7625131e8ebbfe58b17b"
    );
    assert_eq!(build_cache_key("", None, "fr"), "cbdf4d2968bc4c0cb45577d2352e9d74");
}

#[test]
fn key_agrees_with_the_digest_of_the_md5_crate() {
    let expected = format!("{:x}", md5::compute("2|de|2|ja|Guten Tag"));
    assert_eq!(expected, "8ba2bb40baca0928aff5a56ef06385ac");
    assert_eq!(build_cache_key("Guten Tag", Some("de"), "ja"), expected);
}

#[test]
fn key_is_stable_across_calls() {
    let first = build_cache_key("some text", Some("en"), "fr");
    let second = build_cache_key("some text", Some("en"), "fr");
    assert_eq!(first, second);
    assert_eq!(first.len(), 32);
    assert!(first.chars().all(|c| c.is_ascii_digit() || ('a'..='f').contains(&c)));
}

#[test]
fn missing_and_empty_source_give_the_same_key() {
    assert_eq!(build_cache_key("t", None, "zh"), build_cache_key("t", Some(""), "zh"));
}

#[test]
fn changing_one_field_changes_the_key() {
    let base = build_cache_key("hello", Some("en"), "zh");
    assert_ne!(base, build_cache_key("hello!", Some("en"), "zh"));
    assert_ne!(base, build_cache_key("hello", Some("de"), "zh"));
    assert_ne!(base, build_cache_key("hello", Some("en"), "ja"));
    assert_ne!(base, build_cache_key("hello", None, "zh"));
}

#[test]
fn hex_is_lower_case_with_two_digits_a_byte() {
    let bytes: [u8; 16] = [0, 1, 9, 10, 15, 16, 0x7f, 0x80, 0xab, 0xcd, 0xef, 0xff, 0x10, 0x2a, 0x99, 0xa0];
    assert_eq!(hex_lower(&bytes), "0001090a0f107f80abcdefff102a99a0");
}

#[test]
fn bar_in_a_language_does_not_make_two_requests_share_a_key() {
    let first = build_cache_key("t", Some("a|b"), "c");
    let second = build_cache_key("t", Some("a"), "b|c");
    assert_ne!(first, second);
    assert_eq!(first, "b471c614e42a27255a3270aa2596ade8");
    assert_eq!(second, "53f655012022b1f92263c82bf292234d");
    assert_ne!(build_cache_key("c|t", Some("a"), "b"), build_cache_key("t", Some("a"), "b|c"));
    assert_ne!(build_cache_key("t", Some("1|a"), "b"), build_cache_key("t", Some("a"), "b"));
}

#[test]
fn lengths_in_the_key_count_characters() {
    assert_eq!(build_cache_key("文本", Some("中文"), "日本語"), "1186b3f980ae58c9e0b1e38dad94710d");
}
