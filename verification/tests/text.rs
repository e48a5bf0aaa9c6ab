use translate_gateway::text::{append_chars, append_decimal, join_with, string_of, to_chars};

fn decimal(value: u64) -> String {
    let mut out = String::new();
    append_decimal(&mut out, value);
    out
}

#[test]
fn decimal_has_no_leading_zeros() {
    assert_eq!(decimal(0), "0");
    assert_eq!(decimal(7), "7");
    assert_eq!(decimal(10), "10");
    assert_eq!(decimal(5000), "5000");
    assert_eq!(decimal(1234567890), "1234567890");
    assert_eq!(decimal(u64::MAX), "18446744073709551615");
}

#[test]
fn decimal_is_appended_to_what_is_there() {
    let mut out = "n=".to_string();
    append_decimal(&mut out, 42);
    assert_eq!(out, "n=42");
}

#[test]
fn join_puts_the_separator_between_neighbours_only() {
    let parts = vec!["a".to_string(), "".to_string(), "c".to_string()];
    assert_eq!(join_with(&parts, "\n"), "a\n\nc");
    assert_eq!(join_with(&parts[..1].to_vec(), "\n"), "a");
    assert_eq!(join_with(&Vec::new(), "\n"), "");
    assert_eq!(join_with(&vec![String::new(), String::new()], ", "), ", ");
}

#[test]
fn characters_round_trip() {
    let chars = to_chars("héllo, 世界");
    assert_eq!(chars.len(), 9);
    assert_eq!(string_of(&chars, 0, chars.len()), "héllo, 世界");
    assert_eq!(string_of(&chars, 7, 9), "世界");
    assert_eq!(string_of(&chars, 3, 3), "");
    let mut out = "x".to_string();
    append_chars(&mut out, &chars, 1, 3);
    assert_eq!(out, "xél");
}
