use translate_gateway::request::{
    char_is_white_space, text_is_blank, validate, TranslationRequest, ValidationError,
};

fn request(text: &str, target: &str) -> TranslationRequest {
    TranslationRequest { text: text.to_string(), source: None, target: target.to_string() }
}

#[test]
fn empty_text_is_refused_first() {
    assert_eq!(validate(&request("", "zh"), 10), Err(ValidationError::EmptyText));
    assert_eq!(validate(&request("", ""), 0), Err(ValidationError::EmptyText));
}

#[test]
fn text_over_the_limit_is_refused_before_the_target_is_looked_at() {
    assert_eq!(validate(&request("abcdef", "zh"), 5), Err(ValidationError::TextTooLong { max: 5 }));
    assert_eq!(validate(&request("abcdef", " "), 5), Err(ValidationError::TextTooLong { max: 5 }));
    assert_eq!(validate(&request("abcde", "zh"), 5), Ok(()));
}

#[test]
fn text_length_counts_characters() {
    assert_eq!(validate(&request("äöüß€", "zh"), 5), Ok(()));
    assert_eq!(validate(&request("文本不能为空", "en"), 5), Err(ValidationError::TextTooLong { max: 5 }));
}

#[test]
fn blank_target_is_refused() {
    assert_eq!(validate(&request("hi", ""), 5), Err(ValidationError::EmptyTarget));
    assert_eq!(validate(&request("hi", " \t\n"), 5), Err(ValidationError::EmptyTarget));
    assert_eq!(validate(&request("hi", "\u{3000}\u{a0}"), 5), Err(ValidationError::EmptyTarget));
    assert_eq!(validate(&request("hi", " zh "), 5), Ok(()));
}

#[test]
fn white_space_is_what_the_standard_library_calls_white_space() {
    for code in 0u32..0x11_0000 {
        if let Some(c) = char::from_u32(code) {
            assert_eq!(char_is_white_space(c), c.is_whitespace(), "U+{:04X}", code);
        }
    }
}

#[test]
fn blank_text_is_empty_after_trimming() {
    for text in ["", " ", "\r\n\t", " a ", "\u{2003}\u{205f}", "\u{200b}", "zh"] {
        assert_eq!(text_is_blank(text), text.trim().is_empty(), "{:?}", text);
    }
}
