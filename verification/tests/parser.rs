use translate_gateway::json::{decode, Json};
use translate_gateway::parser::{extract_translation, parse_doubao_response, ParseError};

fn text(s: &str) -> Json {
    Json::Text(s.to_string())
}

fn object(members: Vec<(&str, Json)>) -> Json {
    Json::Object(members.into_iter().map(|(k, v)| (k.to_string(), v)).collect())
}

fn output_part(kind: &str, content: &str) -> Json {
    object(vec![("type", text(kind)), ("text", text(content))])
}

fn message(role: &str, parts: Vec<Json>) -> Json {
    object(vec![("type", text("message")), ("role", text(role)), ("content", Json::Array(parts))])
}

#[test]
fn first_shape_gives_the_output_text() {
    let body = r#"{"status":"completed","output":[{"type":"message","role":"assistant","content":[{"type":"output_text","text":"Hola"}]}]}"#;
    assert_eq!(parse_doubao_response(body), Ok("Hola".to_string()));
}

#[test]
fn second_shape_gives_the_content_of_the_first_choice() {
    let body = r#"{"choices":[{"message":{"content":"Hola"}},{"message":{"content":"Adios"}}]}"#;
    assert_eq!(parse_doubao_response(body), Ok("Hola".to_string()));
}

#[test]
fn completed_without_output_text_fails_and_does_not_fall_back() {
    assert_eq!(
        parse_doubao_response(r#"{"status":"completed","output":[]}"#),
        Err(ParseError::MissingOutputText)
    );
    let both = r#"{"status":"completed","output":[],"choices":[{"message":{"content":"Hola"}}]}"#;
    assert_eq!(parse_doubao_response(both), Err(ParseError::MissingOutputText));
    assert_eq!(
        parse_doubao_response(r#"{"status":"completed"}"#),
        Err(ParseError::MissingOutputText)
    );
}

#[test]
fn other_status_is_read_as_the_second_shape() {
    let body = r#"{"status":"in_progress","output":[{"type":"message","role":"assistant","content":[{"type":"output_text","text":"Hola"}]}],"choices":[{"message":{"content":"Salut"}}]}"#;
    assert_eq!(parse_doubao_response(body), Ok("Salut".to_string()));
    let no_choices = r#"{"status":"failed","output":[]}"#;
    assert_eq!(parse_doubao_response(no_choices), Err(ParseError::UnknownFormat));
    assert_eq!(parse_doubao_response(r#"{"status":7,"choices":[]}"#), Err(ParseError::UnknownFormat));
}

#[test]
fn neither_shape_is_an_unknown_format() {
    assert_eq!(parse_doubao_response("{}"), Err(ParseError::UnknownFormat));
    assert_eq!(parse_doubao_response("[1,2]"), Err(ParseError::UnknownFormat));
    assert_eq!(parse_doubao_response(r#"{"choices":[]}"#), Err(ParseError::UnknownFormat));
    assert_eq!(
        parse_doubao_response(r#"{"choices":[{"message":{"content":5}}]}"#),
        Err(ParseError::UnknownFormat)
    );
    assert_eq!(
        parse_doubao_response(r#"{"choices":{"message":{"content":"x"}}}"#),
        Err(ParseError::UnknownFormat)
    );
}

fn decoder_message(body: &str) -> String {
    serde_json::from_str::<serde_json::Value>(body).unwrap_err().to_string()
}

#[test]
fn invalid_json_is_reported_with_the_decoder_message() {
    for body in ["{not json", "", "[1,", "{\"a\":}", "nul"] {
        let message = decoder_message(body);
        assert!(!message.is_empty());
        assert_eq!(parse_doubao_response(body), Err(ParseError::InvalidJson(message.clone())));
        assert_eq!(decode(body), Err(message.clone()));
        assert_eq!(ParseError::InvalidJson(message.clone()).message(), message);
    }
    assert_eq!(decoder_message("{not json"), "key must be a string at line 1 column 2");
}

#[test]
fn error_messages_name_the_failure() {
    assert_eq!(ParseError::MissingOutputText.message(), "new format missing output_text");
    assert_eq!(ParseError::UnknownFormat.message(), "unknown response format");
}

#[test]
fn items_that_are_no_assistant_message_are_passed_over() {
    let doc = object(vec![
        ("status", text("completed")),
        (
            "output",
            Json::Array(vec![
                object(vec![("type", text("reasoning"))]),
                message("user", vec![output_part("output_text", "no")]),
                Json::Null,
                message("assistant", vec![output_part("refusal", "no"), output_part("output_text", "yes")]),
                message("assistant", vec![output_part("output_text", "later")]),
            ]),
        ),
    ]);
    assert_eq!(extract_translation(&doc), Ok("yes".to_string()));
}

#[test]
fn search_goes_on_past_a_message_without_output_text() {
    let doc = object(vec![
        ("status", text("completed")),
        (
            "output",
            Json::Array(vec![
                message("assistant", vec![]),
                object(vec![("type", text("message")), ("role", text("assistant"))]),
                message(
                    "assistant",
                    vec![object(vec![("type", text("output_text")), ("text", Json::Bool(true))])],
                ),
                message("assistant", vec![output_part("output_text", "found")]),
            ]),
        ),
    ]);
    assert_eq!(extract_translation(&doc), Ok("found".to_string()));
}

#[test]
fn output_that_is_no_array_has_no_output_text() {
    let doc = object(vec![("status", text("completed")), ("output", text("Hola"))]);
    assert_eq!(extract_translation(&doc), Err(ParseError::MissingOutputText));
}

#[test]
fn translation_is_returned_verbatim() {
    let body = r#"{"choices":[{"message":{"content":"  línea uno\nlínea dos é "}}]}"#;
    assert_eq!(parse_doubao_response(body), Ok("  línea uno\nlínea dos é ".to_string()));
}

#[test]
fn decode_gives_the_document() {
    let decoded = decode(r#"{"b":[1,-2.5,true,null,"x"],"a":{"k":"v"}}"#).unwrap();
    let expected = object(vec![
        ("a", object(vec![("k", text("v"))])),
        (
            "b",
            Json::Array(vec![
                Json::Number("1".to_string()),
                Json::Number("-2.5".to_string()),
                Json::Bool(true),
                Json::Null,
                text("x"),
            ]),
        ),
    ]);
    assert_eq!(decoded, expected);
    assert!(decode("[1,").is_err());
}

#[test]
fn accessors_read_members_strings_and_arrays() {
    let doc = object(vec![("name", text("n")), ("list", Json::Array(vec![Json::Null]))]);
    assert_eq!(doc.get("name"), Some(&text("n")));
    assert_eq!(doc.get("missing"), None);
    assert_eq!(text("n").get("name"), None);
    assert_eq!(text("n").as_text(), Some(&"n".to_string()));
    assert_eq!(doc.as_text(), None);
    assert_eq!(doc.get("list").unwrap().as_array(), Some(&vec![Json::Null]));
    assert_eq!(doc.as_array(), None);
    assert!(doc.text_at_is("name", "n"));
    assert!(!doc.text_at_is("name", "m"));
    assert!(!doc.text_at_is("list", "n"));
}
