use translate_gateway::parser::ParseError;
use translate_gateway::provider::{
    interpret_reply, provider_request, ProviderError, ProviderReply, ProviderRequest,
};

fn received(status: u16, body: &str) -> ProviderReply {
    ProviderReply::Received { status, body: body.to_string() }
}

#[test]
fn request_carries_the_chunk_and_the_languages() {
    assert_eq!(
        provider_request("Hello", Some("en"), "zh"),
        ProviderRequest {
            model: "doubao-seed-translation-250915".to_string(),
            role: "user".to_string(),
            content_type: "input_text".to_string(),
            text: "Hello".to_string(),
            source_language: Some("en".to_string()),
            target_language: "zh".to_string(),
        }
    );
    assert_eq!(provider_request("Hello", None, "zh").source_language, None);
}

#[test]
fn success_status_with_a_body_of_either_shape_gives_the_text() {
    let body = r#"{"choices":[{"message":{"content":"Hola"}}]}"#;
    assert_eq!(interpret_reply(received(200, body)), Ok("Hola".to_string()));
    assert_eq!(interpret_reply(received(299, body)), Ok("Hola".to_string()));
}

#[test]
fn other_status_is_an_error_with_status_and_body() {
    let body = r#"{"choices":[{"message":{"content":"Hola"}}]}"#;
    for status in [199u16, 300, 404, 500, 0, u16::MAX] {
        assert_eq!(
            interpret_reply(received(status, body)),
            Err(ProviderError::Http { status, body: body.to_string() })
        );
    }
}

#[test]
fn undecodable_body_is_a_parse_error() {
    assert_eq!(
        interpret_reply(received(200, "{}")),
        Err(ProviderError::Parse(ParseError::UnknownFormat))
    );
    assert_eq!(
        interpret_reply(received(200, r#"{"status":"completed"}"#)),
        Err(ProviderError::Parse(ParseError::MissingOutputText))
    );
    let message =
        serde_json::from_str::<serde_json::Value>("<html>").unwrap_err().to_string();
    let result = interpret_reply(received(200, "<html>"));
    assert_eq!(result, Err(ProviderError::Parse(ParseError::InvalidJson(message.clone()))));
    assert_eq!(result.unwrap_err().message(), format!("响应解析失败: {}", message));
}

#[test]
fn failed_call_keeps_its_cause() {
    assert_eq!(
        interpret_reply(ProviderReply::SendFailed("timed out".to_string())),
        Err(ProviderError::Transport("timed out".to_string()))
    );
    assert_eq!(
        interpret_reply(ProviderReply::ReadFailed("reset".to_string())),
        Err(ProviderError::Body("reset".to_string()))
    );
}

#[test]
fn messages_carry_the_cause() {
    assert_eq!(ProviderError::Transport("timed out".to_string()).message(), "HTTP请求失败: timed out");
    assert_eq!(ProviderError::Body("reset".to_string()).message(), "读取响应失败: reset");
    assert_eq!(
        ProviderError::Http { status: 503, body: "busy".to_string() }.message(),
        "API错误 503: busy"
    );
    assert_eq!(
        ProviderError::Http { status: 0, body: String::new() }.message(),
        "API错误 0: "
    );
    assert_eq!(
        ProviderError::Parse(ParseError::UnknownFormat).message(),
        "响应解析失败: unknown response format"
    );
    assert_eq!(
        ProviderError::Parse(ParseError::InvalidJson("bad".to_string())).message(),
        "响应解析失败: bad"
    );
}
