use translate_gateway::outcome::{validation_message, Failure, TranslationResult};
use translate_gateway::parser::ParseError;
use translate_gateway::provider::ProviderError;
use translate_gateway::request::ValidationError;

#[test]
fn status_tells_the_kinds_of_result_apart() {
    let success = TranslationResult::Success { text: "Hola".to_string(), cached: false };
    assert_eq!(success.status_code(), 200);
    assert_eq!(TranslationResult::Failure(Failure::RateLimited).status_code(), 429);
    for error in [
        ValidationError::EmptyText,
        ValidationError::TextTooLong { max: 5 },
        ValidationError::EmptyTarget,
    ] {
        assert_eq!(TranslationResult::Failure(Failure::Invalid(error)).status_code(), 400);
    }
    for error in [
        ProviderError::Transport("x".to_string()),
        ProviderError::Body("x".to_string()),
        ProviderError::Http { status: 404, body: "x".to_string() },
        ProviderError::Parse(ParseError::UnknownFormat),
    ] {
        assert_eq!(TranslationResult::Failure(Failure::Provider(error)).status_code(), 500);
    }
}

#[test]
fn messages_are_those_shown_to_the_user() {
    assert_eq!(Failure::RateLimited.message(), "请求过于频繁，请稍后再试");
    assert_eq!(validation_message(ValidationError::EmptyText), "文本不能为空");
    assert_eq!(
        validation_message(ValidationError::TextTooLong { max: 5000 }),
        "文本长度超过限制（最大5000字符）"
    );
    assert_eq!(
        Failure::Invalid(ValidationError::TextTooLong { max: 0 }).message(),
        "文本长度超过限制（最大0字符）"
    );
    assert_eq!(validation_message(ValidationError::EmptyTarget), "目标语言不能为空");
    assert_eq!(
        Failure::Provider(ProviderError::Http { status: 429, body: "slow down".to_string() })
            .message(),
        "翻译失败: API错误 429: slow down"
    );
    assert_eq!(
        Failure::Provider(ProviderError::Parse(ParseError::MissingOutputText)).message(),
        "翻译失败: 响应解析失败: new format missing output_text"
    );
}

#[test]
fn duplicate_is_equal_to_what_it_copies() {
    let results = vec![
        TranslationResult::Success { text: "Hola".to_string(), cached: true },
        TranslationResult::Failure(Failure::RateLimited),
        TranslationResult::Failure(Failure::Invalid(ValidationError::EmptyTarget)),
        TranslationResult::Failure(Failure::Provider(ProviderError::Transport("a".to_string()))),
        TranslationResult::Failure(Failure::Provider(ProviderError::Body("b".to_string()))),
        TranslationResult::Failure(Failure::Provider(ProviderError::Http {
            status: 500,
            body: "c".to_string(),
        })),
        TranslationResult::Failure(Failure::Provider(ProviderError::Parse(
            ParseError::InvalidJson("d".to_string()),
        ))),
        TranslationResult::Failure(Failure::Provider(ProviderError::Parse(
            ParseError::MissingOutputText,
        ))),
        TranslationResult::Failure(Failure::Provider(ProviderError::Parse(
            ParseError::UnknownFormat,
        ))),
    ];
    for result in results {
        assert_eq!(result.duplicate(), result);
    }
}
