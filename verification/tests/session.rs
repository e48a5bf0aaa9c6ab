use translate_gateway::cache::Cache;
use translate_gateway::key::build_cache_key;
use translate_gateway::limiter::RateLimiter;
use translate_gateway::outcome::{Failure, TranslationResult};
use translate_gateway::parser::ParseError;
use translate_gateway::provider::{ProviderError, ProviderReply, ProviderRequest};
use translate_gateway::request::{TranslationRequest, ValidationError};
use translate_gateway::session::{Action, Event, Session};

struct Gateway {
    limiter: RateLimiter,
    cache: Cache,
    max_text_length: usize,
    calls: Vec<ProviderRequest>,
}

impl Gateway {
    fn new(quota: usize, capacity: usize, ttl: u64, max_text_length: usize) -> Gateway {
        Gateway {
            limiter: RateLimiter::new(60_000, quota),
            cache: Cache::new(capacity, ttl),
            max_text_length,
            calls: Vec::new(),
        }
    }

    fn run(
        &mut self,
        request: TranslationRequest,
        now: u64,
        provider: &dyn Fn(&ProviderRequest) -> ProviderReply,
    ) -> TranslationResult {
        let mut session = Session::begin(request, self.max_text_length);
        loop {
            let event = match session.pending() {
                Action::CheckRate => Event::Admission(self.limiter.allow(now)),
                Action::Lookup { key } => Event::Lookup(self.cache.get(&key, now)),
                Action::CallProvider(call) => {
                    let reply = provider(&call);
                    self.calls.push(call);
                    Event::Reply(reply)
                }
                Action::Store { key, text } => {
                    self.cache.set(key, text, now);
                    Event::Stored
                }
                Action::Respond(result) => return result,
            };
            assert!(session.accepts(&event));
            session = session.step(event);
        }
    }
}

fn request(text: &str, source: Option<&str>, target: &str) -> TranslationRequest {
    TranslationRequest {
        text: text.to_string(),
        source: source.map(|s| s.to_string()),
        target: target.to_string(),
    }
}

fn upper_case(call: &ProviderRequest) -> ProviderReply {
    let text = call.text.to_uppercase().replace('\\', "\\\\").replace('"', "\\\"").replace('\n', "\\n");
    ProviderReply::Received {
        status: 200,
        body: format!("{{\"choices\":[{{\"message\":{{\"content\":\"{}\"}}}}]}}", text),
    }
}

fn success(text: &str, cached: bool) -> TranslationResult {
    TranslationResult::Success { text: text.to_string(), cached }
}

#[test]
fn empty_text_is_refused_with_status_400() {
    let mut gateway = Gateway::new(30, 10, 1000, 5000);
    let result = gateway.run(request("", None, "zh"), 0, &upper_case);
    assert_eq!(result, TranslationResult::Failure(Failure::Invalid(ValidationError::EmptyText)));
    assert_eq!(result.status_code(), 400);
    assert!(gateway.calls.is_empty());
    assert_eq!(gateway.cache.len(), 0);
}

#[test]
fn text_over_the_limit_is_refused_with_status_400() {
    let mut gateway = Gateway::new(30, 10, 1000, 5);
    let result = gateway.run(request("abcdef", None, "zh"), 0, &upper_case);
    assert_eq!(
        result,
        TranslationResult::Failure(Failure::Invalid(ValidationError::TextTooLong { max: 5 }))
    );
    assert_eq!(result.status_code(), 400);
    assert!(gateway.calls.is_empty());
}

#[test]
fn blank_target_is_refused_with_status_400() {
    let mut gateway = Gateway::new(30, 10, 1000, 5000);
    let result = gateway.run(request("hello", None, "  "), 0, &upper_case);
    assert_eq!(result, TranslationResult::Failure(Failure::Invalid(ValidationError::EmptyTarget)));
    assert_eq!(result.status_code(), 400);
}

#[test]
fn repeated_request_within_the_time_to_live_comes_from_the_cache() {
    let mut gateway = Gateway::new(30, 10, 1000, 5000);
    let first = gateway.run(request("hello", Some("en"), "zh"), 100, &upper_case);
    assert_eq!(first, success("HELLO", false));
    assert_eq!(first.status_code(), 200);
    assert_eq!(gateway.calls.len(), 1);
    let second = gateway.run(request("hello", Some("en"), "zh"), 1100, &upper_case);
    assert_eq!(second, success("HELLO", true));
    assert_eq!(gateway.calls.len(), 1);
    let third = gateway.run(request("hello", Some("en"), "zh"), 1101, &upper_case);
    assert_eq!(third, success("HELLO", false));
    assert_eq!(gateway.calls.len(), 2);
}

#[test]
fn rate_limit_is_checked_before_the_request_is_looked_at() {
    let mut gateway = Gateway::new(1, 10, 1000, 5000);
    assert_eq!(gateway.run(request("", None, ""), 0, &upper_case).status_code(), 400);
    let denied = gateway.run(request("", None, ""), 1, &upper_case);
    assert_eq!(denied, TranslationResult::Failure(Failure::RateLimited));
    assert_eq!(denied.status_code(), 429);
    let also_denied = gateway.run(request("hello", None, "zh"), 2, &upper_case);
    assert_eq!(also_denied, TranslationResult::Failure(Failure::RateLimited));
    assert!(gateway.calls.is_empty());
}

#[test]
fn long_text_is_translated_chunk_by_chunk_and_joined_by_line_breaks() {
    let first = "a".repeat(500);
    let second = "b".repeat(500);
    let third = "c".repeat(900);
    let text = format!("{}\n\n{}\n\n{}", first, second, third);
    let mut gateway = Gateway::new(30, 10, 1000, 5000);
    let result = gateway.run(request(&text, Some("en"), "zh"), 0, &upper_case);
    let expected = format!("{}\n{}\n{}\n{}", "A".repeat(500), "B".repeat(500), "C".repeat(800), "C".repeat(100));
    assert_eq!(result, success(&expected, false));
    let sent: Vec<String> = gateway.calls.iter().map(|call| call.text.clone()).collect();
    assert_eq!(sent, vec![first, second, "c".repeat(800), "c".repeat(100)]);
    for call in &gateway.calls {
        assert_eq!(call.source_language, Some("en".to_string()));
        assert_eq!(call.target_language, "zh");
    }
    assert_eq!(gateway.cache.get(&build_cache_key(&text, Some("en"), "zh"), 1), Some(expected));
}

#[test]
fn two_paragraphs_that_fit_travel_in_one_chunk() {
    let text = format!("{}\n\n{}\n\n{}", "a".repeat(300), "b".repeat(400), "c".repeat(300));
    let mut gateway = Gateway::new(30, 10, 1000, 5000);
    let result = gateway.run(request(&text, None, "zh"), 0, &upper_case);
    let expected = format!("{}\n\n{}\n{}", "A".repeat(300), "B".repeat(400), "C".repeat(300));
    assert_eq!(result, success(&expected, false));
    let sent: Vec<String> = gateway.calls.iter().map(|call| call.text.clone()).collect();
    assert_eq!(sent, vec![format!("{}\n\n{}", "a".repeat(300), "b".repeat(400)), "c".repeat(300)]);
}

#[test]
fn failure_of_a_chunk_ends_the_request_and_stores_nothing() {
    let text = format!("{}\n\n{}\n\n{}", "a".repeat(500), "b".repeat(500), "c".repeat(500));
    let fail_on_b = |call: &ProviderRequest| {
        if call.text.starts_with('b') {
            ProviderReply::Received { status: 502, body: "bad gateway".to_string() }
        } else {
            upper_case(call)
        }
    };
    let mut gateway = Gateway::new(30, 10, 1000, 5000);
    let result = gateway.run(request(&text, None, "zh"), 0, &fail_on_b);
    assert_eq!(
        result,
        TranslationResult::Failure(Failure::Provider(ProviderError::Http {
            status: 502,
            body: "bad gateway".to_string(),
        }))
    );
    assert_eq!(result.status_code(), 500);
    assert_eq!(gateway.calls.len(), 2);
    assert_eq!(gateway.cache.len(), 0);
    let again = gateway.run(request(&text, None, "zh"), 1, &upper_case);
    assert!(matches!(again, TranslationResult::Success { cached: false, .. }));
}

#[test]
fn transport_and_parse_failures_are_reported_with_status_500() {
    let mut gateway = Gateway::new(30, 10, 1000, 5000);
    let down = |_: &ProviderRequest| ProviderReply::SendFailed("connection refused".to_string());
    let result = gateway.run(request("hello", None, "zh"), 0, &down);
    assert_eq!(
        result,
        TranslationResult::Failure(Failure::Provider(ProviderError::Transport(
            "connection refused".to_string()
        )))
    );
    assert_eq!(result.status_code(), 500);
    let odd = |_: &ProviderRequest| ProviderReply::Received {
        status: 200,
        body: "{\"status\":\"completed\",\"output\":[]}".to_string(),
    };
    let result = gateway.run(request("hello", None, "zh"), 0, &odd);
    assert_eq!(
        result,
        TranslationResult::Failure(Failure::Provider(ProviderError::Parse(
            ParseError::MissingOutputText
        )))
    );
    assert_eq!(gateway.cache.len(), 0);
}

#[test]
fn decoder_message_reaches_the_text_of_the_failure() {
    let mut gateway = Gateway::new(30, 10, 1000, 5000);
    let broken = |_: &ProviderRequest| ProviderReply::Received {
        status: 200,
        body: "{\"choices\":".to_string(),
    };
    let message =
        serde_json::from_str::<serde_json::Value>("{\"choices\":").unwrap_err().to_string();
    let result = gateway.run(request("hello", None, "zh"), 0, &broken);
    assert_eq!(
        result,
        TranslationResult::Failure(Failure::Provider(ProviderError::Parse(
            ParseError::InvalidJson(message.clone())
        )))
    );
    match result {
        TranslationResult::Failure(failure) => {
            assert_eq!(failure.message(), format!("翻译失败: 响应解析失败: {}", message));
        }
        other => panic!("unexpected result: {:?}", other),
    }
}

#[test]
fn requests_that_differ_through_a_bar_do_not_share_a_cached_text() {
    let mut gateway = Gateway::new(30, 10, 1000, 5000);
    let first = gateway.run(request("t", Some("a|b"), "c"), 0, &upper_case);
    assert_eq!(first, success("T", false));
    let second = gateway.run(request("t", Some("a"), "b|c"), 1, &upper_case);
    assert_eq!(second, success("T", false));
    assert_eq!(gateway.calls.len(), 2);
}

#[test]
fn empty_source_is_not_sent_and_shares_the_key_of_a_missing_one() {
    let mut gateway = Gateway::new(30, 10, 1000, 5000);
    let first = gateway.run(request("hello", Some(""), "zh"), 0, &upper_case);
    assert_eq!(first, success("HELLO", false));
    assert_eq!(gateway.calls[0].source_language, None);
    let second = gateway.run(request("hello", None, "zh"), 1, &upper_case);
    assert_eq!(second, success("HELLO", true));
}

#[test]
fn text_of_blank_paragraphs_alone_needs_no_call() {
    let text = "\n\n".repeat(401);
    let mut gateway = Gateway::new(30, 10, 1000, 5000);
    let result = gateway.run(request(&text, None, "zh"), 0, &upper_case);
    assert_eq!(result, success("", false));
    assert!(gateway.calls.is_empty());
    assert_eq!(gateway.run(request(&text, None, "zh"), 1, &upper_case), success("", true));
}

#[test]
fn event_that_does_not_answer_the_pending_action_changes_nothing() {
    let session = Session::begin(request("hello", None, "zh"), 5000);
    assert!(!session.accepts(&Event::Stored));
    assert!(!session.is_finished());
    let same = session.clone().step(Event::Stored);
    assert_eq!(same, session);
    let next = same.step(Event::Admission(true));
    assert_eq!(next.pending(), Action::Lookup { key: build_cache_key("hello", None, "zh") });
    let still = next.clone().step(Event::Admission(false));
    assert_eq!(still, next);
    let done = still.step(Event::Lookup(Some("HOLA".to_string())));
    assert!(done.is_finished());
    assert_eq!(done.clone().step(Event::Stored), done);
    assert_eq!(done.pending(), Action::Respond(success("HOLA", true)));
}
