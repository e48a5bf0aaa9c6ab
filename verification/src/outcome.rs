//! The result of a request, and how it is reported.

use vstd::prelude::*;
use vstd::string::StringExecFns;
use crate::provider::{ProviderError, ProviderFailure};
use crate::request::ValidationError;
use crate::text::{append_decimal, decimal};

verus! {

/// Why a request failed.
#[derive(Debug, Clone, PartialEq, Eq)]
pub enum Failure {
    /// The rate limiter denied the request.
    RateLimited,
    /// The request breaks a rule.
    Invalid(ValidationError),
    /// A chunk could not be translated.
    Provider(ProviderError),
}

/// The model of a `Failure`.
pub enum FailureView {
    RateLimited,
    Invalid(ValidationError),
    Provider(ProviderFailure),
}

impl View for Failure {
    type V = FailureView;

    open spec fn view(&self) -> FailureView {
        match self {
            Failure::RateLimited => FailureView::RateLimited,
            Failure::Invalid(error) => FailureView::Invalid(*error),
            Failure::Provider(error) => FailureView::Provider(error@),
        }
    }
}

/// The text that `validation_message` returns.
pub open spec fn validation_text(error: ValidationError) -> Seq<char> {
    match error {
        ValidationError::EmptyText => "文本不能为空"@,
        ValidationError::TextTooLong { max } => "文本长度超过限制（最大"@ + decimal(max as nat)
            + "字符）"@,
        ValidationError::EmptyTarget => "目标语言不能为空"@,
    }
}

/// The message for a request that breaks a rule.
pub fn validation_message(error: ValidationError) -> (text: String)
    ensures
        text@ == validation_text(error),
{
    match error {
        ValidationError::EmptyText => String::from_str("文本不能为空"),
        ValidationError::TextTooLong { max } => {
            let mut text = String::from_str("文本长度超过限制（最大");
            append_decimal(&mut text, max as u64);
            text.append("字符）");
            text
        },
        ValidationError::EmptyTarget => String::from_str("目标语言不能为空"),
    }
}

impl FailureView {
    /// The message for the one who made the request.
    pub open spec fn message_text(self) -> Seq<char> {
        match self {
            FailureView::RateLimited => "请求过于频繁，请稍后再试"@,
            FailureView::Invalid(error) => validation_text(error),
            FailureView::Provider(failure) => "翻译失败: "@ + failure.message_text(),
        }
    }
}

impl Failure {
    /// The message for the one who made the request.
    pub fn message(&self) -> (text: String)
        ensures
            text@ == self@.message_text(),
    {
        match self {
            Failure::RateLimited => String::from_str("请求过于频繁，请稍后再试"),
            Failure::Invalid(error) => validation_message(*error),
            Failure::Provider(error) => {
                let mut text = String::from_str("翻译失败: ");
                let cause = error.message();
                text.append(cause.as_str());
                text
            },
        }
    }
}

/// The result of a request: the translated text, with whether it came from
/// the cache, or the failure.
#[derive(Debug, Clone, PartialEq, Eq)]
pub enum TranslationResult {
    Success { text: String, cached: bool },
    Failure(Failure),
}

/// The model of a `TranslationResult`.
pub enum ResultView {
    Success { text: Seq<char>, cached: bool },
    Failure(FailureView),
}

impl View for TranslationResult {
    type V = ResultView;

    open spec fn view(&self) -> ResultView {
        match self {
            TranslationResult::Success { text, cached } => ResultView::Success {
                text: text@,
                cached: *cached,
            },
            TranslationResult::Failure(failure) => ResultView::Failure(failure@),
        }
    }
}

/// The HTTP status that reports a result: 200 for a success, 429 for a
/// request that the rate limiter denied, 400 for one that breaks a rule, 500
/// where the provider failed.
pub open spec fn status_of(result: ResultView) -> u16 {
    match result {
        ResultView::Success { .. } => 200,
        ResultView::Failure(FailureView::RateLimited) => 429,
        ResultView::Failure(FailureView::Invalid(_)) => 400,
        ResultView::Failure(FailureView::Provider(_)) => 500,
    }
}

impl TranslationResult {
    /// The HTTP status that reports this result.
    pub fn status_code(&self) -> (status: u16)
        ensures
            status == status_of(self@),
    {
        match self {
            TranslationResult::Success { .. } => 200,
            TranslationResult::Failure(Failure::RateLimited) => 429,
            TranslationResult::Failure(Failure::Invalid(_)) => 400,
            TranslationResult::Failure(Failure::Provider(_)) => 500,
        }
    }

    /// A copy of this result.
    pub fn duplicate(&self) -> (copy: TranslationResult)
        ensures
            copy == *self,
    {
        match self {
            TranslationResult::Success { text, cached } => TranslationResult::Success {
                text: text.clone(),
                cached: *cached,
            },
            TranslationResult::Failure(Failure::RateLimited) => TranslationResult::Failure(
                Failure::RateLimited,
            ),
            TranslationResult::Failure(Failure::Invalid(error)) => TranslationResult::Failure(
                Failure::Invalid(*error),
            ),
            TranslationResult::Failure(Failure::Provider(error)) => TranslationResult::Failure(
                Failure::Provider(
                    match error {
                        ProviderError::Transport(cause) => ProviderError::Transport(cause.clone()),
                        ProviderError::Body(cause) => ProviderError::Body(cause.clone()),
                        ProviderError::Http { status, body } => ProviderError::Http {
                            status: *status,
                            body: body.clone(),
                        },
                        ProviderError::Parse(parse) => ProviderError::Parse(
                            match parse {
                                crate::parser::ParseError::InvalidJson(message) =>
                                    crate::parser::ParseError::InvalidJson(message.clone()),
                                crate::parser::ParseError::MissingOutputText =>
                                    crate::parser::ParseError::MissingOutputText,
                                crate::parser::ParseError::UnknownFormat =>
                                    crate::parser::ParseError::UnknownFormat,
                            },
                        ),
                    },
                ),
            ),
        }
    }
}

} // verus!
