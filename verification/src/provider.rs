//! What is sent to the translation provider for one chunk, and what its
//! reply amounts to.

use vstd::prelude::*;
use vstd::string::StringExecFns;
use crate::json::{json_document, json_error_text};
use crate::parser::{parse_doubao_response, parsed, ParseError, ParseFailure};
use crate::text::{append_decimal, decimal};

verus! {

/// The request for one chunk, as plain values.
#[derive(Debug, Clone, PartialEq, Eq)]
pub struct ProviderRequest {
    pub model: String,
    pub role: String,
    pub content_type: String,
    pub text: String,
    pub source_language: Option<String>,
    pub target_language: String,
}

/// The model of a `ProviderRequest`.
pub struct ProviderRequestView {
    pub model: Seq<char>,
    pub role: Seq<char>,
    pub content_type: Seq<char>,
    pub text: Seq<char>,
    pub source_language: Option<Seq<char>>,
    pub target_language: Seq<char>,
}

/// The text of an optional string.
pub open spec fn opt_view(value: Option<String>) -> Option<Seq<char>> {
    match value {
        Some(text) => Some(text@),
        None => None,
    }
}

/// The text of an optional string slice.
pub open spec fn opt_str_view(value: Option<&str>) -> Option<Seq<char>> {
    match value {
        Some(text) => Some(text@),
        None => None,
    }
}

impl View for ProviderRequest {
    type V = ProviderRequestView;

    open spec fn view(&self) -> ProviderRequestView {
        ProviderRequestView {
            model: self.model@,
            role: self.role@,
            content_type: self.content_type@,
            text: self.text@,
            source_language: opt_view(self.source_language),
            target_language: self.target_language@,
        }
    }
}

/// The request for `chunk`: one text from the user for the translation
/// model, with the languages of the request.
pub open spec fn request_for(chunk: Seq<char>, source: Option<Seq<char>>, target: Seq<char>)
    -> ProviderRequestView {
    ProviderRequestView {
        model: "doubao-seed-translation-250915"@,
        role: "user"@,
        content_type: "input_text"@,
        text: chunk,
        source_language: source,
        target_language: target,
    }
}

/// Builds the request for `chunk`.
pub fn provider_request(chunk: &str, source: Option<&str>, target: &str) -> (request:
    ProviderRequest)
    ensures
        request@ == request_for(chunk@, opt_str_view(source), target@),
{
    ProviderRequest {
        model: String::from_str("doubao-seed-translation-250915"),
        role: String::from_str("user"),
        content_type: String::from_str("input_text"),
        text: String::from_str(chunk),
        source_language: match source {
            Some(language) => Some(String::from_str(language)),
            None => None,
        },
        target_language: String::from_str(target),
    }
}

/// How a call of the provider ended.
#[derive(Debug, Clone, PartialEq, Eq)]
pub enum ProviderReply {
    /// The request could not be sent, or no reply came; with the cause.
    SendFailed(String),
    /// The body of the reply could not be read; with the cause.
    ReadFailed(String),
    /// A reply came, with this HTTP status and body.
    Received { status: u16, body: String },
}

/// The model of a `ProviderReply`.
pub enum ReplyView {
    SendFailed(Seq<char>),
    ReadFailed(Seq<char>),
    Received { status: u16, body: Seq<char> },
}

impl View for ProviderReply {
    type V = ReplyView;

    open spec fn view(&self) -> ReplyView {
        match self {
            ProviderReply::SendFailed(cause) => ReplyView::SendFailed(cause@),
            ProviderReply::ReadFailed(cause) => ReplyView::ReadFailed(cause@),
            ProviderReply::Received { status, body } => ReplyView::Received {
                status: *status,
                body: body@,
            },
        }
    }
}

/// Why a chunk could not be translated.
#[derive(Debug, Clone, PartialEq, Eq)]
pub enum ProviderError {
    /// The request could not be sent, or no reply came.
    Transport(String),
    /// The body of the reply could not be read.
    Body(String),
    /// The provider answered with a status that is no success.
    Http { status: u16, body: String },
    /// The reply could not be decoded.
    Parse(ParseError),
}

/// The model of a `ProviderError`.
pub enum ProviderFailure {
    Transport(Seq<char>),
    Body(Seq<char>),
    Http { status: u16, body: Seq<char> },
    Parse(ParseFailure),
}

impl View for ProviderError {
    type V = ProviderFailure;

    open spec fn view(&self) -> ProviderFailure {
        match self {
            ProviderError::Transport(cause) => ProviderFailure::Transport(cause@),
            ProviderError::Body(cause) => ProviderFailure::Body(cause@),
            ProviderError::Http { status, body } => ProviderFailure::Http {
                status: *status,
                body: body@,
            },
            ProviderError::Parse(error) => ProviderFailure::Parse(error@),
        }
    }
}

impl ProviderFailure {
    /// The description of the error, with its cause.
    pub open spec fn message_text(self) -> Seq<char> {
        match self {
            ProviderFailure::Transport(cause) => "HTTP请求失败: "@ + cause,
            ProviderFailure::Body(cause) => "读取响应失败: "@ + cause,
            ProviderFailure::Http { status, body } => "API错误 "@ + decimal(status as nat) + ": "@
                + body,
            ProviderFailure::Parse(failure) => "响应解析失败: "@ + failure.message_text(),
        }
    }
}

impl ProviderError {
    /// A description of the error, with its cause.
    pub fn message(&self) -> (text: String)
        ensures
            text@ == self@.message_text(),
    {
        match self {
            ProviderError::Transport(cause) => {
                let mut text = String::from_str("HTTP请求失败: ");
                text.append(cause.as_str());
                text
            },
            ProviderError::Body(cause) => {
                let mut text = String::from_str("读取响应失败: ");
                text.append(cause.as_str());
                text
            },
            ProviderError::Http { status, body } => {
                let mut text = String::from_str("API错误 ");
                append_decimal(&mut text, *status as u64);
                text.append(": ");
                text.append(body.as_str());
                text
            },
            ProviderError::Parse(error) => {
                let mut text = String::from_str("响应解析失败: ");
                let cause = error.message();
                text.append(cause.as_str());
                text
            },
        }
    }
}

/// Whether `status` is an HTTP status of success.
pub open spec fn is_success(status: u16) -> bool {
    200 <= status < 300
}

/// What a reply amounts to: the translated text, where a reply came with a
/// status of success and a body that decodes to one; else the failure.
pub open spec fn reply_result(reply: ReplyView) -> Result<Seq<char>, ProviderFailure> {
    match reply {
        ReplyView::SendFailed(cause) => Err(ProviderFailure::Transport(cause)),
        ReplyView::ReadFailed(cause) => Err(ProviderFailure::Body(cause)),
        ReplyView::Received { status, body } => if !is_success(status) {
            Err(ProviderFailure::Http { status, body })
        } else {
            match parsed(body) {
                Ok(text) => Ok(text),
                Err(failure) => Err(ProviderFailure::Parse(failure)),
            }
        },
    }
}

/// Whether `result` is what `expected` describes.
pub open spec fn is_reply_result(
    result: Result<String, ProviderError>,
    expected: Result<Seq<char>, ProviderFailure>,
) -> bool {
    match expected {
        Ok(text) => result is Ok && result->Ok_0@ == text,
        Err(failure) => result is Err && result->Err_0@ == failure,
    }
}

/// A reply with a status of success and a body that is not valid JSON is a
/// failure that holds the decoder's message for that body, and so does its
/// description.
pub proof fn lemma_decoder_message_is_kept(status: u16, body: Seq<char>)
    requires
        is_success(status),
        json_document(body) is None,
    ensures
        reply_result(ReplyView::Received { status, body }) == Err::<Seq<char>, ProviderFailure>(
            ProviderFailure::Parse(ParseFailure::InvalidJson(json_error_text(body))),
        ),
        ProviderFailure::Parse(ParseFailure::InvalidJson(json_error_text(body))).message_text()
            == "响应解析失败: "@ + json_error_text(body),
{
}

/// Turns the end of a call into the translated text or the failure.
pub fn interpret_reply(reply: ProviderReply) -> (result: Result<String, ProviderError>)
    ensures
        is_reply_result(result, reply_result(reply@)),
{
    match reply {
        ProviderReply::SendFailed(cause) => Err(ProviderError::Transport(cause)),
        ProviderReply::ReadFailed(cause) => Err(ProviderError::Body(cause)),
        ProviderReply::Received { status, body } => {
            if status < 200 || status >= 300 {
                Err(ProviderError::Http { status, body })
            } else {
                match parse_doubao_response(body.as_str()) {
                    Ok(text) => Ok(text),
                    Err(error) => Err(ProviderError::Parse(error)),
                }
            }
        },
    }
}

} // verus!
