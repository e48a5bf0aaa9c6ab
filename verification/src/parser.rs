//! Decoding the provider's replies.
//!
//! A reply is a JSON document in one of two shapes. The first carries a
//! status and a list of output items, the second a list of choices. The
//! translated text is read from whichever shape the document announces.

use vstd::prelude::*;
use vstd::string::StringExecFns;
use crate::json::{decode, json_document, json_error_text, Json, JsonView};

verus! {

/// Why a reply could not be decoded.
#[derive(Debug, Clone, PartialEq, Eq)]
pub enum ParseError {
    /// The reply is not valid JSON; the decoder's message is kept.
    InvalidJson(String),
    /// The reply announces the first shape but holds no output text.
    MissingOutputText,
    /// The reply has neither shape.
    UnknownFormat,
}

/// The model of a `ParseError`.
pub enum ParseFailure {
    InvalidJson(Seq<char>),
    MissingOutputText,
    UnknownFormat,
}

impl View for ParseError {
    type V = ParseFailure;

    open spec fn view(&self) -> ParseFailure {
        match self {
            ParseError::InvalidJson(message) => ParseFailure::InvalidJson(message@),
            ParseError::MissingOutputText => ParseFailure::MissingOutputText,
            ParseError::UnknownFormat => ParseFailure::UnknownFormat,
        }
    }
}

impl ParseFailure {
    /// The description of the error: the decoder's message, or what is
    /// wrong with the shape of the reply.
    pub open spec fn message_text(self) -> Seq<char> {
        match self {
            ParseFailure::InvalidJson(message) => message,
            ParseFailure::MissingOutputText => "new format missing output_text"@,
            ParseFailure::UnknownFormat => "unknown response format"@,
        }
    }
}

impl ParseError {
    /// A description of the error.
    pub fn message(&self) -> (text: String)
        ensures
            text@ == self@.message_text(),
    {
        match self {
            ParseError::InvalidJson(message) => message.clone(),
            ParseError::MissingOutputText => String::from_str("new format missing output_text"),
            ParseError::UnknownFormat => String::from_str("unknown response format"),
        }
    }
}

/// The text of `part`, where `part` is an output text with a string in it.
pub open spec fn part_text(part: JsonView) -> Option<Seq<char>> {
    if part.text_at("type"@) == Some("output_text"@) {
        part.text_at("text"@)
    } else {
        None
    }
}

/// The text of the first of `parts` that has one.
pub open spec fn first_part_text(parts: Seq<JsonView>) -> Option<Seq<char>>
    decreases parts.len(),
{
    if parts.len() == 0 {
        None
    } else {
        match part_text(parts[0]) {
            Some(text) => Some(text),
            None => first_part_text(parts.drop_first()),
        }
    }
}

/// Whether `item` is a message written by the assistant.
pub open spec fn is_assistant_message(item: JsonView) -> bool {
    item.text_at("type"@) == Some("message"@) && item.text_at("role"@) == Some("assistant"@)
}

/// The first output text in the content of `item`, where `item` is a message
/// written by the assistant.
pub open spec fn item_text(item: JsonView) -> Option<Seq<char>> {
    if is_assistant_message(item) {
        match item.array_at("content"@) {
            Some(parts) => first_part_text(parts),
            None => None,
        }
    } else {
        None
    }
}

/// The text of the first of `items` that has one.
pub open spec fn first_item_text(items: Seq<JsonView>) -> Option<Seq<char>>
    decreases items.len(),
{
    if items.len() == 0 {
        None
    } else {
        match item_text(items[0]) {
            Some(text) => Some(text),
            None => first_item_text(items.drop_first()),
        }
    }
}

/// Whether `doc` announces the first shape: its status reads "completed".
pub open spec fn is_completed(doc: JsonView) -> bool {
    doc.text_at("status"@) == Some("completed"@)
}

/// The output text of a document of the first shape: going through the
/// assistant's messages among the output items in order, the first output
/// text found in their content.
pub open spec fn output_text(doc: JsonView) -> Option<Seq<char>> {
    match doc.array_at("output"@) {
        Some(items) => first_item_text(items),
        None => None,
    }
}

/// The text of a document of the second shape: the content of the message of
/// the first choice.
pub open spec fn choice_text(doc: JsonView) -> Option<Seq<char>> {
    match doc.array_at("choices"@) {
        Some(choices) => if choices.len() > 0 {
            match choices[0].get("message"@) {
                Some(message) => message.text_at("content"@),
                None => None,
            }
        } else {
            None
        },
        None => None,
    }
}

/// What a decoded reply yields. A document whose status reads "completed" is
/// of the first shape and must hold an output text; it is never read as the
/// second shape. Any other document is read as the second shape.
pub open spec fn translation_of(doc: JsonView) -> Result<Seq<char>, ParseFailure> {
    if is_completed(doc) {
        match output_text(doc) {
            Some(text) => Ok(text),
            None => Err(ParseFailure::MissingOutputText),
        }
    } else {
        match choice_text(doc) {
            Some(text) => Ok(text),
            None => Err(ParseFailure::UnknownFormat),
        }
    }
}

/// What the text of a reply yields: `InvalidJson` with the decoder's
/// message where it is not valid JSON, and else what the document that it
/// decodes to yields.
pub open spec fn parsed(body: Seq<char>) -> Result<Seq<char>, ParseFailure> {
    match json_document(body) {
        Some(doc) => translation_of(doc),
        None => Err(ParseFailure::InvalidJson(json_error_text(body))),
    }
}

/// Whether `found` is the text that `expected` describes.
pub open spec fn is_text(found: Option<&String>, expected: Option<Seq<char>>) -> bool {
    match found {
        Some(text) => expected == Some(text@),
        None => expected is None,
    }
}

fn find_part_text(parts: &Vec<Json>) -> (found: Option<&String>)
    ensures
        is_text(found, first_part_text(parts.deep_view())),
{
    let ghost all = parts.deep_view();
    let mut i: usize = 0;
    assert(all.skip(0) =~= all);
    while i < parts.len()
        invariant
            i <= parts.len(),
            all == parts.deep_view(),
            first_part_text(all) == first_part_text(all.skip(i as int)),
        decreases parts.len() - i,
    {
        let part = &parts[i];
        assert(all.skip(i as int)[0] == part@);
        assert(all.skip(i as int).drop_first() =~= all.skip(i + 1));
        if part.text_at_is("type", "output_text") {
            match part.get("text") {
                Some(value) => match value.as_text() {
                    Some(text) => {
                        return Some(text);
                    },
                    None => {},
                },
                None => {},
            }
        }
        i += 1;
    }
    None
}

fn find_item_text(item: &Json) -> (found: Option<&String>)
    ensures
        is_text(found, item_text(item@)),
{
    if item.text_at_is("type", "message") && item.text_at_is("role", "assistant") {
        match item.get("content") {
            Some(content) => match content.as_array() {
                Some(parts) => find_part_text(parts),
                None => None,
            },
            None => None,
        }
    } else {
        None
    }
}

fn find_output_text(doc: &Json) -> (found: Option<&String>)
    ensures
        is_text(found, output_text(doc@)),
{
    match doc.get("output") {
        Some(output) => match output.as_array() {
            Some(items) => {
                let ghost all = items.deep_view();
                let mut i: usize = 0;
                assert(all.skip(0) =~= all);
                while i < items.len()
                    invariant
                        i <= items.len(),
                        all == items.deep_view(),
                        output_text(doc@) == first_item_text(all),
                        first_item_text(all) == first_item_text(all.skip(i as int)),
                    decreases items.len() - i,
                {
                    assert(all.skip(i as int)[0] == items[i as int]@);
                    assert(all.skip(i as int).drop_first() =~= all.skip(i + 1));
                    match find_item_text(&items[i]) {
                        Some(text) => {
                            return Some(text);
                        },
                        None => {},
                    }
                    i += 1;
                }
                None
            },
            None => None,
        },
        None => None,
    }
}

fn find_choice_text(doc: &Json) -> (found: Option<&String>)
    ensures
        is_text(found, choice_text(doc@)),
{
    match doc.get("choices") {
        Some(choices) => match choices.as_array() {
            Some(list) => if list.len() > 0 {
                assert(list.deep_view()[0] == list[0]@);
                match list[0].get("message") {
                    Some(message) => match message.get("content") {
                        Some(content) => content.as_text(),
                        None => None,
                    },
                    None => None,
                }
            } else {
                None
            },
            None => None,
        },
        None => None,
    }
}

/// Whether `result` is what `expected` describes: the same text, or the
/// same error.
pub open spec fn is_translation(
    result: Result<String, ParseError>,
    expected: Result<Seq<char>, ParseFailure>,
) -> bool {
    match expected {
        Ok(text) => result is Ok && result->Ok_0@ == text,
        Err(failure) => result is Err && result->Err_0@ == failure,
    }
}

/// Reads the translated text out of a decoded reply.
pub fn extract_translation(doc: &Json) -> (result: Result<String, ParseError>)
    ensures
        is_translation(result, translation_of(doc@)),
{
    if doc.text_at_is("status", "completed") {
        match find_output_text(doc) {
            Some(text) => Ok(text.clone()),
            None => Err(ParseError::MissingOutputText),
        }
    } else {
        match find_choice_text(doc) {
            Some(text) => Ok(text.clone()),
            None => Err(ParseError::UnknownFormat),
        }
    }
}

/// Decodes a reply of the provider and reads the translated text out of it.
///
/// A reply that is not valid JSON gives `InvalidJson` with the decoder's
/// message; for a valid one the result is that of `extract_translation` on
/// the decoded document.
pub fn parse_doubao_response(body: &str) -> (result: Result<String, ParseError>)
    ensures
        is_translation(result, parsed(body@)),
{
    match decode(body) {
        Ok(doc) => extract_translation(&doc),
        Err(message) => Err(ParseError::InvalidJson(message)),
    }
}

} // verus!
