//! Translation requests and the rules that they must meet.

use vstd::prelude::*;

verus! {

/// A request to translate `text` into the `target` language, from the
/// `source` language where one is given.
#[derive(Debug, Clone, PartialEq, Eq)]
pub struct TranslationRequest {
    pub text: String,
    pub source: Option<String>,
    pub target: String,
}

/// The model of a request.
pub struct RequestView {
    pub text: Seq<char>,
    pub source: Option<Seq<char>>,
    pub target: Seq<char>,
}

/// The text of an optional string.
pub open spec fn opt_text(value: Option<String>) -> Option<Seq<char>> {
    match value {
        Some(text) => Some(text@),
        None => None,
    }
}

impl View for TranslationRequest {
    type V = RequestView;

    open spec fn view(&self) -> RequestView {
        RequestView { text: self.text@, source: opt_text(self.source), target: self.target@ }
    }
}

/// Why a request is refused before any work is done for it.
#[derive(Clone, Copy, Debug, PartialEq, Eq, Structural)]
pub enum ValidationError {
    /// The text is empty.
    EmptyText,
    /// The text has more than `max` characters.
    TextTooLong { max: usize },
    /// The target language is empty or all white space.
    EmptyTarget,
}

/// Whether `c` is white space: a character with the Unicode property
/// White_Space.
pub open spec fn is_white_space(c: char) -> bool {
    let code = c as u32;
    ||| 0x09 <= code <= 0x0D
    ||| code == 0x20
    ||| code == 0x85
    ||| code == 0xA0
    ||| code == 0x1680
    ||| 0x2000 <= code <= 0x200A
    ||| code == 0x2028
    ||| code == 0x2029
    ||| code == 0x202F
    ||| code == 0x205F
    ||| code == 0x3000
}

/// Whether `text` is empty or all white space.
pub open spec fn is_blank(text: Seq<char>) -> bool {
    forall|i: int| 0 <= i < text.len() ==> is_white_space(#[trigger] text[i])
}

/// The source language that counts: none where it is given as empty.
pub open spec fn effective_source(source: Option<Seq<char>>) -> Option<Seq<char>> {
    match source {
        Some(language) => if language.len() == 0 {
            None
        } else {
            Some(language)
        },
        None => None,
    }
}

/// The first rule that a request breaks, if any. The rules are, in order:
/// the text is not empty; it has at most `max_text_length` characters; the
/// target language is not blank.
pub open spec fn violation(request: RequestView, max_text_length: usize) -> Option<
    ValidationError,
> {
    if request.text.len() == 0 {
        Some(ValidationError::EmptyText)
    } else if request.text.len() > max_text_length {
        Some(ValidationError::TextTooLong { max: max_text_length })
    } else if is_blank(request.target) {
        Some(ValidationError::EmptyTarget)
    } else {
        None
    }
}

/// Whether `c` is white space.
pub fn char_is_white_space(c: char) -> (white: bool)
    ensures
        white == is_white_space(c),
{
    let code: u32 = c as u32;
    (0x09 <= code && code <= 0x0D) || code == 0x20 || code == 0x85 || code == 0xA0 || code
        == 0x1680 || (0x2000 <= code && code <= 0x200A) || code == 0x2028 || code == 0x2029 || code
        == 0x202F || code == 0x205F || code == 0x3000
}

/// Whether `text` is empty or all white space.
pub fn text_is_blank(text: &str) -> (blank: bool)
    ensures
        blank == is_blank(text@),
{
    let chars = text.chars();
    for c in it: chars
        invariant
            it.seq() == text@,
            forall|i: int| 0 <= i < it.index() ==> is_white_space(#[trigger] text@[i]),
    {
        if !char_is_white_space(c) {
            assert(!is_white_space(text@[it.index()]));
            return false;
        }
    }
    true
}

/// Checks `request` against the rules, in their order.
pub fn validate(request: &TranslationRequest, max_text_length: usize) -> (checked: Result<
    (),
    ValidationError,
>)
    ensures
        match violation(request@, max_text_length) {
            Some(error) => checked == Err::<(), ValidationError>(error),
            None => checked is Ok,
        },
{
    let len = request.text.as_str().unicode_len();
    if len == 0 {
        Err(ValidationError::EmptyText)
    } else if len > max_text_length {
        Err(ValidationError::TextTooLong { max: max_text_length })
    } else if text_is_blank(request.target.as_str()) {
        Err(ValidationError::EmptyTarget)
    } else {
        Ok(())
    }
}

} // verus!
