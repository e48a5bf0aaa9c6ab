//! JSON documents as plain values.
//!
//! `Json` holds a decoded document; `JsonView` is its mathematical model, over
//! which the contracts of the decoder for provider replies are stated. Text is
//! decoded by `serde_json`, behind the trusted items at the end of this file.

use vstd::prelude::*;

verus! {

/// A JSON document.
#[derive(Debug, PartialEq)]
pub enum Json {
    Null,
    Bool(bool),
    /// A number, as the decoder writes it.
    Number(String),
    Text(String),
    Array(Vec<Json>),
    /// An object, by its members in the decoder's order.
    Object(Vec<(String, Json)>),
}

/// The model of a JSON document.
pub enum JsonView {
    Null,
    Bool(bool),
    Number(Seq<char>),
    Text(Seq<char>),
    Array(Seq<JsonView>),
    Object(Seq<(Seq<char>, JsonView)>),
}

/// The value of the first member named `key` among `members`.
pub open spec fn member(members: Seq<(Seq<char>, JsonView)>, key: Seq<char>) -> Option<JsonView>
    decreases members.len(),
{
    if members.len() == 0 {
        None
    } else if members[0].0 == key {
        Some(members[0].1)
    } else {
        member(members.drop_first(), key)
    }
}

impl JsonView {
    /// The member named `key`, where this is an object that has one.
    pub open spec fn get(self, key: Seq<char>) -> Option<JsonView> {
        match self {
            JsonView::Object(members) => member(members, key),
            _ => None,
        }
    }

    /// The text, where this is a string.
    pub open spec fn as_text(self) -> Option<Seq<char>> {
        match self {
            JsonView::Text(t) => Some(t),
            _ => None,
        }
    }

    /// The items, where this is an array.
    pub open spec fn as_array(self) -> Option<Seq<JsonView>> {
        match self {
            JsonView::Array(items) => Some(items),
            _ => None,
        }
    }

    /// The text of the member named `key`, where this is an object whose
    /// member of that name is a string.
    pub open spec fn text_at(self, key: Seq<char>) -> Option<Seq<char>> {
        match self.get(key) {
            Some(v) => v.as_text(),
            None => None,
        }
    }

    /// The items of the member named `key`, where this is an object whose
    /// member of that name is an array.
    pub open spec fn array_at(self, key: Seq<char>) -> Option<Seq<JsonView>> {
        match self.get(key) {
            Some(v) => v.as_array(),
            None => None,
        }
    }
}

/// The model of `doc`.
pub open spec fn model_of(doc: Json) -> JsonView
    decreases doc,
{
    match doc {
        Json::Null => JsonView::Null,
        Json::Bool(b) => JsonView::Bool(b),
        Json::Number(t) => JsonView::Number(t@),
        Json::Text(t) => JsonView::Text(t@),
        Json::Array(items) => JsonView::Array(
            Seq::new(
                items@.len(),
                |i: int|
                    if 0 <= i < items@.len() {
                        model_of(items@[i])
                    } else {
                        JsonView::Null
                    },
            ),
        ),
        Json::Object(members) => JsonView::Object(
            Seq::new(
                members@.len(),
                |i: int|
                    if 0 <= i < members@.len() {
                        (members@[i].0@, model_of(members@[i].1))
                    } else {
                        (Seq::empty(), JsonView::Null)
                    },
            ),
        ),
    }
}

impl View for Json {
    type V = JsonView;

    open spec fn view(&self) -> JsonView {
        model_of(*self)
    }
}

impl Json {
    /// The member named `key`, where this is an object that has one.
    pub fn get(&self, key: &str) -> (found: Option<&Json>)
        ensures
            match found {
                Some(v) => self@.get(key@) == Some(v@),
                None => self@.get(key@) is None,
            },
    {
        match self {
            Json::Object(members) => {
                let ghost all = self@->Object_0;
                let mut i: usize = 0;
                assert(all.skip(0) =~= all);
                while i < members.len()
                    invariant
                        i <= members.len(),
                        self@ == JsonView::Object(all),
                        all.len() == members.len(),
                        forall|j: int|
                            0 <= j < all.len() ==> all[j] == (
                                (#[trigger] members@[j]).0@,
                                members@[j].1@,
                            ),
                        member(all, key@) == member(all.skip(i as int), key@),
                    decreases members.len() - i,
                {
                    let ghost rest = all.skip(i as int);
                    assert(rest[0] == all[i as int]);
                    assert(rest.drop_first() =~= all.skip(i + 1));
                    if *members[i].0.as_str() == *key {
                        return Some(&members[i].1);
                    }
                    i += 1;
                }
                None
            },
            _ => None,
        }
    }

    /// The text, where this is a string.
    pub fn as_text(&self) -> (text: Option<&String>)
        ensures
            match text {
                Some(t) => self@.as_text() == Some(t@),
                None => self@.as_text() is None,
            },
    {
        match self {
            Json::Text(t) => Some(t),
            _ => None,
        }
    }

    /// The items, where this is an array.
    pub fn as_array(&self) -> (items: Option<&Vec<Json>>)
        ensures
            match items {
                Some(v) => self@.as_array() == Some(v.deep_view()),
                None => self@.as_array() is None,
            },
    {
        match self {
            Json::Array(items) => {
                assert(self@->Array_0 =~= items.deep_view());
                Some(items)
            },
            _ => None,
        }
    }

    /// Whether the member named `key` is a string that reads `expected`.
    pub fn text_at_is(&self, key: &str, expected: &str) -> (same: bool)
        ensures
            same == (self@.text_at(key@) == Some(expected@)),
    {
        match self.get(key) {
            Some(v) => match v.as_text() {
                Some(t) => *t.as_str() == *expected,
                None => false,
            },
            None => false,
        }
    }
}

/// Decodes `body` as JSON: the document, or the decoder's message where
/// `body` is not valid JSON.
pub fn decode(body: &str) -> (decoded: Result<Json, String>)
    ensures
        match decoded {
            Ok(doc) => json_document(body@) == Some(doc@),
            Err(message) => json_document(body@) is None && message@ == json_error_text(body@),
        },
{
    match decode_value(body) {
        Ok(value) => Ok(json_of_value(&value)),
        Err(message) => Err(message),
    }
}

impl DeepView for Json {
    type V = JsonView;

    open spec fn deep_view(&self) -> JsonView {
        self@
    }
}

/// The document that a text decodes to; none where the text is not valid
/// JSON. This names what `serde_json::from_str` returns for a text, read as
/// `value_view` reads a value.
pub uninterp spec fn json_document(body: Seq<char>) -> Option<JsonView>;

/// The decoder's message for a text that is not valid JSON. This names what
/// the error that `serde_json::from_str` returns for the text writes of
/// itself.
pub uninterp spec fn json_error_text(body: Seq<char>) -> Seq<char>;

/// The document that a `serde_json::Value` holds: null, a boolean, a number
/// by its text, a string, the items of an array in their order, or the
/// members of an object in the order in which the value walks them.
pub uninterp spec fn value_view(value: serde_json::Value) -> JsonView;

/// `serde_json::Value`, known to the verifier by its name alone.
#[verifier::external_type_specification]
#[verifier::external_body]
pub struct ExValue(serde_json::Value);

/// Calls `serde_json::from_str` for a `serde_json::Value`, and `to_string`
/// on the error where it returns one. Trusted: whether the text decodes, to
/// what, and with which message it fails, depends on the text alone, so the
/// result is what `json_document` and `json_error_text` name for it.
#[verifier::external_body]
pub(crate) fn decode_value(body: &str) -> (decoded: Result<serde_json::Value, String>)
    ensures
        match decoded {
            Ok(value) => json_document(body@) == Some(value_view(value)),
            Err(message) => json_document(body@) is None && message@ == json_error_text(body@),
        },
{
    serde_json::from_str::<serde_json::Value>(body).map_err(|error| error.to_string())
}

/// Copies a `serde_json::Value` into a `Json`, variant by variant, a number
/// by `Number::to_string`. Trusted: the copy holds what `value_view` names
/// for the value.
#[verifier::external_body]
pub(crate) fn json_of_value(value: &serde_json::Value) -> (doc: Json)
    ensures
        doc@ == value_view(*value),
{
    match value {
        serde_json::Value::Null => Json::Null,
        serde_json::Value::Bool(b) => Json::Bool(*b),
        serde_json::Value::Number(n) => Json::Number(n.to_string()),
        serde_json::Value::String(s) => Json::Text(s.clone()),
        serde_json::Value::Array(items) => Json::Array(items.iter().map(json_of_value).collect()),
        serde_json::Value::Object(members) => Json::Object(
            members.iter().map(|(k, v)| (k.clone(), json_of_value(v))).collect(),
        ),
    }
}

} // verus!
