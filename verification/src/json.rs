//! The JSON documents that format detection and decomposition read, held as
//! plain values: the outcome of parsing a text, with each array element and
//! object member rendered back to compact JSON text.
use vstd::prelude::*;

verus! {

/// A member of a JSON object: its key, its value rendered as compact JSON,
/// and the value's text where the value is a JSON string.
pub struct JsonMember {
    pub key: String,
    pub rendered: String,
    pub text: Option<String>,
}

/// The view of a [`JsonMember`].
pub struct JsonMemberView {
    pub key: Seq<char>,
    pub rendered: Seq<char>,
    pub text: Option<Seq<char>>,
}

impl View for JsonMember {
    type V = JsonMemberView;

    open spec fn view(&self) -> JsonMemberView {
        JsonMemberView {
            key: self.key@,
            rendered: self.rendered@,
            text: match self.text {
                Some(t) => Some(t@),
                None => None,
            },
        }
    }
}

/// What parsing a text as one JSON value gives.
pub enum JsonDocument {
    /// Not a JSON value; the parser's message.
    Invalid(String),
    /// A null, boolean, number or string.
    Scalar,
    /// An array; each element rendered as compact JSON.
    Array(Vec<String>),
    /// An object; its members in the order the parsed map yields them.
    Object(Vec<JsonMember>),
}

/// The view of a [`JsonDocument`].
pub enum JsonDocumentView {
    Invalid(Seq<char>),
    Scalar,
    Array(Seq<Seq<char>>),
    Object(Seq<JsonMemberView>),
}

impl View for JsonDocument {
    type V = JsonDocumentView;

    open spec fn view(&self) -> JsonDocumentView {
        match self {
            JsonDocument::Invalid(e) => JsonDocumentView::Invalid(e@),
            JsonDocument::Scalar => JsonDocumentView::Scalar,
            JsonDocument::Array(items) => JsonDocumentView::Array(
                items@.map_values(|s: String| s@),
            ),
            JsonDocument::Object(members) => JsonDocumentView::Object(
                members@.map_values(|m: JsonMember| m@),
            ),
        }
    }
}

/// What `serde_json` makes of a text: the parse outcome of `text`, with the
/// elements or member values rendered by `serde_json`'s compact `Display`.
pub uninterp spec fn json_document(text: Seq<char>) -> JsonDocumentView;

/// Parses `text` with `serde_json::from_str::<serde_json::Value>` and renders
/// each array element or member value with `serde_json::Value`'s compact
/// `Display` (`to_string`). The contract claims only that the outcome is a
/// function of the text (named [`json_document`]); what that function is
/// stands in `serde_json` and is not stated here.
#[verifier::external_body]
pub(crate) fn parse_json(text: &str) -> (doc: JsonDocument)
    ensures
        doc@ == json_document(text@),
{
    match serde_json::from_str::<serde_json::Value>(text) {
        Err(e) => JsonDocument::Invalid(e.to_string()),
        Ok(serde_json::Value::Array(items)) => JsonDocument::Array(items.iter().map(|v| v.to_string()).collect()),
        Ok(serde_json::Value::Object(map)) => JsonDocument::Object(map.iter().map(|(k, v)| JsonMember {
            key: k.clone(), rendered: v.to_string(), text: v.as_str().map(|s| s.to_string()) }).collect()),
        Ok(_) => JsonDocument::Scalar,
    }
}

/// The text of the first member of an object document whose key is `key`
/// and whose value is a JSON string (`Value::get(key)` then `as_str`).
pub open spec fn member_text(doc: JsonDocumentView, key: Seq<char>) -> Option<Seq<char>> {
    match doc {
        JsonDocumentView::Object(members) => first_member_text(members, key),
        _ => None,
    }
}

/// The text of the first member in `members` keyed `key`, if it is a string.
pub open spec fn first_member_text(members: Seq<JsonMemberView>, key: Seq<char>) -> Option<
    Seq<char>,
>
    decreases members.len(),
{
    if members.len() == 0 {
        None
    } else if members[0].key == key {
        members[0].text
    } else {
        first_member_text(members.drop_first(), key)
    }
}

} // verus!
