//! The parts of `serde_json` that the summarizer reader calls.
//!
//! A parsed document is known by the text it was parsed from, and a value in
//! it by the object keys that lead to it from the top (`value["k"]` in turn).
//! What `serde_json` answers for a text and a key path depends on those alone;
//! the answers are named below.

use vstd::prelude::*;

verus! {

/// The JSON value type of `serde_json`.
#[verifier::external_type_specification]
#[verifier::external_body]
pub struct ExValue(serde_json::Value);

/// The error type of `serde_json`.
#[verifier::external_type_specification]
#[verifier::external_body]
pub struct ExJsonError(serde_json::Error);

/// Whether `serde_json::from_str::<serde_json::Value>` accepts `text`.
pub uninterp spec fn json_accepts(text: Seq<char>) -> bool;

/// The message (`Display`) of the `serde_json::Error` that
/// `serde_json::from_str::<serde_json::Value>` gives for a text it refuses.
pub uninterp spec fn json_error_text(text: Seq<char>) -> Seq<char>;

/// What `serde_json::Value::as_str` gives for the value that indexing the
/// document parsed from `source` with the keys of `path` in turn reaches
/// (indexing a missing key or a non-object gives `null`).
pub uninterp spec fn json_str_at(source: Seq<char>, path: Seq<Seq<char>>) -> Option<Seq<char>>;

/// A parsed JSON document, with the text it was parsed from.
pub struct JsonDoc {
    value: serde_json::Value,
    source: Ghost<Seq<char>>,
}

impl JsonDoc {
    /// The text this document was parsed from.
    pub closed spec fn source(&self) -> Seq<char> {
        self.source@
    }

    /// `serde_json::from_str::<serde_json::Value>`.
    #[verifier::external_body]
    pub fn parse(text: &str) -> (parsed: Result<JsonDoc, JsonParseFailure>)
        ensures
            parsed is Ok <==> json_accepts(text@),
            parsed matches Ok(doc) ==> doc.source() == text@,
            parsed matches Err(failure) ==> failure.source() == text@,
    {
        match serde_json::from_str::<serde_json::Value>(text) {
            Ok(value) => Ok(JsonDoc { value, source: Ghost(text@) }),
            Err(error) => Err(JsonParseFailure { error, source: Ghost(text@) }),
        }
    }

    /// The top value of the document.
    pub fn root(&self) -> (node: JsonNode<'_>)
        ensures
            node.source() == self.source(),
            node.path() == Seq::<Seq<char>>::empty(),
    {
        JsonNode { value: &self.value, source: self.source, path: Ghost(Seq::empty()) }
    }
}

/// A refusal of `serde_json::from_str`, with the text it refused.
pub struct JsonParseFailure {
    error: serde_json::Error,
    source: Ghost<Seq<char>>,
}

impl JsonParseFailure {
    /// The text that was refused.
    pub closed spec fn source(&self) -> Seq<char> {
        self.source@
    }

    /// The message of the error (`Display` of `serde_json::Error`).
    #[verifier::external_body]
    pub fn message(&self) -> (message: String)
        ensures
            message@ == json_error_text(self.source()),
    {
        self.error.to_string()
    }
}

/// A value inside a parsed JSON document, with the document text and the keys
/// that lead to it.
pub struct JsonNode<'a> {
    value: &'a serde_json::Value,
    source: Ghost<Seq<char>>,
    path: Ghost<Seq<Seq<char>>>,
}

impl<'a> JsonNode<'a> {
    pub closed spec fn source(&self) -> Seq<char> {
        self.source@
    }

    pub closed spec fn path(&self) -> Seq<Seq<char>> {
        self.path@
    }

    /// `value[key]` (`Index<&str>` for `serde_json::Value`).
    #[verifier::external_body]
    pub fn get(&self, key: &str) -> (node: JsonNode<'a>)
        ensures
            node.source() == self.source(),
            node.path() == self.path().push(key@),
    {
        let path = self.path;
        JsonNode { value: &self.value[key], source: self.source, path: Ghost(path@.push(key@)) }
    }

    /// `serde_json::Value::as_str`, copied.
    #[verifier::external_body]
    pub fn as_str(&self) -> (text: Option<String>)
        ensures
            text is Some <==> json_str_at(self.source(), self.path()) is Some,
            text matches Some(t) ==> json_str_at(self.source(), self.path()) == Some(t@),
    {
        self.value.as_str().map(|text| text.to_string())
    }
}

} // verus!
