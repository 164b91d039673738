//! JSON as far as this crate reads and writes it: the members of one parsed
//! object, and the rendering of the signature map. Parsing and rendering
//! themselves are serde_json's.

use crate::aggregate::pairs_of;
use crate::text::chars_view;
use crate::work::SignatureEntry;
use vstd::prelude::*;

verus! {

/// The value of one member of a parsed JSON object, as far as the extraction
/// reads it.
#[derive(Debug, Clone, PartialEq, Eq)]
pub enum JsonValue {
    /// JSON `null`.
    Null,
    /// A JSON string, unescaped.
    Text(String),
    /// A boolean, a number, an array or an object.
    Other,
}

/// The mathematical value of a `JsonValue`.
pub enum JsonValueView {
    Null,
    Text(Seq<char>),
    Other,
}

impl View for JsonValue {
    type V = JsonValueView;

    open spec fn view(&self) -> JsonValueView {
        match self {
            JsonValue::Null => JsonValueView::Null,
            JsonValue::Text(s) => JsonValueView::Text(s@),
            JsonValue::Other => JsonValueView::Other,
        }
    }
}

/// One member of a parsed JSON object.
#[derive(Debug, Clone, PartialEq, Eq)]
pub struct Member {
    pub key: String,
    pub value: JsonValue,
}

impl View for Member {
    type V = (Seq<char>, JsonValueView);

    open spec fn view(&self) -> (Seq<char>, JsonValueView) {
        (self.key@, self.value@)
    }
}

/// The views of `members`, in order.
pub open spec fn members_view(members: Seq<Member>) -> Seq<(Seq<char>, JsonValueView)> {
    Seq::new(members.len(), |i: int| members[i]@)
}

/// What serde_json reads `text` as: the members of the object that `text`
/// is, or nothing where `text` is not one JSON object.
pub uninterp spec fn json_object(text: Seq<char>) -> Option<Seq<(Seq<char>, JsonValueView)>>;

/// `serde_json::from_str` at `serde_json::Value`: where it accepts `text` and
/// the value is an object, the object's members, each with its key and with
/// its value as a `JsonValue`; nothing where it rejects `text` or the value is
/// of another kind. The contract names the outcome `json_object` and says no
/// more of it.
#[verifier::external_body]
pub(crate) fn parse_object(text: &str) -> (r: Option<Vec<Member>>)
    ensures
        match r {
            Some(members) => json_object(text@) == Some(members_view(members@)),
            None => json_object(text@) is None,
        },
{
    match serde_json::from_str::<serde_json::Value>(text) {
        Ok(serde_json::Value::Object(map)) => Some(
            map.into_iter().map(|(key, value)| Member { key, value: match value {
                serde_json::Value::Null => JsonValue::Null,
                serde_json::Value::String(s) => JsonValue::Text(s),
                serde_json::Value::Bool(_) | serde_json::Value::Number(_) => JsonValue::Other,
                serde_json::Value::Array(_) | serde_json::Value::Object(_) => JsonValue::Other,
            } }).collect(),
        ),
        _ => None,
    }
}

/// What serde_json writes for an object whose members are `entries`, in
/// their order, each a string under its key: the text that its pretty
/// printer gives with one tab for each level of indentation, or nothing
/// where it reports a failure.
pub uninterp spec fn json_pretty(entries: Seq<(Seq<char>, Seq<char>)>) -> Option<Seq<char>>;

/// `serde::Serializer::collect_map` on a `serde_json::Serializer` that
/// writes into memory through a `PrettyFormatter` with a tab as its
/// indentation: the entries are serialized in the order given, as the
/// members of one object. The contract names the text `json_pretty` and
/// says no more of it.
#[verifier::external_body]
pub(crate) fn render_object(entries: &Vec<SignatureEntry>) -> (r: Option<String>)
    ensures
        chars_view(r) == json_pretty(pairs_of(entries@)),
{
    let mut out = Vec::new();
    let formatter = serde_json::ser::PrettyFormatter::with_indent(b"\t");
    let mut ser = serde_json::Serializer::with_formatter(&mut out, formatter);
    serde::Serializer::collect_map(&mut ser, entries.iter().map(|e| (&e.name, &e.digest))).ok()?;
    String::from_utf8(out).ok()
}

} // verus!
