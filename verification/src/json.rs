//! JSON documents: the members that the library reads and the objects that it writes.
use vstd::prelude::*;

verus! {

/// What stands at a place in a JSON text.
pub enum JsonField {
    /// The text is not JSON.
    NotJson,
    /// The document has nothing there.
    Absent,
    Text(String),
    /// A value of another kind.
    Other,
}

/// What a `JsonField` holds.
pub ghost enum FieldView {
    NotJson,
    Absent,
    Text(Seq<char>),
    Other,
}

impl View for JsonField {
    type V = FieldView;

    open spec fn view(&self) -> FieldView {
        match self {
            JsonField::NotJson => FieldView::NotJson,
            JsonField::Absent => FieldView::Absent,
            JsonField::Text(s) => FieldView::Text(s@),
            JsonField::Other => FieldView::Other,
        }
    }
}

/// What stands in the JSON text `body` at the place that the JSON pointer `pointer` names.
pub uninterp spec fn field_at(body: Seq<char>, pointer: Seq<char>) -> FieldView;

/// Calls `serde_json::from_str` and `serde_json::Value::pointer`: what is found depends on the
/// text and the pointer alone.
#[verifier::external_body]
pub(crate) fn json_field(body: &str, pointer: &str) -> (r: JsonField)
    ensures
        r@ == field_at(body@, pointer@),
{
    match serde_json::from_str::<serde_json::Value>(body) {
        Err(_) => JsonField::NotJson,
        Ok(v) => match v.pointer(pointer) {
            None => JsonField::Absent,
            Some(serde_json::Value::String(s)) => JsonField::Text(s.clone()),
            Some(_) => JsonField::Other,
        },
    }
}

/// The text of a member.
pub open spec fn text_in(f: FieldView) -> Option<Seq<char>> {
    match f {
        FieldView::Text(s) => Some(s),
        _ => None,
    }
}

/// Whether a document has something at the place.
pub open spec fn is_there(f: FieldView) -> bool {
    !(f is NotJson) && !(f is Absent)
}

/// The text of a member.
pub fn text_of_field(f: &JsonField) -> (r: Option<String>)
    ensures
        crate::text::opt_text(r) == text_in(f@),
{
    match f {
        JsonField::Text(s) => Some(s.clone()),
        _ => None,
    }
}

/// Whether a document has something at the place.
pub fn field_is_there(f: &JsonField) -> (r: bool)
    ensures
        r == is_there(f@),
{
    match f {
        JsonField::NotJson => false,
        JsonField::Absent => false,
        _ => true,
    }
}

/// A JSON value.
#[verifier::external_type_specification]
#[verifier::external_body]
pub struct ExValue(serde_json::Value);

/// The members of a JSON object, where all of them are texts.
pub uninterp spec fn members(v: serde_json::Value) -> Map<Seq<char>, Seq<char>>;

/// `pairs` as a map; of two pairs with one key the later counts.
pub open spec fn pairs_map(pairs: Seq<(String, String)>, n: int) -> Map<Seq<char>, Seq<char>>
    decreases n,
{
    if n <= 0 {
        Map::empty()
    } else {
        pairs_map(pairs, n - 1).insert(pairs[n - 1].0@, pairs[n - 1].1@)
    }
}

/// Collects `pairs` into a `serde_json::Map` of strings, and that into a `serde_json::Value`: the
/// object has one member per key, with the last value given for it.
#[verifier::external_body]
pub(crate) fn object_of(pairs: Vec<(String, String)>) -> (r: serde_json::Value)
    ensures
        members(r) == pairs_map(pairs@, pairs@.len() as int),
{
    let map: serde_json::Map<String, serde_json::Value> = pairs
        .into_iter()
        .map(|(k, v)| (k, serde_json::Value::String(v)))
        .collect();
    serde_json::Value::Object(map)
}

} // verus!
