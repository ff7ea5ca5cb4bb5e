//! JSON documents, as `serde_json` reads them.
use vstd::prelude::*;

verus! {

#[verifier::external_type_specification]
#[verifier::external_body]
pub struct ExJsonValue(serde_json::Value);

#[verifier::external_type_specification]
#[verifier::external_body]
pub struct ExJsonNumber(serde_json::Number);

/// A JSON value.  An object keeps its entries in the order in which
/// `serde_json`'s map holds them: sorted by key, each key once.
pub enum Json {
    Null,
    Bool(bool),
    /// A number, kept as `serde_json` read it.
    Number(serde_json::Number),
    Str(String),
    Array(Vec<Json>),
    Object(Vec<(String, Json)>),
}

/// What `serde_json` reads from the text `text`: `None` where the text is not
/// a JSON document.
pub uninterp spec fn parsed_json(text: Seq<char>) -> Option<Json>;

/// Calls `serde_json::from_str::<serde_json::Value>` on `text` and hands the
/// value over as a [`Json`], variant by variant.  Trusted: the result is
/// `parsed_json` of the characters of `text`, the same for the same text; no
/// clause says what that value is.
#[verifier::external_body]
pub fn parse_json(text: &str) -> (r: Option<Json>)
    ensures
        r == parsed_json(text@),
{
    match serde_json::from_str::<serde_json::Value>(text) {
        Ok(v) => Some(json_of_value(&v)),
        Err(_) => None,
    }
}

/// The conversion of [`parse_json`]: `serde_json::Value` to [`Json`], one
/// variant for one variant, an object's entries in the map's order.  It
/// recurses, so it stands apart from that wrapper, which alone calls it.
#[verifier::external_body]
fn json_of_value(v: &serde_json::Value) -> Json {
    match v {
        serde_json::Value::Null => Json::Null,
        serde_json::Value::Bool(b) => Json::Bool(*b),
        serde_json::Value::Number(n) => Json::Number(n.clone()),
        serde_json::Value::String(s) => Json::Str(s.clone()),
        serde_json::Value::Array(a) => Json::Array(a.iter().map(json_of_value).collect()),
        serde_json::Value::Object(m) => Json::Object(
            m.iter().map(|(k, x)| (k.clone(), json_of_value(x))).collect(),
        ),
    }
}

/// How `serde_json` prints the object with the entries `fields` when it is
/// handed over as an `Option` of a reference to its map: the `Debug`
/// formatting `Some({"key": String("value"), ...})`.
pub uninterp spec fn object_debug(fields: Seq<(String, Json)>) -> Seq<char>;

/// Calls `format!("{:?}", Some(&map))`, `Debug` of `serde_json`'s map, on the
/// map with the entries `fields`.  Trusted: the result is `object_debug` of
/// the entries; no clause says what that text is.
#[verifier::external_body]
pub fn object_debug_text(fields: &Vec<(String, Json)>) -> (r: String)
    ensures
        r@ == object_debug(fields@),
{
    let map: serde_json::Map<String, serde_json::Value> = fields.iter().map(
        |(k, v)| (k.clone(), value_of_json(v)),
    ).collect();
    format!("{:?}", Some(&map))
}

/// The conversion of [`object_debug_text`]: [`Json`] back to
/// `serde_json::Value`, one variant for one variant.  It recurses, so it stands apart from that wrapper, which
/// alone calls it.
#[verifier::external_body]
fn value_of_json(v: &Json) -> serde_json::Value {
    match v {
        Json::Null => serde_json::Value::Null,
        Json::Bool(b) => serde_json::Value::Bool(*b),
        Json::Number(n) => serde_json::Value::Number(n.clone()),
        Json::Str(s) => serde_json::Value::String(s.clone()),
        Json::Array(a) => serde_json::Value::Array(a.iter().map(value_of_json).collect()),
        Json::Object(m) => serde_json::Value::Object(
            m.iter().map(|(k, x)| (k.clone(), value_of_json(x))).collect(),
        ),
    }
}

} // verus!
