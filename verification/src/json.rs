//! JSON as the library reads it: a parsed value, and the few ways the
//! model's answers are read off it (a string field, an array field).
use vstd::prelude::*;

verus! {

/// A JSON value. An object's members are kept in the order the parser
/// gives them, each key once.
#[derive(Debug, PartialEq, Eq)]
pub enum JsonValue {
    Null,
    Bool(bool),
    /// A number, as its text.
    Number(String),
    Text(String),
    Array(Vec<JsonValue>),
    Object(Vec<(String, JsonValue)>),
}

#[verifier::external_type_specification]
#[verifier::external_body]
pub struct ExJsonValue(serde_json::Value);

/// One `serde_json::Value` as the library's [`JsonValue`], variant by
/// variant. Nothing is claimed of it on its own: it only serves
/// [`parse_json`], whose result is named.
#[verifier::external_body]
fn json_of(v: &serde_json::Value) -> JsonValue {
    match v {
        serde_json::Value::Null => JsonValue::Null,
        serde_json::Value::Bool(b) => JsonValue::Bool(*b),
        serde_json::Value::Number(n) => JsonValue::Number(n.to_string()),
        serde_json::Value::String(s) => JsonValue::Text(s.clone()),
        serde_json::Value::Array(items) => JsonValue::Array(items.iter().map(json_of).collect()),
        serde_json::Value::Object(m) => JsonValue::Object(m.iter().map(|(k, x)| (k.clone(), json_of(x))).collect()),
    }
}

/// What `serde_json` reads `text` as: the value, or the text of its
/// error.
pub uninterp spec fn json_parse(text: Seq<char>) -> Result<JsonValue, Seq<char>>;

/// `serde_json::from_str::<serde_json::Value>`, converted variant by
/// variant, or the error's text. The contract names the result
/// [`json_parse`] of the text: the same text always reads the same way.
#[verifier::external_body]
pub fn parse_json(text: &str) -> (r: Result<JsonValue, String>)
    ensures
        match r {
            Ok(v) => json_parse(text@) == Ok::<JsonValue, Seq<char>>(v),
            Err(e) => json_parse(text@) == Err::<JsonValue, Seq<char>>(e@),
        },
{
    match serde_json::from_str::<serde_json::Value>(text) {
        Ok(v) => Ok(json_of(&v)),
        Err(e) => Err(e.to_string()),
    }
}

// ---------------------------------------------------------------------
// Reading fields
// ---------------------------------------------------------------------

/// The value of the member `key`, as `value[key]` finds it; `None` for a
/// missing member or a value that is not an object.
pub open spec fn member(v: JsonValue, key: Seq<char>) -> Option<JsonValue> {
    match v {
        JsonValue::Object(fields) => member_of(fields@, key),
        _ => None,
    }
}

pub open spec fn member_of(fields: Seq<(String, JsonValue)>, key: Seq<char>) -> Option<JsonValue>
    decreases fields.len(),
{
    if fields.len() == 0 {
        None
    } else if fields[0].0@ == key {
        Some(fields[0].1)
    } else {
        member_of(fields.drop_first(), key)
    }
}

/// The string `v` holds, if it is one.
pub open spec fn as_text(v: Option<JsonValue>) -> Option<String> {
    match v {
        Some(JsonValue::Text(s)) => Some(s),
        _ => None,
    }
}

/// The string member `key`: `None` when missing or not a string.
pub open spec fn text_field(v: JsonValue, key: Seq<char>) -> Option<String> {
    as_text(member(v, key))
}

/// The items of the array member `key`; none when missing or not an
/// array.
pub open spec fn array_field(v: JsonValue, key: Seq<char>) -> Seq<JsonValue> {
    match member(v, key) {
        Some(JsonValue::Array(items)) => items@,
        _ => seq![],
    }
}

/// Each item of the array member `key` as a string, `None` for an item
/// that is not one.
pub open spec fn text_items(v: JsonValue, key: Seq<char>) -> Seq<Option<String>> {
    array_field(v, key).map_values(|x: JsonValue| as_text(Some(x)))
}

/// The member `key` of `v`.
pub fn get<'a>(v: &'a JsonValue, key: &str) -> (r: Option<&'a JsonValue>)
    ensures
        match r {
            Some(x) => member(*v, key@) == Some(*x),
            None => member(*v, key@).is_none(),
        },
{
    match v {
        JsonValue::Object(fields) => {
            let mut i: usize = 0;
            assert(fields@.skip(0) =~= fields@);
            while i < fields.len()
                invariant
                    i <= fields.len(),
                    member_of(fields@, key@) == member_of(fields@.skip(i as int), key@),
                    member(*v, key@) == member_of(fields@, key@),
                decreases fields.len() - i,
            {
                assert(fields@.skip(i as int)[0] == fields@[i as int]);
                assert(fields@.skip(i as int).drop_first() =~= fields@.skip(i + 1));
                if crate::text::str_eq(fields[i].0.as_str(), key) {
                    return Some(&fields[i].1);
                }
                i = i + 1;
            }
            None
        },
        _ => None,
    }
}

fn text_of(v: Option<&JsonValue>) -> (r: Option<String>)
    ensures
        r == as_text(match v {
            Some(x) => Some(*x),
            None => None,
        }),
{
    match v {
        Some(JsonValue::Text(s)) => Some(s.clone()),
        _ => None,
    }
}

/// The string member `key`.
pub fn text_at(v: &JsonValue, key: &str) -> (r: Option<String>)
    ensures
        r == text_field(*v, key@),
{
    text_of(get(v, key))
}

/// The items of the array member `key`.
pub fn array_at<'a>(v: &'a JsonValue, key: &str) -> (r: &'a [JsonValue])
    ensures
        r@ == array_field(*v, key@),
{
    match get(v, key) {
        Some(JsonValue::Array(items)) => items.as_slice(),
        _ => {
            let empty: &[JsonValue] = &[];
            assert(empty@ =~= Seq::<JsonValue>::empty());
            empty
        },
    }
}

/// Each item of the array member `key` as a string.
pub fn texts_at(v: &JsonValue, key: &str) -> (r: Vec<Option<String>>)
    ensures
        r@ == text_items(*v, key@),
{
    let items = array_at(v, key);
    let mut out: Vec<Option<String>> = Vec::new();
    let mut i: usize = 0;
    while i < items.len()
        invariant
            i <= items.len(),
            items@ == array_field(*v, key@),
            out@ == items@.take(i as int).map_values(|x: JsonValue| as_text(Some(x))),
        decreases items.len() - i,
    {
        out.push(text_of(Some(&items[i])));
        assert(items@.take(i + 1) =~= items@.take(i as int).push(items@[i as int]));
        i = i + 1;
    }
    assert(items@.take(items.len() as int) =~= items@);
    out
}

} // verus!
