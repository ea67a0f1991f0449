//! Reading JSON text. The grammar is serde_json's; this module takes the tree
//! that serde_json parsed and builds the dashboard's own value from it, with
//! every object in ascending key order.

use vstd::prelude::*;
use crate::canonical::{canonical, canonical_members};
use crate::json::{Json, JsonNumber, JsonObject, JsonValue};

verus! {

/// `serde_json::Value`, the tree that serde_json parses a document into. What
/// is inside is read through the functions below.
#[verifier::external_type_specification]
#[verifier::external_body]
pub struct ExDocument(serde_json::Value);

/// `serde_json::Error`, what serde_json reports of a text that it cannot
/// parse. Nothing of it is read.
#[verifier::external_type_specification]
#[verifier::external_body]
pub struct ExSyntaxError(serde_json::Error);

/// What a tree of serde_json holds. An object's members stand in the order
/// in which serde_json walks them; a number's text is what serde_json displays
/// for it.
pub uninterp spec fn json_model(tree: serde_json::Value) -> Json;

/// What serde_json makes of a text: the tree it parses, or nothing where it
/// reports an error.
pub uninterp spec fn json_parse(text: Seq<char>) -> Option<Json>;

/// `serde_json::Value::as_bool` hands out the boolean of a `Bool` and
/// nothing for any other variant.
pub assume_specification[ serde_json::Value::as_bool ](tree: &serde_json::Value) -> (found: Option<
    bool,
>)
    ensures
        found == (match json_model(*tree) {
            Json::Bool(b) => Some(b),
            _ => None,
        }),
;

/// `serde_json::Value::as_str` hands out the text of a `String` and nothing
/// for any other variant.
pub assume_specification[ serde_json::Value::as_str ](tree: &serde_json::Value) -> (found: Option<
    &str,
>)
    ensures
        match found {
            Some(text) => json_model(*tree) == Json::String(text@),
            None => !(json_model(*tree) is String),
        },
;

/// `serde_json::Value::as_i64` hands out the value of a `Number` that is an
/// integer between `i64::MIN` and `i64::MAX`, and nothing for anything else.
pub assume_specification[ serde_json::Value::as_i64 ](tree: &serde_json::Value) -> (found: Option<
    i64,
>)
    ensures
        found == (match json_model(*tree) {
            Json::Number(n) => n.integer,
            _ => None,
        }),
;

/// `serde_json::Value::as_array` hands out the items of an `Array` and
/// nothing for any other variant.
pub assume_specification[ serde_json::Value::as_array ](tree: &serde_json::Value) -> (found:
    Option<&Vec<serde_json::Value>>)
    ensures
        match found {
            Some(items) => json_model(*tree) == Json::Array(
                items@.map_values(|item: serde_json::Value| json_model(item)),
            ),
            None => !(json_model(*tree) is Array),
        },
;

/// `serde_json::Value::as_object` hands out the map of an `Object` and
/// nothing for any other variant; `serde_json::Map::iter` walks the entries of
/// that map. Together: the members of an object, each key with its value, in
/// that order.
#[verifier::external_body]
fn object_members(tree: &serde_json::Value) -> (found: Option<
    Vec<(&String, &serde_json::Value)>,
>)
    ensures
        match found {
            Some(members) => json_model(*tree) == Json::Object(
                members@.map_values(
                    |member: (&String, &serde_json::Value)| (member.0@, json_model(*member.1)),
                ),
            ),
            None => !(json_model(*tree) is Object),
        },
{
    match tree.as_object() {
        Some(map) => Some(map.iter().collect()),
        None => None,
    }
}

/// `serde_json::Value::as_number` hands out the number of a `Number` and
/// nothing for any other variant; the `Display` of `serde_json::Number` writes
/// that number as text. Together: the text of a number.
#[verifier::external_body]
fn number_text(tree: &serde_json::Value) -> (found: Option<String>)
    ensures
        match found {
            Some(text) => json_model(*tree) matches Json::Number(n) && text@ == n.text,
            None => !(json_model(*tree) is Number),
        },
{
    match tree.as_number() {
        Some(number) => Some(number.to_string()),
        None => None,
    }
}

/// `serde_json::from_str`, asked for a `serde_json::Value`: the tree of a
/// text that is one JSON document, an error for any other text.
#[verifier::external_body]
fn parse_text(text: &str) -> (parsed: Result<serde_json::Value, serde_json::Error>)
    ensures
        match parsed {
            Ok(tree) => json_parse(text@) == Some(json_model(tree)),
            Err(_) => json_parse(text@) is None,
        },
{
    serde_json::from_str::<serde_json::Value>(text)
}

/// The dashboard's value for a tree of serde_json.
fn lift(tree: &serde_json::Value) -> (value: JsonValue)
    ensures
        value@ == canonical(json_model(*tree)),
    decreases json_model(*tree),
{
    if let Some(b) = tree.as_bool() {
        JsonValue::Bool(b)
    } else if let Some(text) = tree.as_str() {
        JsonValue::String(text.to_owned())
    } else if let Some(text) = number_text(tree) {
        JsonValue::Number(JsonNumber { text, integer: tree.as_i64() })
    } else if let Some(items) = tree.as_array() {
        let ghost models = json_model(*tree)->Array_0;
        let mut lifted: Vec<JsonValue> = Vec::new();
        let mut i: usize = 0;
        while i < items.len()
            invariant
                i <= items.len(),
                json_model(*tree) is Array,
                models == json_model(*tree)->Array_0,
                models == items@.map_values(|item: serde_json::Value| json_model(item)),
                lifted.len() == i,
                forall|j: int| 0 <= j < i ==> (#[trigger] lifted[j])@ == canonical(models[j]),
            decreases items.len() - i,
        {
            proof {
                assert(models[i as int] == json_model(items@[i as int]));
                assert(decreases_to!(json_model(*tree) => json_model(*tree)->Array_0));
                assert(decreases_to!(models => models[i as int]));
            }
            let item = lift(&items[i]);
            lifted.push(item);
            i = i + 1;
        }
        let value = JsonValue::Array(lifted);
        assert(value@->Array_0 =~= canonical(json_model(*tree))->Array_0);
        value
    } else if let Some(members) = object_members(tree) {
        let ghost models = json_model(*tree)->Object_0;
        let mut object = JsonObject::new();
        let mut i: usize = 0;
        while i < members.len()
            invariant
                i <= members.len(),
                json_model(*tree) is Object,
                models == json_model(*tree)->Object_0,
                models == members@.map_values(
                    |member: (&String, &serde_json::Value)| (member.0@, json_model(*member.1)),
                ),
                object@ == canonical_members(models, i as nat),
            decreases members.len() - i,
        {
            proof {
                let member = members@[i as int];
                assert(models[i as int] == (member.0@, json_model(*member.1)));
                assert(decreases_to!(json_model(*tree) => json_model(*tree)->Object_0));
                assert(decreases_to!(models => models[i as int]));
                assert(decreases_to!(models[i as int] => models[i as int].1));
            }
            let key = members[i].0.clone();
            let value = lift(members[i].1);
            object.insert(key, value);
            i = i + 1;
        }
        JsonValue::Object(object)
    } else {
        JsonValue::Null
    }
}

/// Parses `text` as one JSON document.
///
/// The result is the normal form of what serde_json reads, and nothing where
/// serde_json reports an error.
pub fn parse_document(text: &str) -> (document: Option<JsonValue>)
    ensures
        match document {
            Some(value) => json_parse(text@) matches Some(tree) && value@ == canonical(tree),
            None => json_parse(text@) is None,
        },
{
    match parse_text(text) {
        Ok(tree) => Some(lift(&tree)),
        Err(_) => None,
    }
}

} // verus!
