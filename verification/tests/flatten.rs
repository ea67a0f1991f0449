use logdash::flatten::flatten;
use logdash::json::{JsonNumber, JsonObject, JsonValue};

fn number(text: &str, integer: Option<i64>) -> JsonValue {
    JsonValue::Number(JsonNumber { text: text.to_string(), integer })
}

fn object(members: Vec<(&str, JsonValue)>) -> JsonObject {
    let mut o = JsonObject::new();
    for (key, value) in members {
        o.insert(key.to_string(), value);
    }
    o
}

#[test]
fn empty_payload_gives_no_lines() {
    assert_eq!(flatten(&JsonObject::new()), Vec::<String>::new());
}

#[test]
fn top_level_scalars_have_no_dashes() {
    let payload = object(vec![
        ("count", number("5", Some(5))),
        ("flag", JsonValue::Bool(true)),
        ("name", JsonValue::String("alpha".to_string())),
        ("off", JsonValue::Bool(false)),
    ]);
    assert_eq!(
        flatten(&payload),
        vec![" count 5", " flag true", " name alpha", " off false"]
    );
}

#[test]
fn null_shows_the_key_alone() {
    let payload = object(vec![("gone", JsonValue::Null)]);
    assert_eq!(flatten(&payload), vec![" gone"]);
}

#[test]
fn nested_null_shows_the_key_alone() {
    let payload = object(vec![(
        "outer",
        JsonValue::Object(object(vec![("gone", JsonValue::Null)])),
    )]);
    assert_eq!(flatten(&payload), vec!["-- gone"]);
}

#[test]
fn arrays_are_not_shown() {
    let payload = object(vec![
        ("a", JsonValue::Array(vec![JsonValue::Bool(true), JsonValue::Null])),
        ("b", JsonValue::Bool(false)),
        (
            "c",
            JsonValue::Object(object(vec![(
                "list",
                JsonValue::Array(vec![number("1", Some(1))]),
            )])),
        ),
    ]);
    assert_eq!(flatten(&payload), vec![" b false"]);
}

#[test]
fn top_level_object_recurses_without_header() {
    let payload = object(vec![(
        "outer",
        JsonValue::Object(object(vec![("inner", number("5", Some(5)))])),
    )]);
    assert_eq!(flatten(&payload), vec!["-- inner 5"]);
}

#[test]
fn nested_object_gets_a_header_with_its_parent() {
    let payload = object(vec![(
        "a",
        JsonValue::Object(object(vec![(
            "b",
            JsonValue::Object(object(vec![("c", JsonValue::Bool(true))])),
        )])),
    )]);
    assert_eq!(flatten(&payload), vec!["-- b (a)", "---- c true"]);
}

#[test]
fn header_names_the_key_one_level_up() {
    let payload = object(vec![(
        "a",
        JsonValue::Object(object(vec![(
            "b",
            JsonValue::Object(object(vec![(
                "c",
                JsonValue::Object(object(vec![("d", JsonValue::String("x".to_string()))])),
            )])),
        )])),
    )]);
    assert_eq!(
        flatten(&payload),
        vec!["-- b (a)", "---- c (b)", "------ d x"]
    );
}

#[test]
fn nested_object_under_array_key_has_no_header() {
    let payload = object(vec![(
        "a",
        JsonValue::Object(object(vec![(
            "array",
            JsonValue::Object(object(vec![("x", number("1", Some(1)))])),
        )])),
    )]);
    assert_eq!(flatten(&payload), vec!["---- x 1"]);
}

#[test]
fn array_key_is_the_parent_of_what_it_holds() {
    let payload = object(vec![(
        "a",
        JsonValue::Object(object(vec![(
            "array",
            JsonValue::Object(object(vec![(
                "0",
                JsonValue::Object(object(vec![("x", JsonValue::Null)])),
            )])),
        )])),
    )]);
    assert_eq!(flatten(&payload), vec!["---- 0 (array)", "------ x"]);
}

#[test]
fn top_level_array_key_is_like_any_other() {
    let payload = object(vec![(
        "array",
        JsonValue::Object(object(vec![("x", JsonValue::Bool(true))])),
    )]);
    assert_eq!(flatten(&payload), vec!["-- x true"]);
}

#[test]
fn empty_nested_object_gives_only_its_header() {
    let payload = object(vec![(
        "a",
        JsonValue::Object(object(vec![("b", JsonValue::Object(JsonObject::new()))])),
    )]);
    assert_eq!(flatten(&payload), vec!["-- b (a)"]);
}

#[test]
fn number_is_shown_by_its_text() {
    let payload = object(vec![("n", number("1.5e300", None))]);
    assert_eq!(flatten(&payload), vec![" n 1.5e300"]);
}

#[test]
fn members_come_in_key_order() {
    let payload = object(vec![
        ("zeta", JsonValue::Bool(true)),
        ("alpha", JsonValue::Bool(false)),
        ("mid", JsonValue::Null),
        ("Alpha", JsonValue::Null),
    ]);
    assert_eq!(
        flatten(&payload),
        vec![" Alpha", " alpha false", " mid", " zeta true"]
    );
}

#[test]
fn flatten_twice_gives_the_same_lines() {
    let payload = object(vec![
        ("b", JsonValue::Object(object(vec![("y", JsonValue::Null), ("x", JsonValue::Bool(true))]))),
        ("a", number("1", Some(1))),
    ]);
    let first = flatten(&payload);
    let second = flatten(&payload);
    assert_eq!(first, second);
    assert_eq!(first, vec![" a 1", "-- x true", "-- y"]);
}

#[test]
fn insertion_order_does_not_change_the_lines() {
    let one = object(vec![
        ("a", JsonValue::Bool(true)),
        ("b", JsonValue::Null),
        ("c", JsonValue::String("s".to_string())),
    ]);
    let other = object(vec![
        ("c", JsonValue::String("s".to_string())),
        ("a", JsonValue::Bool(true)),
        ("b", JsonValue::Null),
    ]);
    assert_eq!(flatten(&one), flatten(&other));
}

#[test]
fn sibling_objects_follow_one_another() {
    let payload = object(vec![
        ("first", JsonValue::Object(object(vec![("k", JsonValue::Bool(true))]))),
        ("second", JsonValue::Object(object(vec![("k", JsonValue::Bool(false))]))),
        ("third", JsonValue::String("end".to_string())),
    ]);
    assert_eq!(flatten(&payload), vec!["-- k true", "-- k false", " third end"]);
}
