use logdash::json::{JsonNumber, JsonObject, JsonValue};
use logdash::keys::{rank_keys, Rank};

fn keys(o: &JsonObject) -> Vec<String> {
    let mut out = Vec::new();
    let mut i = 0;
    while i < o.len() {
        out.push(o.member(i).key.clone());
        i += 1;
    }
    out
}

fn text_of(value: Option<&JsonValue>) -> Option<String> {
    match value {
        Some(JsonValue::String(s)) => Some(s.clone()),
        _ => None,
    }
}

#[test]
fn rank_orders_by_first_differing_byte() {
    assert_eq!(rank_keys("abc", "abd"), Rank::Before);
    assert_eq!(rank_keys("abd", "abc"), Rank::After);
    assert_eq!(rank_keys("b", "abc"), Rank::After);
}

#[test]
fn rank_puts_a_prefix_first() {
    assert_eq!(rank_keys("ab", "abc"), Rank::Before);
    assert_eq!(rank_keys("abc", "ab"), Rank::After);
    assert_eq!(rank_keys("", "a"), Rank::Before);
    assert_eq!(rank_keys("a", ""), Rank::After);
}

#[test]
fn rank_finds_equal_keys() {
    assert_eq!(rank_keys("", ""), Rank::Same);
    assert_eq!(rank_keys("key", "key"), Rank::Same);
    assert_eq!(rank_keys("schl\u{fc}ssel", "schl\u{fc}ssel"), Rank::Same);
}

#[test]
fn rank_puts_capitals_before_small_letters() {
    assert_eq!(rank_keys("Z", "a"), Rank::Before);
}

#[test]
fn rank_agrees_with_the_order_of_strings() {
    let samples = ["", "a", "ab", "b", "\u{e9}", "z", "\u{4e2d}", "\u{1f600}", "A", "aa"];
    for a in samples {
        for b in samples {
            let expected = if a < b {
                Rank::Before
            } else if a == b {
                Rank::Same
            } else {
                Rank::After
            };
            assert_eq!(rank_keys(a, b), expected);
        }
    }
}

#[test]
fn new_object_is_empty() {
    let o = JsonObject::new();
    assert_eq!(o.len(), 0);
    assert!(o.get("a").is_none());
}

#[test]
fn insert_keeps_keys_ascending() {
    let mut o = JsonObject::new();
    o.insert("m".to_string(), JsonValue::Null);
    o.insert("z".to_string(), JsonValue::Null);
    o.insert("a".to_string(), JsonValue::Null);
    o.insert("mm".to_string(), JsonValue::Null);
    assert_eq!(keys(&o), vec!["a", "m", "mm", "z"]);
}

#[test]
fn insert_replaces_the_value_of_a_key() {
    let mut o = JsonObject::new();
    o.insert("k".to_string(), JsonValue::String("old".to_string()));
    o.insert("j".to_string(), JsonValue::String("other".to_string()));
    o.insert("k".to_string(), JsonValue::String("new".to_string()));
    assert_eq!(o.len(), 2);
    assert_eq!(text_of(o.get("k")), Some("new".to_string()));
    assert_eq!(text_of(o.get("j")), Some("other".to_string()));
}

#[test]
fn get_finds_only_what_was_inserted() {
    let mut o = JsonObject::new();
    o.insert("present".to_string(), JsonValue::Bool(true));
    assert!(matches!(o.get("present"), Some(JsonValue::Bool(true))));
    assert!(o.get("absent").is_none());
    assert!(o.get("presen").is_none());
    assert!(o.get("presentt").is_none());
}

#[test]
fn member_gives_key_and_value() {
    let mut o = JsonObject::new();
    o.insert("b".to_string(), JsonValue::Bool(false));
    o.insert(
        "a".to_string(),
        JsonValue::Number(JsonNumber { text: "7".to_string(), integer: Some(7) }),
    );
    assert_eq!(o.member(0).key, "a");
    assert!(matches!(&o.member(0).value, JsonValue::Number(n) if n.text == "7" && n.integer == Some(7)));
    assert_eq!(o.member(1).key, "b");
    assert!(matches!(o.member(1).value, JsonValue::Bool(false)));
}

#[test]
fn remove_takes_the_member_out() {
    let mut o = JsonObject::new();
    o.insert("a".to_string(), JsonValue::Null);
    o.insert("b".to_string(), JsonValue::String("taken".to_string()));
    o.insert("c".to_string(), JsonValue::Null);
    let taken = o.remove("b");
    assert!(matches!(taken, Some(JsonValue::String(ref s)) if s == "taken"));
    assert_eq!(keys(&o), vec!["a", "c"]);
    assert!(o.get("b").is_none());
}

#[test]
fn remove_of_a_missing_key_changes_nothing() {
    let mut o = JsonObject::new();
    o.insert("a".to_string(), JsonValue::Null);
    assert!(o.remove("b").is_none());
    assert_eq!(keys(&o), vec!["a"]);
}
