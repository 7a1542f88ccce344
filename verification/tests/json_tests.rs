use flashblocks_explorer::json::JsonValue;
use flashblocks_explorer::text::{ends_with, starts_with, str_eq};

#[test]
fn members_and_kinds() {
    let v = JsonValue::Object(vec![
        ("a".to_string(), JsonValue::Number(Some(1))),
        ("b".to_string(), JsonValue::Str("x".to_string())),
        ("c".to_string(), JsonValue::Array(vec![JsonValue::Null, JsonValue::Bool(true)])),
    ]);
    assert_eq!(v.field("a").and_then(|x| x.as_u64()), Some(1));
    assert_eq!(v.field("b").and_then(|x| x.as_str()).map(|s| s.as_str()), Some("x"));
    assert_eq!(v.field("c").and_then(|x| x.as_array()).map(|a| a.len()), Some(2));
    assert!(v.field("d").is_none());
    assert!(v.field("b").and_then(|x| x.as_u64()).is_none());
    assert!(JsonValue::Null.field("a").is_none());
    assert!(JsonValue::Number(None).as_u64().is_none());
}

#[test]
fn text_helpers() {
    let c = |s: &str| s.chars().collect::<Vec<char>>();
    assert!(starts_with(&c("flashblock_1"), &c("flash")));
    assert!(!starts_with(&c("fl"), &c("flash")));
    assert!(ends_with(&c("1.json"), &c(".json")));
    assert!(!ends_with(&c("1.jso"), &c(".json")));
    assert!(str_eq("abc", "abc"));
    assert!(!str_eq("abc", "abd"));
    assert!(!str_eq("abc", "ab"));
}
