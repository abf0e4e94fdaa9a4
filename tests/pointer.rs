use json_spanned_value::pointer::parse_index;
use json_spanned_value::spanned;
use json_spanned_value::{ObjectMap, Spanned, Value};

fn num(start: usize, n: u64) -> spanned::Value {
    Spanned::new(start, start + 1, Value::Number(serde_json::Number::from(n)))
}

fn key(start: usize, k: &str) -> spanned::String {
    Spanned::new(start, start + k.len() + 2, k.to_string())
}

/// The tree that `{"a": {"b": [0, [0, 1, {"c": "value"}]]}}` decodes to.
fn sample() -> spanned::Value {
    let mut c = ObjectMap::new();
    c.insert(key(24, "c"), Spanned::new(29, 36, Value::String("value".to_string())));
    let inner = vec![num(17, 0), num(20, 1), Spanned::new(23, 37, Value::Object(c))];
    let b = vec![num(13, 0), Spanned::new(16, 38, Value::Array(inner))];
    let mut a = ObjectMap::new();
    a.insert(key(7, "b"), Spanned::new(12, 39, Value::Array(b)));
    let mut root = ObjectMap::new();
    root.insert(key(1, "a"), Spanned::new(6, 40, Value::Object(a)));
    Spanned::new(0, 41, Value::Object(root))
}

#[test]
fn pointer() {
    let text = "{\"a\": {\"b\": [0, [0, 1, {\"c\": \"value\"}]]}}";
    let v = sample();
    assert_eq!(&text[v.pointer("").unwrap().range()], "{\"a\": {\"b\": [0, [0, 1, {\"c\": \"value\"}]]}}");
    assert_eq!(&text[v.pointer("/a").unwrap().range()], "{\"b\": [0, [0, 1, {\"c\": \"value\"}]]}");
    assert_eq!(&text[v.pointer("/a/b").unwrap().range()], "[0, [0, 1, {\"c\": \"value\"}]]");
    assert_eq!(&text[v.pointer("/a/b/0").unwrap().range()], "0");
    assert_eq!(&text[v.pointer("/a/b/1").unwrap().range()], "[0, 1, {\"c\": \"value\"}]");
    assert_eq!(&text[v.pointer("/a/b/1/0").unwrap().range()], "0");
    assert_eq!(&text[v.pointer("/a/b/1/1").unwrap().range()], "1");
    assert_eq!(&text[v.pointer("/a/b/1/2").unwrap().range()], "{\"c\": \"value\"}");
    assert_eq!(&text[v.pointer("/a/b/1/2/c").unwrap().range()], "\"value\"");

    assert!(v.pointer("/a/b/1/2/d").is_none());
    assert!(v.pointer("/a/b/1/2/").is_none());
    assert!(v.pointer("/a/b/1/3").is_none());
    assert!(v.pointer("/a/b/1/").is_none());
    assert!(v.pointer("/a/b/2").is_none());
    assert!(v.pointer("/a/b/").is_none());
    assert!(v.pointer("/a/nope").is_none());
    assert!(v.pointer("/a/").is_none());
    assert!(v.pointer("/nope").is_none());
    assert!(v.pointer("/").is_none());
}

#[test]
fn pointer_mut() {
    let text = "{\"a\": {\"b\": [0, [0, 1, {\"c\": \"value\"}]]}}";
    let mut v = sample();
    assert_eq!(&text[v.pointer_mut("").unwrap().range()], "{\"a\": {\"b\": [0, [0, 1, {\"c\": \"value\"}]]}}");
    assert_eq!(&text[v.pointer_mut("/a").unwrap().range()], "{\"b\": [0, [0, 1, {\"c\": \"value\"}]]}");
    assert_eq!(&text[v.pointer_mut("/a/b").unwrap().range()], "[0, [0, 1, {\"c\": \"value\"}]]");
    assert_eq!(&text[v.pointer_mut("/a/b/0").unwrap().range()], "0");
    assert_eq!(&text[v.pointer_mut("/a/b/1").unwrap().range()], "[0, 1, {\"c\": \"value\"}]");
    assert_eq!(&text[v.pointer_mut("/a/b/1/0").unwrap().range()], "0");
    assert_eq!(&text[v.pointer_mut("/a/b/1/1").unwrap().range()], "1");
    assert_eq!(&text[v.pointer_mut("/a/b/1/2").unwrap().range()], "{\"c\": \"value\"}");
    assert_eq!(&text[v.pointer_mut("/a/b/1/2/c").unwrap().range()], "\"value\"");

    assert!(v.pointer_mut("/a/b/1/2/d").is_none());
    assert!(v.pointer_mut("/a/b/1/2/").is_none());
    assert!(v.pointer_mut("/a/b/1/3").is_none());
    assert!(v.pointer_mut("/a/b/1/").is_none());
    assert!(v.pointer_mut("/a/b/2").is_none());
    assert!(v.pointer_mut("/a/b/").is_none());
    assert!(v.pointer_mut("/a/nope").is_none());
    assert!(v.pointer_mut("/a/").is_none());
    assert!(v.pointer_mut("/nope").is_none());
    assert!(v.pointer_mut("/").is_none());
}

#[test]
fn pointer_mut_updates_in_place() {
    let mut v = sample();
    if let Some(target) = v.pointer_mut("/a/b/1/2/c") {
        *target.get_mut() = Value::Bool(true);
    }
    assert_eq!(v.pointer("/a/b/1/2/c").unwrap().get_ref().as_bool(), Some(true));
    assert_eq!(v.pointer("/a/b/1/2/c").unwrap().span(), (29, 36));
}

#[test]
fn pointer_unescapes_tokens() {
    let mut o = ObjectMap::new();
    o.insert(Spanned::from("a/b".to_string()), num(3, 1));
    o.insert(Spanned::from("m~n".to_string()), num(5, 2));
    o.insert(Spanned::from("~1".to_string()), num(7, 3));
    let v = Spanned::new(0, 9, Value::Object(o));
    assert_eq!(v.pointer("/a~1b").unwrap().start(), 3);
    assert_eq!(v.pointer("/m~0n").unwrap().start(), 5);
    assert_eq!(v.pointer("/~01").unwrap().start(), 7);
    assert!(v.pointer("/a/b").is_none());
    assert!(v.pointer("a").is_none());
}

#[test]
fn pointer_array_indices() {
    let v = Spanned::new(0, 9, Value::Array(vec![num(1, 0), num(3, 1), num(5, 2)]));
    assert_eq!(v.pointer("/2").unwrap().start(), 5);
    assert_eq!(v.pointer("/+1").unwrap().start(), 3);
    assert_eq!(v.pointer("/001").unwrap().start(), 3);
    assert!(v.pointer("/3").is_none());
    assert!(v.pointer("/-1").is_none());
    assert!(v.pointer("/+").is_none());
    assert!(v.pointer("/x").is_none());
    assert!(v.pointer("/99999999999999999999999").is_none());
    let scalar = num(0, 7);
    assert!(scalar.pointer("/0").is_none());
    assert_eq!(scalar.pointer("").unwrap().start(), 0);
}

#[test]
fn parse_index_values() {
    assert_eq!(parse_index(b"0"), Some(0));
    assert_eq!(parse_index(b"42"), Some(42));
    assert_eq!(parse_index(b"+7"), Some(7));
    assert_eq!(parse_index(b""), None);
    assert_eq!(parse_index(b"4a"), None);
    assert_eq!(parse_index(b"18446744073709551615"), Some(usize::MAX));
    assert_eq!(parse_index(b"18446744073709551616"), None);
}
