use json_spanned_value::{ObjectMap, Settings, Spanned};

fn with_duplicates(allow: bool) -> Option<Settings> {
    Some(Settings { allow_duplicate_keys: allow, ..Settings::default() })
}

fn key(start: usize, k: &str) -> Spanned<String> {
    Spanned::new(start, start + k.len() + 2, k.to_string())
}

#[test]
fn duplicate_key_replaces_value_when_allowed() {
    // {"a": 1, "a": 2}
    let mut m: ObjectMap<Spanned<String>, u64> = ObjectMap::new();
    assert_eq!(m.insert_checked(key(1, "a"), 1, with_duplicates(true)).ok(), Some(None));
    assert_eq!(m.insert_checked(key(9, "a"), 2, with_duplicates(true)).ok(), Some(Some(1)));
    assert_eq!(m.len(), 1);
    assert_eq!(m.get("a"), Some(&2));
    let (k, _) = m.get_key_value("a").unwrap();
    assert_eq!(k.span(), (1, 4));
}

#[test]
fn duplicate_key_refused_when_disallowed() {
    let mut m: ObjectMap<Spanned<String>, u64> = ObjectMap::new();
    assert!(m.insert_checked(key(1, "a"), 1, with_duplicates(false)).is_ok());
    let refused = m.insert_checked(key(9, "a"), 2, with_duplicates(false)).unwrap_err();
    assert_eq!(refused.get_ref(), "a");
    assert_eq!(refused.span(), (9, 12));
    assert_eq!(m.get("a"), Some(&1));
    assert_eq!(m.len(), 1);
}

#[test]
fn duplicate_key_refused_without_settings() {
    let mut m: ObjectMap<String, u64> = ObjectMap::new();
    assert!(m.insert_checked("a".to_string(), 1, None).is_ok());
    assert!(m.insert_checked("b".to_string(), 2, None).is_ok());
    assert_eq!(m.insert_checked("a".to_string(), 3, None).unwrap_err(), "a");
    assert_eq!(m.len(), 2);
}

#[test]
fn insertion_order_kept() {
    let mut m: ObjectMap<String, u64> = ObjectMap::new();
    m.insert("z".to_string(), 1);
    m.insert("a".to_string(), 2);
    m.insert("m".to_string(), 3);
    assert_eq!(m.insert("a".to_string(), 4), Some(2));
    let keys: Vec<String> = m.into_entries().into_iter().map(|(k, _)| k).collect();
    assert_eq!(keys, vec!["z", "a", "m"]);
}

#[test]
fn map_lookup_and_removal() {
    let mut m: ObjectMap<String, u64> = ObjectMap::new();
    assert!(m.is_empty());
    m.insert("a".to_string(), 1);
    m.insert("é".to_string(), 2);
    m.insert("c".to_string(), 3);
    assert!(m.contains_key("é"));
    assert!(!m.contains_key("e"));
    if let Some(v) = m.get_mut("c") {
        *v = 30;
    }
    assert_eq!(m.get("c"), Some(&30));
    assert_eq!(m.remove("a"), Some(1));
    assert_eq!(m.remove("a"), None);
    assert_eq!(m.remove_entry("é"), Some(("é".to_string(), 2)));
    assert_eq!(m.len(), 1);
    m.clear();
    assert!(m.is_empty());
    assert_eq!(m.get("c"), None);
}

#[test]
fn value_at_mut_updates_by_position() {
    let mut m: ObjectMap<String, u64> = ObjectMap::new();
    m.insert("a".to_string(), 1);
    m.insert("b".to_string(), 2);
    *m.value_at_mut(1) += 40;
    assert_eq!(m.get("b"), Some(&42));
    assert_eq!(m.get("a"), Some(&1));
    let (k, v) = m.entry_at(1);
    assert_eq!((k.as_str(), *v), ("b", 42));
}
