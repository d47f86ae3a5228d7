use url_shortener::store::LinkStore;

fn is_url_safe(c: char) -> bool {
    c.is_ascii_alphanumeric() || c == '_' || c == '-'
}

#[test]
fn scenario_fixed_identifier() {
    let mut store = LinkStore::new();
    let inserted = store.insert_if_absent("abc123".to_string(), "http://example.com".to_string());
    assert!(inserted);
    assert_eq!(
        store.lookup(&"abc123".to_string()),
        Some("http://example.com".to_string())
    );
    assert_eq!(store.lookup(&"zzzzzz".to_string()), None);
}

#[test]
fn create_then_lookup_returns_target() {
    let mut store = LinkStore::new();
    let id = store.create("http://example.com".to_string()).unwrap();
    assert_eq!(store.lookup(&id), Some("http://example.com".to_string()));
}

#[test]
fn lookup_on_fresh_store_is_not_found() {
    let store = LinkStore::new();
    assert_eq!(store.lookup(&"abc123".to_string()), None);
    assert_eq!(store.lookup(&"".to_string()), None);
}

#[test]
fn lookup_of_never_created_identifier_is_not_found() {
    let mut store = LinkStore::new();
    let id = store.create("http://example.com/a".to_string()).unwrap();
    // An identifier of a different length can never have been handed out.
    let foreign = format!("{}x", id);
    assert_eq!(store.lookup(&foreign), None);
}

#[test]
fn created_identifiers_are_distinct() {
    let mut store = LinkStore::new();
    let n = 100;
    let mut ids = Vec::new();
    for i in 0..n {
        let id = store.create(format!("http://example.com/{}", i)).unwrap();
        ids.push(id);
    }
    let mut sorted = ids.clone();
    sorted.sort();
    sorted.dedup();
    assert_eq!(sorted.len(), n);
    for (i, id) in ids.iter().enumerate() {
        assert_eq!(store.lookup(id), Some(format!("http://example.com/{}", i)));
    }
}

#[test]
fn created_identifier_has_fixed_length_and_alphabet() {
    let mut store = LinkStore::new();
    for i in 0..50 {
        let id = store.create(format!("http://example.com/{}", i)).unwrap();
        assert_eq!(id.len(), 6);
        assert!(id.chars().all(is_url_safe));
    }
}

#[test]
fn same_target_twice_gives_two_working_identifiers() {
    let mut store = LinkStore::new();
    let first = store.create("http://example.com".to_string()).unwrap();
    let second = store.create("http://example.com".to_string()).unwrap();
    assert_ne!(first, second);
    assert_eq!(store.lookup(&first), Some("http://example.com".to_string()));
    assert_eq!(store.lookup(&second), Some("http://example.com".to_string()));
}

#[test]
fn lookup_is_idempotent() {
    let mut store = LinkStore::new();
    let id = store.create("http://example.com".to_string()).unwrap();
    let first = store.lookup(&id);
    let second = store.lookup(&id);
    assert_eq!(first, second);
    let absent_first = store.lookup(&"zzzzzz".to_string());
    let absent_second = store.lookup(&"zzzzzz".to_string());
    assert_eq!(absent_first, absent_second);
    assert_eq!(absent_first, None);
}

#[test]
fn taken_identifier_is_never_overwritten() {
    let mut store = LinkStore::new();
    assert!(store.insert_if_absent("abc123".to_string(), "http://example.com".to_string()));
    let second = store.insert_if_absent("abc123".to_string(), "http://other.example".to_string());
    assert!(!second);
    assert_eq!(
        store.lookup(&"abc123".to_string()),
        Some("http://example.com".to_string())
    );
}

#[test]
fn contains_reports_exactly_the_stored_identifiers() {
    let mut store = LinkStore::new();
    assert!(!store.contains_id(&"abc123".to_string()));
    let id = store.create("http://example.com".to_string()).unwrap();
    assert!(store.contains_id(&id));
    // Seven characters: no created identifier can ever have this shape.
    assert!(!store.contains_id(&"abcdefg".to_string()));
}
