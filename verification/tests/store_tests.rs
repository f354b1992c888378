use std::collections::HashSet;

use linkstore::{LinkError, LinkStore, SHORT_ID_LEN};

fn is_url_safe(c: char) -> bool {
    c.is_ascii_lowercase() || c.is_ascii_uppercase() || c.is_ascii_digit() || c == '_' || c == '-'
}

#[test]
fn round_trip_single() {
    let mut store = LinkStore::new();
    let id = store.create_short_link(String::from("https://example.com"));
    assert_eq!(store.resolve(&id), Ok(String::from("https://example.com")));
}

#[test]
fn round_trip_many() {
    let mut store = LinkStore::new();
    let mut pairs: Vec<(String, String)> = Vec::new();
    for k in 0..50 {
        let url = format!("https://example.com/page/{k}");
        let id = store.create_short_link(url.clone());
        pairs.push((id, url));
    }
    for (id, url) in &pairs {
        assert_eq!(store.resolve(id), Ok(url.clone()));
    }
}

#[test]
fn round_trip_empty_url() {
    let mut store = LinkStore::new();
    let id = store.create_short_link(String::new());
    assert_eq!(store.resolve(&id), Ok(String::new()));
}

#[test]
fn unknown_key_on_empty_store() {
    let store = LinkStore::new();
    assert_eq!(
        store.resolve(&String::from("abcdefg")),
        Err(LinkError::NotFound)
    );
}

#[test]
fn unknown_key_after_creates() {
    let mut store = LinkStore::new();
    for k in 0..20 {
        store.create_short_link(format!("https://example.com/{k}"));
    }
    // Created identifiers always have 7 characters, so keys of any other
    // length can never have been handed out.
    assert_eq!(store.resolve(&String::from("")), Err(LinkError::NotFound));
    assert_eq!(
        store.resolve(&String::from("abc")),
        Err(LinkError::NotFound)
    );
    assert_eq!(
        store.resolve(&String::from("abcdefgh")),
        Err(LinkError::NotFound)
    );
    assert!(!store.contains_key(&String::from("abcdefgh")));
}

#[test]
fn identifier_shape() {
    let mut store = LinkStore::new();
    for k in 0..500 {
        let id = store.create_short_link(format!("https://example.com/{k}"));
        assert_eq!(id.chars().count(), SHORT_ID_LEN);
        assert!(id.chars().all(is_url_safe), "bad identifier: {id}");
    }
}

#[test]
fn identifiers_distinct_and_bindings_immutable() {
    let mut store = LinkStore::new();
    let first_url = String::from("https://example.com/first");
    let first_id = store.create_short_link(first_url.clone());
    let mut seen: HashSet<String> = HashSet::new();
    seen.insert(first_id.clone());
    for k in 0..3000 {
        let id = store.create_short_link(format!("https://example.com/{k}"));
        assert!(seen.insert(id), "an identifier was handed out twice");
    }
    // The very first binding is still exactly what it was.
    assert_eq!(store.resolve(&first_id), Ok(first_url));
}

#[test]
fn contains_key_tracks_creates() {
    let mut store = LinkStore::new();
    let id = store.create_short_link(String::from("https://example.com"));
    assert!(store.contains_key(&id));
    assert!(!store.contains_key(&String::from("0000000")) || id == "0000000");
}

#[test]
fn len_counts_links() {
    let mut store = LinkStore::new();
    assert_eq!(store.len(), 0);
    for k in 0..10usize {
        store.create_short_link(format!("https://example.com/{k}"));
        assert_eq!(store.len(), k + 1);
    }
}
