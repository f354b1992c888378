use linkstore::ids::encode_id;
use linkstore::{success_message, LinkError, LinkStore};

#[test]
fn not_found_message() {
    assert_eq!(LinkError::NotFound.message(), "Url not found");
}

#[test]
fn lock_unavailable_message() {
    assert_eq!(LinkError::LockUnavailable.message(), "Error with locks");
}

#[test]
fn success_message_wraps_identifier() {
    let id = String::from("abc_-12");
    assert_eq!(
        success_message(&id),
        "Success - shortened URL: http://localhost:1029/abc_-12"
    );
}

#[test]
fn shorten_then_follow() {
    // What the two HTTP endpoints do, at the library's boundary: shorten a
    // URL, read the 7-character code out of the reported short link, and
    // follow it back to exactly the submitted URL.
    let mut store = LinkStore::new();
    let code = store.create_short_link(String::from("https://example.com"));
    assert_eq!(code.chars().count(), 7);
    let message = store.resolve(&code).map(|_| success_message(&code)).unwrap();
    assert!(message.contains(&code));
    assert!(message.starts_with("Success - shortened URL: http://localhost:1029/"));
    assert_eq!(store.resolve(&code), Ok(String::from("https://example.com")));
}

#[test]
fn encode_id_enumerates_identifiers() {
    // Least-significant digit first, alphabet a-z, A-Z, 0-9, '_', '-'.
    assert_eq!(encode_id(0), "aaaaaaa");
    assert_eq!(encode_id(1), "baaaaaa");
    assert_eq!(encode_id(25), "zaaaaaa");
    assert_eq!(encode_id(26), "Aaaaaaa");
    assert_eq!(encode_id(52), "0aaaaaa");
    assert_eq!(encode_id(61), "9aaaaaa");
    assert_eq!(encode_id(62), "_aaaaaa");
    assert_eq!(encode_id(63), "-aaaaaa");
    assert_eq!(encode_id(64), "abaaaaa");
    assert_eq!(encode_id(64 + 2), "cbaaaaa");
    assert_eq!(encode_id(4398046511103), "-------");
}
