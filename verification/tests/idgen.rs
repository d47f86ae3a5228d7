use url_shortener::idgen::generate_id;
use url_shortener::idgen::ID_LENGTH;

#[test]
fn generated_identifier_shape() {
    for _ in 0..100 {
        let id = generate_id();
        assert_eq!(id.len(), ID_LENGTH);
        assert!(id
            .chars()
            .all(|c| c.is_ascii_alphanumeric() || c == '_' || c == '-'));
    }
}

#[test]
fn generated_identifiers_vary() {
    // Sixty-four to the sixth power values: twenty identical draws in a row
    // would mean a broken randomness source.
    let ids: Vec<String> = (0..20).map(|_| generate_id()).collect();
    let mut sorted = ids.clone();
    sorted.sort();
    sorted.dedup();
    assert!(sorted.len() > 1);
}
