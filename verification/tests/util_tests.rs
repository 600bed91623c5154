use vss_client::error::VssError;
use vss_client::headers::{clone_headers, FixedHeaders, VssHeaderProvider};
use vss_client::types::KeyValue;
use vss_client::util::key_list_string;

fn kv(key: &str) -> KeyValue {
    KeyValue { key: key.to_string(), version: 0, value: b"secret payload".to_vec() }
}

#[test]
fn key_list_formats_brackets_and_separators() {
    assert_eq!(key_list_string(&vec![]), "[]");
    assert_eq!(key_list_string(&vec![kv("a")]), "[a]");
    assert_eq!(key_list_string(&vec![kv("a"), kv("b"), kv("c")]), "[a, b, c]");
}

#[test]
fn key_list_never_contains_values() {
    let line = key_list_string(&vec![kv("k1"), kv("k2")]);
    assert_eq!(line, "[k1, k2]");
    assert!(!line.contains("secret"));
}

#[test]
fn clone_headers_copies_entries() {
    let h = vec![("a".to_string(), "1".to_string()), ("b".to_string(), "2".to_string())];
    assert_eq!(clone_headers(&h), h);
}

#[test]
fn fixed_headers_returns_construction_mapping_for_any_request() {
    let mapping = vec![("x-k".to_string(), "x-v".to_string())];
    let provider = FixedHeaders::new(mapping.clone());
    assert_eq!(provider.get_headers(&Vec::new()).unwrap(), mapping);
    assert_eq!(provider.get_headers(&vec![1, 2, 3]).unwrap(), mapping);
}

#[test]
fn application_error_preserves_status_and_payload() {
    let e = VssError::new(404, b"missing".to_vec());
    assert_eq!(
        e,
        VssError::ApplicationError { status_code: 404, payload: b"missing".to_vec() }
    );
}
