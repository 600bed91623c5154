use vss_client::codec::{decode_delete_object_response, decode_get_object_response,
    decode_list_key_versions_response, decode_put_object_response, encode_delete_object_request,
    encode_get_object_request, encode_get_object_response, encode_key_value,
    encode_list_key_versions_request, encode_list_key_versions_response,
    encode_put_object_request};
use vss_client::types::{DeleteObjectRequest, GetObjectRequest, GetObjectResponse, KeyValue,
    ListKeyVersionsRequest, ListKeyVersionsResponse, PutObjectRequest};

fn kv(key: &str, version: u64, value: &[u8]) -> KeyValue {
    KeyValue { key: key.to_string(), version, value: value.to_vec() }
}

#[test]
fn key_value_exact_bytes() {
    let encoded = encode_key_value(&kv("k", 1, &[0xAB]));
    assert_eq!(encoded, vec![0x0A, 0x01, 0x6B, 0x10, 0x01, 0x1A, 0x01, 0xAB]);
}

#[test]
fn key_value_multibyte_varint_version() {
    // 300 = 0b100101100: low seven bits 0x2C with continuation, then 0x02.
    let encoded = encode_key_value(&kv("k", 300, &[]));
    assert_eq!(encoded, vec![0x0A, 0x01, 0x6B, 0x10, 0xAC, 0x02, 0x1A, 0x00]);
}

#[test]
fn get_request_exact_bytes() {
    let req = GetObjectRequest { store_id: "s".to_string(), key: "k".to_string() };
    assert_eq!(encode_get_object_request(&req), vec![0x0A, 0x01, 0x73, 0x12, 0x01, 0x6B]);
}

#[test]
fn put_request_exact_bytes() {
    let req = PutObjectRequest {
        store_id: "s".to_string(),
        transaction_items: vec![kv("a", 0, &[0x01])],
        delete_items: vec![kv("b", 2, &[])],
    };
    assert_eq!(
        encode_put_object_request(&req),
        vec![
            0x0A, 0x01, 0x73, // store_id "s"
            0x12, 0x08, 0x0A, 0x01, 0x61, 0x10, 0x00, 0x1A, 0x01, 0x01, // item a
            0x1A, 0x07, 0x0A, 0x01, 0x62, 0x10, 0x02, 0x1A, 0x00, // delete b
        ]
    );
}

#[test]
fn delete_request_exact_bytes() {
    let req = DeleteObjectRequest {
        store_id: "s".to_string(),
        key_value: Some(kv("k", 7, &[])),
    };
    assert_eq!(
        encode_delete_object_request(&req),
        vec![0x0A, 0x01, 0x73, 0x12, 0x07, 0x0A, 0x01, 0x6B, 0x10, 0x07, 0x1A, 0x00]
    );
}

#[test]
fn list_request_exact_bytes_all_fields() {
    let req = ListKeyVersionsRequest {
        store_id: "s".to_string(),
        key_prefix: Some("p".to_string()),
        page_size: Some(5),
        page_token: Some("t".to_string()),
    };
    assert_eq!(
        encode_list_key_versions_request(&req),
        vec![0x0A, 0x01, 0x73, 0x12, 0x01, 0x70, 0x18, 0x05, 0x22, 0x01, 0x74]
    );
}

#[test]
fn list_request_omits_absent_fields() {
    let req = ListKeyVersionsRequest {
        store_id: "s".to_string(),
        key_prefix: None,
        page_size: None,
        page_token: None,
    };
    assert_eq!(encode_list_key_versions_request(&req), vec![0x0A, 0x01, 0x73]);
}

#[test]
fn get_response_round_trip_with_value() {
    let resp = GetObjectResponse { value: Some(kv("key-1", 42, b"some value")) };
    let encoded = encode_get_object_response(&resp);
    assert_eq!(decode_get_object_response(&encoded), Some(resp));
}

#[test]
fn get_response_round_trip_without_value() {
    let resp = GetObjectResponse { value: None };
    let encoded = encode_get_object_response(&resp);
    assert_eq!(encoded, Vec::<u8>::new());
    assert_eq!(decode_get_object_response(&encoded), Some(resp));
}

#[test]
fn get_response_rejects_garbage() {
    assert_eq!(decode_get_object_response(&vec![0xFF, 0xFF]), None);
    assert_eq!(decode_get_object_response(&vec![0x0A, 0x05, 0x01]), None);
}

#[test]
fn get_response_rejects_trailing_bytes() {
    let resp = GetObjectResponse { value: Some(kv("k", 1, &[])) };
    let mut encoded = encode_get_object_response(&resp);
    encoded.push(0x00);
    assert_eq!(decode_get_object_response(&encoded), None);
}

#[test]
fn get_response_rejects_invalid_utf8_key() {
    // A record whose key bytes are not UTF-8: 0A 03 (nested len 3 record is
    // malformed on purpose).
    let body = vec![0x0A, 0x06, 0x0A, 0x01, 0xFF, 0x10, 0x00, 0x1A];
    assert_eq!(decode_get_object_response(&body), None);
}

#[test]
fn list_response_round_trip_with_token() {
    let resp = ListKeyVersionsResponse {
        key_versions: vec![kv("a", 1, &[]), kv("b", 2, &[]), kv("c", 3, &[])],
        next_page_token: Some("next".to_string()),
    };
    let encoded = encode_list_key_versions_response(&resp);
    assert_eq!(decode_list_key_versions_response(&encoded), Some(resp));
}

#[test]
fn list_response_round_trip_exhausted() {
    let resp = ListKeyVersionsResponse {
        key_versions: vec![kv("only", 9, &[])],
        next_page_token: None,
    };
    let encoded = encode_list_key_versions_response(&resp);
    assert_eq!(decode_list_key_versions_response(&encoded), Some(resp));
}

#[test]
fn list_response_round_trip_empty() {
    let resp = ListKeyVersionsResponse { key_versions: vec![], next_page_token: None };
    let encoded = encode_list_key_versions_response(&resp);
    assert_eq!(encoded, Vec::<u8>::new());
    assert_eq!(decode_list_key_versions_response(&encoded), Some(resp));
}

#[test]
fn empty_responses_accept_only_empty_bodies() {
    assert!(decode_put_object_response(&Vec::new()).is_some());
    assert!(decode_put_object_response(&vec![0x00]).is_none());
    assert!(decode_delete_object_response(&Vec::new()).is_some());
    assert!(decode_delete_object_response(&vec![0x01]).is_none());
}

#[test]
fn round_trip_maximal_version() {
    // u64::MAX exercises the longest ten-byte varint.
    let resp = GetObjectResponse { value: Some(kv("k", u64::MAX, &[])) };
    let encoded = encode_get_object_response(&resp);
    assert_eq!(decode_get_object_response(&encoded), Some(resp));
}

#[test]
fn round_trip_unicode_key() {
    let resp = GetObjectResponse { value: Some(kv("clé-ключ-鍵", 1, b"v")) };
    let encoded = encode_get_object_response(&resp);
    assert_eq!(decode_get_object_response(&encoded), Some(resp));
}

#[test]
fn decode_tolerates_omitted_default_fields() {
    // A peer that elides default-valued fields sends a record with version 0
    // and an empty value as just its key field.
    let body = vec![0x0A, 0x03, 0x0A, 0x01, 0x6B];
    assert_eq!(
        decode_get_object_response(&body),
        Some(GetObjectResponse { value: Some(kv("k", 0, &[])) })
    );
    // A record of nothing but defaults is an empty nested message.
    let body = vec![0x0A, 0x00];
    assert_eq!(
        decode_get_object_response(&body),
        Some(GetObjectResponse { value: Some(kv("", 0, &[])) })
    );
    // An omitted key with a present version also decodes.
    let body = vec![0x0A, 0x02, 0x10, 0x07];
    assert_eq!(
        decode_get_object_response(&body),
        Some(GetObjectResponse { value: Some(kv("", 7, &[])) })
    );
}

#[test]
fn decode_skips_unknown_fields_in_responses() {
    // An unknown varint field (number 7) before and after the record field.
    let body = vec![
        0x38, 0x01, // unknown field 7, varint 1
        0x0A, 0x05, 0x0A, 0x01, 0x6B, 0x10, 0x2A, // record: key "k", version 42
        0x38, 0x02, // unknown field 7, varint 2
    ];
    assert_eq!(
        decode_get_object_response(&body),
        Some(GetObjectResponse { value: Some(kv("k", 42, &[])) })
    );
    // An unknown length-delimited field (number 7) alone decodes as "no record".
    let body = vec![0x3A, 0x02, 0xAA, 0xBB];
    assert_eq!(decode_get_object_response(&body), Some(GetObjectResponse { value: None }));
}

#[test]
fn decode_skips_unknown_fields_inside_a_record() {
    // Inside the record, an unknown field (number 4) between key and version.
    let body = vec![
        0x0A, 0x08, // record field, 8 bytes
        0x0A, 0x01, 0x6B, // key "k"
        0x22, 0x01, 0xFF, // unknown field 4, 1 payload byte
        0x10, 0x2A, // version 42
    ];
    assert_eq!(
        decode_get_object_response(&body),
        Some(GetObjectResponse { value: Some(kv("k", 42, &[])) })
    );
}

#[test]
fn list_decode_skips_unknown_fields_between_items_and_token() {
    let body = vec![
        0x0A, 0x07, 0x0A, 0x01, 0x61, 0x10, 0x01, 0x1A, 0x00, // record "a", v1
        0x38, 0x05, // unknown field 7
        0x12, 0x01, 0x74, // next-page token "t"
        0x38, 0x00, // trailing unknown field 7
    ];
    assert_eq!(
        decode_list_key_versions_response(&body),
        Some(ListKeyVersionsResponse {
            key_versions: vec![kv("a", 1, &[])],
            next_page_token: Some("t".to_string()),
        })
    );
}

#[test]
fn decode_rejects_malformed_unknown_fields() {
    // Wire type 3 (a group) is not skippable: the buffer cannot be parsed.
    assert_eq!(decode_get_object_response(&vec![0x3B, 0x00]), None);
    // A truncated unknown length-delimited field is rejected too.
    assert_eq!(decode_get_object_response(&vec![0x3A, 0x05, 0x01]), None);
}
