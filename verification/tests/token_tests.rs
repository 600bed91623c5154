use bitcoin::hashes::sha256;
use bitcoin::secp256k1::ecdsa::Signature;
use bitcoin::secp256k1::{Message, PublicKey, Secp256k1, SecretKey};

use vss_client::headers::VssHeaderProvider;
use vss_client::sigs_auth::{build_token, SigsAuthProvider};

const SALT: &[u8] = b"VSS Signature Authorizer Signing Salt Constant..................";

fn hex_decode(s: &str) -> Vec<u8> {
    let bytes = s.as_bytes();
    assert!(bytes.len() % 2 == 0);
    let val = |c: u8| -> u8 {
        match c {
            b'0'..=b'9' => c - b'0',
            b'a'..=b'f' => c - b'a' + 10,
            _ => panic!("not a lower-case hex digit: {}", c as char),
        }
    };
    bytes.chunks(2).map(|p| val(p[0]) * 16 + val(p[1])).collect()
}

fn verify_token(token: &str, expected_ts: &str) -> PublicKey {
    assert!(token.len() > 194, "pubkey (66) + signature (128) + timestamp");
    let secp = Secp256k1::new();
    let pk = PublicKey::from_slice(&hex_decode(&token[0..66])).expect("embedded public key");
    let sig = Signature::from_compact(&hex_decode(&token[66..194])).expect("embedded signature");
    let ts = &token[194..];
    assert_eq!(ts, expected_ts);
    let mut msg: Vec<u8> = Vec::new();
    msg.extend_from_slice(SALT);
    msg.extend_from_slice(&pk.serialize());
    msg.extend_from_slice(ts.as_bytes());
    let digest = <sha256::Hash as bitcoin::hashes::Hash>::hash(&msg);
    let digest_bytes = <sha256::Hash as bitcoin::hashes::Hash>::to_byte_array(digest);
    secp.verify_ecdsa(&Message::from_digest(digest_bytes), &sig, &pk)
        .expect("token signature verifies against its own digest");
    pk
}

#[test]
fn salt_is_sixty_four_bytes() {
    assert_eq!(SALT.len(), 64);
}

#[test]
fn token_embeds_derived_pubkey_and_verifying_signature() {
    let key = vec![1u8; 32];
    let token = build_token(&key, 1700000000).expect("valid key");
    let pk = verify_token(&token, "1700000000");
    let secp = Secp256k1::new();
    let expected = PublicKey::from_secret_key(&secp, &SecretKey::from_slice(&key).unwrap());
    assert_eq!(pk, expected, "token opens with the key's own public key");
}

#[test]
fn tokens_at_different_times_share_pubkey_and_differ_in_suffix() {
    let key = vec![1u8; 32];
    let t1 = build_token(&key, 1111).expect("valid key");
    let t2 = build_token(&key, 2222).expect("valid key");
    assert_eq!(t1[0..66], t2[0..66], "same key decodes from both tokens");
    assert_ne!(t1[66..194], t2[66..194], "signatures cover different digests");
    assert_eq!(&t1[194..], "1111");
    assert_eq!(&t2[194..], "2222");
    verify_token(&t1, "1111");
    verify_token(&t2, "2222");
}

#[test]
fn token_generation_is_deterministic_per_timestamp() {
    let key = vec![2u8; 32];
    assert_eq!(build_token(&key, 42), build_token(&key, 42));
}

#[test]
fn invalid_keys_are_rejected() {
    assert_eq!(build_token(&vec![0u8; 32], 1), None, "zero is not a secret key");
    assert_eq!(build_token(&vec![0xFFu8; 32], 1), None, "above the curve order");
    assert_eq!(build_token(&vec![1u8; 31], 1), None, "wrong length");
    assert!(SigsAuthProvider::new(vec![0u8; 32], Vec::new()).is_none());
    assert!(SigsAuthProvider::new(vec![3u8; 32], Vec::new()).is_some());
}

#[test]
fn headers_merge_defaults_and_token_wins_collisions() {
    let key = vec![1u8; 32];
    let defaults = vec![
        ("x-app".to_string(), "wallet".to_string()),
        ("Authorization".to_string(), "stale credential".to_string()),
        ("x-zone".to_string(), "eu".to_string()),
    ];
    let provider = SigsAuthProvider::new(key.clone(), defaults).expect("valid key");
    let now = 1700000123;
    let headers = provider.headers_at(now);
    let expected_token = build_token(&key, now).unwrap();
    assert_eq!(
        headers,
        vec![
            ("x-app".to_string(), "wallet".to_string()),
            ("x-zone".to_string(), "eu".to_string()),
            ("Authorization".to_string(), expected_token),
        ],
        "defaults kept in order, caller's Authorization replaced, token last"
    );
}

#[test]
fn get_headers_produces_a_verifying_authorization_token() {
    let key = vec![7u8; 32];
    let provider = SigsAuthProvider::new(key, Vec::new()).expect("valid key");
    let headers = provider.get_headers(&b"request bytes".to_vec()).expect("clock is sane");
    assert_eq!(headers.len(), 1);
    let (name, token) = &headers[0];
    assert_eq!(name, "Authorization");
    let ts = token[194..].to_string();
    verify_token(token, &ts);
}

#[test]
fn get_headers_ignores_request_content_for_the_embedded_key() {
    let key = vec![9u8; 32];
    let provider = SigsAuthProvider::new(key, Vec::new()).expect("valid key");
    let h1 = provider.get_headers(&b"one".to_vec()).unwrap();
    let h2 = provider.get_headers(&b"a completely different request".to_vec()).unwrap();
    assert_eq!(h1[0].1[0..66], h2[0].1[0..66], "same identity whatever the payload");
}
