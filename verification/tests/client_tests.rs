use std::cell::RefCell;

use vss_client::client::{HttpRequest, HttpResponse, RetryPolicy, VssClient, VssTransport};
use vss_client::codec::{encode_get_object_response, encode_list_key_versions_response};
use vss_client::error::VssError;
use vss_client::headers::{FixedHeaders, VssHeaderProvider, VssHeaderProviderError};
use vss_client::types::{GetObjectRequest, GetObjectResponse, KeyValue, ListKeyVersionsRequest,
    ListKeyVersionsResponse, PutObjectRequest};

/// A record of one request the mock transport saw.
struct SentRequest {
    url: String,
    pipelining: bool,
    headers: Vec<(String, String)>,
    body: Vec<u8>,
}

/// A transport that replays a script of outcomes and records every request.
struct ScriptedTransport {
    script: RefCell<Vec<Result<(u16, Vec<u8>), String>>>,
    sent: RefCell<Vec<SentRequest>>,
}

impl ScriptedTransport {
    fn new(mut script: Vec<Result<(u16, Vec<u8>), String>>) -> Self {
        script.reverse();
        ScriptedTransport { script: RefCell::new(script), sent: RefCell::new(Vec::new()) }
    }
}

impl VssTransport for ScriptedTransport {
    fn send_request(&self, req: &HttpRequest) -> Result<HttpResponse, String> {
        self.sent.borrow_mut().push(SentRequest {
            url: req.url.clone(),
            pipelining: req.pipelining,
            headers: req.headers.clone(),
            body: req.body.clone(),
        });
        match self.script.borrow_mut().pop().expect("script exhausted") {
            Ok((status_code, body)) => Ok(HttpResponse { status_code, body }),
            Err(msg) => Err(msg),
        }
    }

    fn sleep_ms(&self, _ms: u64) {}
}

/// Retries transport failures and 5xx up to a fixed budget; everything else
/// is terminal.
struct TransientPolicy {
    max_attempts: u32,
}

impl RetryPolicy for TransientPolicy {
    fn next_delay_ms(&self, error: &VssError, attempts_made: u32) -> Option<u64> {
        if attempts_made + 1 >= self.max_attempts {
            return None;
        }
        match error {
            VssError::TransportError(_) => Some(1),
            VssError::ApplicationError { status_code, .. } if *status_code >= 500 => Some(1),
            _ => None,
        }
    }
}

fn kv(key: &str, version: u64, value: &[u8]) -> KeyValue {
    KeyValue { key: key.to_string(), version, value: value.to_vec() }
}

fn get_request() -> GetObjectRequest {
    GetObjectRequest { store_id: "store".to_string(), key: "k1".to_string() }
}

#[test]
fn get_succeeds_on_third_attempt_after_transient_failures() {
    let value = kv("k1", 7, b"payload");
    let good_body = encode_get_object_response(&GetObjectResponse {
        value: Some(value.clone()),
    });
    let transport = ScriptedTransport::new(vec![
        Ok((503, Vec::new())),
        Ok((503, Vec::new())),
        Ok((200, good_body)),
    ]);
    let client = VssClient::from_client_and_headers(
        "http://vss.example".to_string(),
        transport,
        TransientPolicy { max_attempts: 5 },
        FixedHeaders::new(Vec::new()),
    );
    let res = client.get_object(&get_request());
    assert_eq!(res, Ok(GetObjectResponse { value: Some(value) }));
}

#[test]
fn get_retries_exactly_as_scripted_and_pipelines_every_attempt() {
    let good_body = encode_get_object_response(&GetObjectResponse {
        value: Some(kv("k1", 7, b"v")),
    });
    let transport = ScriptedTransport::new(vec![
        Ok((503, Vec::new())),
        Ok((503, Vec::new())),
        Ok((200, good_body)),
    ]);
    let client = VssClient::from_client_and_headers(
        "http://vss.example".to_string(),
        transport,
        TransientPolicy { max_attempts: 5 },
        FixedHeaders::new(Vec::new()),
    );
    let res = client.get_object(&get_request());
    assert!(res.is_ok());
    let sent = client.transport().sent.borrow();
    assert_eq!(sent.len(), 3);
    for s in sent.iter() {
        assert_eq!(s.url, "http://vss.example/getObject");
        assert!(s.pipelining);
    }
}

#[test]
fn get_gives_up_when_policy_says_terminal() {
    let transport = ScriptedTransport::new(vec![Ok((503, Vec::new())), Ok((503, Vec::new()))]);
    let client = VssClient::from_client_and_headers(
        "http://vss.example".to_string(),
        transport,
        TransientPolicy { max_attempts: 2 },
        FixedHeaders::new(Vec::new()),
    );
    let res = client.get_object(&get_request());
    assert_eq!(res, Err(VssError::ApplicationError { status_code: 503, payload: Vec::new() }));
    assert_eq!(client.transport().sent.borrow().len(), 2);
}

#[test]
fn get_missing_value_is_protocol_violation_not_success() {
    // 200 with an empty body decodes to a response without a value.
    let transport = ScriptedTransport::new(vec![Ok((200, Vec::new()))]);
    let client = VssClient::from_client_and_headers(
        "http://vss.example".to_string(),
        transport,
        TransientPolicy { max_attempts: 5 },
        FixedHeaders::new(Vec::new()),
    );
    match client.get_object(&get_request()) {
        Err(VssError::ProtocolViolation(_)) => {},
        other => panic!("expected protocol violation, got {:?}", other),
    }
    // The lenient policy never saw a retryable error: one attempt only.
    assert_eq!(client.transport().sent.borrow().len(), 1);
}

#[test]
fn get_garbage_body_is_decode_error() {
    let transport = ScriptedTransport::new(vec![Ok((200, vec![0xFF, 0x00, 0x01]))]);
    let client = VssClient::from_client_and_headers(
        "http://vss.example".to_string(),
        transport,
        TransientPolicy { max_attempts: 5 },
        FixedHeaders::new(Vec::new()),
    );
    match client.get_object(&get_request()) {
        Err(VssError::DecodeError(_)) => {},
        other => panic!("expected decode error, got {:?}", other),
    }
}

#[test]
fn get_transport_failure_becomes_transport_error() {
    let transport = ScriptedTransport::new(vec![Err("connection refused".to_string())]);
    let client = VssClient::from_client_and_headers(
        "http://vss.example".to_string(),
        transport,
        TransientPolicy { max_attempts: 1 },
        FixedHeaders::new(Vec::new()),
    );
    assert_eq!(
        client.get_object(&get_request()),
        Err(VssError::TransportError("connection refused".to_string()))
    );
}

#[test]
fn get_twice_against_identical_state_decodes_identically() {
    let value = kv("k1", 3, b"stable");
    let body = encode_get_object_response(&GetObjectResponse { value: Some(value) });
    let transport = ScriptedTransport::new(vec![
        Ok((200, body.clone())),
        Ok((200, body)),
    ]);
    let client = VssClient::from_client_and_headers(
        "http://vss.example".to_string(),
        transport,
        TransientPolicy { max_attempts: 1 },
        FixedHeaders::new(Vec::new()),
    );
    let first = client.get_object(&get_request());
    let second = client.get_object(&get_request());
    assert!(first.is_ok());
    assert_eq!(first, second);
}

#[test]
fn put_400_fails_immediately_with_status_and_payload() {
    let error_payload = b"bad request details".to_vec();
    let transport = ScriptedTransport::new(vec![Ok((400, error_payload.clone()))]);
    let client = VssClient::from_client_and_headers(
        "http://vss.example".to_string(),
        transport,
        TransientPolicy { max_attempts: 5 },
        FixedHeaders::new(Vec::new()),
    );
    let req = PutObjectRequest {
        store_id: "store".to_string(),
        transaction_items: vec![kv("a", 0, b"x")],
        delete_items: vec![],
    };
    let res = client.put_object(&req);
    assert_eq!(
        res,
        Err(VssError::ApplicationError { status_code: 400, payload: error_payload })
    );
    let sent = client.transport().sent.borrow();
    assert_eq!(sent.len(), 1, "a terminal 4xx must not be retried");
    assert_eq!(sent[0].url, "http://vss.example/putObjects");
    assert!(!sent[0].pipelining, "a transactional put must never pipeline");
}

#[test]
fn put_succeeds_on_empty_2xx_body() {
    let transport = ScriptedTransport::new(vec![Ok((200, Vec::new()))]);
    let client = VssClient::from_client_and_headers(
        "http://vss.example".to_string(),
        transport,
        TransientPolicy { max_attempts: 1 },
        FixedHeaders::new(Vec::new()),
    );
    let req = PutObjectRequest {
        store_id: "store".to_string(),
        transaction_items: vec![kv("a", 0, b"x")],
        delete_items: vec![],
    };
    assert!(client.put_object(&req).is_ok());
}

#[test]
fn list_with_empty_next_token_signals_exhaustion_not_error() {
    let page = ListKeyVersionsResponse {
        key_versions: vec![kv("a", 1, &[]), kv("b", 2, &[])],
        next_page_token: None,
    };
    let body = encode_list_key_versions_response(&page);
    let transport = ScriptedTransport::new(vec![Ok((200, body))]);
    let client = VssClient::from_client_and_headers(
        "http://vss.example".to_string(),
        transport,
        TransientPolicy { max_attempts: 1 },
        FixedHeaders::new(Vec::new()),
    );
    let req = ListKeyVersionsRequest {
        store_id: "store".to_string(),
        key_prefix: None,
        page_size: None,
        page_token: Some("resume-here".to_string()),
    };
    let res = client.list_key_versions(&req).expect("exhaustion is success");
    assert_eq!(res, page);
    assert_eq!(res.next_page_token, None);
    let sent = client.transport().sent.borrow();
    assert_eq!(sent[0].url, "http://vss.example/listKeyVersions");
    assert!(sent[0].pipelining);
}

#[test]
fn fixed_headers_attached_verbatim_to_every_attempt() {
    let good_body = encode_get_object_response(&GetObjectResponse {
        value: Some(kv("k1", 1, b"v")),
    });
    let transport = ScriptedTransport::new(vec![
        Ok((503, Vec::new())),
        Ok((200, good_body)),
    ]);
    let fixed = vec![
        ("x-tenant".to_string(), "t1".to_string()),
        ("x-trace".to_string(), "abc".to_string()),
    ];
    let client = VssClient::from_client_and_headers(
        "http://vss.example".to_string(),
        transport,
        TransientPolicy { max_attempts: 3 },
        FixedHeaders::new(fixed.clone()),
    );
    client.get_object(&get_request()).expect("succeeds on retry");
    let sent = client.transport().sent.borrow();
    assert_eq!(sent.len(), 2);
    for s in sent.iter() {
        assert_eq!(s.headers, fixed, "same mapping on every attempt, retries included");
    }
}

#[test]
fn fixed_headers_independent_of_request_content() {
    let transport = ScriptedTransport::new(vec![Ok((200, Vec::new())), Ok((200, Vec::new()))]);
    let fixed = vec![("x-static".to_string(), "same".to_string())];
    let client = VssClient::from_client_and_headers(
        "http://vss.example".to_string(),
        transport,
        TransientPolicy { max_attempts: 1 },
        FixedHeaders::new(fixed.clone()),
    );
    let req_a = PutObjectRequest {
        store_id: "store".to_string(),
        transaction_items: vec![kv("a", 0, b"first")],
        delete_items: vec![],
    };
    let req_b = PutObjectRequest {
        store_id: "other".to_string(),
        transaction_items: vec![kv("b", 9, b"second entirely different")],
        delete_items: vec![kv("c", 1, &[])],
    };
    let _ = client.put_object(&req_a);
    let _ = client.put_object(&req_b);
    let sent = client.transport().sent.borrow();
    assert_ne!(sent[0].body, sent[1].body);
    assert_eq!(sent[0].headers, fixed);
    assert_eq!(sent[1].headers, fixed);
}

/// A provider that always fails, to exercise the authentication error path.
struct FailingProvider;

impl VssHeaderProvider for FailingProvider {
    fn get_headers(
        &self,
        _request: &Vec<u8>,
    ) -> Result<Vec<(String, String)>, VssHeaderProviderError> {
        Err(VssHeaderProviderError { message: "signer unavailable".to_string() })
    }
}

#[test]
fn header_provider_failure_becomes_auth_error() {
    let transport = ScriptedTransport::new(vec![]);
    let client = VssClient::from_client_and_headers(
        "http://vss.example".to_string(),
        transport,
        TransientPolicy { max_attempts: 3 },
        FailingProvider,
    );
    assert_eq!(
        client.get_object(&get_request()),
        Err(VssError::AuthError("signer unavailable".to_string()))
    );
    assert_eq!(client.transport().sent.borrow().len(), 0, "nothing was sent");
}

#[test]
fn base_url_is_returned_verbatim() {
    let transport = ScriptedTransport::new(vec![]);
    let client = VssClient::from_client(
        "http://vss.example".to_string(),
        transport,
        TransientPolicy { max_attempts: 1 },
    );
    assert_eq!(client.base_url(), "http://vss.example");
}

#[test]
fn status_class_boundaries() {
    // 299 is still success; 300 and 199 are not.
    let value = kv("k1", 1, b"v");
    let body = encode_get_object_response(&GetObjectResponse { value: Some(value) });
    let transport = ScriptedTransport::new(vec![
        Ok((299, body)),
        Ok((300, b"redirected".to_vec())),
        Ok((199, Vec::new())),
    ]);
    let client = VssClient::from_client_and_headers(
        "http://vss.example".to_string(),
        transport,
        TransientPolicy { max_attempts: 1 },
        FixedHeaders::new(Vec::new()),
    );
    assert!(client.get_object(&get_request()).is_ok());
    assert_eq!(
        client.get_object(&get_request()),
        Err(VssError::ApplicationError { status_code: 300, payload: b"redirected".to_vec() })
    );
    assert_eq!(
        client.get_object(&get_request()),
        Err(VssError::ApplicationError { status_code: 199, payload: Vec::new() })
    );
}
