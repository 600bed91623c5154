//! The request client: one typed remote procedure call per operation, with
//! authentication, uniform retry governance, and a typed error taxonomy.
//!
//! Each call serializes its request, then loops: ask the header provider
//! for headers, send over the transport with the operation's fixed
//! pipelining hint, classify the outcome, and either return, or consult the
//! retry policy for a delay before the next attempt.

use vstd::prelude::*;
use crate::codec::{encode_get_object_request, encode_put_object_request,
    encode_delete_object_request, encode_list_key_versions_request, decode_get_object_response,
    decode_put_object_response, decode_delete_object_response,
    decode_list_key_versions_response, parse_get_object_response,
    parse_list_key_versions_response};
use crate::error::VssError;
use crate::headers::{headers_view, FixedHeaders, VssHeaderProvider};
use crate::types::{GetObjectRequest, GetObjectResponse, PutObjectRequest, PutObjectResponse,
    DeleteObjectRequest, DeleteObjectResponse, ListKeyVersionsRequest, ListKeyVersionsResponse};
use vstd::string::{StrSliceExecFns, StringExecFns};

verus! {

/// Default per-request timeout, in seconds.
pub const DEFAULT_TIMEOUT_SECS: u64 = 10;

/// Hard ceiling on an accepted response body, guarding memory against a
/// misbehaving or compromised server.
pub const MAX_RESPONSE_BODY_SIZE: usize = 1024 * 1024 * 1024;

/// The four remote procedures.
#[derive(Debug, Clone, Copy, PartialEq, Eq, Structural)]
pub enum Operation {
    Get,
    Put,
    Delete,
    ListKeyVersions,
}

/// The path appended to the base URL for `op`.
pub open spec fn path_for(op: Operation) -> Seq<char> {
    match op {
        Operation::Get => "/getObject"@,
        Operation::Put => "/putObjects"@,
        Operation::Delete => "/deleteObject"@,
        Operation::ListKeyVersions => "/listKeyVersions"@,
    }
}

/// Whether the transport may treat the request as safely replayable at the
/// connection level: enabled for get, delete and list (idempotent reads and
/// version-keyed deletes), disabled for put (a multi-item transactional
/// write). Fixed per operation, however many retry attempts occur.
pub open spec fn pipelining_for(op: Operation) -> bool {
    match op {
        Operation::Put => false,
        _ => true,
    }
}

/// Transactional puts never allow transport-level pipelining; gets, deletes
/// and lists always do — a property of the operation, not of any attempt.
pub proof fn lemma_pipelining_fixed_per_operation()
    ensures
        !pipelining_for(Operation::Put),
        pipelining_for(Operation::Get),
        pipelining_for(Operation::Delete),
        pipelining_for(Operation::ListKeyVersions),
{
}

/// One outgoing transport request.
#[derive(Debug, Clone)]
pub struct HttpRequest {
    pub url: String,
    pub content_type: String,
    pub headers: Vec<(String, String)>,
    pub body: Vec<u8>,
    pub timeout_secs: u64,
    pub max_response_bytes: usize,
    pub pipelining: bool,
}

/// One transport response: the status code and the raw body.
#[derive(Debug, Clone)]
pub struct HttpResponse {
    pub status_code: u16,
    pub body: Vec<u8>,
}

/// The transport collaborator: sends one prepared request and returns the
/// status and body, or a transport-level failure; and waits out the delays
/// the retry policy imposes between attempts.
pub trait VssTransport {
    fn send_request(&self, req: &HttpRequest) -> Result<HttpResponse, String>;

    fn sleep_ms(&self, ms: u64);
}

/// The retry policy collaborator: given the error an attempt failed with
/// and the number of attempts already made, the delay in milliseconds
/// before the next attempt, or nothing to give up and surface that error.
pub trait RetryPolicy {
    fn next_delay_ms(&self, error: &VssError, attempts_made: u32) -> Option<u64>;
}

/// The URL of the endpoint serving `op`.
fn endpoint_url(base: &String, op: Operation) -> (r: String)
    ensures
        r@ == base@ + path_for(op),
{
    let path: &str = match op {
        Operation::Get => "/getObject",
        Operation::Put => "/putObjects",
        Operation::Delete => "/deleteObject",
        Operation::ListKeyVersions => "/listKeyVersions",
    };
    let url = base.clone();
    url.concat(path)
}

/// Assembles the transport request for one attempt of `op`: binary content
/// type, the provider's headers verbatim, the serialized request, the fixed
/// timeout and response-size ceiling, and the operation's fixed pipelining
/// hint.
pub fn build_http_request(
    op: Operation,
    url: String,
    headers: Vec<(String, String)>,
    body: Vec<u8>,
) -> (r: HttpRequest)
    ensures
        r.url == url,
        r.content_type@ == "application/octet-stream"@,
        headers_view(r.headers@) == headers_view(headers@),
        r.body@ == body@,
        r.timeout_secs == DEFAULT_TIMEOUT_SECS,
        r.max_response_bytes == MAX_RESPONSE_BODY_SIZE,
        r.pipelining == pipelining_for(op),
{
    let pipelining = match op {
        Operation::Put => false,
        _ => true,
    };
    HttpRequest {
        url,
        content_type: String::from_str("application/octet-stream"),
        headers,
        body,
        timeout_secs: DEFAULT_TIMEOUT_SECS,
        max_response_bytes: MAX_RESPONSE_BODY_SIZE,
        pipelining,
    }
}

/// Whether `status` reports success.
pub open spec fn is_success_status(status: u16) -> bool {
    200 <= status < 300
}

/// What classifying a get attempt's transport outcome must return: a non-2xx
/// status becomes the status-coded application error with the payload
/// verbatim; an unparseable 2xx body is a decode error; a parsed response
/// without its mandatory value is the protocol violation; otherwise the
/// decoded response.
pub open spec fn get_outcome_post(
    status: u16,
    payload: Seq<u8>,
    r: Result<GetObjectResponse, VssError>,
) -> bool {
    if !is_success_status(status) {
        r matches Err(VssError::ApplicationError { status_code, payload: p }) && status_code
            == status && p@ == payload
    } else {
        match parse_get_object_response(payload) {
            None => r matches Err(VssError::DecodeError(_)),
            Some(m) => if m.value is None {
                r matches Err(VssError::ProtocolViolation(_))
            } else {
                r matches Ok(resp) && resp@ == m
            },
        }
    }
}

/// What classifying a put attempt's outcome must return: success carries no
/// payload, so a 2xx with a non-empty body is a decode error.
pub open spec fn put_outcome_post(
    status: u16,
    payload: Seq<u8>,
    r: Result<PutObjectResponse, VssError>,
) -> bool {
    if !is_success_status(status) {
        r matches Err(VssError::ApplicationError { status_code, payload: p }) && status_code
            == status && p@ == payload
    } else if payload.len() == 0 {
        r == Ok::<PutObjectResponse, VssError>(PutObjectResponse {})
    } else {
        r matches Err(VssError::DecodeError(_))
    }
}

/// What classifying a delete attempt's outcome must return.
pub open spec fn delete_outcome_post(
    status: u16,
    payload: Seq<u8>,
    r: Result<DeleteObjectResponse, VssError>,
) -> bool {
    if !is_success_status(status) {
        r matches Err(VssError::ApplicationError { status_code, payload: p }) && status_code
            == status && p@ == payload
    } else if payload.len() == 0 {
        r == Ok::<DeleteObjectResponse, VssError>(DeleteObjectResponse {})
    } else {
        r matches Err(VssError::DecodeError(_))
    }
}

/// What classifying a list attempt's outcome must return. A decoded page
/// whose next-page token is absent is success that signals exhaustion,
/// never an error.
pub open spec fn list_outcome_post(
    status: u16,
    payload: Seq<u8>,
    r: Result<ListKeyVersionsResponse, VssError>,
) -> bool {
    if !is_success_status(status) {
        r matches Err(VssError::ApplicationError { status_code, payload: p }) && status_code
            == status && p@ == payload
    } else {
        match parse_list_key_versions_response(payload) {
            None => r matches Err(VssError::DecodeError(_)),
            Some(m) => r matches Ok(resp) && resp@ == m,
        }
    }
}

/// Classifies a get attempt's transport outcome.
pub fn process_get_response(status: u16, payload: Vec<u8>) -> (r: Result<
    GetObjectResponse,
    VssError,
>)
    ensures
        get_outcome_post(status, payload@, r),
{
    if !(200 <= status && status < 300) {
        return Err(VssError::new(status, payload));
    }
    match decode_get_object_response(&payload) {
        None => Err(
            VssError::DecodeError(
                String::from_str("response body is not a well-formed get response"),
            ),
        ),
        Some(resp) => match resp.value {
            None => Err(
                VssError::ProtocolViolation(
                    String::from_str(
                        "server contract violation: a successful get response must carry a value",
                    ),
                ),
            ),
            Some(kv) => Ok(GetObjectResponse { value: Some(kv) }),
        },
    }
}

/// Classifies a put attempt's transport outcome.
pub fn process_put_response(status: u16, payload: Vec<u8>) -> (r: Result<
    PutObjectResponse,
    VssError,
>)
    ensures
        put_outcome_post(status, payload@, r),
{
    if !(200 <= status && status < 300) {
        return Err(VssError::new(status, payload));
    }
    match decode_put_object_response(&payload) {
        None => Err(
            VssError::DecodeError(
                String::from_str("response body is not a well-formed put response"),
            ),
        ),
        Some(resp) => Ok(resp),
    }
}

/// Classifies a delete attempt's transport outcome.
pub fn process_delete_response(status: u16, payload: Vec<u8>) -> (r: Result<
    DeleteObjectResponse,
    VssError,
>)
    ensures
        delete_outcome_post(status, payload@, r),
{
    if !(200 <= status && status < 300) {
        return Err(VssError::new(status, payload));
    }
    match decode_delete_object_response(&payload) {
        None => Err(
            VssError::DecodeError(
                String::from_str("response body is not a well-formed delete response"),
            ),
        ),
        Some(resp) => Ok(resp),
    }
}

/// Classifies a list attempt's transport outcome.
pub fn process_list_response(status: u16, payload: Vec<u8>) -> (r: Result<
    ListKeyVersionsResponse,
    VssError,
>)
    ensures
        list_outcome_post(status, payload@, r),
{
    if !(200 <= status && status < 300) {
        return Err(VssError::new(status, payload));
    }
    match decode_list_key_versions_response(&payload) {
        None => Err(
            VssError::DecodeError(
                String::from_str("response body is not a well-formed list response"),
            ),
        ),
        Some(resp) => Ok(resp),
    }
}

/// Classifying a get outcome never yields success without a value: the
/// protocol violation is surfaced instead, whatever the status and body.
pub proof fn lemma_get_success_has_value(
    status: u16,
    payload: Seq<u8>,
    r: Result<GetObjectResponse, VssError>,
)
    requires
        get_outcome_post(status, payload, r),
    ensures
        r matches Ok(resp) ==> resp@.value is Some,
{
}

/// Classifying the same transport outcome twice yields the same decoded
/// response whenever it yields success: a get against an unchanged server
/// state is idempotent.
pub proof fn lemma_get_processing_idempotent(
    status: u16,
    payload: Seq<u8>,
    r1: Result<GetObjectResponse, VssError>,
    r2: Result<GetObjectResponse, VssError>,
)
    requires
        get_outcome_post(status, payload, r1),
        get_outcome_post(status, payload, r2),
    ensures
        r1 is Ok <==> r2 is Ok,
        r1 is Ok && r2 is Ok ==> r1->Ok_0@ == r2->Ok_0@,
{
}

/// Thin client for a hosted instance of the versioned storage service. The
/// API is minimal and congruent to the service's own: one method per remote
/// procedure. Cloning shares collaborators that are themselves handles to
/// shared state, so one configuration can serve concurrent callers.
#[derive(Clone)]
pub struct VssClient<R: RetryPolicy, H: VssHeaderProvider, T: VssTransport> {
    base_url: String,
    client: T,
    retry_policy: R,
    header_provider: H,
}

impl<R: RetryPolicy, T: VssTransport> VssClient<R, FixedHeaders, T> {
    /// Constructs a client from a transport, using `base_url` as the
    /// service endpoint. All calls go over the given transport under the
    /// given policy; the default header provider carries an empty mapping,
    /// so requests carry no headers beyond the content type.
    pub fn from_client(base_url: String, client: T, retry_policy: R) -> (r: Self)
        ensures
            r.spec_base_url() == base_url@,
            r.spec_transport() == client,
            r.spec_retry_policy() == retry_policy,
            r.spec_header_provider()@ == Seq::<(Seq<char>, Seq<char>)>::empty(),
    {
        let empty: Vec<(String, String)> = Vec::new();
        proof {
            assert(crate::headers::headers_view(empty@) =~= Seq::<(
                Seq<char>,
                Seq<char>,
            )>::empty());
        }
        VssClient { base_url, client, retry_policy, header_provider: FixedHeaders::new(empty) }
    }
}

impl<R: RetryPolicy, H: VssHeaderProvider, T: VssTransport> VssClient<R, H, T> {
    /// The configured endpoint.
    pub closed spec fn spec_base_url(&self) -> Seq<char> {
        self.base_url@
    }

    /// The configured transport.
    pub closed spec fn spec_transport(&self) -> T {
        self.client
    }

    /// The configured retry policy.
    pub closed spec fn spec_retry_policy(&self) -> R {
        self.retry_policy
    }

    /// The configured header provider.
    pub closed spec fn spec_header_provider(&self) -> H {
        self.header_provider
    }

    /// Constructs a client from a transport, using `base_url` as the
    /// service endpoint. All calls go over the given transport under the
    /// given policy, with headers from the given provider.
    pub fn from_client_and_headers(
        base_url: String,
        client: T,
        retry_policy: R,
        header_provider: H,
    ) -> (r: Self)
        ensures
            r.spec_base_url() == base_url@,
            r.spec_transport() == client,
            r.spec_retry_policy() == retry_policy,
            r.spec_header_provider() == header_provider,
    {
        VssClient { base_url, client, retry_policy, header_provider }
    }

    /// Returns the underlying base URL.
    pub fn base_url(&self) -> (r: &str)
        ensures
            r@ == self.spec_base_url(),
    {
        self.base_url.as_str()
    }

    /// Returns the underlying transport.
    pub fn transport(&self) -> &T {
        &self.client
    }

    /// One get attempt: obtain headers over the serialized request, send,
    /// classify.
    fn attempt_get(&self, url: &String, body: &Vec<u8>) -> (r: Result<
        GetObjectResponse,
        VssError,
    >)
        ensures
            r matches Ok(resp) ==> resp@.value is Some,
            r matches Err(VssError::ApplicationError { status_code, .. })
                ==> !is_success_status(status_code),
    {
        let headers = match self.header_provider.get_headers(body) {
            Ok(h) => h,
            Err(e) => {
                return Err(VssError::AuthError(e.message));
            },
        };
        let req = build_http_request(Operation::Get, url.clone(), headers, body.clone());
        match self.client.send_request(&req) {
            Err(msg) => Err(VssError::TransportError(msg)),
            Ok(resp) => {
                let r = process_get_response(resp.status_code, resp.body);
                proof {
                    lemma_get_success_has_value(resp.status_code, resp.body@, r);
                }
                r
            },
        }
    }

    /// Fetches the record stored under the key in `request`. A successful
    /// result always carries a value: a 2xx response without one is
    /// surfaced as the protocol-violation error, never as success and never
    /// retried into one.
    pub fn get_object(&self, request: &GetObjectRequest) -> (r: Result<
        GetObjectResponse,
        VssError,
    >)
        ensures
            r matches Ok(resp) ==> resp@.value is Some,
            r matches Err(VssError::ApplicationError { status_code, .. })
                ==> !is_success_status(status_code),
    {
        let body = encode_get_object_request(request);
        let url = endpoint_url(&self.base_url, Operation::Get);
        let mut attempts: u32 = 0;
        loop
            decreases u32::MAX - attempts,
        {
            match self.attempt_get(&url, &body) {
                Ok(resp) => {
                    return Ok(resp);
                },
                Err(e) => {
                    match self.retry_policy.next_delay_ms(&e, attempts) {
                        Some(delay) => {
                            if attempts == u32::MAX {
                                return Err(e);
                            }
                            self.client.sleep_ms(delay);
                            attempts = attempts + 1;
                        },
                        None => {
                            return Err(e);
                        },
                    }
                },
            }
        }
    }

    /// One put attempt.
    fn attempt_put(&self, url: &String, body: &Vec<u8>) -> (r: Result<
        PutObjectResponse,
        VssError,
    >)
        ensures
            r matches Err(VssError::ApplicationError { status_code, .. })
                ==> !is_success_status(status_code),
            !(r matches Err(VssError::ProtocolViolation(_))),
    {
        let headers = match self.header_provider.get_headers(body) {
            Ok(h) => h,
            Err(e) => {
                return Err(VssError::AuthError(e.message));
            },
        };
        let req = build_http_request(Operation::Put, url.clone(), headers, body.clone());
        match self.client.send_request(&req) {
            Err(msg) => Err(VssError::TransportError(msg)),
            Ok(resp) => process_put_response(resp.status_code, resp.body),
        }
    }

    /// Writes the request's items and deletions as one all-or-nothing
    /// transaction. The transport request is issued with pipelining
    /// disabled on every attempt: an uncontrolled transport-level replay of
    /// a transactional write is never acceptable.
    pub fn put_object(&self, request: &PutObjectRequest) -> (r: Result<
        PutObjectResponse,
        VssError,
    >)
        ensures
            r matches Err(VssError::ApplicationError { status_code, .. })
                ==> !is_success_status(status_code),
            !(r matches Err(VssError::ProtocolViolation(_))),
    {
        let body = encode_put_object_request(request);
        let url = endpoint_url(&self.base_url, Operation::Put);
        let mut attempts: u32 = 0;
        loop
            decreases u32::MAX - attempts,
        {
            match self.attempt_put(&url, &body) {
                Ok(resp) => {
                    return Ok(resp);
                },
                Err(e) => {
                    match self.retry_policy.next_delay_ms(&e, attempts) {
                        Some(delay) => {
                            if attempts == u32::MAX {
                                return Err(e);
                            }
                            self.client.sleep_ms(delay);
                            attempts = attempts + 1;
                        },
                        None => {
                            return Err(e);
                        },
                    }
                },
            }
        }
    }

    /// One delete attempt.
    fn attempt_delete(&self, url: &String, body: &Vec<u8>) -> (r: Result<
        DeleteObjectResponse,
        VssError,
    >)
        ensures
            r matches Err(VssError::ApplicationError { status_code, .. })
                ==> !is_success_status(status_code),
            !(r matches Err(VssError::ProtocolViolation(_))),
    {
        let headers = match self.header_provider.get_headers(body) {
            Ok(h) => h,
            Err(e) => {
                return Err(VssError::AuthError(e.message));
            },
        };
        let req = build_http_request(Operation::Delete, url.clone(), headers, body.clone());
        match self.client.send_request(&req) {
            Err(msg) => Err(VssError::TransportError(msg)),
            Ok(resp) => process_delete_response(resp.status_code, resp.body),
        }
    }

    /// Deletes the record identified by the key and expected version in
    /// `request`.
    pub fn delete_object(&self, request: &DeleteObjectRequest) -> (r: Result<
        DeleteObjectResponse,
        VssError,
    >)
        ensures
            r matches Err(VssError::ApplicationError { status_code, .. })
                ==> !is_success_status(status_code),
            !(r matches Err(VssError::ProtocolViolation(_))),
    {
        let body = encode_delete_object_request(request);
        let url = endpoint_url(&self.base_url, Operation::Delete);
        let mut attempts: u32 = 0;
        loop
            decreases u32::MAX - attempts,
        {
            match self.attempt_delete(&url, &body) {
                Ok(resp) => {
                    return Ok(resp);
                },
                Err(e) => {
                    match self.retry_policy.next_delay_ms(&e, attempts) {
                        Some(delay) => {
                            if attempts == u32::MAX {
                                return Err(e);
                            }
                            self.client.sleep_ms(delay);
                            attempts = attempts + 1;
                        },
                        None => {
                            return Err(e);
                        },
                    }
                },
            }
        }
    }

    /// One list attempt.
    fn attempt_list(&self, url: &String, body: &Vec<u8>) -> (r: Result<
        ListKeyVersionsResponse,
        VssError,
    >)
        ensures
            r matches Ok(resp) ==> exists|payload: Seq<u8>|
                parse_list_key_versions_response(payload) == Some(resp@),
            r matches Err(VssError::ApplicationError { status_code, .. })
                ==> !is_success_status(status_code),
            !(r matches Err(VssError::ProtocolViolation(_))),
    {
        let headers = match self.header_provider.get_headers(body) {
            Ok(h) => h,
            Err(e) => {
                return Err(VssError::AuthError(e.message));
            },
        };
        let req = build_http_request(
            Operation::ListKeyVersions,
            url.clone(),
            headers,
            body.clone(),
        );
        match self.client.send_request(&req) {
            Err(msg) => Err(VssError::TransportError(msg)),
            Ok(resp) => {
                let ghost payload = resp.body@;
                let r = process_list_response(resp.status_code, resp.body);
                proof {
                    if r is Ok {
                        assert(parse_list_key_versions_response(payload) == Some(
                            r->Ok_0@,
                        ));
                    }
                }
                r
            },
        }
    }

    /// Lists keys and their versions for the request's store scope, one
    /// page per call. An absent next-page token in the result signals an
    /// exhausted listing; it is not an error.
    pub fn list_key_versions(&self, request: &ListKeyVersionsRequest) -> (r: Result<
        ListKeyVersionsResponse,
        VssError,
    >)
        ensures
            r matches Ok(resp) ==> exists|payload: Seq<u8>|
                parse_list_key_versions_response(payload) == Some(resp@),
            r matches Err(VssError::ApplicationError { status_code, .. })
                ==> !is_success_status(status_code),
            !(r matches Err(VssError::ProtocolViolation(_))),
    {
        let body = encode_list_key_versions_request(request);
        let url = endpoint_url(&self.base_url, Operation::ListKeyVersions);
        let mut attempts: u32 = 0;
        loop
            decreases u32::MAX - attempts,
        {
            match self.attempt_list(&url, &body) {
                Ok(resp) => {
                    return Ok(resp);
                },
                Err(e) => {
                    match self.retry_policy.next_delay_ms(&e, attempts) {
                        Some(delay) => {
                            if attempts == u32::MAX {
                                return Err(e);
                            }
                            self.client.sleep_ms(delay);
                            attempts = attempts + 1;
                        },
                        None => {
                            return Err(e);
                        },
                    }
                },
            }
        }
    }
}

} // verus!
