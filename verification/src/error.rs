//! The typed error taxonomy surfaced by every remote call.

use vstd::prelude::*;

verus! {

/// Errors returned by the request pipeline.
///
/// The pipeline never swallows a failure: a call either succeeds after the
/// retry policy resolves it, or the last classified error is surfaced to the
/// caller with its content preserved (status code and payload verbatim for
/// application errors).
#[derive(Debug, Clone, PartialEq)]
pub enum VssError {
    /// The header provider failed to produce headers (signing or clock
    /// failure). Never resolved by the pipeline itself; classification is
    /// left to the retry policy.
    AuthError(String),
    /// A transport-level failure (connection, timeout, response-size limit).
    TransportError(String),
    /// A non-2xx response. Carries the status code and the raw response
    /// payload verbatim for diagnostics.
    ApplicationError { status_code: u16, payload: Vec<u8> },
    /// A 2xx response whose body failed to parse as the expected typed
    /// response.
    DecodeError(String),
    /// A 2xx get response missing its mandatory value: a server-side
    /// contract bug that retrying cannot fix.
    ProtocolViolation(String),
}

impl VssError {
    /// Wraps a non-2xx transport outcome, preserving the status code and the
    /// raw payload verbatim.
    pub fn new(status_code: u16, payload: Vec<u8>) -> (r: VssError)
        ensures
            r matches VssError::ApplicationError { status_code: s, payload: p } && s
                == status_code && p@ == payload@,
    {
        VssError::ApplicationError { status_code, payload }
    }
}

} // verus!
