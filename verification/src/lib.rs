//! Client-side access library for a remote versioned key-value storage
//! service. The library builds and sends typed requests over a pluggable
//! network transport, authenticates each request through a pluggable header
//! provider, retries transient failures under a pluggable policy, and decodes
//! typed responses.

use vstd::prelude::*;

pub mod client;
pub mod codec;
pub mod error;
pub mod headers;
pub mod sigs_auth;
pub mod types;
pub mod util;

verus! {

} // verus!
