//! The header-provider capability: given a request's serialized bytes,
//! produce the header mapping to attach, or fail with an
//! authentication-specific error. Calls are independent of one another; no
//! session state survives between them.

use vstd::prelude::*;

verus! {

/// View of a header list: name/value character sequences, in order.
pub open spec fn headers_view(h: Seq<(String, String)>) -> Seq<(Seq<char>, Seq<char>)> {
    h.map_values(|p: (String, String)| (p.0@, p.1@))
}

/// A header provider's failure to produce headers.
#[derive(Debug, Clone, PartialEq)]
pub struct VssHeaderProviderError {
    pub message: String,
}

/// The capability of supplying per-request authentication or metadata
/// headers, computed over the serialized request bytes so that an
/// implementation may sign the payload itself.
pub trait VssHeaderProvider {
    fn get_headers(&self, request: &Vec<u8>) -> Result<
        Vec<(String, String)>,
        VssHeaderProviderError,
    >;
}

/// A provider that returns a fixed mapping supplied at construction,
/// whatever the request. It never fails.
pub struct FixedHeaders {
    headers: Vec<(String, String)>,
}

impl View for FixedHeaders {
    type V = Seq<(Seq<char>, Seq<char>)>;

    closed spec fn view(&self) -> Seq<(Seq<char>, Seq<char>)> {
        headers_view(self.headers@)
    }
}

/// Copies a header list entry by entry.
pub fn clone_headers(h: &Vec<(String, String)>) -> (r: Vec<(String, String)>)
    ensures
        headers_view(r@) == headers_view(h@),
{
    let mut out: Vec<(String, String)> = Vec::new();
    let mut i: usize = 0;
    while i < h.len()
        invariant
            i <= h.len(),
            out@.len() == i,
            headers_view(out@) =~= headers_view(h@.subrange(0, i as int)),
        decreases h.len() - i,
    {
        let pair: &(String, String) = &h[i];
        proof {
            assert(*pair == h@[i as int]);
        }
        let name = pair.0.clone();
        let value = pair.1.clone();
        proof {
            assert(name@ == h@[i as int].0@);
            assert(value@ == h@[i as int].1@);
        }
        let ghost prev = out@;
        out.push((name, value));
        i = i + 1;
        proof {
            assert(out@ == prev.push((name, value)));
            assert forall|j: int| 0 <= j < i implies headers_view(out@)[j] == headers_view(
                h@.subrange(0, i as int),
            )[j] by {
                assert(h@.subrange(0, i as int)[j] == h@[j]);
                assert(headers_view(out@)[j] == (out@[j].0@, out@[j].1@));
                assert(headers_view(h@.subrange(0, i as int))[j] == (h@[j].0@, h@[j].1@));
                if j < i - 1 {
                    assert(headers_view(prev)[j] == headers_view(
                        h@.subrange(0, i as int - 1),
                    )[j]);
                    assert(h@.subrange(0, i as int - 1)[j] == h@[j]);
                    assert(out@[j] == prev[j]);
                } else {
                    assert(out@[j] == (name, value));
                }
            };
            assert(headers_view(out@) =~= headers_view(h@.subrange(0, i as int)));
        }
    }
    proof {
        assert(h@.subrange(0, h@.len() as int) =~= h@);
    }
    out
}

impl FixedHeaders {
    /// Creates a provider that always returns `headers`.
    pub fn new(headers: Vec<(String, String)>) -> (r: FixedHeaders)
        ensures
            r@ == headers_view(headers@),
    {
        FixedHeaders { headers }
    }
}

impl VssHeaderProvider for FixedHeaders {
    /// Returns the fixed mapping verbatim: the result is the constructed
    /// mapping whatever the request bytes, and the call never fails.
    fn get_headers(&self, request: &Vec<u8>) -> (r: Result<
        Vec<(String, String)>,
        VssHeaderProviderError,
    >)
        ensures
            r matches Ok(h) && headers_view(h@) == self@,
    {
        Ok(clone_headers(&self.headers))
    }
}

/// The static provider's result does not depend on the request: results for
/// any two requests carry the same mapping.
pub proof fn lemma_fixed_headers_request_independent(
    p: FixedHeaders,
    req1: Seq<u8>,
    req2: Seq<u8>,
    h1: Seq<(Seq<char>, Seq<char>)>,
    h2: Seq<(Seq<char>, Seq<char>)>,
)
    requires
        h1 == p@,
        h2 == p@,
    ensures
        h1 == h2,
{
}

} // verus!
