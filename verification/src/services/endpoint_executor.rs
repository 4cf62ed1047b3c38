//! The router: given a path and a method, the first registered endpoint
//! whose method and normalized pattern match wins; no match is an
//! endpoint-not-found error.

use vstd::prelude::*;

use crate::endpoint::endpoint::{ep_views, Endpoint, SpecEndpoint};
use crate::error::error::Error;
use crate::util::strutil::{str_eq, to_upper, trim_str, trim_seq, upper_seq};
use crate::util::url_utils::{normalize_url, spec_normalize_url, spec_pattern_matches,
    url_pattern_matches};

verus! {

/// Whether an endpoint serves a normalized path under a method: methods are
/// compared upper-cased and trimmed, and the endpoint's pattern is
/// normalized before matching.
pub open spec fn spec_endpoint_matches(
    e: SpecEndpoint,
    path: Seq<char>,
    method: Seq<char>,
) -> bool {
    &&& trim_seq(upper_seq(e.method)) == trim_seq(upper_seq(method))
    &&& spec_pattern_matches(spec_normalize_url(e.url), path)
}

/// Index of the first registered endpoint that matches, at or after `from`.
pub open spec fn spec_first_endpoint(
    es: Seq<SpecEndpoint>,
    from: int,
    path: Seq<char>,
    method: Seq<char>,
) -> Option<int>
    decreases es.len() - from,
{
    if from < 0 || from >= es.len() {
        None
    } else if spec_endpoint_matches(es[from], path, method) {
        Some(from)
    } else {
        spec_first_endpoint(es, from + 1, path, method)
    }
}

/// Whether an endpoint serves a normalized path under a method.
pub fn endpoint_url_method_match(endpoint: &Endpoint, url: &str, method: &str) -> (r: bool)
    ensures
        r == spec_endpoint_matches(endpoint@, url@, method@),
{
    let em = trim_str(to_upper(endpoint.method.as_str()).as_str());
    let rm = trim_str(to_upper(method).as_str());
    if !str_eq(em.as_str(), rm.as_str()) {
        return false;
    }
    let pattern = normalize_url(endpoint.url.as_str());
    url_pattern_matches(pattern.as_str(), url)
}

/// Routes a request: the path is normalized, and the first endpoint in
/// registration order whose method and pattern match is chosen; when none
/// matches, the request fails with an endpoint-not-found error naming the
/// normalized path.
pub fn get_endpoint(endpoints: &Vec<Endpoint>, url: &str, method: &str) -> (r: Result<
    usize,
    Error,
>)
    ensures
        match spec_first_endpoint(ep_views(endpoints@), 0, spec_normalize_url(url@), method@) {
            Some(i) => r == Ok::<usize, Error>(i as usize),
            None => r matches Err(e) && (e matches Error::EndpointNotFound(m) && m@
                == "Endpoint not found: "@ + spec_normalize_url(url@)),
        },
{
    let normalized = normalize_url(url);
    let ghost es = ep_views(endpoints@);
    let n = endpoints.len();
    let mut i: usize = 0;
    while i < n
        invariant
            n == endpoints@.len(),
            es == ep_views(endpoints@),
            i <= n,
            normalized@ == spec_normalize_url(url@),
            spec_first_endpoint(es, 0, normalized@, method@) == spec_first_endpoint(
                es,
                i as int,
                normalized@,
                method@,
            ),
        decreases n - i,
    {
        proof {
            assert(es[i as int] == endpoints@[i as int]@);
        }
        if endpoint_url_method_match(&endpoints[i], normalized.as_str(), method) {
            return Ok(i);
        }
        i = i + 1;
    }
    Err(
        Error::EndpointNotFound(
            String::from_str("Endpoint not found: ").concat(normalized.as_str()),
        ),
    )
}

/// Router determinism: where an endpoint matches a path, the router's
/// choice exists and never stands after it in registration order — of two
/// registered endpoints that both match, the first registered one is
/// chosen.
pub proof fn lemma_router_first_match(
    es: Seq<SpecEndpoint>,
    path: Seq<char>,
    method: Seq<char>,
    i: int,
)
    requires
        0 <= i < es.len(),
        spec_endpoint_matches(es[i], path, method),
    ensures
        spec_first_endpoint(es, 0, path, method) matches Some(k) && 0 <= k <= i
            && spec_endpoint_matches(es[k], path, method),
{
    lemma_first_endpoint_bounds(es, 0, path, method, i);
}

proof fn lemma_first_endpoint_bounds(
    es: Seq<SpecEndpoint>,
    from: int,
    path: Seq<char>,
    method: Seq<char>,
    i: int,
)
    requires
        0 <= from <= i < es.len(),
        spec_endpoint_matches(es[i], path, method),
    ensures
        spec_first_endpoint(es, from, path, method) matches Some(k) && from <= k <= i
            && spec_endpoint_matches(es[k], path, method),
    decreases i - from,
{
    if !spec_endpoint_matches(es[from], path, method) {
        lemma_first_endpoint_bounds(es, from + 1, path, method, i);
    }
}

} // verus!
