//! The scope filter: the pure decision of whether a discovered link may be
//! offered to the frontier, gated by depth and, optionally, by the host of
//! the start URL (exact host match).

use vstd::prelude::*;
use crate::urls::{url_norm_of, url_host_of, is_valid_url, url_host, opt_host_eq};

verus! {

/// A candidate link is eligible when its depth is within the limit, it
/// parses as an absolute URL, and, under domain restriction, its host is
/// exactly the origin host.
pub open spec fn spec_eligible(
    candidate: Seq<char>,
    origin_host: Option<Seq<char>>,
    same_domain: bool,
    candidate_depth: nat,
    depth_limit: nat,
) -> bool {
    &&& candidate_depth <= depth_limit
    &&& url_norm_of(candidate) is Some
    &&& (same_domain ==> url_host_of(candidate) == origin_host)
}

/// Decides whether a discovered link should be offered to the frontier.
///
/// Depth rule: reject when `candidate_depth` exceeds `depth_limit`.
/// Domain rule: with `same_domain` set, the candidate's host must equal
/// `origin_host` exactly; substring containment is deliberately not used.
/// Malformed candidate URLs are rejected, not errored.
pub fn eligible(
    candidate_url: &str,
    origin_host: &Option<String>,
    same_domain: bool,
    candidate_depth: usize,
    depth_limit: usize,
) -> (r: bool)
    ensures
        r == spec_eligible(
            candidate_url@,
            origin_host.deep_view(),
            same_domain,
            candidate_depth as nat,
            depth_limit as nat,
        ),
{
    if candidate_depth > depth_limit {
        return false;
    }
    if !is_valid_url(candidate_url) {
        return false;
    }
    if !same_domain {
        return true;
    }
    let candidate_host = url_host(candidate_url);
    opt_host_eq(&candidate_host, origin_host)
}

} // verus!
