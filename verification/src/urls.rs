//! URL handling: parsing, normalization and host comparison.
//!
//! Parsing itself is done by the `url` crate behind one trusted wrapper;
//! everything a crawl decision reads from a URL is carried as plain values
//! in [`ParsedUrl`]. The serialization and the host of a parsed URL are
//! functions of the input string alone, named by the two uninterpreted
//! spec functions below.

use vstd::prelude::*;

verus! {

/// The serialization of `s` parsed as an absolute URL, or `None` when `s`
/// does not parse as one. This is what `url::Url::parse` followed by
/// `Url::as_str` yields; it depends on `s` alone.
pub uninterp spec fn url_norm_of(s: Seq<char>) -> Option<Seq<char>>;

/// The host part of `s` parsed as an absolute URL, or `None` when the URL
/// has no host. Constrained only where `url_norm_of(s)` is `Some`.
pub uninterp spec fn url_host_of(s: Seq<char>) -> Option<Seq<char>>;

/// What a crawl decision reads from a URL, as plain values: the URL
/// written back out in normalized form, and its host, if any.
pub struct ParsedUrl {
    /// The normalized serialization of the URL.
    pub text: String,
    /// The host of the URL, if it has one.
    pub host: Option<String>,
}

/// Relies on `url::Url::parse`, `Url::as_str` and `Url::host_str`: parsing
/// is a function of the input string alone; on success `text` is the parsed
/// URL written back out and `host` is its host part, if any.
#[verifier::external_body]
fn parse_url(s: &str) -> (r: Option<ParsedUrl>)
    ensures
        r is Some <==> url_norm_of(s@) is Some,
        r matches Some(p) ==> p.text@ == url_norm_of(s@).unwrap(),
        r matches Some(p) ==> p.host.deep_view() == url_host_of(s@),
{
    match url::Url::parse(s) {
        Ok(u) => {
            let host = u.host_str().map(|h| h.to_string());
            Some(ParsedUrl { text: u.as_str().to_string(), host })
        },
        Err(_) => None,
    }
}

/// Whether `url` parses as an absolute URL.
pub fn is_valid_url(url: &str) -> (r: bool)
    ensures
        r == (url_norm_of(url@) is Some),
{
    parse_url(url).is_some()
}

/// Normalizes a URL into its standard serialization, or returns `None`
/// when it does not parse as an absolute URL.
pub fn normalize_url(url: &str) -> (r: Option<String>)
    ensures
        r.deep_view() == url_norm_of(url@),
{
    match parse_url(url) {
        Some(p) => Some(p.text),
        None => None,
    }
}

/// The host of `url`, or `None` when `url` does not parse or has no host.
pub fn url_host(url: &str) -> (r: Option<String>)
    ensures
        url_norm_of(url@) is Some ==> r.deep_view() == url_host_of(url@),
        url_norm_of(url@) is None ==> r is None,
{
    match parse_url(url) {
        Some(p) => p.host,
        None => None,
    }
}

/// Equality of two optional host strings, compared by contents.
pub fn opt_host_eq(a: &Option<String>, b: &Option<String>) -> (r: bool)
    ensures
        r == (a.deep_view() == b.deep_view()),
{
    match (a, b) {
        (Some(x), Some(y)) => {
            let r = *x == *y;
            proof {
                if a.deep_view() == b.deep_view() {
                    assert(x@ == y@);
                }
            }
            r
        },
        (None, None) => true,
        _ => false,
    }
}

/// Whether the two URLs both parse and name the same host (exact host
/// match; two host-less URLs also count as the same domain).
pub fn is_same_domain(base_url: &str, target_url: &str) -> (r: bool)
    ensures
        r == (url_norm_of(base_url@) is Some && url_norm_of(target_url@) is Some
            && url_host_of(base_url@) == url_host_of(target_url@)),
{
    let b = parse_url(base_url);
    let t = parse_url(target_url);
    match (b, t) {
        (Some(bp), Some(tp)) => opt_host_eq(&bp.host, &tp.host),
        _ => false,
    }
}

} // verus!
