//! Link extraction: given a base URL and an HTML body, the absolute URLs
//! of all anchors in the document.
//!
//! The work is done by the `scraper` and `url` crates behind one trusted
//! wrapper; the resulting link list is a function of the two input strings
//! alone, named by the uninterpreted spec function below.

use vstd::prelude::*;
use crate::urls::url_norm_of;

verus! {

/// The absolute URLs of the `a[href]` anchors of `html`, resolved against
/// `base` in document order, with malformed hrefs dropped. A function of
/// the two strings alone.
pub uninterp spec fn links_of(base: Seq<char>, html: Seq<char>) -> Seq<Seq<char>>;

/// Relies on scraper's HTML parsing (`Html::parse_document`,
/// `Selector::parse`, `select`) and on `url::Url::join`: the anchors of a
/// document and the resolution of their hrefs against the base URL depend
/// on the two strings alone; hrefs that do not resolve are dropped.
/// `url::Url::parse` panics are ruled out by requiring a valid base URL;
/// `Selector::parse` of the fixed selector `a[href]` always succeeds.
#[verifier::external_body]
pub fn extract_links(base_url: &str, html: &str) -> (r: Vec<String>)
    requires
        url_norm_of(base_url@) is Some,
    ensures
        r.deep_view() == links_of(base_url@, html@),
{
    let document = scraper::Html::parse_document(html);
    let selector = scraper::Selector::parse("a[href]").unwrap();
    let base = url::Url::parse(base_url).unwrap();
    document
        .select(&selector)
        .filter_map(|element| element.value().attr("href"))
        .filter_map(|href| base.join(href).ok().map(|u| u.to_string()))
        .collect()
}

} // verus!
