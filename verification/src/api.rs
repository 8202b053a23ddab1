//! The request and response shapes of the HTTP front end, as bare data,
//! and the verified conversions between them and the core's types. The
//! front end itself (routing, JSON, serving) lives outside the library.

use vstd::prelude::*;
use crate::config::Config;
use crate::engine::Page;

verus! {

/// A crawl request: the same fields as [`Config`].
pub struct CrawlRequest {
    pub start_url: String,
    pub depth_limit: usize,
    pub max_pages: Option<usize>,
    pub same_domain: bool,
}

impl CrawlRequest {
    /// The configuration this request asks for.
    pub fn into_config(self) -> (c: Config)
        ensures
            c.start_url == self.start_url,
            c.depth_limit == self.depth_limit,
            c.max_pages == self.max_pages,
            c.same_domain == self.same_domain,
    {
        Config {
            start_url: self.start_url,
            depth_limit: self.depth_limit,
            max_pages: self.max_pages,
            same_domain: self.same_domain,
        }
    }
}

/// One row of a crawl response: a recorded page with the optional fields
/// filled in for presentation.
pub struct CrawlResult {
    pub url: String,
    pub title: String,
    pub status: i32,
}

impl CrawlResult {
    /// Presents a recorded page: a missing title becomes `No title`, a
    /// missing status code becomes 0.
    pub fn from_page(page: Page) -> (r: CrawlResult)
        ensures
            r.url == page.url,
            page.title matches Some(t) ==> r.title == t,
            page.title is None ==> r.title@ == "No title"@,
            page.status_code matches Some(c) ==> r.status == c,
            page.status_code is None ==> r.status == 0i32,
    {
        let title = match page.title {
            Some(t) => t,
            None => String::from_str("No title"),
        };
        let status = match page.status_code {
            Some(c) => c,
            None => 0,
        };
        CrawlResult { url: page.url, title, status }
    }
}

/// The body of an error response.
pub struct ErrorResponse {
    pub error: String,
}

/// The body of the liveness endpoint's response.
pub struct StatusResponse {
    pub status: String,
    pub version: String,
}

impl StatusResponse {
    /// The response of a healthy server at the given version.
    pub fn running(version: String) -> (r: StatusResponse)
        ensures
            r.status@ == "running"@,
            r.version == version,
    {
        StatusResponse { status: String::from_str("running"), version }
    }
}

} // verus!
