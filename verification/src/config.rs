//! Crawl configuration: the start address and the limits that bound a run.

use vstd::prelude::*;

verus! {

/// Configuration for one crawl run. Immutable for the lifetime of the run.
pub struct Config {
    /// The starting URL for the crawl; must parse as an absolute URL.
    pub start_url: String,
    /// The maximum number of hops from the start; 0 means only the start page.
    pub depth_limit: usize,
    /// An optional cap on the total number of successfully stored pages.
    pub max_pages: Option<usize>,
    /// If true, restrict the crawl to the start URL's host (exact host match).
    pub same_domain: bool,
}

impl Config {
    /// A configuration with the defaults of the command line: depth limit 3,
    /// no page cap, no domain restriction.
    pub fn with_defaults(start_url: String) -> (c: Config)
        ensures
            c.start_url == start_url,
            c.depth_limit == 3usize,
            c.max_pages is None,
            c.same_domain == false,
    {
        Config { start_url, depth_limit: 3, max_pages: None, same_domain: false }
    }
}

} // verus!
