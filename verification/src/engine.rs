//! The crawl controller: drives the breadth-first loop over the frontier.
//!
//! A [`Crawler`] is seeded with the start entry, hands out claims one at a
//! time (`next_url`), and is told each claim's outcome (`report`): on a
//! successful fetch it records a page, extracts the links of the body and
//! offers each eligible one to the frontier at depth one past the claim;
//! on a failed fetch it records nothing and moves on. A page-count cap
//! halts further claiming as soon as it is reached.

use vstd::prelude::*;
use crate::config::Config;
use crate::frontier::{Frontier, FrontierEntry};
use crate::parser::{links_of, extract_links};
use crate::scope::{spec_eligible, eligible};
use crate::urls::{url_norm_of, url_host_of, is_valid_url, url_host};

verus! {

/// The durable summary of one successfully fetched page.
#[derive(Debug)]
pub struct Page {
    pub url: String,
    pub title: Option<String>,
    pub status_code: Option<i32>,
}

/// A [`Page`] as plain mathematical values.
pub ghost struct PageView {
    pub url: Seq<char>,
    pub title: Option<Seq<char>>,
    pub status_code: Option<i32>,
}

impl View for Page {
    type V = PageView;

    open spec fn view(&self) -> PageView {
        PageView { url: self.url@, title: self.title.deep_view(), status_code: self.status_code }
    }
}

/// What the fetch of one claimed URL came to.
pub enum FetchOutcome {
    /// The fetch returned: the HTTP status code, the page title, if one
    /// was found, and the HTML body.
    Success { status_code: i32, title: Option<String>, html: String },
    /// The fetch failed; the claim yields no record and no children.
    Failure,
}

/// Whether an HTTP status code counts as a successful fetch: the 2xx
/// range. A response outside it is a fetch failure — the page is skipped,
/// yields no record and no children — so a fetcher must hand the engine a
/// `Failure`, not a `Success`, for it.
pub fn is_success_status(status_code: i32) -> (r: bool)
    ensures
        r == (200 <= status_code < 300),
{
    200 <= status_code && status_code < 300
}

/// The one fatal error: a start URL that does not parse as an absolute
/// URL aborts the run before any work is claimed.
#[derive(Debug, PartialEq, Eq, Structural)]
pub enum CrawlError {
    InvalidStartUrl,
}

impl CrawlError {
    /// A human-readable description of the error.
    pub fn message(&self) -> (m: String)
        ensures
            m@ == "invalid start URL"@,
    {
        String::from_str("invalid start URL")
    }
}

/// The visited set and queue that result from offering `links`, left to
/// right, each at depth `child_depth`, to a frontier holding `visited` and
/// `queue`: an eligible link that was never seen enters both; every other
/// link is discarded.
pub open spec fn spec_offer_links(
    visited: Seq<Seq<char>>,
    queue: Seq<(Seq<char>, nat)>,
    links: Seq<Seq<char>>,
    child_depth: nat,
    origin_host: Option<Seq<char>>,
    same_domain: bool,
    depth_limit: nat,
) -> (Seq<Seq<char>>, Seq<(Seq<char>, nat)>)
    decreases links.len(),
{
    if links.len() == 0 {
        (visited, queue)
    } else {
        let prev = spec_offer_links(
            visited,
            queue,
            links.drop_last(),
            child_depth,
            origin_host,
            same_domain,
            depth_limit,
        );
        let l = links.last();
        if spec_eligible(l, origin_host, same_domain, child_depth, depth_limit)
            && !prev.0.contains(l) {
            (prev.0.push(l), prev.1.push((l, child_depth)))
        } else {
            prev
        }
    }
}

/// The crawl controller: configuration, frontier, the claim in flight, the
/// pages recorded so far, and the halt flag that a reached page cap sets.
pub struct Crawler {
    depth_limit: usize,
    max_pages: Option<usize>,
    same_domain: bool,
    start_url: String,
    origin_host: Option<String>,
    frontier: Frontier,
    current: Option<FrontierEntry>,
    pages: Vec<Page>,
    halted: bool,
    claimed: Ghost<Seq<Seq<char>>>,
}

impl Crawler {
    /// The depth limit of the run.
    pub closed spec fn spec_depth_limit(self) -> nat {
        self.depth_limit as nat
    }

    /// The page cap of the run, if one was configured.
    pub closed spec fn spec_max_pages(self) -> Option<usize> {
        self.max_pages
    }

    /// Whether the run is restricted to the start URL's host.
    pub closed spec fn spec_same_domain(self) -> bool {
        self.same_domain
    }

    /// The start URL.
    pub closed spec fn start_view(self) -> Seq<char> {
        self.start_url@
    }

    /// The host of the start URL, if it has one.
    pub closed spec fn origin_view(self) -> Option<Seq<char>> {
        self.origin_host.deep_view()
    }

    /// The pending frontier entries, head first.
    pub closed spec fn queue_view(self) -> Seq<(Seq<char>, nat)> {
        self.frontier.queue_view()
    }

    /// The URLs ever accepted into the frontier.
    pub closed spec fn visited_view(self) -> Seq<Seq<char>> {
        self.frontier.visited_view()
    }

    /// The pages recorded so far, in order.
    pub closed spec fn pages_view(self) -> Seq<PageView> {
        self.pages@.map_values(|p: Page| p@)
    }

    /// The URLs claimed so far, in claim order: the fetches the run asked
    /// for.
    pub closed spec fn claimed_view(self) -> Seq<Seq<char>> {
        self.claimed@
    }

    /// The claim in flight, if any.
    pub closed spec fn current_view(self) -> Option<(Seq<char>, nat)> {
        match self.current {
            Some(e) => Some(e.entry_view()),
            None => None,
        }
    }

    /// Whether a claim is in flight.
    pub closed spec fn is_busy(self) -> bool {
        self.current is Some
    }

    /// Whether the run has halted (the page cap was reached).
    pub closed spec fn is_halted(self) -> bool {
        self.halted
    }

    /// Whether a frontier entry passes the scope filter of this run at its
    /// own depth.
    pub open spec fn entry_ok(self, e: (Seq<char>, nat)) -> bool {
        spec_eligible(
            e.0,
            self.origin_view(),
            self.spec_same_domain(),
            e.1,
            self.spec_depth_limit(),
        )
    }

    /// What holds of every recorded page: its URL parses, and under domain
    /// restriction its host is the start URL's host.
    pub open spec fn page_ok(self, p: PageView) -> bool {
        &&& url_norm_of(p.url) is Some
        &&& (self.spec_same_domain() ==> url_host_of(p.url) == url_host_of(self.start_view()))
    }

    /// The controller invariant, established by `new` and preserved by
    /// every operation.
    pub closed spec fn inv(self) -> bool {
        &&& self.frontier.wf()
        &&& url_norm_of(self.start_url@) is Some
        &&& self.origin_host.deep_view() == url_host_of(self.start_url@)
        &&& self.frontier.in_flight_count() == (if self.current is Some {
            1nat
        } else {
            0nat
        })
        &&& forall|i: int|
            0 <= i < self.queue_view().len() ==> self.entry_ok(#[trigger] self.queue_view()[i])
        &&& (self.current matches Some(e) ==> {
            &&& self.entry_ok(e.entry_view())
            &&& self.visited_view().contains(e.url@)
            &&& forall|i: int|
                0 <= i < self.queue_view().len() ==> (#[trigger] self.queue_view()[i]).0 != e.url@
            &&& forall|i: int|
                0 <= i < self.pages_view().len() ==> (#[trigger] self.pages_view()[i]).url
                    != e.url@
            &&& !self.halted
        })
        &&& forall|i: int|
            0 <= i < self.pages_view().len() ==> self.page_ok(#[trigger] self.pages_view()[i])
        &&& forall|i: int, j: int|
            0 <= i < j < self.pages_view().len() ==> (#[trigger] self.pages_view()[i]).url != (
            #[trigger] self.pages_view()[j]).url
        &&& forall|i: int|
            0 <= i < self.pages_view().len() ==> self.visited_view().contains(
                (#[trigger] self.pages_view()[i]).url,
            )
        &&& forall|i: int, j: int|
            0 <= i < self.pages_view().len() && 0 <= j < self.queue_view().len() ==> (
            #[trigger] self.pages_view()[i]).url != (#[trigger] self.queue_view()[j]).0
        &&& (self.max_pages matches Some(m) ==> self.pages.len() <= m)
        &&& ((self.max_pages matches Some(m) && self.pages.len() >= m) ==> self.halted)
        &&& self.claimed@.no_duplicates()
        &&& forall|i: int|
            0 <= i < self.claimed@.len() ==> self.visited_view().contains(
                #[trigger] self.claimed@[i],
            )
        &&& forall|i: int, j: int|
            0 <= i < self.claimed@.len() && 0 <= j < self.queue_view().len()
                ==> #[trigger] self.claimed@[i] != (#[trigger] self.queue_view()[j]).0
    }

    /// Builds a controller for one run: validates the start URL (the one
    /// fatal error) and seeds the frontier with the start entry at depth 0.
    pub fn new(config: &Config) -> (r: Result<Crawler, CrawlError>)
        ensures
            r is Ok <==> url_norm_of(config.start_url@) is Some,
            r matches Ok(c) ==> {
                &&& c.inv()
                &&& c.spec_depth_limit() == config.depth_limit as nat
                &&& c.spec_max_pages() == config.max_pages
                &&& c.spec_same_domain() == config.same_domain
                &&& c.start_view() == config.start_url@
                &&& c.origin_view() == url_host_of(config.start_url@)
                &&& c.pages_view().len() == 0
                &&& c.claimed_view().len() == 0
                &&& c.queue_view() == seq![(config.start_url@, 0nat)]
                &&& c.visited_view() == seq![config.start_url@]
                &&& !c.is_busy()
                &&& c.is_halted() == (config.max_pages matches Some(m) && m == 0)
            },
    {
        if !is_valid_url(config.start_url.as_str()) {
            return Err(CrawlError::InvalidStartUrl);
        }
        let origin_host = url_host(config.start_url.as_str());
        let mut frontier = Frontier::new();
        let ghost f0 = frontier;
        let accepted = frontier.offer(config.start_url.clone(), 0);
        let halted = match config.max_pages {
            Some(m) => m == 0,
            None => false,
        };
        let c = Crawler {
            depth_limit: config.depth_limit,
            max_pages: config.max_pages,
            same_domain: config.same_domain,
            start_url: config.start_url.clone(),
            origin_host,
            frontier,
            current: None,
            pages: Vec::new(),
            halted,
            claimed: Ghost(Seq::empty()),
        };
        proof {
            assert(accepted);
            assert(c.queue_view() =~= seq![(config.start_url@, 0nat)]);
            assert(c.visited_view() =~= seq![config.start_url@]);
            assert(c.entry_ok(c.queue_view()[0]));
        }
        Ok(c)
    }

    /// Claims the next unit of work: the head of the queue, unless the run
    /// has halted or the queue is empty. A claimed entry's depth never
    /// exceeds the depth limit, and no URL is ever claimed twice.
    pub fn next_url(&mut self) -> (r: Option<String>)
        requires
            old(self).inv(),
            !old(self).is_busy(),
        ensures
            final(self).inv(),
            final(self).spec_depth_limit() == old(self).spec_depth_limit(),
            final(self).spec_max_pages() == old(self).spec_max_pages(),
            final(self).spec_same_domain() == old(self).spec_same_domain(),
            final(self).start_view() == old(self).start_view(),
            final(self).origin_view() == old(self).origin_view(),
            final(self).pages_view() == old(self).pages_view(),
            final(self).visited_view() == old(self).visited_view(),
            final(self).is_halted() == old(self).is_halted(),
            r is None ==> *final(self) == *old(self) && (old(self).is_halted() || old(
                self,
            ).queue_view().len() == 0),
            r matches Some(u) ==> {
                &&& !old(self).is_halted()
                &&& old(self).queue_view().len() > 0
                &&& u@ == old(self).queue_view()[0].0
                &&& final(self).queue_view() == old(self).queue_view().drop_first()
                &&& final(self).is_busy()
                &&& final(self).current_view() == Some(old(self).queue_view()[0])
                &&& final(self).claimed_view() == old(self).claimed_view().push(u@)
                &&& old(self).queue_view()[0].1 <= old(self).spec_depth_limit()
            },
    {
        if self.halted {
            return None;
        }
        let claim = self.frontier.claim_next();
        match claim {
            None => None,
            Some(e) => {
                let u = e.url.clone();
                self.claimed = Ghost(self.claimed@.push(e.url@));
                self.current = Some(e);
                proof {
                    let oldc = *old(self);
                    assert(oldc.entry_ok(oldc.queue_view()[0]));
                    assert forall|i: int, j: int|
                        0 <= i < self.claimed@.len() && 0 <= j < self.queue_view().len()
                            implies #[trigger] self.claimed@[i]
                        != (#[trigger] self.queue_view()[j]).0 by {
                        if i < oldc.claimed@.len() {
                            assert(self.queue_view()[j] == oldc.queue_view()[j + 1]);
                        }
                    }
                    assert(self.claimed@.no_duplicates()) by {
                        assert forall|i: int|
                            0 <= i < oldc.claimed@.len() implies #[trigger] oldc.claimed@[i]
                            != u@ by {
                            assert(oldc.claimed@[i] != oldc.queue_view()[0].0);
                        }
                    }
                    assert forall|i: int|
                        0 <= i < self.claimed@.len() implies self.visited_view().contains(
                        #[trigger] self.claimed@[i],
                    ) by {
                        if i == oldc.claimed@.len() {
                            assert(self.visited_view().contains(u@));
                        }
                    }
                }
                Some(u)
            },
        }
    }
}

/// An element of a prefix is an element of the whole.
proof fn lemma_prefix_contains<A>(p: Seq<A>, s: Seq<A>, x: A)
    requires
        p.is_prefix_of(s),
        p.contains(x),
    ensures
        s.contains(x),
{
    let i = choose|i: int| 0 <= i < p.len() && p[i] == x;
    assert(s[i] == x);
}

/// Offering links at a depth past the limit changes nothing: every one is
/// ineligible.
proof fn lemma_offer_links_ineligible(
    visited: Seq<Seq<char>>,
    queue: Seq<(Seq<char>, nat)>,
    links: Seq<Seq<char>>,
    child_depth: nat,
    origin_host: Option<Seq<char>>,
    same_domain: bool,
    depth_limit: nat,
)
    requires
        child_depth > depth_limit,
    ensures
        spec_offer_links(visited, queue, links, child_depth, origin_host, same_domain, depth_limit)
            == (visited, queue),
    decreases links.len(),
{
    if links.len() > 0 {
        lemma_offer_links_ineligible(
            visited,
            queue,
            links.drop_last(),
            child_depth,
            origin_host,
            same_domain,
            depth_limit,
        );
    }
}

/// What offering a link list does to the frontier, seen from outside: the
/// old visited set and queue are kept as prefixes; visited set and queue
/// grow by the same count, by at most one entry per link; every new
/// visited URL comes from the links; and every new queue entry carries an
/// eligible link, at the offered depth, that had never been seen before.
proof fn lemma_offer_links_props(
    visited: Seq<Seq<char>>,
    queue: Seq<(Seq<char>, nat)>,
    links: Seq<Seq<char>>,
    child_depth: nat,
    origin_host: Option<Seq<char>>,
    same_domain: bool,
    depth_limit: nat,
)
    ensures
        ({
            let r = spec_offer_links(
                visited,
                queue,
                links,
                child_depth,
                origin_host,
                same_domain,
                depth_limit,
            );
            &&& visited.is_prefix_of(r.0)
            &&& queue.is_prefix_of(r.1)
            &&& r.0.len() - visited.len() == r.1.len() - queue.len()
            &&& r.0.len() <= visited.len() + links.len()
            &&& forall|k: int|
                visited.len() <= k < r.0.len() ==> links.contains(#[trigger] r.0[k])
            &&& forall|k: int|
                queue.len() <= k < r.1.len() ==> {
                    &&& spec_eligible(
                        (#[trigger] r.1[k]).0,
                        origin_host,
                        same_domain,
                        child_depth,
                        depth_limit,
                    )
                    &&& r.1[k].1 == child_depth
                    &&& links.contains(r.1[k].0)
                    &&& !visited.contains(r.1[k].0)
                }
            &&& forall|t: int|
                0 <= t < r.0.len() - visited.len() ==> #[trigger] r.0[visited.len() + t]
                    == r.1[queue.len() + t].0
            &&& forall|l: Seq<char>|
                links.contains(l) && spec_eligible(
                    l,
                    origin_host,
                    same_domain,
                    child_depth,
                    depth_limit,
                ) ==> #[trigger] r.0.contains(l)
        }),
    decreases links.len(),
{
    let r = spec_offer_links(
        visited,
        queue,
        links,
        child_depth,
        origin_host,
        same_domain,
        depth_limit,
    );
    if links.len() > 0 {
        let rest = links.drop_last();
        lemma_offer_links_props(
            visited,
            queue,
            rest,
            child_depth,
            origin_host,
            same_domain,
            depth_limit,
        );
        let prev = spec_offer_links(
            visited,
            queue,
            rest,
            child_depth,
            origin_host,
            same_domain,
            depth_limit,
        );
        assert forall|x: Seq<char>| rest.contains(x) implies links.contains(x) by {
            let i = choose|i: int| 0 <= i < rest.len() && rest[i] == x;
            assert(links[i] == x);
        }
        assert(links.contains(links.last()));
        let l = links.last();
        if spec_eligible(l, origin_host, same_domain, child_depth, depth_limit)
            && !prev.0.contains(l) {
            assert(visited.is_prefix_of(prev.0.push(l))) by {
                assert forall|i: int| 0 <= i < visited.len() implies prev.0.push(l)[i]
                    == visited[i] by {
                    assert(prev.0[i] == visited[i]);
                }
                assert(visited =~= prev.0.push(l).take(visited.len() as int));
            }
            assert(queue.is_prefix_of(prev.1.push((l, child_depth)))) by {
                assert forall|i: int| 0 <= i < queue.len() implies prev.1.push(
                    (l, child_depth),
                )[i] == queue[i] by {
                    assert(prev.1[i] == queue[i]);
                }
                assert(queue =~= prev.1.push((l, child_depth)).take(queue.len() as int));
            }
            assert(!visited.contains(l)) by {
                if visited.contains(l) {
                    lemma_prefix_contains(visited, prev.0, l);
                }
            }
        }
        assert forall|x: Seq<char>| prev.0.contains(x) implies r.0.contains(x) by {
            let i = choose|i: int| 0 <= i < prev.0.len() && prev.0[i] == x;
            assert(r.0[i] == x);
        }
        assert forall|x: Seq<char>|
            links.contains(x) && spec_eligible(
                x,
                origin_host,
                same_domain,
                child_depth,
                depth_limit,
            ) implies #[trigger] r.0.contains(x) by {
            let i = choose|i: int| 0 <= i < links.len() && links[i] == x;
            if i < rest.len() {
                assert(rest[i] == x);
                assert(rest.contains(x));
                assert(prev.0.contains(x));
            } else {
                assert(x == l);
                if !prev.0.contains(l) {
                    assert(r.0 == prev.0.push(l));
                    assert(r.0[prev.0.len() as int] == l);
                }
            }
        }
    } else {
        assert(visited =~= r.0.take(visited.len() as int));
        assert(queue =~= r.1.take(queue.len() as int));
    }
}

impl Crawler {
    /// Reports the outcome of the claim in flight. A failure records
    /// nothing: the claim is done and the loop moves on. A success records
    /// one page (URL, title, status code), extracts the links of the body,
    /// and offers each one to the frontier at depth one past the claim,
    /// where the scope filter and the visited set decide its fate; if the
    /// page cap is reached by the new record, the run halts.
    pub fn report(&mut self, outcome: &FetchOutcome)
        requires
            old(self).inv(),
            old(self).is_busy(),
        ensures
            final(self).inv(),
            !final(self).is_busy(),
            final(self).spec_depth_limit() == old(self).spec_depth_limit(),
            final(self).spec_max_pages() == old(self).spec_max_pages(),
            final(self).spec_same_domain() == old(self).spec_same_domain(),
            final(self).start_view() == old(self).start_view(),
            final(self).origin_view() == old(self).origin_view(),
            final(self).claimed_view() == old(self).claimed_view(),
            (*outcome) is Failure ==> {
                &&& final(self).pages_view() == old(self).pages_view()
                &&& final(self).visited_view() == old(self).visited_view()
                &&& final(self).queue_view() == old(self).queue_view()
                &&& final(self).is_halted() == old(self).is_halted()
            },
            (*outcome) matches FetchOutcome::Success { status_code, title, html } ==> {
                let cur = old(self).current_view().unwrap();
                let r = spec_offer_links(
                    old(self).visited_view(),
                    old(self).queue_view(),
                    links_of(cur.0, html@),
                    cur.1 + 1,
                    old(self).origin_view(),
                    old(self).spec_same_domain(),
                    old(self).spec_depth_limit(),
                );
                &&& final(self).pages_view() == old(self).pages_view().push(
                    PageView { url: cur.0, title: title.deep_view(), status_code: Some(
                        status_code,
                    ) },
                )
                &&& final(self).visited_view() == r.0
                &&& final(self).queue_view() == r.1
                &&& final(self).is_halted() == (old(self).spec_max_pages() matches Some(m)
                    && old(self).pages_view().len() + 1 >= m)
            },
    {
        let cur_entry = match self.current.take() {
            Some(e) => e,
            None => vstd::pervasive::unreached(),
        };
        self.frontier.complete();
        match outcome {
            FetchOutcome::Failure => {
                proof {
                    assert(self.frontier.wf());
                    assert(self.queue_view() == old(self).queue_view());
                    assert(self.visited_view() == old(self).visited_view());
                    assert(self.pages_view() == old(self).pages_view());
                    assert(self.claimed_view() == old(self).claimed_view());
                    assert(self.frontier.in_flight_count() == 0);
                    assert(forall|i: int|
                        0 <= i < self.queue_view().len() ==> self.entry_ok(
                            #[trigger] self.queue_view()[i],
                        ));
                    assert(forall|i: int|
                        0 <= i < self.pages_view().len() ==> self.page_ok(
                            #[trigger] self.pages_view()[i],
                        ));
                    assert(self.inv());
                }
            },
            FetchOutcome::Success { status_code, title, html } => {
                let ghost cur = cur_entry.entry_view();
                let title_copy = match title {
                    Some(t) => Some(t.clone()),
                    None => None,
                };
                let ghost pages0 = self.pages_view();
                self.pages.push(
                    Page {
                        url: cur_entry.url.clone(),
                        title: title_copy,
                        status_code: Some(*status_code),
                    },
                );
                proof {
                    assert(old(self).entry_ok(cur));
                    assert(self.pages_view() =~= pages0.push(
                        PageView {
                            url: cur.0,
                            title: title.deep_view(),
                            status_code: Some(*status_code),
                        },
                    ));
                }
                let links = extract_links(cur_entry.url.as_str(), html.as_str());
                let ghost v0 = self.frontier.visited_view();
                let ghost q0 = self.frontier.queue_view();
                let ghost ldv = links.deep_view();
                let ghost d: nat = cur_entry.depth as nat + 1;
                let ghost s1 = *self;
                if cur_entry.depth < self.depth_limit {
                    let child_depth = cur_entry.depth + 1;
                    let mut i: usize = 0;
                    while i < links.len()
                        invariant
                            i <= links.len(),
                            ldv == links.deep_view(),
                            child_depth == d,
                            child_depth as nat <= self.depth_limit as nat,
                            self.depth_limit == s1.depth_limit,
                            self.max_pages == s1.max_pages,
                            self.same_domain == s1.same_domain,
                            self.start_url == s1.start_url,
                            self.origin_host == s1.origin_host,
                            self.current == s1.current,
                            self.pages == s1.pages,
                            self.halted == s1.halted,
                            self.claimed == s1.claimed,
                            self.frontier.wf(),
                            self.frontier.in_flight_count() == s1.frontier.in_flight_count(),
                            (self.frontier.visited_view(), self.frontier.queue_view())
                                == spec_offer_links(
                                v0,
                                q0,
                                ldv.take(i as int),
                                d,
                                self.origin_host.deep_view(),
                                self.same_domain,
                                self.depth_limit as nat,
                            ),
                        decreases links.len() - i,
                    {
                        let ghost pre = spec_offer_links(
                            v0,
                            q0,
                            ldv.take(i as int),
                            d,
                            self.origin_host.deep_view(),
                            self.same_domain,
                            self.depth_limit as nat,
                        );
                        proof {
                            assert(ldv[i as int] == links@[i as int]@);
                            assert(ldv.take(i + 1).drop_last() =~= ldv.take(i as int));
                            assert(ldv.take(i + 1).last() == ldv[i as int]);
                        }
                        let elig = eligible(
                            links[i].as_str(),
                            &self.origin_host,
                            self.same_domain,
                            child_depth,
                            self.depth_limit,
                        );
                        if elig {
                            let url = links[i].clone();
                            self.frontier.offer(url, child_depth);
                        }
                        i += 1;
                    }
                    proof {
                        assert(ldv.take(links@.len() as int) =~= ldv);
                    }
                } else {
                    proof {
                        assert(cur.1 == self.depth_limit as nat);
                        lemma_offer_links_ineligible(
                            v0,
                            q0,
                            ldv,
                            d,
                            self.origin_host.deep_view(),
                            self.same_domain,
                            self.depth_limit as nat,
                        );
                    }
                }
                if let Some(m) = self.max_pages {
                    if self.pages.len() >= m {
                        self.halted = true;
                    }
                }
                proof {
                    let oldc = *old(self);
                    let r = spec_offer_links(
                        v0,
                        q0,
                        ldv,
                        d,
                        oldc.origin_view(),
                        oldc.spec_same_domain(),
                        oldc.spec_depth_limit(),
                    );
                    lemma_offer_links_props(
                        v0,
                        q0,
                        ldv,
                        d,
                        oldc.origin_view(),
                        oldc.spec_same_domain(),
                        oldc.spec_depth_limit(),
                    );
                    assert(self.visited_view() == r.0 && self.queue_view() == r.1);
                    self.lemma_report_success_inv(oldc, cur, v0, q0, ldv, d, r);
                }
            },
        }
    }

    /// Re-establishes the controller invariant at the end of a successful
    /// report, from the frontier's growth properties.
    proof fn lemma_report_success_inv(
        self,
        oldc: Crawler,
        cur: (Seq<char>, nat),
        v0: Seq<Seq<char>>,
        q0: Seq<(Seq<char>, nat)>,
        ldv: Seq<Seq<char>>,
        d: nat,
        r: (Seq<Seq<char>>, Seq<(Seq<char>, nat)>),
    )
        requires
            oldc.inv(),
            oldc.is_busy(),
            cur == oldc.current_view().unwrap(),
            v0 == oldc.visited_view(),
            q0 == oldc.queue_view(),
            d == cur.1 + 1,
            r == spec_offer_links(
                v0,
                q0,
                ldv,
                d,
                oldc.origin_view(),
                oldc.spec_same_domain(),
                oldc.spec_depth_limit(),
            ),
            self.spec_depth_limit() == oldc.spec_depth_limit(),
            self.spec_max_pages() == oldc.spec_max_pages(),
            self.spec_same_domain() == oldc.spec_same_domain(),
            self.start_view() == oldc.start_view(),
            self.origin_view() == oldc.origin_view(),
            self.claimed_view() == oldc.claimed_view(),
            !self.is_busy(),
            self.frontier_wf_for_inv(),
            self.visited_view() == r.0,
            self.queue_view() == r.1,
            self.pages_view().len() == oldc.pages_view().len() + 1,
            self.pages_view().last().url == cur.0,
            forall|i: int|
                0 <= i < oldc.pages_view().len() ==> #[trigger] self.pages_view()[i]
                    == oldc.pages_view()[i],
            self.is_halted() == (self.spec_max_pages() matches Some(m)
                && oldc.pages_view().len() + 1 >= m),
        ensures
            self.inv(),
    {
        lemma_offer_links_props(
            v0,
            q0,
            ldv,
            d,
            oldc.origin_view(),
            oldc.spec_same_domain(),
            oldc.spec_depth_limit(),
        );
        let n = oldc.pages_view().len() as int;
        assert(oldc.entry_ok(cur));
        // Every queued entry still passes the scope filter at its depth.
        assert forall|i: int|
            0 <= i < self.queue_view().len() implies self.entry_ok(
            #[trigger] self.queue_view()[i],
        ) by {
            if i < q0.len() {
                assert(self.queue_view()[i] == q0[i]);
                assert(oldc.entry_ok(q0[i]));
            }
        }
        // Every recorded page is in scope and valid.
        assert forall|i: int|
            0 <= i < self.pages_view().len() implies self.page_ok(
            #[trigger] self.pages_view()[i],
        ) by {
            if i < n {
                assert(oldc.page_ok(oldc.pages_view()[i]));
            }
        }
        // Recorded page URLs stay pairwise distinct: the new one was never
        // recorded while its claim was in flight.
        assert forall|i: int, j: int|
            0 <= i < j < self.pages_view().len() implies (#[trigger] self.pages_view()[i]).url
            != (#[trigger] self.pages_view()[j]).url by {
            if j < n {
                assert(oldc.pages_view()[i].url != oldc.pages_view()[j].url);
            } else {
                assert(oldc.pages_view()[i].url != cur.0);
            }
        }
        // Every recorded page URL is in the visited set.
        assert forall|i: int|
            0 <= i < self.pages_view().len() implies self.visited_view().contains(
            (#[trigger] self.pages_view()[i]).url,
        ) by {
            if i < n {
                lemma_prefix_contains(v0, r.0, oldc.pages_view()[i].url);
            } else {
                lemma_prefix_contains(v0, r.0, cur.0);
            }
        }
        // No recorded page URL is queued.
        assert forall|i: int, j: int|
            0 <= i < self.pages_view().len() && 0 <= j < self.queue_view().len() implies (
        #[trigger] self.pages_view()[i]).url != (#[trigger] self.queue_view()[j]).0 by {
            let u = self.pages_view()[i].url;
            assert(v0.contains(u));
            if j < q0.len() {
                assert(self.queue_view()[j] == q0[j]);
                if i < n {
                    assert(oldc.pages_view()[i].url != q0[j].0);
                }
            }
        }
        // No claimed URL is queued.
        assert forall|i: int, j: int|
            0 <= i < self.claimed_view().len() && 0 <= j < self.queue_view().len()
            implies #[trigger] self.claimed_view()[i] != (#[trigger] self.queue_view()[j]).0 by {
            let u = self.claimed_view()[i];
            assert(oldc.visited_view().contains(u));
            if j < q0.len() {
                assert(self.queue_view()[j] == q0[j]);
                assert(oldc.claimed_view()[i] != q0[j].0);
            }
        }
        // Every claimed URL is in the visited set.
        assert forall|i: int|
            0 <= i < self.claimed_view().len() implies self.visited_view().contains(
            #[trigger] self.claimed_view()[i],
        ) by {
            lemma_prefix_contains(v0, r.0, self.claimed_view()[i]);
        }
    }

    /// The parts of the invariant that the frontier operations maintain on
    /// their own.
    closed spec fn frontier_wf_for_inv(self) -> bool {
        &&& self.frontier.wf()
        &&& self.frontier.in_flight_count() == (if self.current is Some {
            1nat
        } else {
            0nat
        })
    }
}

/// One page of a known site: the URL and the outcome a fetch of it yields.
pub struct SitePage {
    pub url: String,
    pub outcome: FetchOutcome,
}

/// Every link any page of `site` can contribute, in site order: the pool
/// of URLs a crawl over `site` can ever discover beyond the start URL.
pub open spec fn site_link_seq(site: Seq<SitePage>) -> Seq<Seq<char>>
    decreases site.len(),
{
    if site.len() == 0 {
        Seq::empty()
    } else {
        site_link_seq(site.drop_last()) + (match site.last().outcome {
            FetchOutcome::Success { html, .. } => links_of(site.last().url@, html@),
            FetchOutcome::Failure => Seq::empty(),
        })
    }
}

/// The outcome a crawl over `site` observes for `url`: the outcome of the
/// first site page with that URL, or `None` when no site page has it.
pub open spec fn site_outcome(site: Seq<SitePage>, url: Seq<char>) -> Option<FetchOutcome>
    decreases site.len(),
{
    if site.len() == 0 {
        None
    } else if site[0].url@ == url {
        Some(site[0].outcome)
    } else {
        site_outcome(site.drop_first(), url)
    }
}

/// Whether a crawl over `site` can discover `url` by a path of `d` hops:
/// at depth 0 it is the start URL itself; at depth `d` it is a link of a
/// page discovered at depth `d - 1` whose fetch succeeds, and it passes
/// the scope filter at depth `d`.
pub open spec fn discovered_at(
    site: Seq<SitePage>,
    start: Seq<char>,
    origin_host: Option<Seq<char>>,
    same_domain: bool,
    depth_limit: nat,
    url: Seq<char>,
    d: nat,
) -> bool
    decreases d,
{
    if d == 0 {
        url == start
    } else {
        let dd = (d - 1) as nat;
        exists|p: Seq<char>|
            {
                &&& discovered_at(site, start, origin_host, same_domain, depth_limit, p, dd)
                &&& match #[trigger] site_outcome(site, p) {
                    Some(FetchOutcome::Success { html, .. }) => links_of(p, html@).contains(url),
                    _ => false,
                }
                &&& spec_eligible(url, origin_host, same_domain, d, depth_limit)
            }
    }
}

/// `discovered_at` for the run that `config` describes.
pub open spec fn config_discovered_at(
    site: Seq<SitePage>,
    config: Config,
    url: Seq<char>,
    d: nat,
) -> bool {
    discovered_at(
        site,
        config.start_url@,
        url_host_of(config.start_url@),
        config.same_domain,
        config.depth_limit as nat,
        url,
        d,
    )
}

/// Whether a recorded page is accounted for by `site`: some site page has
/// its URL, fetches successfully, and supplies its title and status code.
pub open spec fn page_matches_site(site: Seq<SitePage>, p: PageView) -> bool {
    exists|j: int|
        0 <= j < site.len() && (#[trigger] site[j]).url@ == p.url && (match site[j].outcome {
            FetchOutcome::Success { status_code, title, html } => p.status_code == Some(
                status_code,
            ) && p.title == title.deep_view(),
            FetchOutcome::Failure => false,
        })
}

/// A recorded page's relation to `site` and to the set `visited`, at claim
/// depth `dp`: its fetch succeeds, its fields come from that fetch, and
/// every link of its body that passes the scope filter at depth `dp + 1`
/// has entered `visited`.
spec fn page_closure_at(
    site: Seq<SitePage>,
    config: Config,
    visited: Seq<Seq<char>>,
    p: PageView,
    dp: nat,
) -> bool {
    match site_outcome(site, p.url) {
        Some(FetchOutcome::Success { status_code, title, html }) => {
            &&& p.status_code == Some(status_code)
            &&& p.title == title.deep_view()
            &&& forall|l: Seq<char>|
                #[trigger] links_of(p.url, html@).contains(l) && spec_eligible(
                    l,
                    url_host_of(config.start_url@),
                    config.same_domain,
                    dp + 1,
                    config.depth_limit as nat,
                ) ==> visited.contains(l)
        },
        _ => false,
    }
}

/// `page_closure_at` for some claim depth within the limit.
spec fn page_closure_ok(
    site: Seq<SitePage>,
    config: Config,
    visited: Seq<Seq<char>>,
    p: PageView,
) -> bool {
    exists|dp: nat| dp <= config.depth_limit as nat && page_closure_at(site, config, visited, p, dp)
}

/// Growing the visited set preserves a page's closure relation.
proof fn lemma_page_closure_monotone(
    site: Seq<SitePage>,
    config: Config,
    v1: Seq<Seq<char>>,
    v2: Seq<Seq<char>>,
    p: PageView,
    dp: nat,
)
    requires
        page_closure_at(site, config, v1, p, dp),
        v1.is_prefix_of(v2),
    ensures
        page_closure_at(site, config, v2, p, dp),
{
    match site_outcome(site, p.url) {
        Some(FetchOutcome::Success { status_code, title, html }) => {
            assert forall|l: Seq<char>|
                #[trigger] links_of(p.url, html@).contains(l) && spec_eligible(
                    l,
                    url_host_of(config.start_url@),
                    config.same_domain,
                    dp + 1,
                    config.depth_limit as nat,
                ) implies v2.contains(l) by {
                lemma_prefix_contains(v1, v2, l);
            }
        },
        _ => {},
    }
}

/// The recorded pages as a closed set: each recorded page's fetch
/// succeeds, its fields come from that fetch, and — at its claim depth —
/// every eligible, successfully fetching link of its body is itself
/// recorded. Together with the start page being recorded first, this
/// characterizes a capless run's result as the breadth-first closure of
/// the start URL under eligible, successfully fetching links.
pub open spec fn result_closed_at(
    site: Seq<SitePage>,
    config: Config,
    pv: Seq<PageView>,
    p: PageView,
    dp: nat,
) -> bool {
    match site_outcome(site, p.url) {
        Some(FetchOutcome::Success { status_code, title, html }) => {
            &&& p.status_code == Some(status_code)
            &&& p.title == title.deep_view()
            &&& forall|l: Seq<char>|
                #[trigger] links_of(p.url, html@).contains(l) && spec_eligible(
                    l,
                    url_host_of(config.start_url@),
                    config.same_domain,
                    dp + 1,
                    config.depth_limit as nat,
                ) && (site_outcome(site, l) matches Some(FetchOutcome::Success { .. }))
                    ==> exists|j: int| 0 <= j < pv.len() && (#[trigger] pv[j]).url == l
        },
        _ => false,
    }
}

/// `result_closed_at` for some claim depth within the limit.
pub open spec fn page_result_closed(
    site: Seq<SitePage>,
    config: Config,
    pv: Seq<PageView>,
    p: PageView,
) -> bool {
    exists|dp: nat| dp <= config.depth_limit as nat && result_closed_at(site, config, pv, p, dp)
}

/// `result_closed_at` for every recorded page, each at some claim depth
/// within the limit.
pub open spec fn result_closed(site: Seq<SitePage>, config: Config, pv: Seq<PageView>) -> bool {
    forall|i: int| 0 <= i < pv.len() ==> page_result_closed(site, config, pv, #[trigger] pv[i])
}

/// A link of a successfully fetching site page is in the site's link pool.
proof fn lemma_site_links_cover(site: Seq<SitePage>, j: int, x: Seq<char>)
    requires
        0 <= j < site.len(),
        match site[j].outcome {
            FetchOutcome::Success { html, .. } => links_of(site[j].url@, html@).contains(x),
            FetchOutcome::Failure => false,
        },
    ensures
        site_link_seq(site).contains(x),
    decreases site.len(),
{
    let whole = site_link_seq(site);
    let pre = site_link_seq(site.drop_last());
    if j == site.len() - 1 {
        match site[j].outcome {
            FetchOutcome::Success { html, .. } => {
                let tail = links_of(site[j].url@, html@);
                let i = choose|i: int| 0 <= i < tail.len() && tail[i] == x;
                assert(whole[pre.len() + i] == x);
            },
            FetchOutcome::Failure => {},
        }
    } else {
        assert(site.drop_last()[j] == site[j]);
        lemma_site_links_cover(site.drop_last(), j, x);
        let i = choose|i: int| 0 <= i < pre.len() && pre[i] == x;
        assert(whole[i] == x);
    }
}

/// A visited set without duplicates, drawn from the start URL and the
/// site's link pool, can never outgrow that pool.
proof fn lemma_visited_bound(visited: Seq<Seq<char>>, start: Seq<char>, site: Seq<SitePage>)
    requires
        visited.no_duplicates(),
        forall|k: int|
            0 <= k < visited.len() ==> #[trigger] visited[k] == start || site_link_seq(
                site,
            ).contains(visited[k]),
    ensures
        visited.len() <= 1 + site_link_seq(site).len(),
{
    broadcast use vstd::seq_lib::seq_to_set_is_finite;
    broadcast use vstd::set::axiom_set_insert_len;
    broadcast use vstd::set::group_set_axioms;

    let pool = site_link_seq(site);
    let universe = pool.to_set().insert(start);
    visited.unique_seq_to_set();
    assert(visited.to_set().subset_of(universe)) by {
        assert forall|x: Seq<char>| visited.to_set().contains(x) implies universe.contains(x) by {
            let k = choose|k: int| 0 <= k < visited.len() && visited[k] == x;
            if x != start {
                assert(pool.contains(x));
            }
        }
    }
    vstd::set_lib::lemma_len_subset(visited.to_set(), universe);
    pool.lemma_cardinality_of_set();
}

/// Looks the claimed URL up in the site: the outcome of the first site
/// page with that URL, or nothing when no site page has it.
fn lookup<'a>(site: &'a Vec<SitePage>, url: &String) -> (r: Option<&'a FetchOutcome>)
    ensures
        r matches Some(o) ==> exists|j: int|
            0 <= j < site@.len() && (#[trigger] site@[j]).url@ == url@ && site@[j].outcome == *o,
        r is None ==> forall|j: int| 0 <= j < site@.len() ==> (#[trigger] site@[j]).url@ != url@,
        site_outcome(site@, url@) matches Some(o) ==> (r matches Some(x) && *x == o),
        site_outcome(site@, url@) is None ==> r is None,
{
    let mut i: usize = 0;
    proof {
        assert(site@.skip(0) =~= site@);
    }
    while i < site.len()
        invariant
            i <= site.len(),
            forall|k: int| 0 <= k < i ==> (#[trigger] site@[k]).url@ != url@,
            site_outcome(site@, url@) == site_outcome(site@.skip(i as int), url@),
        decreases site.len() - i,
    {
        proof {
            assert(site@.skip(i as int)[0] == site@[i as int]);
            assert(site@.skip(i as int).drop_first() =~= site@.skip(i + 1));
        }
        if site[i].url == *url {
            return Some(&site[i].outcome);
        }
        i += 1;
    }
    proof {
        assert(site@.skip(site@.len() as int).len() == 0);
    }
    None
}

/// Runs a whole crawl against a known site, given as the list of its pages
/// and their fetch outcomes; a claimed URL with no site page fails to
/// fetch. The run terminates on every input: each iteration claims a URL
/// never claimed before, and there are only finitely many — the start URL
/// and the site's link pool.
///
/// The result is the recorded pages, in record order: pairwise distinct
/// URLs, within the page cap, each accounted for by a successfully
/// fetching site page, and, under domain restriction, each on the start
/// URL's host.
pub fn crawl(config: &Config, site: &Vec<SitePage>) -> (r: Result<Vec<Page>, CrawlError>)
    ensures
        r is Ok <==> url_norm_of(config.start_url@) is Some,
        r matches Ok(pages) ==> ({
            let pv = pages@.map_values(|p: Page| p@);
            &&& forall|i: int, j: int|
                0 <= i < j < pv.len() ==> (#[trigger] pv[i]).url != (#[trigger] pv[j]).url
            &&& (config.max_pages matches Some(m) ==> pv.len() <= m)
            &&& (config.same_domain ==> forall|i: int|
                0 <= i < pv.len() ==> url_host_of((#[trigger] pv[i]).url) == url_host_of(
                    config.start_url@,
                ))
            &&& forall|i: int| 0 <= i < pv.len() ==> url_norm_of((#[trigger] pv[i]).url) is Some
            &&& forall|i: int| 0 <= i < pv.len() ==> page_matches_site(site@, #[trigger] pv[i])
            &&& ((site_outcome(site@, config.start_url@) matches Some(o) && o is Success
                && config.max_pages != Some(0usize)) ==> pv.len() >= 1 && pv[0].url
                == config.start_url@)
            &&& forall|i: int|
                0 <= i < pv.len() ==> exists|d: nat|
                    d <= config.depth_limit as nat && config_discovered_at(
                        site@,
                        *config,
                        (#[trigger] pv[i]).url,
                        d,
                    )
            &&& (config.max_pages is None ==> result_closed(site@, *config, pv))
        }),
{
    let mut c = match Crawler::new(config) {
        Ok(c) => c,
        Err(e) => {
            return Err(e);
        },
    };
    proof {
        assert forall|k: int|
            0 <= k < c.visited_view().len() implies #[trigger] c.visited_view()[k]
            == config.start_url@ || site_link_seq(site@).contains(c.visited_view()[k]) by {}
        assert(config_discovered_at(site@, *config, config.start_url@, 0nat));
    }
    let mut claim = c.next_url();
    proof {
        assert(c.visited_view()[0] == config.start_url@);
        if claim is Some {
            assert(c.claimed_view()[0] == config.start_url@);
        } else {
            assert(c.queue_view()[0].0 == c.visited_view()[0]);
        }
    }
    while claim.is_some()
        invariant
            c.inv(),
            c.spec_depth_limit() == config.depth_limit as nat,
            c.spec_max_pages() == config.max_pages,
            c.spec_same_domain() == config.same_domain,
            c.start_view() == config.start_url@,
            claim matches Some(u) ==> c.is_busy() && (c.current_view() matches Some(cur)
                && cur.0 == u@) && c.claimed_view().len() >= 1 && c.claimed_view().last() == u@,
            claim is None ==> !c.is_busy() && (c.is_halted() || c.queue_view().len() == 0),
            config.max_pages is None ==> !c.is_halted(),
            forall|k: int|
                0 <= k < c.visited_view().len() ==> (c.claimed_view().contains(
                    #[trigger] c.visited_view()[k],
                ) || exists|q: int|
                    0 <= q < c.queue_view().len() && (#[trigger] c.queue_view()[q]).0
                        == c.visited_view()[k]),
            forall|i: int|
                0 <= i < c.claimed_view().len() ==> ((claim is Some && i == c.claimed_view().len()
                    - 1) || (match site_outcome(site@, #[trigger] c.claimed_view()[i]) {
                    Some(FetchOutcome::Success { .. }) => exists|j: int|
                        0 <= j < c.pages_view().len() && (#[trigger] c.pages_view()[j]).url
                            == c.claimed_view()[i],
                    _ => true,
                })),
            forall|i: int|
                0 <= i < c.pages_view().len() ==> page_closure_ok(
                    site@,
                    *config,
                    c.visited_view(),
                    #[trigger] c.pages_view()[i],
                ),
            forall|k: int|
                0 <= k < c.visited_view().len() ==> #[trigger] c.visited_view()[k]
                    == config.start_url@ || site_link_seq(site@).contains(c.visited_view()[k]),
            forall|i: int|
                0 <= i < c.pages_view().len() ==> page_matches_site(
                    site@,
                    #[trigger] c.pages_view()[i],
                ),
            (site_outcome(site@, config.start_url@) matches Some(o) && o is Success
                && config.max_pages != Some(0usize)) ==> {
                ||| (c.pages_view().len() >= 1 && c.pages_view()[0].url == config.start_url@)
                ||| (claim matches Some(u) && u@ == config.start_url@ && c.pages_view().len()
                    == 0)
            },
            forall|k: int|
                0 <= k < c.queue_view().len() ==> config_discovered_at(
                    site@,
                    *config,
                    (#[trigger] c.queue_view()[k]).0,
                    c.queue_view()[k].1,
                ),
            claim is Some ==> (c.current_view() matches Some(cur) && config_discovered_at(
                site@,
                *config,
                cur.0,
                cur.1,
            ) && cur.1 <= config.depth_limit as nat),
            forall|i: int|
                0 <= i < c.pages_view().len() ==> exists|d: nat|
                    d <= config.depth_limit as nat && config_discovered_at(
                        site@,
                        *config,
                        (#[trigger] c.pages_view()[i]).url,
                        d,
                    ),
        decreases (if claim is Some {
            1int
        } else {
            0int
        }) + 1 + site_link_seq(site@).len() + c.queue_view().len() - c.visited_view().len(),
    {
        proof {
            lemma_visited_bound(c.visited_view(), config.start_url@, site@);
        }
        let u = match claim {
            Some(x) => x,
            None => vstd::pervasive::unreached(),
        };
        let found = lookup(site, &u);
        match found {
            Some(o) => {
                let ghost pre = c;
                c.report(o);
                proof {
                    let cur = pre.current_view().unwrap();
                    match o {
                        FetchOutcome::Success { status_code, title, html } => {
                            let j = choose|j: int|
                                0 <= j < site@.len() && (#[trigger] site@[j]).url@ == u@
                                    && site@[j].outcome == *o;
                            lemma_offer_links_props(
                                pre.visited_view(),
                                pre.queue_view(),
                                links_of(cur.0, html@),
                                cur.1 + 1,
                                pre.origin_view(),
                                pre.spec_same_domain(),
                                pre.spec_depth_limit(),
                            );
                            assert forall|k: int|
                                0 <= k < c.visited_view().len() implies #[trigger] c.visited_view()[k]
                                == config.start_url@ || site_link_seq(site@).contains(
                                c.visited_view()[k],
                            ) by {
                                if k >= pre.visited_view().len() {
                                    assert(links_of(cur.0, html@).contains(c.visited_view()[k]));
                                    assert(cur.0 == site@[j].url@);
                                    lemma_site_links_cover(site@, j, c.visited_view()[k]);
                                } else {
                                    assert(c.visited_view()[k] == pre.visited_view()[k]);
                                }
                            }
                            assert forall|i: int|
                                0 <= i < c.pages_view().len() implies page_matches_site(
                                site@,
                                #[trigger] c.pages_view()[i],
                            ) by {
                                if i == c.pages_view().len() - 1 {
                                    assert(c.pages_view()[i] == PageView {
                                        url: cur.0,
                                        title: title.deep_view(),
                                        status_code: Some(*status_code),
                                    });
                                    assert((site@[j]).url@ == c.pages_view()[i].url);
                                } else {
                                    assert(c.pages_view()[i] == pre.pages_view()[i]);
                                }
                            }
                            assert(site_outcome(site@, cur.0) == Some(*o));
                            assert(config_discovered_at(site@, *config, cur.0, cur.1));
                            assert forall|k: int|
                                0 <= k < c.queue_view().len() implies config_discovered_at(
                                site@,
                                *config,
                                (#[trigger] c.queue_view()[k]).0,
                                c.queue_view()[k].1,
                            ) by {
                                if k < pre.queue_view().len() {
                                    assert(c.queue_view()[k] == pre.queue_view()[k]);
                                } else {
                                    let e = c.queue_view()[k];
                                    assert(e.1 == cur.1 + 1);
                                    assert(links_of(cur.0, html@).contains(e.0));
                                    assert(spec_eligible(
                                        e.0,
                                        pre.origin_view(),
                                        pre.spec_same_domain(),
                                        cur.1 + 1,
                                        pre.spec_depth_limit(),
                                    ));
                                    assert(pre.origin_view() == url_host_of(config.start_url@));
                                    assert(config_discovered_at(site@, *config, e.0, e.1)) by {
                                        assert(site_outcome(site@, cur.0) == Some(*o));
                                    }
                                }
                            }
                            assert forall|i: int|
                                0 <= i < c.pages_view().len() implies exists|d: nat|
                                d <= config.depth_limit as nat && config_discovered_at(
                                    site@,
                                    *config,
                                    (#[trigger] c.pages_view()[i]).url,
                                    d,
                                ) by {
                                if i == c.pages_view().len() - 1 {
                                    assert(c.pages_view()[i].url == cur.0);
                                    assert(cur.1 <= config.depth_limit as nat
                                        && config_discovered_at(site@, *config, cur.0, cur.1));
                                } else {
                                    assert(c.pages_view()[i] == pre.pages_view()[i]);
                                }
                            }
                            // Every visited URL is claimed or still queued.
                            assert forall|k: int|
                                0 <= k < c.visited_view().len() implies (c.claimed_view().contains(
                                #[trigger] c.visited_view()[k],
                            ) || exists|q: int|
                                0 <= q < c.queue_view().len() && (#[trigger] c.queue_view()[q]).0
                                    == c.visited_view()[k]) by {
                                if k < pre.visited_view().len() {
                                    assert(c.visited_view()[k] == pre.visited_view()[k]);
                                    if !pre.claimed_view().contains(pre.visited_view()[k]) {
                                        let q = choose|q: int|
                                            0 <= q < pre.queue_view().len()
                                                && pre.queue_view()[q].0 == pre.visited_view()[k];
                                        assert(c.queue_view()[q] == pre.queue_view()[q]);
                                    }
                                } else {
                                    let t = k - pre.visited_view().len();
                                    assert(c.visited_view()[pre.visited_view().len() + t]
                                        == c.queue_view()[pre.queue_view().len() + t].0);
                                }
                            }
                            // Every claimed URL with a successful outcome is recorded.
                            assert forall|i: int|
                                0 <= i < c.claimed_view().len() implies (match site_outcome(
                                site@,
                                #[trigger] c.claimed_view()[i],
                            ) {
                                Some(FetchOutcome::Success { .. }) => exists|j: int|
                                    0 <= j < c.pages_view().len()
                                        && (#[trigger] c.pages_view()[j]).url
                                        == c.claimed_view()[i],
                                _ => true,
                            }) by {
                                if i == c.claimed_view().len() - 1 {
                                    assert(c.claimed_view()[i] == cur.0);
                                    assert(c.pages_view()[c.pages_view().len() - 1].url == cur.0);
                                } else {
                                    match site_outcome(site@, c.claimed_view()[i]) {
                                        Some(FetchOutcome::Success { .. }) => {
                                            let j2 = choose|j2: int|
                                                0 <= j2 < pre.pages_view().len()
                                                    && (#[trigger] pre.pages_view()[j2]).url
                                                    == pre.claimed_view()[i];
                                            assert(c.pages_view()[j2] == pre.pages_view()[j2]);
                                        },
                                        _ => {},
                                    }
                                }
                            }
                            // Each recorded page keeps its link closure.
                            assert(pre.visited_view().is_prefix_of(c.visited_view())) by {
                                assert(pre.visited_view() =~= c.visited_view().take(
                                    pre.visited_view().len() as int,
                                ));
                            }
                            assert forall|i: int|
                                0 <= i < c.pages_view().len() implies page_closure_ok(
                                site@,
                                *config,
                                c.visited_view(),
                                #[trigger] c.pages_view()[i],
                            ) by {
                                if i == c.pages_view().len() - 1 {
                                    assert(site_outcome(site@, cur.0) == Some(*o));
                                    assert(pre.origin_view() == url_host_of(config.start_url@));
                                    assert(page_closure_at(
                                        site@,
                                        *config,
                                        c.visited_view(),
                                        c.pages_view()[i],
                                        cur.1,
                                    ));
                                } else {
                                    assert(c.pages_view()[i] == pre.pages_view()[i]);
                                    let dp = choose|dp: nat|
                                        dp <= config.depth_limit as nat && page_closure_at(
                                            site@,
                                            *config,
                                            pre.visited_view(),
                                            pre.pages_view()[i],
                                            dp,
                                        );
                                    lemma_page_closure_monotone(
                                        site@,
                                        *config,
                                        pre.visited_view(),
                                        c.visited_view(),
                                        c.pages_view()[i],
                                        dp,
                                    );
                                }
                            }
                        },
                        FetchOutcome::Failure => {
                            assert(site_outcome(site@, u@) == Some(*o));
                        },
                    }
                }
            },
            None => {
                c.report(&FetchOutcome::Failure);
                proof {
                    assert(site_outcome(site@, u@) is None);
                }
            },
        }
        proof {
            lemma_visited_bound(c.visited_view(), config.start_url@, site@);
        }
        let ghost c_mid = c;
        claim = c.next_url();
        proof {
            assert forall|k: int|
                0 <= k < c.visited_view().len() implies (c.claimed_view().contains(
                #[trigger] c.visited_view()[k],
            ) || exists|q: int|
                0 <= q < c.queue_view().len() && (#[trigger] c.queue_view()[q]).0
                    == c.visited_view()[k]) by {
                assert(c.visited_view() == c_mid.visited_view());
                if c_mid.claimed_view().contains(c_mid.visited_view()[k]) {
                    let ci = choose|ci: int|
                        0 <= ci < c_mid.claimed_view().len() && c_mid.claimed_view()[ci]
                            == c_mid.visited_view()[k];
                    assert(c.claimed_view()[ci] == c_mid.claimed_view()[ci]);
                } else {
                    let q = choose|q: int|
                        0 <= q < c_mid.queue_view().len() && c_mid.queue_view()[q].0
                            == c_mid.visited_view()[k];
                    if claim is Some {
                        if q == 0 {
                            assert(c.claimed_view().last() == c_mid.queue_view()[0].0);
                        } else {
                            assert(c.queue_view()[q - 1] == c_mid.queue_view()[q]);
                        }
                    } else {
                        assert(c.queue_view()[q] == c_mid.queue_view()[q]);
                    }
                }
            }
            assert forall|i: int|
                0 <= i < c.claimed_view().len() implies ((claim is Some && i
                == c.claimed_view().len() - 1) || (match site_outcome(
                site@,
                #[trigger] c.claimed_view()[i],
            ) {
                Some(FetchOutcome::Success { .. }) => exists|j: int|
                    0 <= j < c.pages_view().len() && (#[trigger] c.pages_view()[j]).url
                        == c.claimed_view()[i],
                _ => true,
            })) by {
                if i < c_mid.claimed_view().len() {
                    assert(c.claimed_view()[i] == c_mid.claimed_view()[i]);
                    match site_outcome(site@, c_mid.claimed_view()[i]) {
                        Some(FetchOutcome::Success { .. }) => {
                            let j2 = choose|j2: int|
                                0 <= j2 < c_mid.pages_view().len() && (
                                #[trigger] c_mid.pages_view()[j2]).url
                                    == c_mid.claimed_view()[i];
                            assert(c.pages_view()[j2] == c_mid.pages_view()[j2]);
                        },
                        _ => {},
                    }
                }
            }
            assert forall|i: int|
                0 <= i < c.pages_view().len() implies page_closure_ok(
                site@,
                *config,
                c.visited_view(),
                #[trigger] c.pages_view()[i],
            ) by {
                assert(c.pages_view()[i] == c_mid.pages_view()[i]);
                assert(c.visited_view() == c_mid.visited_view());
            }
        }
    }
    proof {
        assert forall|i: int|
            0 <= i < c.pages_view().len() implies c.page_ok(#[trigger] c.pages_view()[i]) by {}
        if config.max_pages is None {
            assert(c.queue_view().len() == 0);
            assert forall|i: int|
                0 <= i < c.pages_view().len() implies page_result_closed(
                site@,
                *config,
                c.pages_view(),
                #[trigger] c.pages_view()[i],
            ) by {
                let p = c.pages_view()[i];
                let dp = choose|dp: nat|
                    dp <= config.depth_limit as nat && page_closure_at(
                        site@,
                        *config,
                        c.visited_view(),
                        p,
                        dp,
                    );
                assert(page_closure_at(site@, *config, c.visited_view(), p, dp));
                match site_outcome(site@, p.url) {
                    Some(FetchOutcome::Success { status_code, title, html }) => {
                        assert forall|l: Seq<char>|
                            #[trigger] links_of(p.url, html@).contains(l) && spec_eligible(
                                l,
                                url_host_of(config.start_url@),
                                config.same_domain,
                                dp + 1,
                                config.depth_limit as nat,
                            ) && (site_outcome(site@, l) matches Some(
                                FetchOutcome::Success { .. },
                            )) implies exists|j: int|
                            0 <= j < c.pages_view().len() && (#[trigger] c.pages_view()[j]).url
                                == l by {
                            assert(c.visited_view().contains(l));
                            let k = choose|k: int|
                                0 <= k < c.visited_view().len() && c.visited_view()[k] == l;
                            assert(c.claimed_view().contains(c.visited_view()[k]));
                            let ci = choose|ci: int|
                                0 <= ci < c.claimed_view().len() && c.claimed_view()[ci] == l;
                            assert(0 <= ci < c.claimed_view().len());
                        }
                        assert(result_closed_at(site@, *config, c.pages_view(), p, dp));
                    },
                    _ => {
                        assert(false);
                    },
                }
            }
            assert(result_closed(site@, *config, c.pages_view()));
        }
    }
    Ok(c.into_pages())
}

impl Crawler {
    /// An external cancellation signal: no further claim will be issued.
    /// It takes effect between claims — a claim in flight is reported
    /// first, as its worker is allowed to finish.
    pub fn cancel(&mut self)
        requires
            old(self).inv(),
            !old(self).is_busy(),
        ensures
            final(self).inv(),
            final(self).is_halted(),
            final(self).spec_depth_limit() == old(self).spec_depth_limit(),
            final(self).spec_max_pages() == old(self).spec_max_pages(),
            final(self).spec_same_domain() == old(self).spec_same_domain(),
            final(self).start_view() == old(self).start_view(),
            final(self).pages_view() == old(self).pages_view(),
            final(self).visited_view() == old(self).visited_view(),
            final(self).queue_view() == old(self).queue_view(),
            final(self).claimed_view() == old(self).claimed_view(),
            !final(self).is_busy(),
    {
        self.halted = true;
        proof {
            assert(self.queue_view() == old(self).queue_view());
            assert(self.visited_view() == old(self).visited_view());
            assert(self.pages_view() == old(self).pages_view());
            assert(self.claimed_view() == old(self).claimed_view());
        }
    }

    /// Hands the recorded pages out, consuming the controller.
    pub fn into_pages(self) -> (r: Vec<Page>)
        ensures
            r@.map_values(|p: Page| p@) == self.pages_view(),
    {
        self.pages
    }
}

/// Law (page cap): a controller never holds more recorded pages than the
/// configured cap.
pub proof fn lemma_page_cap(c: Crawler)
    requires
        c.inv(),
    ensures
        c.spec_max_pages() matches Some(m) ==> c.pages_view().len() <= m,
{
}

/// Law (no duplicate fetches): the URLs a run has claimed — the fetches it
/// asked for — are pairwise distinct.
pub proof fn lemma_no_duplicate_fetches(c: Crawler)
    requires
        c.inv(),
    ensures
        c.claimed_view().no_duplicates(),
{
}

/// Law (no duplicate records): the URLs of the recorded pages are pairwise
/// distinct.
pub proof fn lemma_no_duplicate_pages(c: Crawler)
    requires
        c.inv(),
    ensures
        forall|i: int, j: int|
            0 <= i < j < c.pages_view().len() ==> c.pages_view()[i].url != c.pages_view()[j].url,
{
}

/// Law (depth bound): every queued entry, and the claim in flight, sits at
/// a depth within the depth limit.
pub proof fn lemma_depth_bound(c: Crawler)
    requires
        c.inv(),
    ensures
        forall|i: int|
            0 <= i < c.queue_view().len() ==> (#[trigger] c.queue_view()[i]).1
                <= c.spec_depth_limit(),
        c.current_view() matches Some(e) ==> e.1 <= c.spec_depth_limit(),
{
    assert forall|i: int|
        0 <= i < c.queue_view().len() implies (#[trigger] c.queue_view()[i]).1
        <= c.spec_depth_limit() by {
        assert(c.entry_ok(c.queue_view()[i]));
    }
}

/// Law (domain scoping): under domain restriction, every recorded page's
/// host is exactly the start URL's host.
pub proof fn lemma_domain_scope(c: Crawler)
    requires
        c.inv(),
        c.spec_same_domain(),
    ensures
        forall|i: int|
            0 <= i < c.pages_view().len() ==> url_host_of(#[trigger] c.pages_view()[i].url)
                == url_host_of(c.start_view()),
{
    assert forall|i: int|
        0 <= i < c.pages_view().len() implies url_host_of(#[trigger] c.pages_view()[i].url)
        == url_host_of(c.start_view()) by {
        assert(c.page_ok(c.pages_view()[i]));
    }
}

} // verus!
