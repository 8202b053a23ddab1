use webcrawl::config::Config;
use webcrawl::engine::{crawl, CrawlError, Crawler, FetchOutcome, SitePage};

fn page(url: &str, title: Option<&str>, links: &[&str]) -> SitePage {
    let mut html = String::new();
    for l in links {
        html.push_str(&format!("<a href=\"{}\">link</a>", l));
    }
    if let Some(t) = title {
        html = format!("<title>{}</title>{}", t, html);
    }
    SitePage {
        url: url.to_string(),
        outcome: FetchOutcome::Success {
            status_code: 200,
            title: title.map(|t| t.to_string()),
            html,
        },
    }
}

fn failing(url: &str) -> SitePage {
    SitePage { url: url.to_string(), outcome: FetchOutcome::Failure }
}

fn config(start: &str, depth_limit: usize, max_pages: Option<usize>, same_domain: bool) -> Config {
    Config { start_url: start.to_string(), depth_limit, max_pages, same_domain }
}

fn site_abc() -> Vec<SitePage> {
    vec![
        page("https://a.test/", Some("Root"), &["/b", "https://other.test/"]),
        page("https://a.test/b", Some("B"), &["/c"]),
        page("https://a.test/c", Some("C"), &[]),
        page("https://other.test/", Some("Other"), &[]),
    ]
}

#[test]
fn depth_and_domain_scoping() {
    let cfg = config("https://a.test/", 1, None, true);
    let pages = crawl(&cfg, &site_abc()).unwrap();
    let urls: Vec<&str> = pages.iter().map(|p| p.url.as_str()).collect();
    assert_eq!(urls, vec!["https://a.test/", "https://a.test/b"]);
    assert_eq!(pages[0].title.as_deref(), Some("Root"));
    assert_eq!(pages[0].status_code, Some(200));
    assert_eq!(pages[1].title.as_deref(), Some("B"));
}

#[test]
fn page_cap_halts_run() {
    let cfg = config("https://a.test/", 1, Some(1), true);
    let pages = crawl(&cfg, &site_abc()).unwrap();
    assert_eq!(pages.len(), 1);
    assert_eq!(pages[0].url, "https://a.test/");
}

#[test]
fn fetch_failure_skips_page_and_children() {
    let site = vec![
        page("https://a.test/", Some("Root"), &["/b", "/d"]),
        failing("https://a.test/b"),
        page("https://a.test/d", Some("D"), &[]),
    ];
    let cfg = config("https://a.test/", 2, None, true);
    let pages = crawl(&cfg, &site).unwrap();
    let urls: Vec<&str> = pages.iter().map(|p| p.url.as_str()).collect();
    assert_eq!(urls, vec!["https://a.test/", "https://a.test/d"]);
}

#[test]
fn cross_domain_pages_stored_without_restriction() {
    let cfg = config("https://a.test/", 1, None, false);
    let pages = crawl(&cfg, &site_abc()).unwrap();
    let urls: Vec<&str> = pages.iter().map(|p| p.url.as_str()).collect();
    assert_eq!(urls, vec!["https://a.test/", "https://a.test/b", "https://other.test/"]);
}

#[test]
fn depth_zero_stores_only_start_page() {
    let cfg = config("https://a.test/", 0, None, true);
    let pages = crawl(&cfg, &site_abc()).unwrap();
    assert_eq!(pages.len(), 1);
    assert_eq!(pages[0].url, "https://a.test/");
}

#[test]
fn cyclic_links_are_visited_once() {
    let site = vec![
        page("https://a.test/", Some("Root"), &["/b", "/"]),
        page("https://a.test/b", Some("B"), &["/", "/b"]),
    ];
    let cfg = config("https://a.test/", 5, None, true);
    let pages = crawl(&cfg, &site).unwrap();
    let urls: Vec<&str> = pages.iter().map(|p| p.url.as_str()).collect();
    assert_eq!(urls, vec!["https://a.test/", "https://a.test/b"]);
}

#[test]
fn unresolvable_links_fail_quietly() {
    let site = vec![page("https://a.test/", Some("Root"), &["/missing"])];
    let cfg = config("https://a.test/", 3, None, true);
    let pages = crawl(&cfg, &site).unwrap();
    assert_eq!(pages.len(), 1);
}

#[test]
fn invalid_start_url_is_fatal() {
    let cfg = config("not a url", 3, None, false);
    let r = crawl(&cfg, &Vec::new());
    assert_eq!(r.unwrap_err(), CrawlError::InvalidStartUrl);
}

#[test]
fn controller_claims_in_order_and_records_successes() {
    let cfg = config("https://a.test/", 3, None, true);
    let mut c = Crawler::new(&cfg).unwrap();
    let u = c.next_url().unwrap();
    assert_eq!(u, "https://a.test/");
    c.report(&FetchOutcome::Success {
        status_code: 200,
        title: Some("Root".to_string()),
        html: "<a href=\"/b\">b</a>".to_string(),
    });
    let u2 = c.next_url().unwrap();
    assert_eq!(u2, "https://a.test/b");
    c.report(&FetchOutcome::Failure);
    assert!(c.next_url().is_none());
    let pages = c.into_pages();
    assert_eq!(pages.len(), 1);
    assert_eq!(pages[0].url, "https://a.test/");
}

#[test]
fn cancellation_suppresses_further_claims() {
    let cfg = config("https://a.test/", 3, None, false);
    let mut c = Crawler::new(&cfg).unwrap();
    c.cancel();
    assert!(c.next_url().is_none());
    assert_eq!(c.into_pages().len(), 0);
}

#[test]
fn page_cap_of_zero_stores_nothing() {
    let cfg = config("https://a.test/", 1, Some(0), true);
    let pages = crawl(&cfg, &site_abc()).unwrap();
    assert_eq!(pages.len(), 0);
}

#[test]
fn missing_title_is_recorded_as_none() {
    let site = vec![page("https://a.test/", None, &[])];
    let cfg = config("https://a.test/", 0, None, false);
    let pages = crawl(&cfg, &site).unwrap();
    assert_eq!(pages[0].title, None);
}
