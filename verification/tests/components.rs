use webcrawl::api::{CrawlRequest, CrawlResult, StatusResponse};
use webcrawl::config::Config;
use webcrawl::engine::{is_success_status, CrawlError, Page};
use webcrawl::frontier::Frontier;
use webcrawl::parser::extract_links;
use webcrawl::scope::eligible;
use webcrawl::storage::{StorageBackend, StorageError, StorageManager};
use webcrawl::urls::{is_same_domain, is_valid_url, normalize_url, url_host};

#[test]
fn url_validity() {
    assert!(is_valid_url("https://example.com/path?q=1"));
    assert!(!is_valid_url("not a url"));
    assert!(!is_valid_url("/relative/only"));
}

#[test]
fn url_normalization() {
    assert_eq!(normalize_url("HTTPS://A.test"), Some("https://a.test/".to_string()));
    assert_eq!(normalize_url("https://a.test/x/../y"), Some("https://a.test/y".to_string()));
    assert_eq!(normalize_url("nope"), None);
}

#[test]
fn url_hosts() {
    assert_eq!(url_host("https://a.test/x"), Some("a.test".to_string()));
    assert_eq!(url_host("mailto:someone"), None);
    assert_eq!(url_host("not a url"), None);
}

#[test]
fn same_domain_is_exact_host_match() {
    assert!(is_same_domain("https://a.test/", "https://a.test/deep/page"));
    assert!(!is_same_domain("https://a.test/", "https://other.test/"));
    assert!(!is_same_domain("https://example.com/", "https://evil-example.com/"));
    assert!(!is_same_domain("bad", "https://a.test/"));
}

#[test]
fn scope_filter_rules() {
    let origin = Some("a.test".to_string());
    assert!(eligible("https://a.test/x", &origin, true, 2, 3));
    assert!(!eligible("https://a.test/x", &origin, true, 4, 3));
    assert!(!eligible("https://other.test/x", &origin, true, 1, 3));
    assert!(eligible("https://other.test/x", &origin, false, 1, 3));
    assert!(!eligible("not a url", &origin, false, 1, 3));
}

#[test]
fn frontier_accepts_each_url_once() {
    let mut f = Frontier::new();
    assert!(f.offer("https://a.test/".to_string(), 0));
    assert!(!f.offer("https://a.test/".to_string(), 1));
    assert!(f.offer("https://a.test/b".to_string(), 1));
    let first = f.claim_next().unwrap();
    assert_eq!(first.url, "https://a.test/");
    assert_eq!(first.depth, 0);
    let second = f.claim_next().unwrap();
    assert_eq!(second.url, "https://a.test/b");
    assert!(f.claim_next().is_none());
    assert!(!f.offer("https://a.test/".to_string(), 2));
}

#[test]
fn frontier_idle_detection() {
    let mut f = Frontier::new();
    assert!(f.is_empty_and_idle());
    f.offer("https://a.test/".to_string(), 0);
    assert!(!f.is_empty_and_idle());
    let _claimed = f.claim_next().unwrap();
    assert!(!f.is_empty_and_idle());
    f.complete();
    assert!(f.is_empty_and_idle());
}

#[test]
fn links_are_resolved_against_base() {
    let html = "<a href=\"/b\">b</a><p>text</p><a href=\"https://other.test/\">o</a>";
    let links = extract_links("https://a.test/dir/", html);
    assert_eq!(links, vec!["https://a.test/b".to_string(), "https://other.test/".to_string()]);
}

#[test]
fn relative_links_keep_directories() {
    let links = extract_links("https://a.test/dir/", "<a href=\"c\">c</a>");
    assert_eq!(links, vec!["https://a.test/dir/c".to_string()]);
}

#[test]
fn config_defaults() {
    let c = Config::with_defaults("https://a.test/".to_string());
    assert_eq!(c.start_url, "https://a.test/");
    assert_eq!(c.depth_limit, 3);
    assert_eq!(c.max_pages, None);
    assert!(!c.same_domain);
}

#[test]
fn request_becomes_config() {
    let req = CrawlRequest {
        start_url: "https://a.test/".to_string(),
        depth_limit: 2,
        max_pages: Some(10),
        same_domain: true,
    };
    let c = req.into_config();
    assert_eq!(c.start_url, "https://a.test/");
    assert_eq!(c.depth_limit, 2);
    assert_eq!(c.max_pages, Some(10));
    assert!(c.same_domain);
}

#[test]
fn page_presentation_fills_defaults() {
    let r = CrawlResult::from_page(Page {
        url: "https://a.test/".to_string(),
        title: None,
        status_code: None,
    });
    assert_eq!(r.url, "https://a.test/");
    assert_eq!(r.title, "No title");
    assert_eq!(r.status, 0);
    let r2 = CrawlResult::from_page(Page {
        url: "https://a.test/b".to_string(),
        title: Some("B".to_string()),
        status_code: Some(404),
    });
    assert_eq!(r2.title, "B");
    assert_eq!(r2.status, 404);
}

#[test]
fn status_response_reports_running() {
    let s = StatusResponse::running("1.2.3".to_string());
    assert_eq!(s.status, "running");
    assert_eq!(s.version, "1.2.3");
}

#[test]
fn only_2xx_counts_as_success() {
    assert!(is_success_status(200));
    assert!(is_success_status(204));
    assert!(is_success_status(299));
    assert!(!is_success_status(199));
    assert!(!is_success_status(301));
    assert!(!is_success_status(404));
    assert!(!is_success_status(500));
}

#[test]
fn crawl_error_message() {
    assert_eq!(CrawlError::InvalidStartUrl.message(), "invalid start URL");
}

#[test]
fn storage_errors_name_their_backend() {
    let m = StorageManager::new(StorageBackend::Csv);
    let _ = m;
    let e = StorageError::Csv("disk full".to_string());
    assert_eq!(e.message(), "disk full");
    let e2 = StorageError::Sqlite("locked".to_string());
    assert_eq!(e2.message(), "locked");
}
