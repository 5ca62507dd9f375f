use extra_link_discover::crawler::{CrawlResult, CrawlState, CrawlStats, Crawler, LinkKind, NextUrl, PageLinks};
use extra_link_discover::filter::DomainFilter;

#[test]
fn test_external_link_detection() {
    let filter = DomainFilter::new("");
    let crawler = Crawler::new(filter, 5);
    assert_eq!(crawler.concurrency(), 5);
}

#[test]
fn test_crawler_creation() {
    let filter = DomainFilter::new("");
    let crawler = Crawler::new(filter, 10);
    assert_eq!(crawler.concurrency(), 10);
}

#[test]
fn test_crawl_result_struct() {
    let result = CrawlResult {
        external_url: "https://external.com".to_string(),
        source_url: "https://source.com/page".to_string(),
    };
    assert_eq!(result.external_url, "https://external.com");
    assert_eq!(result.source_url, "https://source.com/page");
}

#[test]
fn crawl_stats_start_at_zero() {
    let s = CrawlStats::new();
    assert_eq!(s.pages_crawled, 0);
    assert_eq!(s.links_found, 0);
    assert_eq!(s.current_url, "");
    let d = CrawlStats::default();
    assert_eq!(d.pages_crawled, 0);
    assert_eq!(d.links_found, 0);
    assert_eq!(d.current_url, "");
}

#[test]
fn start_takes_the_lowercase_host_as_the_site() {
    let st = CrawlState::start("https://WWW.Example.com/start").unwrap();
    assert_eq!(st.base_domain(), "www.example.com");
    assert!(st.has_pending());
    assert_eq!(st.pages_crawled(), 0);
    assert_eq!(st.links_found(), 0);
}

#[test]
fn start_refuses_unparsable_url_and_url_without_host() {
    match CrawlState::start("not a url") {
        Err(e) => assert_eq!(e, "Failed to parse start URL: relative URL without a base"),
        Ok(_) => panic!("expected an error"),
    }
    match CrawlState::start("mailto:someone@example.com") {
        Err(e) => assert_eq!(e, "Start URL has no host"),
        Ok(_) => panic!("expected an error"),
    }
}

#[test]
fn no_page_is_fetched_twice() {
    let mut st = CrawlState::start("https://example.com/").unwrap();
    match st.next_url() {
        NextUrl::Fetch(u) => assert_eq!(u, "https://example.com/"),
        other => panic!("unexpected {:?}", other),
    }
    assert!(matches!(st.next_url(), NextUrl::Exhausted));
    let links = PageLinks {
        external: vec![],
        internal: vec![
            "https://example.com/a".to_string(),
            "https://example.com/".to_string(),
            "https://example.com/a".to_string(),
        ],
    };
    let msgs = st.record_page("https://example.com/", links);
    assert!(msgs.is_empty());
    assert_eq!(st.pages_crawled(), 1);
    match st.next_url() {
        NextUrl::Fetch(u) => assert_eq!(u, "https://example.com/a"),
        other => panic!("unexpected {:?}", other),
    }
    assert!(matches!(st.next_url(), NextUrl::AlreadyVisited));
    assert!(matches!(st.next_url(), NextUrl::Exhausted));
    assert!(!st.has_pending());
}

#[test]
fn record_page_reports_each_outbound_link_with_running_counts() {
    let mut st = CrawlState::start("https://example.com/").unwrap();
    let _ = st.next_url();
    let links = PageLinks {
        external: vec!["https://a.org/".to_string(), "https://b.org/x".to_string()],
        internal: vec![],
    };
    let msgs = st.record_page("https://example.com/", links);
    assert_eq!(msgs.len(), 2);
    assert_eq!(msgs[0].0.external_url, "https://a.org/");
    assert_eq!(msgs[1].0.external_url, "https://b.org/x");
    for (result, stats) in &msgs {
        assert_eq!(result.source_url, "https://example.com/");
        assert_eq!(stats.pages_crawled, 1);
        assert_eq!(stats.links_found, 2);
        assert_eq!(stats.current_url, "https://example.com/");
    }
    let more = PageLinks { external: vec!["https://c.org/".to_string()], internal: vec![] };
    let msgs = st.record_page("https://example.com/b", more);
    assert_eq!(msgs.len(), 1);
    assert_eq!(msgs[0].1.pages_crawled, 2);
    assert_eq!(msgs[0].1.links_found, 3);
    assert_eq!(st.links_found(), 3);
}

#[test]
fn batch_size_is_bounded_by_queue_and_concurrency() {
    let st = CrawlState::start("https://example.com/").unwrap();
    assert_eq!(st.batch_size(5), 1);
    assert_eq!(st.batch_size(0), 0);
}

#[test]
fn resolve_joins_relative_links_and_keeps_unjoinable_ones() {
    assert_eq!(Crawler::resolve("https://example.com/a/b", "c"), "https://example.com/a/c");
    assert_eq!(Crawler::resolve("https://example.com/a/b", "/x?y=1"), "https://example.com/x?y=1");
    assert_eq!(Crawler::resolve("not a base", "rel"), "rel");
}

#[test]
fn kind_of_sorts_by_host_and_filter() {
    let crawler = Crawler::new(DomainFilter::new("blocked.com"), 5);
    assert_eq!(crawler.kind_of("example.com", "https://EXAMPLE.com/p"), LinkKind::Internal);
    assert_eq!(crawler.kind_of("example.com", "https://other.com/p"), LinkKind::External);
    assert_eq!(crawler.kind_of("example.com", "https://x.blocked.com/p"), LinkKind::Ignored);
    assert_eq!(crawler.kind_of("example.com", "mailto:a@b.com"), LinkKind::Ignored);
    assert_eq!(crawler.kind_of("example.com", "nonsense"), LinkKind::Ignored);
}

#[test]
fn links_of_page_splits_anchors_into_outbound_and_on_site() {
    let crawler = Crawler::new(DomainFilter::new("blocked.com"), 5);
    let body = r#"<html><body>
        <a href="/x">internal</a>
        <a href="https://other.com/y">external</a>
        <a href="https://blocked.com/z">filtered</a>
        <a>no href</a>
        <a href="mailto:me@other.com">mail</a>
        <a href="sub/page.html">relative</a>
        <a href="https://another.net/">external two</a>
    </body></html>"#;
    let links = crawler.links_of_page("example.com", "https://example.com/dir/index.html", body);
    assert_eq!(links.external, vec!["https://other.com/y".to_string(), "https://another.net/".to_string()]);
    assert_eq!(
        links.internal,
        vec!["https://example.com/x".to_string(), "https://example.com/dir/sub/page.html".to_string()]
    );
}

#[test]
fn sort_links_skips_missing_hrefs() {
    let crawler = Crawler::new(DomainFilter::new(""), 5);
    let hrefs = vec![None, Some("https://a.org/".to_string()), Some("/in".to_string())];
    let links = crawler.sort_links("example.com", "https://example.com/", &hrefs);
    assert_eq!(links.external, vec!["https://a.org/".to_string()]);
    assert_eq!(links.internal, vec!["https://example.com/in".to_string()]);
}

#[test]
fn filter_getter_hands_back_the_blocklist() {
    let crawler = Crawler::new(DomainFilter::new("a.com"), 3);
    assert!(!crawler.filter().is_empty());
    assert!(crawler.filter().should_filter("https://a.com/"));
}

#[test]
fn a_finished_crawl_fetches_every_reachable_page_once() {
    // a small site: each page links to some others, and one outbound link
    let site = |page: &str| -> Vec<String> {
        let links: &[&str] = match page {
            "https://s.com/" => &["https://s.com/a", "https://s.com/b"],
            "https://s.com/a" => &["https://s.com/", "https://s.com/c"],
            "https://s.com/b" => &["https://s.com/c", "https://s.com/a"],
            _ => &[],
        };
        links.iter().map(|l| l.to_string()).collect()
    };
    let mut st = CrawlState::start("https://s.com/").unwrap();
    let mut fetched = Vec::new();
    let mut reported = 0;
    loop {
        match st.next_url() {
            NextUrl::Exhausted => break,
            NextUrl::AlreadyVisited => continue,
            NextUrl::Fetch(u) => {
                let links = PageLinks { external: vec![format!("https://out.org/{}", fetched.len())], internal: site(&u) };
                reported += st.record_page(&u, links).len();
                fetched.push(u);
            }
        }
    }
    let mut sorted = fetched.clone();
    sorted.sort();
    sorted.dedup();
    assert_eq!(sorted.len(), fetched.len());
    assert_eq!(sorted, vec!["https://s.com/", "https://s.com/a", "https://s.com/b", "https://s.com/c"]);
    assert_eq!(st.pages_crawled(), 4);
    assert_eq!(st.links_found(), 4);
    assert_eq!(reported, 4);
}
