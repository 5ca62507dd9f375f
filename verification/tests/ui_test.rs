use extra_link_discover::crawler::{CrawlResult, CrawlStats};
use extra_link_discover::text::{is_white_space, parse_usize, str_eq, trim_str};
use extra_link_discover::ui::{frame_budget_spent, shorten_for_display, ExtraLinkApp};

fn result(ext: &str, src: &str) -> CrawlResult {
    CrawlResult { external_url: ext.to_string(), source_url: src.to_string() }
}

fn stats(p: usize, l: usize, cur: &str) -> CrawlStats {
    CrawlStats { pages_crawled: p, links_found: l, current_url: cur.to_string() }
}

#[test]
fn app_opens_idle_with_defaults() {
    let app = ExtraLinkApp::new();
    assert_eq!(app.url, "");
    assert_eq!(app.concurrency, "5");
    assert!(app.results.is_empty());
    assert!(!app.is_crawling);
    assert!(app.error_message.is_none());
    assert_eq!(app.max_displayed_results, 1000);
}

#[test]
fn start_without_url_shows_a_message() {
    let mut app = ExtraLinkApp::new();
    assert!(app.start_crawl().is_none());
    assert_eq!(app.error_message.as_deref(), Some("请输入目标网站URL"));
    assert!(!app.is_crawling);
}

#[test]
fn start_trims_the_url_and_reads_the_settings() {
    let mut app = ExtraLinkApp::new();
    app.url = "  https://example.com/  ".to_string();
    app.concurrency = "10".to_string();
    app.filter_domains = "ads.com".to_string();
    app.results.push(("old".to_string(), "old".to_string()));
    app.error_message = Some("stale".to_string());
    let req = app.start_crawl().expect("a crawl request");
    assert_eq!(req.start_url, "https://example.com/");
    assert_eq!(req.crawler.concurrency(), 10);
    assert!(req.crawler.filter().should_filter("https://ads.com/"));
    assert!(app.is_crawling);
    assert!(app.results.is_empty());
    assert!(app.error_message.is_none());
    assert_eq!(app.current_crawl_url, "https://example.com/");
    assert_eq!(req.state.base_domain(), "example.com");
    assert!(req.state.has_pending());
}

#[test]
fn unparsable_concurrency_falls_back_to_five() {
    let mut app = ExtraLinkApp::new();
    app.url = "https://example.com".to_string();
    app.concurrency = "lots".to_string();
    assert_eq!(app.start_crawl().unwrap().crawler.concurrency(), 5);
}

#[test]
fn stop_and_finish_end_the_running_state() {
    let mut app = ExtraLinkApp::new();
    app.url = "https://example.com".to_string();
    let _ = app.start_crawl();
    app.stop_crawl();
    assert!(!app.is_crawling);
    let _ = app.start_crawl();
    app.crawl_finished();
    assert!(!app.is_crawling);
}

#[test]
fn receive_keeps_results_with_links_and_always_the_stats() {
    let mut app = ExtraLinkApp::new();
    app.receive(result("https://a.org/", "https://s.com/"), stats(1, 1, "https://s.com/"));
    app.receive(result("", "https://s.com/2"), stats(2, 1, "https://s.com/2"));
    assert_eq!(app.results, vec![("https://a.org/".to_string(), "https://s.com/".to_string())]);
    assert_eq!(app.stats.pages_crawled, 2);
    assert_eq!(app.stats.current_url, "https://s.com/2");
}

#[test]
fn clear_results_resets_list_stats_and_message() {
    let mut app = ExtraLinkApp::new();
    app.receive(result("https://a.org/", "https://s.com/"), stats(1, 1, "https://s.com/"));
    app.error_message = Some("x".to_string());
    app.clear_results();
    assert!(app.results.is_empty());
    assert_eq!(app.stats.pages_crawled, 0);
    assert_eq!(app.stats.links_found, 0);
    assert!(app.error_message.is_none());
}

#[test]
fn toggle_debug_twice_restores_it() {
    let mut app = ExtraLinkApp::new();
    app.toggle_debug();
    assert!(app.show_debug);
    app.toggle_debug();
    assert!(!app.show_debug);
}

#[test]
fn export_rows_start_with_the_header() {
    let mut app = ExtraLinkApp::new();
    app.receive(result("https://a.org/", "https://s.com/"), stats(1, 1, "https://s.com/"));
    let rows = app.export_rows();
    assert_eq!(rows.len(), 2);
    assert_eq!(rows[0], ("外部链接".to_string(), "所在页面".to_string()));
    assert_eq!(rows[1], ("https://a.org/".to_string(), "https://s.com/".to_string()));
}

#[test]
fn rows_show_newest_first_up_to_the_limit() {
    let mut app = ExtraLinkApp::new();
    app.max_displayed_results = 2;
    for i in 0..3 {
        app.receive(result(&format!("https://e{}.org/", i), "https://s.com/"), stats(1, i + 1, "https://s.com/"));
    }
    assert_eq!(app.visible_rows(), 2);
    assert!(app.is_display_limited());
    assert_eq!(app.result_for_row(0).0, "https://e2.org/");
    assert_eq!(app.result_for_row(1).0, "https://e1.org/");
}

#[test]
fn frame_budget_is_fifty_results() {
    assert!(!frame_budget_spent(49));
    assert!(frame_budget_spent(50));
}

#[test]
fn parse_usize_follows_std() {
    for s in ["", "+", "-1", "1a", " 1", "18446744073709551616", "99999999999999999999999"] {
        assert_eq!(parse_usize(s), s.parse::<usize>().ok(), "{:?}", s);
    }
    assert_eq!(parse_usize("12"), Some(12));
    assert_eq!(parse_usize("+12"), Some(12));
    assert_eq!(parse_usize("007"), Some(7));
    assert_eq!(parse_usize(&usize::MAX.to_string()), Some(usize::MAX));
}

#[test]
fn trim_and_compare_strings() {
    assert_eq!(trim_str("  a b \t\n"), "a b");
    assert_eq!(trim_str("\u{3000}x\u{3000}"), "x");
    assert_eq!(trim_str("   "), "");
    assert!(str_eq("abc", "abc"));
    assert!(!str_eq("abc", "abd"));
    assert!(!str_eq("abc", "ab"));
}

#[test]
fn long_links_are_cut_at_sixty_bytes() {
    let short = "https://example.com/";
    assert_eq!(shorten_for_display(short), short);
    let exact = "a".repeat(60);
    assert_eq!(shorten_for_display(&exact), exact);
    let long = format!("https://example.com/{}", "x".repeat(100));
    let shown = shorten_for_display(&long);
    assert_eq!(shown, format!("{}...", &long[..60]));
    assert_eq!(shown.len(), 63);
    let wide = format!("{}{}", "a".repeat(57), "链接链接");
    assert_eq!(shorten_for_display(&wide), format!("{}链...", "a".repeat(57)));
}

#[test]
fn start_with_an_invalid_url_shows_why_and_starts_nothing() {
    let mut app = ExtraLinkApp::new();
    app.results.push(("kept".to_string(), "kept".to_string()));
    app.url = "not a url".to_string();
    assert!(app.start_crawl().is_none());
    assert_eq!(
        app.error_message.as_deref(),
        Some("Failed to parse start URL: relative URL without a base")
    );
    assert!(!app.is_crawling);
    assert_eq!(app.results.len(), 1);

    app.url = "   ".to_string();
    assert!(app.start_crawl().is_none());
    assert!(app.error_message.as_deref().unwrap().starts_with("Failed to parse start URL: "));
    assert!(!app.is_crawling);

    app.url = "mailto:someone@example.com".to_string();
    assert!(app.start_crawl().is_none());
    assert_eq!(app.error_message.as_deref(), Some("Start URL has no host"));
    assert!(!app.is_crawling);
}

#[test]
fn export_failure_is_shown() {
    let mut app = ExtraLinkApp::new();
    app.export_failed("disk full");
    assert_eq!(app.error_message.as_deref(), Some("导出失败: disk full"));
}

#[test]
fn white_space_agrees_with_std_on_every_char() {
    for c in (0u32..=0x10FFFF).filter_map(char::from_u32) {
        assert_eq!(is_white_space(c), c.is_whitespace(), "{:?}", c);
    }
}
