use extra_link_discover::filter::{entry_blocks_host, DomainFilter};

#[test]
fn test_filter_exact_domain() {
    let filter = DomainFilter::new("example.com");
    assert!(filter.should_filter("https://example.com/page"));
    assert!(filter.should_filter("https://www.example.com/page"));
    assert!(!filter.should_filter("https://other.com/page"));
}

#[test]
fn test_filter_subdomain() {
    let filter = DomainFilter::new("example.com");
    assert!(filter.should_filter("https://sub.example.com/page"));
    assert!(filter.should_filter("https://deep.sub.example.com/page"));
}

#[test]
fn test_filter_ip() {
    let filter = DomainFilter::new("192.168.1.1");
    assert!(filter.should_filter("https://192.168.1.1/page"));
}

#[test]
fn test_empty_filter() {
    let filter = DomainFilter::new("");
    assert!(!filter.should_filter("https://any.com/page"));
}

#[test]
fn filter_does_not_match_a_lookalike_suffix() {
    let filter = DomainFilter::new("example.com");
    assert!(!filter.should_filter("https://notexample.com/page"));
    assert!(!filter.should_filter("https://example.com.evil.org/page"));
}

#[test]
fn wildcard_entry_blocks_base_and_subdomains() {
    let filter = DomainFilter::new("*.example.com");
    assert!(filter.should_filter("https://example.com/"));
    assert!(filter.should_filter("https://a.example.com/"));
    assert!(filter.should_filter("https://a.b.example.com/x"));
    assert!(!filter.should_filter("https://badexample.com/"));
}

#[test]
fn entries_are_split_on_commas_and_newlines() {
    let filter = DomainFilter::new("a.com,b.com\nc.com，d.com");
    assert!(!filter.is_empty());
    for host in ["a.com", "b.com", "c.com", "d.com"] {
        assert!(filter.should_filter(&format!("https://{}/", host)));
    }
    assert!(!filter.should_filter("https://e.com/"));
}

#[test]
fn entries_are_trimmed_and_lowercased() {
    let filter = DomainFilter::new("  Example.COM \t, ");
    assert!(filter.should_filter("https://example.com/"));
    assert!(filter.should_filter("https://WWW.Example.Com/"));
}

#[test]
fn input_of_only_separators_and_blanks_gives_an_empty_filter() {
    assert!(DomainFilter::new("").is_empty());
    assert!(DomainFilter::new(" ,\n ， ,").is_empty());
    assert!(!DomainFilter::new(" ,x.org, ").is_empty());
}

#[test]
fn links_without_a_host_or_unparsable_are_not_filtered() {
    let filter = DomainFilter::new("example.com");
    assert!(!filter.should_filter("not a url"));
    assert!(!filter.should_filter("mailto:someone@example.com"));
}

#[test]
fn matches_host_compares_lowercase_hosts() {
    let filter = DomainFilter::new("example.com,*.test.org");
    assert!(filter.matches_host("example.com"));
    assert!(filter.matches_host("x.example.com"));
    assert!(!filter.matches_host(".example.com"));
    assert!(filter.matches_host("test.org"));
    assert!(filter.matches_host(".test.org"));
    assert!(!filter.matches_host("other.org"));
}

#[test]
fn separator_choice_does_not_change_the_filter() {
    let hosts = ["a.com", "x.a.com", "b.net", "c.org", "a.comx"];
    let inputs = ["a.com,b.net", "a.com\nb.net", "a.com，b.net"];
    for input in inputs {
        let joined = DomainFilter::new(input);
        let left = DomainFilter::new("a.com");
        let right = DomainFilter::new("b.net");
        for host in hosts {
            assert_eq!(
                joined.matches_host(host),
                left.matches_host(host) || right.matches_host(host)
            );
        }
    }
}

#[test]
fn entry_blocks_host_on_plain_and_wildcard_entries() {
    assert!(entry_blocks_host("a.com", "a.com"));
    assert!(entry_blocks_host("a.com", "b.a.com"));
    assert!(!entry_blocks_host("a.com", "ba.com"));
    assert!(entry_blocks_host("*.a.com", "a.com"));
    assert!(entry_blocks_host("*.a.com", "b.a.com"));
    assert!(!entry_blocks_host("", "a.com"));
}
