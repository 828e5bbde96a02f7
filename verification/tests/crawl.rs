use web2llm::crawl::{normalize_url, should_follow, CrawlConfig, CrawlPlan};
use web2llm::preflight::validate;

fn links(v: &[&str]) -> Vec<String> {
    v.iter().map(|s| s.to_string()).collect()
}

#[test]
fn normalization_drops_the_fragment() {
    assert_eq!(normalize_url("https://example.com/a#b").as_deref(), Some("https://example.com/a"));
    assert_eq!(normalize_url("https://example.com").as_deref(), Some("https://example.com/"));
    assert_eq!(normalize_url("not a url"), None);
}

#[test]
fn following_respects_scheme_and_domain() {
    let same = CrawlConfig::default();
    let any = CrawlConfig { max_depth: 0, preserve_domain: false };
    let local = validate("https://example.com/x", true).unwrap();
    let remote = validate("https://other.org/x", true).unwrap();
    let other_port = validate("https://example.com:8443/x", true).unwrap();
    assert!(should_follow(&local, "example.com", Some(443), &same));
    assert!(!should_follow(&remote, "example.com", Some(443), &same));
    assert!(!should_follow(&other_port, "example.com", Some(443), &same));
    assert!(should_follow(&remote, "example.com", Some(443), &any));
}

#[test]
fn depth_zero_fetches_only_the_seed() {
    let plan = CrawlPlan::new("https://example.com/#top", CrawlConfig::default());
    assert!(plan.next_level().is_none());
    assert_eq!(plan.discovered_urls(), links(&["https://example.com/"]));
}

#[test]
fn one_level_adds_admitted_links_once() {
    let mut plan = CrawlPlan::new("https://example.com/", CrawlConfig { max_depth: 1, preserve_domain: true });
    let level = plan.next_level().unwrap();
    assert_eq!(level, links(&["https://example.com/"]));
    let found = vec![links(&[
        "https://example.com/one#x",
        "https://other.org/two",
        "mailto:someone@example.com",
        "https://example.com/",
        "https://example.com/one",
    ])];
    plan.absorb_level(&found);
    assert_eq!(plan.discovered_urls(), links(&["https://example.com/", "https://example.com/one"]));
    assert!(plan.next_level().is_none());
}

#[test]
fn crossing_domains_when_allowed() {
    let mut plan = CrawlPlan::new("https://example.com/", CrawlConfig { max_depth: 2, preserve_domain: false });
    plan.next_level().unwrap();
    plan.absorb_level(&vec![links(&["https://other.org/two", "ftp://example.com/file"])]);
    assert_eq!(plan.next_level().unwrap(), links(&["https://other.org/two"]));
    plan.absorb_level(&vec![vec![]]);
    assert!(plan.next_level().is_none());
    assert_eq!(plan.discovered_urls(), links(&["https://example.com/", "https://other.org/two"]));
}

#[test]
fn an_unparsable_seed_is_kept_but_not_expanded() {
    let plan = CrawlPlan::new("not a url", CrawlConfig { max_depth: 3, preserve_domain: true });
    assert!(plan.next_level().is_none());
    assert_eq!(plan.discovered_urls(), links(&["not a url"]));
}

#[test]
fn the_seed_port_bounds_the_crawl() {
    let mut plan = CrawlPlan::new("http://example.com:8080/", CrawlConfig { max_depth: 1, preserve_domain: true });
    plan.next_level().unwrap();
    plan.absorb_level(&vec![links(&[
        "http://example.com:8080/one",
        "http://example.com:9090/two",
        "http://example.com/three",
    ])]);
    assert_eq!(
        plan.discovered_urls(),
        links(&["http://example.com:8080/", "http://example.com:8080/one"])
    );
}
