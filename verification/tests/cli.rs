use web2llm::cli::{
    build_batch_report, render_urls_text, resolve_crawl_config, resolve_web2llm_config,
    save_successful_pages, validate_configs, CliError, CommonOptions, CrawlSection, FetchModeArg,
    FetchModeFileValue, FileConfig, PageDocument, Web2llmSection,
};
use web2llm::config::Timeout;
use web2llm::error::Web2llmError;
use web2llm::fetch::FetchMode;
use web2llm::output::PageResult;
use web2llm::tokens::PageChunk;

fn chunk(index: usize, content: &str, tokens: usize) -> PageChunk {
    PageChunk { index, content: content.to_string(), tokens, score_bits: 1.0f32.to_bits() }
}

#[test]
fn test_cli_overrides_win_over_file_values() {
    let file = FileConfig {
        web2llm: Web2llmSection {
            max_tokens: Some(400),
            ordered: Some(false),
            ..Default::default()
        },
        ..Default::default()
    };

    let options = CommonOptions {
        max_tokens: Some(900),
        ordered: true,
        ..Default::default()
    };

    let resolved = resolve_web2llm_config(&file, &options);
    assert_eq!(resolved.max_tokens, 900);
    assert!(resolved.ordered);
}

#[test]
fn no_file_and_no_flags_give_the_defaults() {
    let resolved = resolve_web2llm_config(&FileConfig::default(), &CommonOptions::default());
    assert_eq!(resolved.user_agent, "web2llm/0.4.0");
    assert_eq!(resolved.timeout, Timeout::from_secs(30));
    assert!(resolved.block_private_hosts);
    assert!(resolved.robots_check);
    assert_eq!(resolved.rate_limit, 5);
    assert_eq!(resolved.max_concurrency, 10);
    assert_eq!(resolved.max_tokens, 1000);
    assert_eq!(resolved.fetch_mode, FetchMode::Auto);
    assert!(!resolved.ordered);
}

#[test]
fn file_values_apply_when_no_flag_is_given() {
    let file = FileConfig {
        web2llm: Web2llmSection {
            user_agent: Some("file-agent".to_string()),
            timeout_secs: Some(7),
            block_private_hosts: Some(false),
            sensitivity_bits: Some(0.25f32.to_bits()),
            robots_check: Some(false),
            rate_limit: Some(2),
            max_concurrency: Some(3),
            fetch_mode: Some(FetchModeFileValue::Static),
            ordered: Some(true),
            ..Default::default()
        },
        ..Default::default()
    };
    let resolved = resolve_web2llm_config(&file, &CommonOptions::default());
    assert_eq!(resolved.user_agent, "file-agent");
    assert_eq!(resolved.timeout, Timeout::from_secs(7));
    assert!(!resolved.block_private_hosts);
    assert_eq!(f32::from_bits(resolved.sensitivity_bits), 0.25);
    assert!(!resolved.robots_check);
    assert_eq!(resolved.rate_limit, 2);
    assert_eq!(resolved.max_concurrency, 3);
    assert_eq!(resolved.fetch_mode, FetchMode::Static);
    assert!(resolved.ordered);
}

#[test]
fn flags_override_file_values() {
    let file = FileConfig {
        web2llm: Web2llmSection {
            user_agent: Some("file-agent".to_string()),
            timeout_secs: Some(7),
            block_private_hosts: Some(true),
            robots_check: Some(true),
            fetch_mode: Some(FetchModeFileValue::Static),
            ..Default::default()
        },
        ..Default::default()
    };
    let options = CommonOptions {
        user_agent: Some("cli-agent".to_string()),
        timeout_secs: Some(3),
        allow_private_hosts: true,
        no_robots: true,
        fetch_mode: Some(FetchModeArg::Dynamic),
        ..Default::default()
    };
    let resolved = resolve_web2llm_config(&file, &options);
    assert_eq!(resolved.user_agent, "cli-agent");
    assert_eq!(resolved.timeout, Timeout::from_secs(3));
    assert!(!resolved.block_private_hosts);
    assert!(!resolved.robots_check);
    assert_eq!(resolved.fetch_mode, FetchMode::Dynamic);
}

#[test]
fn crawl_config_layers() {
    let none = FileConfig::default();
    let c = resolve_crawl_config(&none, None, false);
    assert_eq!(c.max_depth, 0);
    assert!(c.preserve_domain);
    let file = FileConfig {
        crawl: CrawlSection { max_depth: Some(2), preserve_domain: Some(false) },
        ..Default::default()
    };
    let c = resolve_crawl_config(&file, None, false);
    assert_eq!(c.max_depth, 2);
    assert!(!c.preserve_domain);
    let c = resolve_crawl_config(&file, Some(5), true);
    assert_eq!(c.max_depth, 5);
    assert!(!c.preserve_domain);
}

#[test]
fn zero_timeout_is_a_config_error() {
    let options = CommonOptions { timeout_secs: Some(0), ..Default::default() };
    let resolved = resolve_web2llm_config(&FileConfig::default(), &options);
    match validate_configs(&resolved) {
        Err(CliError::Config(m)) => assert_eq!(m, "timeout_secs must be greater than zero"),
        other => panic!("unexpected {:?}", other),
    }
    let ok = resolve_web2llm_config(&FileConfig::default(), &CommonOptions::default());
    assert!(validate_configs(&ok).is_ok());
}

#[test]
fn fetch_mode_conversions() {
    assert_eq!(FetchMode::from(FetchModeArg::Auto), FetchMode::Auto);
    assert_eq!(FetchMode::from(FetchModeArg::Static), FetchMode::Static);
    assert_eq!(FetchMode::from(FetchModeArg::Dynamic), FetchMode::Dynamic);
    assert_eq!(FetchMode::from(FetchModeFileValue::Auto), FetchMode::Auto);
    assert_eq!(FetchMode::from(FetchModeFileValue::Static), FetchMode::Static);
    assert_eq!(FetchMode::from(FetchModeFileValue::Dynamic), FetchMode::Dynamic);
}

#[test]
fn urls_render_one_per_line() {
    let urls = vec!["https://a.example".to_string(), "https://b.example/x".to_string()];
    assert_eq!(render_urls_text(&urls), "https://a.example\nhttps://b.example/x");
    assert_eq!(render_urls_text(&Vec::new()), "");
}

#[test]
fn page_document_summarizes_a_page() {
    let page = PageResult::new(
        "https://example.com/a",
        "A",
        vec![chunk(0, "first", 2), chunk(1, "second", 3)],
    );
    let doc = PageDocument::from_page(&page);
    assert_eq!(doc.url, "https://example.com/a");
    assert_eq!(doc.title, "A");
    assert_eq!(doc.markdown, "first\n\nsecond");
    assert_eq!(doc.total_tokens, 5);
    assert_eq!(doc.chunk_count, 2);
    assert!(doc.timestamp.contains('T'));
}

#[test]
fn batch_report_counts_successes_and_failures() {
    let results = vec![
        (
            "https://example.com/a".to_string(),
            Ok(PageResult::new("https://example.com/a", "A", vec![chunk(0, "text", 2)])),
        ),
        ("not-a-url".to_string(), Err(Web2llmError::InvalidUrl("not-a-url".to_string()))),
        ("https://example.com/b".to_string(), Err(Web2llmError::Disallowed)),
    ];
    let report = build_batch_report(&results);
    assert_eq!(report.total, 3);
    assert_eq!(report.succeeded, 1);
    assert_eq!(report.failed, 2);
    assert_eq!(report.results.len(), 3);
    assert!(report.results[0].ok);
    assert_eq!(report.results[0].page.as_ref().unwrap().markdown, "text");
    assert!(report.results[0].error.is_none());
    assert!(!report.results[1].ok);
    assert_eq!(report.results[1].url, "not-a-url");
    assert_eq!(report.results[1].error.as_deref(), Some("Invalid URL: not-a-url"));
    assert_eq!(report.results[2].error.as_deref(), Some("Disallowed by robots.txt"));
    assert!(report.results[2].page.is_none());
}

#[test]
fn only_successful_pages_are_saved() {
    let results = vec![
        (
            "https://example.com/some-page".to_string(),
            Ok(PageResult::new("https://example.com/some-page", "t", vec![chunk(0, "body", 2)])),
        ),
        ("https://example.com/x".to_string(), Err(Web2llmError::EmptyContent)),
        (
            "https://example.com/empty".to_string(),
            Ok(PageResult::new("https://example.com/empty", "t", vec![])),
        ),
    ];
    let files = save_successful_pages(&results);
    assert_eq!(files.len(), 2);
    assert_eq!(files[0].0, "https___example_com_some-page.md");
    assert_eq!(files[0].1, "body");
    assert_eq!(files[1].0, "https___example_com_empty.md");
    assert_eq!(files[1].1, "");
}
