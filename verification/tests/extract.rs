use web2llm::config::Web2llmConfig;
use web2llm::error::Web2llmError;
use web2llm::extract::PageElements;
use web2llm::scorer::{HtmlChild, ScoredNode};

fn page(hrefs: &[&str]) -> PageElements {
    PageElements {
        url: "https://example.com/docs/".to_string(),
        title: "Docs".to_string(),
        hrefs: hrefs.iter().map(|h| h.to_string()).collect(),
    }
}

#[test]
fn links_are_resolved_sorted_and_deduplicated() {
    let p = page(&["a", "/b", "https://other.org/x", "a", "#frag", "http://[bad"]);
    assert_eq!(
        p.get_urls(),
        vec![
            "https://example.com/b".to_string(),
            "https://example.com/docs/#frag".to_string(),
            "https://example.com/docs/a".to_string(),
            "https://other.org/x".to_string(),
        ]
    );
    assert!(page(&[]).get_urls().is_empty());
}

#[test]
fn a_page_without_body_is_empty() {
    let r = page(&[]).into_result(None, &Web2llmConfig::default());
    assert!(matches!(r, Err(Web2llmError::EmptyContent)));
}

#[test]
fn a_body_without_content_is_empty() {
    let r = page(&[]).into_result(Some(vec![]), &Web2llmConfig::default());
    assert!(matches!(r, Err(Web2llmError::EmptyContent)));
}

#[test]
fn scored_content_becomes_the_result() {
    let article = ScoredNode {
        tag: "article".to_string(),
        attributes: vec![],
        dom_children: vec![HtmlChild::Text("This is the main content of the page.".to_string())],
        kept: vec![],
        tokens: 9,
        score_bits: 16.0f32.to_bits(),
    };
    let r = page(&[]).into_result(Some(vec![article]), &Web2llmConfig::default()).unwrap();
    assert_eq!(r.url, "https://example.com/docs/");
    assert_eq!(r.title, "Docs");
    assert_eq!(r.chunks.len(), 1);
    assert!(r.markdown().contains("main content"));
}

#[test]
fn parsing_reads_title_and_link_targets() {
    let html = "<html><head><title>Test Page</title></head><body>\
                <a href=\"/x\">x</a><a>no target</a><p><a href=\"https://o.org/y\">y</a></p>\
                </body></html>";
    let p = PageElements::parse("https://example.com/docs/", html);
    assert_eq!(p.url, "https://example.com/docs/");
    assert_eq!(p.title, "Test Page");
    assert_eq!(p.hrefs, vec!["/x".to_string(), "https://o.org/y".to_string()]);
    assert_eq!(
        p.get_urls(),
        vec!["https://example.com/x".to_string(), "https://o.org/y".to_string()]
    );
}

#[test]
fn a_page_without_title_has_an_empty_one() {
    let p = PageElements::parse("https://example.com/", "<body><p>text</p></body>");
    assert_eq!(p.title, "");
    assert!(p.hrefs.is_empty());
}
