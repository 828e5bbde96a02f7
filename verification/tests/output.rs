use web2llm::output::{filename_from_url, PageResult};
use web2llm::tokens::PageChunk;

fn chunk(index: usize, content: &str, tokens: usize) -> PageChunk {
    PageChunk { index, content: content.to_string(), tokens, score_bits: 0 }
}

#[test]
fn test_page_result_new() {
    let result = PageResult::new("https://example.com", "Example", vec![]);
    assert_eq!(result.url, "https://example.com");
    assert_eq!(result.title, "Example");
    assert_eq!(result.chunks.len(), 0);
}

#[test]
fn markdown_joins_chunks_with_blank_lines() {
    let page = PageResult::new("u", "t", vec![chunk(0, "# Title", 2), chunk(1, "Body text", 3)]);
    assert_eq!(page.markdown(), "# Title\n\nBody text");
    assert_eq!(PageResult::new("u", "t", vec![]).markdown(), "");
}

#[test]
fn total_tokens_sums_chunks() {
    let page = PageResult::new("u", "t", vec![chunk(0, "a", 4), chunk(1, "b", 6), chunk(2, "c", 1)]);
    assert_eq!(page.total_tokens(), 11);
    assert_eq!(PageResult::new("u", "t", vec![]).total_tokens(), 0);
}

#[test]
fn get_urls_finds_sorted_distinct_links() {
    let page = PageResult::new(
        "u",
        "t",
        vec![
            chunk(0, "See [docs](https://docs.example.com/guide) and <https://b.example.org>", 5),
            chunk(1, "again https://docs.example.com/guide\n\"http://abc\" http://a.example.net/x", 5),
        ],
    );
    assert_eq!(
        page.get_urls(),
        vec![
            "http://a.example.net/x".to_string(),
            "https://b.example.org".to_string(),
            "https://docs.example.com/guide".to_string(),
        ]
    );
}

#[test]
fn links_must_be_longer_than_ten_bytes() {
    let page = PageResult::new("u", "t", vec![chunk(0, "http://ab http://abc https://a", 1)]);
    assert!(page.get_urls().is_empty());
    let page = PageResult::new("u", "t", vec![chunk(0, "http://abcd", 1)]);
    assert_eq!(page.get_urls(), vec!["http://abcd".to_string()]);
}

#[test]
fn file_names_keep_letters_and_dashes() {
    assert_eq!(filename_from_url("https://example.com/some-page"), "https___example_com_some-page");
    assert_eq!(filename_from_url("a1-b_ü"), "a_-b_ü");
    assert_eq!(filename_from_url(""), "");
}

#[test]
fn auto_file_name_adds_the_extension() {
    let page = PageResult::new("https://example.com/some-page", "title", vec![]);
    assert_eq!(page.auto_file_name(), "https___example_com_some-page.md");
}
