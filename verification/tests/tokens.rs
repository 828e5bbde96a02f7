use web2llm::scorer::HtmlChild;
use web2llm::tokens::{estimate_chunk_tokens, get_direct_text_metrics, is_within_budget, wash_markdown};

#[test]
fn wash_collapses_blank_lines_and_trims() {
    assert_eq!(wash_markdown("  a  \n\n\n  b \n"), "a\n\nb");
    assert_eq!(wash_markdown("\n\n# Title\nline one\n   line two   \n\n"), "# Title\nline one\nline two");
    assert_eq!(wash_markdown(""), "");
    assert_eq!(wash_markdown(" \n\t\n  "), "");
    assert_eq!(wash_markdown("x\r\n\r\ny"), "x\n\ny");
}

#[test]
fn wash_is_stable_on_its_output() {
    let once = wash_markdown("  one \n\n\n two\n three  \n\n");
    assert_eq!(wash_markdown(&once), once);
}

#[test]
fn budget_allows_ten_percent_more() {
    assert!(is_within_budget(1000, 1000));
    assert!(is_within_budget(1100, 1000));
    assert!(!is_within_budget(1101, 1000));
    assert!(is_within_budget(16, 15));
    assert!(!is_within_budget(17, 15));
    assert!(is_within_budget(0, 0));
    assert!(!is_within_budget(1, 0));
}

#[test]
fn direct_text_metrics_count_words_and_tokens() {
    let children = vec![
        HtmlChild::Text("Hello wonderful  world".to_string()),
        HtmlChild::Element,
        HtmlChild::Text(" abcdefghi ".to_string()),
    ];
    // words: Hello, wonderful, world, abcdefghi = 4
    // tokens: Hello=2, wonderful=3, world=2, abcdefghi=3 = 10
    assert_eq!(get_direct_text_metrics(&children), (4, 10));
    assert_eq!(get_direct_text_metrics(&vec![HtmlChild::Element]), (0, 0));
    assert_eq!(get_direct_text_metrics(&vec![HtmlChild::Text("abcd".to_string())]), (1, 1));
}

#[test]
fn chunk_token_estimate_counts_non_whitespace() {
    let s: Vec<char> = "abcd efgh\ni".chars().collect();
    assert_eq!(estimate_chunk_tokens(&s), 9 / 4 + 1);
    assert_eq!(estimate_chunk_tokens(&[]), 1);
}
