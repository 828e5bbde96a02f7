use web2llm::error::Web2llmError;
use web2llm::scorer::{
    chunk_roots, is_passthrough, is_penalty, is_skip, keeps_child, node_tokens_at_most, rebuild_html, tag_class,
    HtmlChild, ScoredNode, TagClass,
};

fn leaf(tag: &str, text: &str, tokens: usize) -> ScoredNode {
    ScoredNode {
        tag: tag.to_string(),
        attributes: vec![],
        dom_children: vec![HtmlChild::Text(text.to_string())],
        kept: vec![],
        tokens,
        score_bits: 3.0f32.to_bits(),
    }
}

fn html_of(node: &ScoredNode, inside_table: bool) -> String {
    let mut out: Vec<char> = Vec::new();
    rebuild_html(node, &mut out, inside_table);
    out.into_iter().collect()
}

#[test]
fn tag_classes() {
    assert_eq!(tag_class("article"), TagClass::High);
    assert_eq!(tag_class("td"), TagClass::Medium);
    assert_eq!(tag_class("figcaption"), TagClass::Low);
    assert_eq!(tag_class("li"), TagClass::Poor);
    assert_eq!(tag_class("nav"), TagClass::Penalty);
    assert_eq!(tag_class("h1"), TagClass::Neutral);
    assert_eq!(tag_class("custom-tag"), TagClass::Neutral);
    assert!(is_skip("script") && is_skip("template") && !is_skip("div"));
    assert!(is_penalty("footer") && !is_penalty("main"));
    assert!(is_passthrough("blockquote") && is_passthrough("h6") && !is_passthrough("p"));
}

#[test]
fn rebuild_keeps_only_links_and_sources() {
    let p = leaf("p", "World", 2);
    let article = ScoredNode {
        tag: "article".to_string(),
        attributes: vec![
            ("class".to_string(), Some("x".to_string())),
            ("HREF".to_string(), Some("/a".to_string())),
            ("src".to_string(), None),
        ],
        dom_children: vec![
            HtmlChild::Text("  Hello  ".to_string()),
            HtmlChild::Element,
            HtmlChild::Text("   ".to_string()),
        ],
        kept: vec![p],
        tokens: 4,
        score_bits: 0,
    };
    assert_eq!(html_of(&article, false), "<article HREF=\"/a\"> Hello<p> World</p></article>");
}

#[test]
fn rebuild_flattens_nested_tables_and_skips_pruned_children() {
    let inner = leaf("table", "cell", 1);
    let outer = ScoredNode {
        tag: "table".to_string(),
        attributes: vec![],
        dom_children: vec![HtmlChild::Element, HtmlChild::Element],
        kept: vec![inner],
        tokens: 1,
        score_bits: 0,
    };
    assert_eq!(html_of(&outer, false), "<table><div> cell</div></table>");
    assert_eq!(html_of(&leaf("table", "x", 1), true), "<div> x</div>");
}

#[test]
fn small_roots_become_one_chunk_each() {
    let roots = vec![leaf("article", "First paragraph of text.", 6), leaf("section", "Second part.", 3)];
    let chunks = chunk_roots(&roots, 1000).unwrap();
    assert_eq!(chunks.len(), 2);
    assert_eq!(chunks[0].index, 0);
    assert_eq!(chunks[1].index, 1);
    assert!(chunks[0].content.contains("First paragraph of text."));
    assert!(chunks[1].content.contains("Second part."));
    assert!(!chunks[0].content.contains("<article>"));
    assert!(!chunks[1].content.contains("</section>"));
    for c in &chunks {
        let non_ws = c.content.chars().filter(|ch| !ch.is_whitespace()).count();
        assert_eq!(c.tokens, non_ws / 4 + 1);
        assert_eq!(c.score_bits, 3.0f32.to_bits());
    }
}

#[test]
fn oversized_roots_are_split_along_children() {
    let root = ScoredNode {
        tag: "main".to_string(),
        attributes: vec![],
        dom_children: vec![HtmlChild::Element, HtmlChild::Element],
        kept: vec![leaf("p", "alpha beta", 10), leaf("p", "gamma delta", 10)],
        tokens: 20,
        score_bits: 5.0f32.to_bits(),
    };
    let chunks = chunk_roots(&vec![root], 10).unwrap();
    assert_eq!(chunks.len(), 2);
    assert!(chunks[0].content.contains("alpha beta"));
    assert!(chunks[1].content.contains("gamma delta"));
}

#[test]
fn children_under_the_budget_share_a_chunk() {
    let root = ScoredNode {
        tag: "main".to_string(),
        attributes: vec![],
        dom_children: vec![HtmlChild::Element, HtmlChild::Element],
        kept: vec![leaf("p", "alpha beta", 8), leaf("p", "gamma delta", 8)],
        tokens: 16,
        score_bits: 5.0f32.to_bits(),
    };
    let chunks = chunk_roots(&vec![root], 10).unwrap();
    assert_eq!(chunks.len(), 1);
    assert!(chunks[0].content.contains("alpha beta"));
    assert!(chunks[0].content.contains("gamma delta"));
}

#[test]
fn no_roots_give_no_chunks() {
    let chunks: Result<_, Web2llmError> = chunk_roots(&vec![], 100);
    assert_eq!(chunks.unwrap().len(), 0);
}

#[test]
fn token_bounds_are_checked_through_the_tree() {
    let root = ScoredNode {
        tag: "main".to_string(),
        attributes: vec![],
        dom_children: vec![HtmlChild::Element],
        kept: vec![leaf("p", "x", 50)],
        tokens: 10,
        score_bits: 0,
    };
    assert!(node_tokens_at_most(&root, 50));
    assert!(!node_tokens_at_most(&root, 49));
}

#[test]
fn pruning_keeps_content_and_structure() {
    assert!(!keeps_child("nav", true, true));
    assert!(keeps_child("nav", false, true));
    assert!(keeps_child("p", true, true));
    assert!(!keeps_child("p", false, false));
    assert!(keeps_child("h2", false, false));
    assert!(!keeps_child("footer", true, false));
}

#[test]
fn links_survive_as_markdown_links() {
    let link = ScoredNode {
        tag: "a".to_string(),
        attributes: vec![
            ("href".to_string(), Some("https://docs.example.org/guide".to_string())),
            ("class".to_string(), Some("nav-link".to_string())),
        ],
        dom_children: vec![HtmlChild::Text("the guide".to_string())],
        kept: vec![],
        tokens: 3,
        score_bits: 0,
    };
    let p = ScoredNode {
        tag: "p".to_string(),
        attributes: vec![],
        dom_children: vec![HtmlChild::Text("Read".to_string()), HtmlChild::Element],
        kept: vec![link],
        tokens: 5,
        score_bits: 8.0f32.to_bits(),
    };
    let chunks = chunk_roots(&vec![p], 100).unwrap();
    assert_eq!(chunks.len(), 1);
    assert!(chunks[0].content.contains("](https://docs.example.org/guide)"));
    assert!(!chunks[0].content.contains("nav-link"));
}
