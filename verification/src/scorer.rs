//! The structural side of the scoring engine: tag classes, and the
//! conversion of a scored, pruned DOM tree into structurally-aware Markdown
//! chunks that respect a token budget.
//!
//! Scores themselves are IEEE-754 single-precision numbers that this crate
//! never computes with: each node carries the bit pattern of its score, and
//! every chunk is labelled with the bit pattern of the node that closed it.

use vstd::prelude::*;

use crate::error::Web2llmError;
use crate::tokens::{
    PageChunk, chunk_token_estimate, estimate_chunk_tokens, is_within_budget, wash_chars, washed,
    washed_shape, within_budget,
};
use crate::text::{
    is_ws, lemma_trim_shape, push_all, push_str, str_chars, str_eq, string_from_chars, trim,
    trim_chars,
};

verus! {

// ---------------------------------------------------------------------------
// Tag classes
// ---------------------------------------------------------------------------

/// Tags whose whole subtree is ignored.
pub open spec fn is_skip_tag(t: Seq<char>) -> bool {
    t == "script"@ || t == "style"@ || t == "noscript"@ || t == "template"@
}

/// Boilerplate tags (navigation, footers, ...) that are pruned when they
/// score below the prune threshold.
pub open spec fn is_penalty_tag(t: Seq<char>) -> bool {
    t == "nav"@ || t == "footer"@ || t == "header"@ || t == "aside"@ || t == "menu"@
}

/// Structural tags (headings, code, quotes) that are always kept and get a
/// fixed score.
pub open spec fn is_passthrough_tag(t: Seq<char>) -> bool {
    t == "h1"@ || t == "h2"@ || t == "h3"@ || t == "h4"@ || t == "h5"@ || t == "h6"@ || t
        == "pre"@ || t == "code"@ || t == "blockquote"@
}

pub open spec fn is_high_tag(t: Seq<char>) -> bool {
    t == "article"@ || t == "main"@ || t == "section"@
}

pub open spec fn is_medium_tag(t: Seq<char>) -> bool {
    t == "div"@ || t == "p"@ || t == "span"@ || t == "table"@ || t == "thead"@ || t == "tbody"@
        || t == "tfoot"@ || t == "tr"@ || t == "th"@ || t == "td"@
}

pub open spec fn is_low_tag(t: Seq<char>) -> bool {
    t == "figure"@ || t == "figcaption"@ || t == "details"@
}

pub open spec fn is_poor_tag(t: Seq<char>) -> bool {
    t == "form"@ || t == "button"@ || t == "label"@ || t == "ul"@ || t == "ol"@ || t == "li"@
}

/// The bonus class of a tag, which fixes the multiplier applied to its score.
#[derive(Debug, Clone, Copy, PartialEq, Eq, Structural)]
pub enum TagClass {
    /// Article-like containers (multiplier 2.0).
    High,
    /// Ordinary blocks and tables (multiplier 1.0).
    Medium,
    /// Figures and details (multiplier 0.7).
    Low,
    /// Forms, buttons and lists (multiplier 0.5).
    Poor,
    /// Boilerplate (multiplier 0.05).
    Penalty,
    /// Any other tag (multiplier 1.0).
    Neutral,
}

pub open spec fn spec_tag_class(t: Seq<char>) -> TagClass {
    if is_high_tag(t) {
        TagClass::High
    } else if is_medium_tag(t) {
        TagClass::Medium
    } else if is_low_tag(t) {
        TagClass::Low
    } else if is_poor_tag(t) {
        TagClass::Poor
    } else if is_penalty_tag(t) {
        TagClass::Penalty
    } else {
        TagClass::Neutral
    }
}

/// The bonus class of a tag name; the first matching class wins.
pub fn tag_class(tag: &str) -> (r: TagClass)
    ensures
        r == spec_tag_class(tag@),
{
    if str_eq(tag, "article") || str_eq(tag, "main") || str_eq(tag, "section") {
        TagClass::High
    } else if str_eq(tag, "div") || str_eq(tag, "p") || str_eq(tag, "span") || str_eq(tag, "table")
        || str_eq(tag, "thead") || str_eq(tag, "tbody") || str_eq(tag, "tfoot") || str_eq(tag, "tr")
        || str_eq(tag, "th") || str_eq(tag, "td") {
        TagClass::Medium
    } else if str_eq(tag, "figure") || str_eq(tag, "figcaption") || str_eq(tag, "details") {
        TagClass::Low
    } else if str_eq(tag, "form") || str_eq(tag, "button") || str_eq(tag, "label") || str_eq(
        tag,
        "ul",
    ) || str_eq(tag, "ol") || str_eq(tag, "li") {
        TagClass::Poor
    } else if is_penalty(tag) {
        TagClass::Penalty
    } else {
        TagClass::Neutral
    }
}

/// Whether the subtree of a tag is skipped entirely.
pub fn is_skip(tag: &str) -> (r: bool)
    ensures
        r == is_skip_tag(tag@),
{
    str_eq(tag, "script") || str_eq(tag, "style") || str_eq(tag, "noscript") || str_eq(
        tag,
        "template",
    )
}

/// Whether a tag is boilerplate that may be pruned.
pub fn is_penalty(tag: &str) -> (r: bool)
    ensures
        r == is_penalty_tag(tag@),
{
    str_eq(tag, "nav") || str_eq(tag, "footer") || str_eq(tag, "header") || str_eq(tag, "aside")
        || str_eq(tag, "menu")
}

/// Whether a tag is a structural pass-through tag.
pub fn is_passthrough(tag: &str) -> (r: bool)
    ensures
        r == is_passthrough_tag(tag@),
{
    str_eq(tag, "h1") || str_eq(tag, "h2") || str_eq(tag, "h3") || str_eq(tag, "h4") || str_eq(
        tag,
        "h5",
    ) || str_eq(tag, "h6") || str_eq(tag, "pre") || str_eq(tag, "code") || str_eq(
        tag,
        "blockquote",
    )
}

/// The rule of [`keeps_child`].
pub open spec fn child_kept(tag: Seq<char>, below_prune_threshold: bool, scored_positive: bool) -> bool {
    !(is_penalty_tag(tag) && below_prune_threshold) && (scored_positive || is_passthrough_tag(tag))
}

/// The boilerplate tags are exactly `nav`, `footer`, `header`, `aside` and
/// `menu`: each is in the penalty class, and is dropped from its parent
/// when it scores under the prune threshold, however it scores otherwise.
pub proof fn lemma_boilerplate_tags(t: Seq<char>)
    ensures
        is_penalty_tag(t) <==> (t == "nav"@ || t == "footer"@ || t == "header"@ || t == "aside"@ || t
            == "menu"@),
        (t == "nav"@ || t == "footer"@ || t == "header"@ || t == "aside"@ || t == "menu"@) ==> {
            &&& spec_tag_class(t) == TagClass::Penalty
            &&& forall|positive: bool| !#[trigger] child_kept(t, true, positive)
        },
{
    reveal_strlit("nav");
    reveal_strlit("footer");
    reveal_strlit("header");
    reveal_strlit("aside");
    reveal_strlit("menu");
    reveal_strlit("article");
    reveal_strlit("main");
    reveal_strlit("section");
    reveal_strlit("div");
    reveal_strlit("p");
    reveal_strlit("span");
    reveal_strlit("table");
    reveal_strlit("thead");
    reveal_strlit("tbody");
    reveal_strlit("tfoot");
    reveal_strlit("tr");
    reveal_strlit("th");
    reveal_strlit("td");
    reveal_strlit("figure");
    reveal_strlit("figcaption");
    reveal_strlit("details");
    reveal_strlit("form");
    reveal_strlit("button");
    reveal_strlit("label");
    reveal_strlit("ul");
    reveal_strlit("ol");
    reveal_strlit("li");
    if t == "nav"@ || t == "footer"@ || t == "header"@ || t == "aside"@ || t == "menu"@ {
        assert("main"@[1] == 'a' && "div"@[0] == 'd' && "span"@[0] == 's' && "table"@[0] == 't');
        assert("thead"@[0] == 't' && "tbody"@[0] == 't' && "tfoot"@[0] == 't' && "figure"@[0] == 'f');
        assert("figure"@[1] == 'i' && "form"@[0] == 'f' && "button"@[0] == 'b' && "label"@[0] == 'l');
        if t == "nav"@ {
            assert(t[0] == 'n' && t.len() == 3);
        } else if t == "footer"@ {
            assert(t[0] == 'f' && t[1] == 'o' && t.len() == 6);
        } else if t == "header"@ {
            assert(t[0] == 'h' && t.len() == 6);
        } else if t == "aside"@ {
            assert(t[0] == 'a' && t.len() == 5);
        } else {
            assert(t[0] == 'm' && t[1] == 'e' && t.len() == 4);
        }
        assert("menu"@.len() == 4);
        assert("main"@.len() == 4);
        assert("article"@.len() == 7);
        assert("menu"@ != "main"@);
        assert(t != "article"@);
        assert(t != "section"@);
        assert(t != "main"@);
        assert(!is_high_tag(t));
        assert(!is_medium_tag(t));
        assert(!is_low_tag(t));
        assert("form"@.len() == 4 && "button"@.len() == 6 && "label"@.len() == 5);
        assert(t != "form"@);
        assert(t != "button"@);
        assert(t != "label"@);
        assert(t != "ul"@);
        assert(t != "ol"@);
        assert(t != "li"@);
        assert(!is_poor_tag(t));
        assert(is_penalty_tag(t));
    }
}

/// Whether a scored child element stays in its parent's tree: boilerplate
/// that scored under the pruning threshold is dropped; any other child
/// stays when it scored above zero or is a pass-through tag. The caller
/// makes the two score comparisons.
pub fn keeps_child(child_tag: &str, below_prune_threshold: bool, scored_positive: bool) -> (r: bool)
    ensures
        r == child_kept(child_tag@, below_prune_threshold, scored_positive),
{
    if is_penalty(child_tag) && below_prune_threshold {
        return false;
    }
    scored_positive || is_passthrough(child_tag)
}

// ---------------------------------------------------------------------------
// The scored tree
// ---------------------------------------------------------------------------

/// A direct child of an element, as the chunker sees it: a piece of raw
/// text, or an element (whose content, if it survived scoring, is found in
/// the parent's kept children).
pub enum HtmlChild {
    Text(String),
    Element,
}

/// A node of the scored DOM tree: an element with its attributes, its
/// direct children in document order, the scored children that survived
/// pruning (in document order), the estimated tokens of its kept subtree and
/// the bit pattern of its score.
pub struct ScoredNode {
    pub tag: String,
    pub attributes: Vec<(String, Option<String>)>,
    pub dom_children: Vec<HtmlChild>,
    pub kept: Vec<ScoredNode>,
    pub tokens: usize,
    pub score_bits: u32,
}

// ---------------------------------------------------------------------------
// Rebuilding clean HTML
// ---------------------------------------------------------------------------

/// ASCII lowercase of a code point; other code points are unchanged.
pub open spec fn ascii_lower(u: u32) -> u32 {
    if 65 <= u && u <= 90 {
        (u + 32) as u32
    } else {
        u
    }
}

/// ASCII case-insensitive equality, as `str::eq_ignore_ascii_case` tests.
pub open spec fn eq_ignore_ascii_case(a: Seq<char>, b: Seq<char>) -> bool {
    a.len() == b.len() && forall|i: int|
        0 <= i < a.len() ==> ascii_lower(#[trigger] a[i] as u32) == ascii_lower(b[i] as u32)
}

fn ascii_lower_exec(c: char) -> (r: u32)
    ensures
        r == ascii_lower(c as u32),
{
    let u = c as u32;
    if 65 <= u && u <= 90 {
        u + 32
    } else {
        u
    }
}

/// ASCII case-insensitive comparison of two strings.
pub fn str_eq_ignore_ascii_case(a: &str, b: &str) -> (r: bool)
    ensures
        r == eq_ignore_ascii_case(a@, b@),
{
    let x = str_chars(a);
    let y = str_chars(b);
    if x.len() != y.len() {
        return false;
    }
    let mut i: usize = 0;
    while i < x.len()
        invariant
            x@ == a@,
            y@ == b@,
            x@.len() == y@.len(),
            i <= x@.len(),
            forall|j: int| 0 <= j < i ==> ascii_lower(#[trigger] x@[j] as u32) == ascii_lower(
                y@[j] as u32,
            ),
        decreases x@.len() - i,
    {
        if ascii_lower_exec(x[i]) != ascii_lower_exec(y[i]) {
            return false;
        }
        i = i + 1;
    }
    true
}

/// The attribute text kept for one attribute: only `href` and `src` (in any
/// ASCII case) with a value survive, written as ` name="value"`.
pub open spec fn attr_html(a: (String, Option<String>)) -> Seq<char> {
    if (eq_ignore_ascii_case(a.0@, "href"@) || eq_ignore_ascii_case(a.0@, "src"@))
        && a.1 is Some {
        seq![' '] + a.0@ + "=\""@ + a.1->Some_0@ + seq!['"']
    } else {
        Seq::empty()
    }
}

pub open spec fn attrs_html(attrs: Seq<(String, Option<String>)>) -> Seq<char>
    decreases attrs.len(),
{
    if attrs.len() == 0 {
        Seq::empty()
    } else {
        attrs_html(attrs.drop_last()) + attr_html(attrs.last())
    }
}

/// The tag name written for an element: a table nested in a table becomes a
/// `div`.
pub open spec fn written_tag(tag: Seq<char>, inside_table: bool) -> Seq<char> {
    if inside_table && tag == "table"@ {
        "div"@
    } else {
        tag
    }
}

/// Number of element children among the first `j` direct children.
pub open spec fn elements_before(dc: Seq<HtmlChild>, j: int) -> nat
    decreases j,
{
    if j <= 0 {
        0
    } else {
        elements_before(dc, j - 1) + if dc[j - 1] is Element {
            1nat
        } else {
            0nat
        }
    }
}

/// The clean HTML of a node: the (possibly renamed) tag with its `href` and
/// `src` attributes, then its direct children in order. A text child is
/// written trimmed after one space, and dropped when blank. The `i`-th
/// element child is written as the `i`-th kept child, while kept children
/// remain.
pub open spec fn node_html(n: ScoredNode, inside_table: bool) -> Seq<char>
    decreases n, n.dom_children@.len() + 1,
{
    let name = written_tag(n.tag@, inside_table);
    let next = inside_table || n.tag@ == "table"@;
    seq!['<'] + name + attrs_html(n.attributes@) + seq!['>'] + children_html(
        n,
        n.dom_children@.len() as int,
        next,
    ) + seq!['<', '/'] + name + seq!['>']
}

/// The HTML of the first `k` direct children of `n`.
pub open spec fn children_html(n: ScoredNode, k: int, inside_table: bool) -> Seq<char>
    decreases n, k,
{
    if k <= 0 || k > n.dom_children@.len() {
        Seq::empty()
    } else {
        let prev = children_html(n, k - 1, inside_table);
        match n.dom_children@[k - 1] {
            HtmlChild::Text(t) => {
                let tt = trim(t@);
                if tt.len() == 0 {
                    prev
                } else {
                    prev + seq![' '] + tt
                }
            },
            HtmlChild::Element => {
                let e = elements_before(n.dom_children@, k - 1);
                if e < n.kept@.len() {
                    prev + node_html(n.kept@[e as int], inside_table)
                } else {
                    prev
                }
            },
        }
    }
}

fn push_attributes(out: &mut Vec<char>, attrs: &Vec<(String, Option<String>)>)
    ensures
        final(out)@ == old(out)@ + attrs_html(attrs@),
{
    let mut i: usize = 0;
    while i < attrs.len()
        invariant
            i <= attrs@.len(),
            out@ == old(out)@ + attrs_html(attrs@.subrange(0, i as int)),
        decreases attrs@.len() - i,
    {
        proof {
            assert(attrs@.subrange(0, i + 1).drop_last() == attrs@.subrange(0, i as int));
        }
        let ghost before = out@;
        let (k, v) = &attrs[i];
        if str_eq_ignore_ascii_case(k.as_str(), "href") || str_eq_ignore_ascii_case(
            k.as_str(),
            "src",
        ) {
            match v {
                Some(val) => {
                    out.push(' ');
                    push_str(out, k.as_str());
                    push_str(out, "=\"");
                    push_str(out, val.as_str());
                    out.push('"');
                    assert(out@ == before + attr_html(attrs@[i as int]));
                },
                None => {
                    assert(out@ == before + attr_html(attrs@[i as int]));
                },
            }
        } else {
            assert(out@ == before + attr_html(attrs@[i as int]));
        }
        i = i + 1;
    }
    assert(attrs@.subrange(0, attrs@.len() as int) == attrs@);
}

/// Rebuilds clean HTML for a scored node and its kept subtree, appending it
/// to `out`. Non-essential attributes are stripped and nested tables are
/// flattened into `div`s.
pub fn rebuild_html(node: &ScoredNode, out: &mut Vec<char>, inside_table: bool)
    ensures
        final(out)@ == old(out)@ + node_html(*node, inside_table),
    decreases node,
{
    let is_table = str_eq(node.tag.as_str(), "table");
    let next_inside_table = inside_table || is_table;
    let start = out.len();
    out.push('<');
    if inside_table && is_table {
        push_str(out, "div");
    } else {
        push_str(out, node.tag.as_str());
    }
    push_attributes(out, &node.attributes);
    out.push('>');
    let ghost head = out@;
    let mut child_idx: usize = 0;
    let mut j: usize = 0;
    while j < node.dom_children.len()
        invariant
            j <= node.dom_children@.len(),
            child_idx == elements_before(node.dom_children@, j as int),
            child_idx <= j,
            out@ == head + children_html(*node, j as int, next_inside_table),
        decreases node.dom_children@.len() - j,
    {
        match &node.dom_children[j] {
            HtmlChild::Text(text) => {
                let cs = str_chars(text.as_str());
                let trimmed = trim_chars(cs.as_slice());
                if trimmed.len() > 0 {
                    out.push(' ');
                    push_all(out, trimmed.as_slice());
                }
            },
            HtmlChild::Element => {
                if child_idx < node.kept.len() {
                    rebuild_html(&node.kept[child_idx], out, next_inside_table);
                }
                child_idx = child_idx + 1;
            },
        }
        j = j + 1;
    }
    push_str(out, "</");
    if inside_table && is_table {
        push_str(out, "div");
    } else {
        push_str(out, node.tag.as_str());
    }
    out.push('>');
    proof {
        reveal_strlit("</");
    }
    assert(out@ == old(out)@ + node_html(*node, inside_table));
}

// ---------------------------------------------------------------------------
// Chunking
// ---------------------------------------------------------------------------

/// What `htmd::convert` returns for an HTML text.
pub uninterp spec fn htmd_convert(html: Seq<char>) -> Seq<char>;

/// Converts HTML to Markdown with `htmd::convert`. In htmd 0.5.6 the
/// conversion never fails: `HtmlToMarkdown::html_to_tree` parses any text
/// into a document and always returns `Ok`, so the error arm of the result
/// is never taken.
#[verifier::external_body]
fn html_to_markdown(html: &str) -> (r: std::result::Result<String, String>)
    ensures
        r is Ok,
        r matches Ok(md) ==> md@ == htmd_convert(html@),
{
    htmd::convert(html).map_err(|e| e.to_string())
}

/// The abstract content of a chunk.
pub struct ChunkSpec {
    pub index: nat,
    pub content: Seq<char>,
    pub tokens: nat,
    pub score_bits: u32,
}

pub open spec fn chunk_spec(c: PageChunk) -> ChunkSpec {
    ChunkSpec {
        index: c.index as nat,
        content: c.content@,
        tokens: c.tokens as nat,
        score_bits: c.score_bits,
    }
}

pub open spec fn chunk_specs(cs: Seq<PageChunk>) -> Seq<ChunkSpec> {
    cs.map_values(|c: PageChunk| chunk_spec(c))
}

/// The state of the chunker: the chunks emitted so far, the HTML buffered
/// for the next chunk, and the tokens accumulated in that buffer.
pub struct ChunkState {
    pub chunks: Seq<ChunkSpec>,
    pub buf: Seq<char>,
    pub acc: nat,
}

/// Emitting the buffer: nothing happens when it is empty; otherwise its HTML
/// becomes Markdown, is washed, and is appended as a new chunk numbered
/// after the previous ones, with its token estimate and the given score.
pub open spec fn emit(st: ChunkState, score_bits: u32) -> ChunkState {
    if st.buf.len() == 0 {
        st
    } else {
        let content = washed(htmd_convert(st.buf));
        ChunkState {
            chunks: st.chunks.push(
                ChunkSpec {
                    index: st.chunks.len(),
                    content,
                    tokens: chunk_token_estimate(content),
                    score_bits,
                },
            ),
            buf: Seq::empty(),
            acc: 0,
        }
    }
}

/// Adds the whole subtree of `n` to the buffer.
pub open spec fn absorb(st: ChunkState, n: ScoredNode) -> ChunkState {
    ChunkState { chunks: st.chunks, buf: st.buf + node_html(n, false), acc: st.acc + n.tokens as nat }
}

/// The chunker's walk over a scored subtree. A node whose tokens fit the
/// budget (with its 10% allowance) goes into the buffer whole, and the
/// buffer is emitted once it reaches the budget. A larger node closes the
/// current buffer and is broken down into its kept children; a larger node
/// with no kept children but some tokens becomes a chunk of its own.
pub open spec fn walk(n: ScoredNode, max: nat, st: ChunkState) -> ChunkState
    decreases n, n.kept@.len() + 1,
{
    if within_budget(n.tokens as int, max as int) {
        let st1 = absorb(st, n);
        if st1.acc >= max {
            emit(st1, n.score_bits)
        } else {
            st1
        }
    } else {
        let st2 = walk_kept(n, n.kept@.len() as int, max, emit(st, n.score_bits));
        if n.kept@.len() == 0 && n.tokens > 0 {
            emit(absorb(st2, n), n.score_bits)
        } else {
            st2
        }
    }
}

/// The walk over the first `k` kept children of `n`, in order.
pub open spec fn walk_kept(n: ScoredNode, k: int, max: nat, st: ChunkState) -> ChunkState
    decreases n, k,
{
    if k <= 0 || k > n.kept@.len() {
        st
    } else {
        walk(n.kept@[k - 1], max, walk_kept(n, k - 1, max, st))
    }
}

/// Every node of the subtree has at most `bound` tokens.
pub open spec fn tokens_at_most(n: ScoredNode, bound: nat) -> bool
    decreases n, n.kept@.len() + 1,
{
    n.tokens <= bound && kept_tokens_at_most(n, n.kept@.len() as int, bound)
}

/// Every node of the first `k` kept subtrees of `n` has at most `bound`
/// tokens.
pub open spec fn kept_tokens_at_most(n: ScoredNode, k: int, bound: nat) -> bool
    decreases n, k,
{
    if k <= 0 || k > n.kept@.len() {
        true
    } else {
        kept_tokens_at_most(n, k - 1, bound) && tokens_at_most(n.kept@[k - 1], bound)
    }
}

proof fn lemma_tokens_at_most_child(n: ScoredNode, bound: nat, i: int)
    requires
        tokens_at_most(n, bound),
        0 <= i < n.kept@.len(),
    ensures
        tokens_at_most(n.kept@[i], bound),
{
    lemma_kept_tokens(n, n.kept@.len() as int, bound, i);
}

proof fn lemma_kept_tokens(n: ScoredNode, k: int, bound: nat, i: int)
    requires
        0 <= i < k <= n.kept@.len(),
        kept_tokens_at_most(n, k, bound),
    ensures
        tokens_at_most(n.kept@[i], bound),
    decreases k,
{
    if i < k - 1 {
        lemma_kept_tokens(n, k - 1, bound, i);
    }
}

/// Whether every node of the subtree has at most `bound` tokens (see
/// [`tokens_at_most`]).
pub fn node_tokens_at_most(n: &ScoredNode, bound: usize) -> (r: bool)
    ensures
        r == tokens_at_most(*n, bound as nat),
    decreases n,
{
    if n.tokens > bound {
        return false;
    }
    let mut i: usize = 0;
    while i < n.kept.len()
        invariant
            i <= n.kept@.len(),
            n.tokens <= bound,
            kept_tokens_at_most(*n, i as int, bound as nat),
        decreases n.kept@.len() - i,
    {
        if !node_tokens_at_most(&n.kept[i], bound) {
            proof {
                if tokens_at_most(*n, bound as nat) {
                    lemma_kept_tokens(*n, n.kept@.len() as int, bound as nat, i as int);
                }
            }
            return false;
        }
        i = i + 1;
    }
    true
}

/// Chunks numbered from zero in order, each washed and carrying its own
/// token estimate.
pub open spec fn chunks_well_formed(cs: Seq<ChunkSpec>) -> bool {
    forall|i: int|
        0 <= i < cs.len() ==> {
            &&& (#[trigger] cs[i]).index == i
            &&& cs[i].tokens == chunk_token_estimate(cs[i].content)
            &&& cs[i].tokens >= 1
            &&& washed_shape(cs[i].content)
        }
}

/// The rebuilt HTML of a node is never empty.
pub proof fn lemma_node_html_nonempty(n: ScoredNode, inside_table: bool)
    ensures
        node_html(n, inside_table).len() > 0,
{
}

/// Emitting keeps the chunks well formed, empties a non-empty buffer and
/// only appends to the chunks.
pub proof fn lemma_emit(st: ChunkState, score_bits: u32)
    ensures
        ({
            let s = emit(st, score_bits);
            &&& chunks_well_formed(st.chunks) ==> chunks_well_formed(s.chunks)
            &&& (st.buf.len() > 0 ==> s.acc == 0 && s.buf.len() == 0)
            &&& (st.buf.len() == 0 ==> s == st)
            &&& st.chunks.is_prefix_of(s.chunks)
        }),
{
    if st.buf.len() > 0 {
        crate::tokens::lemma_washed_shape(htmd_convert(st.buf));
        let s = emit(st, score_bits);
        assert forall|i: int| chunks_well_formed(st.chunks) && 0 <= i < s.chunks.len() implies {
            &&& (#[trigger] s.chunks[i]).index == i
            &&& s.chunks[i].tokens == chunk_token_estimate(s.chunks[i].content)
            &&& s.chunks[i].tokens >= 1
            &&& washed_shape(s.chunks[i].content)
        } by {
            if i < st.chunks.len() {
                assert(s.chunks[i] == st.chunks[i]);
            }
        }
    }
}

/// The walk keeps the chunks well formed, only appends to them, and keeps
/// the accumulated tokens within the budget.
pub proof fn lemma_walk(n: ScoredNode, max: nat, st: ChunkState)
    requires
        st.acc <= max,
    ensures
        ({
            let s = walk(n, max, st);
            &&& chunks_well_formed(st.chunks) ==> chunks_well_formed(s.chunks)
            &&& s.acc <= max
            &&& st.chunks.is_prefix_of(s.chunks)
        }),
    decreases n, n.kept@.len() + 1,
{
    lemma_node_html_nonempty(n, false);
    if within_budget(n.tokens as int, max as int) {
        let st1 = absorb(st, n);
        if st1.acc >= max {
            lemma_emit(st1, n.score_bits);
        }
    } else {
        lemma_emit(st, n.score_bits);
        let st1 = emit(st, n.score_bits);
        lemma_walk_kept(n, n.kept@.len() as int, max, st1);
        let st2 = walk_kept(n, n.kept@.len() as int, max, st1);
        if n.kept@.len() == 0 && n.tokens > 0 {
            lemma_emit(absorb(st2, n), n.score_bits);
        }
    }
}

/// The walk over kept children keeps the chunks well formed, only appends
/// to them, and keeps the accumulated tokens within the budget.
pub proof fn lemma_walk_kept(n: ScoredNode, k: int, max: nat, st: ChunkState)
    requires
        st.acc <= max,
    ensures
        ({
            let s = walk_kept(n, k, max, st);
            &&& chunks_well_formed(st.chunks) ==> chunks_well_formed(s.chunks)
            &&& s.acc <= max
            &&& st.chunks.is_prefix_of(s.chunks)
        }),
    decreases n, k,
{
    if 0 < k <= n.kept@.len() {
        lemma_walk_kept(n, k - 1, max, st);
        lemma_walk(n.kept@[k - 1], max, walk_kept(n, k - 1, max, st));
    }
}

/// The abstract state of the chunker's buffers.
pub open spec fn chunk_state(chunks: Seq<PageChunk>, buf: Seq<char>, acc: usize) -> ChunkState {
    ChunkState { chunks: chunk_specs(chunks), buf, acc: acc as nat }
}

/// Converts the buffered HTML into a Markdown chunk and appends it. The
/// conversion cannot fail, so the result is always `Ok`.
pub fn emit_buffer(
    chunks: &mut Vec<PageChunk>,
    html_buf: &mut Vec<char>,
    token_acc: &mut usize,
    score_bits: u32,
) -> (r: Result<(), Web2llmError>)
    ensures
        r is Ok,
        emit(chunk_state(old(chunks)@, old(html_buf)@, *old(token_acc)), score_bits)
            == chunk_state(final(chunks)@, final(html_buf)@, *final(token_acc)),
        old(chunks)@.is_prefix_of(final(chunks)@),
{
    if html_buf.len() == 0 {
        return Ok(());
    }
    let html = string_from_chars(html_buf.as_slice());
    let raw_markdown = match html_to_markdown(html.as_str()) {
        Ok(md) => md,
        Err(msg) => {
            return Err(Web2llmError::Markdown(msg));
        },
    };
    let md_chars = str_chars(raw_markdown.as_str());
    let content_chars = wash_chars(md_chars.as_slice());
    let tokens = estimate_chunk_tokens(content_chars.as_slice());
    let content = string_from_chars(content_chars.as_slice());
    let ghost old_chunks = chunks@;
    let index = chunks.len();
    chunks.push(PageChunk { index, content, tokens, score_bits });
    *html_buf = Vec::new();
    *token_acc = 0;
    proof {
        let s = emit(chunk_state(old_chunks, old(html_buf)@, *old(token_acc)), score_bits);
        assert(chunk_specs(chunks@) == s.chunks);
        assert(html_buf@ == Seq::<char>::empty());
        assert(old_chunks == chunks@.subrange(0, old_chunks.len() as int));
    }
    Ok(())
}

/// Recursively traverses the scored tree to produce structurally-aware
/// chunks (see [`walk`]); always `Ok`.
pub fn rebuild_to_chunks(
    node: &ScoredNode,
    max_tokens: usize,
    chunks: &mut Vec<PageChunk>,
    html_buf: &mut Vec<char>,
    token_acc: &mut usize,
) -> (r: Result<(), Web2llmError>)
    requires
        *old(token_acc) <= max_tokens,
        tokens_at_most(*node, (usize::MAX - max_tokens) as nat),
    ensures
        r is Ok,
        walk(*node, max_tokens as nat, chunk_state(old(chunks)@, old(html_buf)@, *old(token_acc)))
            == chunk_state(final(chunks)@, final(html_buf)@, *final(token_acc)),
        *final(token_acc) <= max_tokens,
    decreases node,
{
    let ghost st0 = chunk_state(chunks@, html_buf@, *token_acc);
    proof {
        lemma_node_html_nonempty(*node, false);
        lemma_walk(*node, max_tokens as nat, st0);
    }
    if is_within_budget(node.tokens, max_tokens) {
        rebuild_html(node, html_buf, false);
        *token_acc = *token_acc + node.tokens;
        if *token_acc >= max_tokens {
            let r = emit_buffer(chunks, html_buf, token_acc, node.score_bits);
            return r;
        }
        Ok(())
    } else {
        emit_buffer(chunks, html_buf, token_acc, node.score_bits)?;
        let ghost st1 = chunk_state(chunks@, html_buf@, *token_acc);
        let mut i: usize = 0;
        while i < node.kept.len()
            invariant
                i <= node.kept@.len(),
                tokens_at_most(*node, (usize::MAX - max_tokens) as nat),
                *token_acc <= max_tokens,
                emit(st0, node.score_bits) == st1,
                st0 == chunk_state(old(chunks)@, old(html_buf)@, *old(token_acc)),
                !within_budget(node.tokens as int, max_tokens as int),
                walk_kept(*node, i as int, max_tokens as nat, st1) == chunk_state(
                    chunks@,
                    html_buf@,
                    *token_acc,
                ),
            decreases node.kept@.len() - i,
        {
            proof {
                lemma_tokens_at_most_child(*node, (usize::MAX - max_tokens) as nat, i as int);
            }
            rebuild_to_chunks(&node.kept[i], max_tokens, chunks, html_buf, token_acc)?;
            i = i + 1;
        }
        if node.kept.len() == 0 && node.tokens > 0 {
            rebuild_html(node, html_buf, false);
            *token_acc = *token_acc + node.tokens;
            emit_buffer(chunks, html_buf, token_acc, node.score_bits)?;
        }
        Ok(())
    }
}

/// The chunks of a page whose surviving top-level branches are `roots`:
/// each root is walked with a fresh buffer, and whatever remains buffered
/// after it is emitted with the root's score.
pub open spec fn chunk_roots_spec(roots: Seq<ScoredNode>, max: nat) -> Seq<ChunkSpec>
    decreases roots.len(),
{
    if roots.len() == 0 {
        Seq::empty()
    } else {
        let st0 = ChunkState { chunks: chunk_roots_spec(roots.drop_last(), max), buf: Seq::empty(), acc: 0 };
        emit(walk(roots.last(), max, st0), roots.last().score_bits).chunks
    }
}

/// The chunks of a page are numbered from zero in order, washed, and carry
/// their own token estimates.
pub proof fn lemma_chunk_roots_well_formed(roots: Seq<ScoredNode>, max: nat)
    ensures
        chunks_well_formed(chunk_roots_spec(roots, max)),
    decreases roots.len(),
{
    if roots.len() > 0 {
        lemma_chunk_roots_well_formed(roots.drop_last(), max);
        let st0 = ChunkState { chunks: chunk_roots_spec(roots.drop_last(), max), buf: Seq::empty(), acc: 0 };
        lemma_walk(roots.last(), max, st0);
        lemma_emit(walk(roots.last(), max, st0), roots.last().score_bits);
    }
}

/// The walk over a node always leaves a trace: it emits a chunk or leaves
/// HTML in the buffer. No node is walked without its content reaching the
/// chunks or the buffer, oversized leaves included.
pub proof fn lemma_walk_progress(n: ScoredNode, max: nat, st: ChunkState)
    requires
        st.acc <= max,
    ensures
        walk(n, max, st).chunks.len() > st.chunks.len() || walk(n, max, st).buf.len() > 0,
    decreases n, n.kept@.len() + 1,
{
    lemma_node_html_nonempty(n, false);
    lemma_walk(n, max, st);
    if within_budget(n.tokens as int, max as int) {
        let st1 = absorb(st, n);
        assert(st1.buf.len() > 0);
        if st1.acc >= max {
            lemma_emit(st1, n.score_bits);
        }
    } else {
        lemma_emit(st, n.score_bits);
        let st1 = emit(st, n.score_bits);
        lemma_walk_kept(n, n.kept@.len() as int, max, st1);
        let st2 = walk_kept(n, n.kept@.len() as int, max, st1);
        if n.kept@.len() == 0 {
            assert(n.tokens > 0);
            lemma_emit(absorb(st2, n), n.score_bits);
            assert(absorb(st2, n).buf.len() > 0);
        } else {
            lemma_walk_kept_progress(n, n.kept@.len() as int, max, st1);
            if st.buf.len() > 0 {
                assert(st1.chunks.len() == st.chunks.len() + 1);
            }
        }
    }
}

/// The walk over at least one kept child leaves a trace.
pub proof fn lemma_walk_kept_progress(n: ScoredNode, k: int, max: nat, st: ChunkState)
    requires
        st.acc <= max,
        0 < k <= n.kept@.len(),
    ensures
        walk_kept(n, k, max, st).chunks.len() > st.chunks.len() || walk_kept(n, k, max, st).buf.len()
            > 0,
    decreases n, k,
{
    lemma_walk_kept(n, k - 1, max, st);
    let s = walk_kept(n, k - 1, max, st);
    lemma_walk_progress(n.kept@[k - 1], max, s);
}

/// Every surviving branch of a page yields at least one chunk: a page has
/// at least as many chunks as branches, so no branch's content is dropped.
pub proof fn lemma_chunk_roots_count(roots: Seq<ScoredNode>, max: nat)
    ensures
        chunk_roots_spec(roots, max).len() >= roots.len(),
    decreases roots.len(),
{
    if roots.len() > 0 {
        lemma_chunk_roots_count(roots.drop_last(), max);
        let st0 = ChunkState { chunks: chunk_roots_spec(roots.drop_last(), max), buf: Seq::empty(), acc: 0 };
        lemma_walk(roots.last(), max, st0);
        lemma_walk_progress(roots.last(), max, st0);
        let st = walk(roots.last(), max, st0);
        lemma_emit(st, roots.last().score_bits);
    }
}

/// Divides the surviving top-level branches of a page into Markdown chunks
/// (see [`chunk_roots_spec`]); always `Ok`.
pub fn chunk_roots(roots: &Vec<ScoredNode>, max_tokens: usize) -> (r: Result<Vec<PageChunk>, Web2llmError>)
    requires
        forall|i: int|
            0 <= i < roots@.len() ==> tokens_at_most(#[trigger] roots@[i], (usize::MAX - max_tokens) as nat),
    ensures
        r matches Ok(cs) && chunk_specs(cs@) == chunk_roots_spec(roots@, max_tokens as nat),
        r matches Ok(cs) ==> chunks_well_formed(chunk_specs(cs@)),
        r matches Ok(cs) ==> cs@.len() >= roots@.len(),
{
    let mut chunks: Vec<PageChunk> = Vec::new();
    let mut k: usize = 0;
    proof {
        assert(chunk_specs(chunks@) == Seq::<ChunkSpec>::empty());
    }
    while k < roots.len()
        invariant
            k <= roots@.len(),
            forall|i: int|
                0 <= i < roots@.len() ==> tokens_at_most(#[trigger] roots@[i], (usize::MAX - max_tokens) as nat),
            chunk_roots_spec(roots@.subrange(0, k as int), max_tokens as nat) == chunk_specs(chunks@),
        decreases roots@.len() - k,
    {
        let ghost pre2 = roots@.subrange(0, k + 1);
        proof {
            assert(pre2.drop_last() == roots@.subrange(0, k as int));
            assert(pre2.last() == roots@[k as int]);
        }
        let root = &roots[k];
        let mut html_buf: Vec<char> = Vec::new();
        let mut token_acc: usize = 0;
        let ghost st0 = chunk_state(chunks@, html_buf@, token_acc);
        assert(st0 == ChunkState { chunks: chunk_specs(chunks@), buf: Seq::empty(), acc: 0 });
        rebuild_to_chunks(root, max_tokens, &mut chunks, &mut html_buf, &mut token_acc)?;
        emit_buffer(&mut chunks, &mut html_buf, &mut token_acc, root.score_bits)?;
        k = k + 1;
    }
    proof {
        assert(roots@.subrange(0, roots@.len() as int) == roots@);
        lemma_chunk_roots_well_formed(roots@, max_tokens as nat);
        lemma_chunk_roots_count(roots@, max_tokens as nat);
    }
    Ok(chunks)
}

} // verus!
