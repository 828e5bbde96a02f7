//! The result of a page fetch: its chunks, their joined Markdown, token
//! totals, the links found in the content, and the file name it is saved
//! under.

use vstd::prelude::*;

use crate::order::{sorted_unique, strictly_sorted, views};
use crate::text::{push_str, starts_with, starts_with_str, str_chars, string_from_chars};
use crate::tokens::PageChunk;

verus! {

/// A point in time, as seconds and nanoseconds since the Unix epoch (UTC).
#[derive(Debug, Clone, Copy, PartialEq, Eq, Structural)]
pub struct Timestamp {
    pub secs: i64,
    pub nanos: u32,
}

/// Reads the current UTC time with `chrono::Utc::now`. Nothing is claimed of
/// the result: it depends on the clock.
#[verifier::external_body]
fn utc_now() -> (t: Timestamp) {
    let now = chrono::Utc::now();
    Timestamp { secs: now.timestamp(), nanos: now.timestamp_subsec_nanos() }
}

/// The result of a successful page fetch and extraction.
pub struct PageResult {
    pub url: String,
    pub title: String,
    pub chunks: Vec<PageChunk>,
    pub timestamp: Timestamp,
}

/// The Markdown of a list of chunks: their contents joined by empty lines.
pub open spec fn joined_markdown(cs: Seq<PageChunk>) -> Seq<char>
    decreases cs.len(),
{
    if cs.len() == 0 {
        Seq::empty()
    } else if cs.len() == 1 {
        cs[0].content@
    } else {
        joined_markdown(cs.drop_last()) + "\n\n"@ + cs.last().content@
    }
}

/// The sum of the token estimates of a list of chunks.
pub open spec fn tokens_sum(cs: Seq<PageChunk>) -> nat
    decreases cs.len(),
{
    if cs.len() == 0 {
        0
    } else {
        tokens_sum(cs.drop_last()) + cs.last().tokens as nat
    }
}

/// Characters that end a link candidate inside Markdown.
pub open spec fn is_link_delim(c: char) -> bool {
    c == '(' || c == ')' || c == ' ' || c == '\n' || c == '\t' || c == '<' || c == '>' || c == '['
        || c == ']' || c == '"'
}

/// The pieces of `s` between link delimiters, empty pieces included.
pub open spec fn link_pieces(s: Seq<char>) -> Seq<Seq<char>>
    decreases s.len(),
{
    if s.len() == 0 {
        seq![Seq::<char>::empty()]
    } else {
        let r = link_pieces(s.drop_last());
        if is_link_delim(s.last()) {
            r.push(Seq::<char>::empty())
        } else {
            r.update(r.len() - 1, r.last().push(s.last()))
        }
    }
}

/// Number of bytes of the UTF-8 encoding of a character.
pub open spec fn utf8_width(c: char) -> nat {
    if (c as u32) < 0x80 {
        1
    } else if (c as u32) < 0x800 {
        2
    } else if (c as u32) < 0x10000 {
        3
    } else {
        4
    }
}

/// Number of bytes of the UTF-8 encoding of a text.
pub open spec fn utf8_len(s: Seq<char>) -> nat
    decreases s.len(),
{
    if s.len() == 0 {
        0
    } else {
        utf8_len(s.drop_last()) + utf8_width(s.last())
    }
}

/// A piece that counts as a link: an `http://` or `https://` address longer
/// than ten bytes.
pub open spec fn is_link_candidate(p: Seq<char>) -> bool {
    (starts_with(p, "http://"@) || starts_with(p, "https://"@)) && utf8_len(p) > 10
}

/// The links found in a Markdown text.
pub open spec fn markdown_links(md: Seq<char>) -> Set<Seq<char>> {
    Set::new(|p: Seq<char>| link_pieces(md).contains(p) && is_link_candidate(p))
}

/// The file-name form of a character: letters and `-` are kept, anything
/// else becomes `_`.
pub open spec fn filename_char(c: char) -> char {
    if unicode_alphabetic(c) || c == '-' {
        c
    } else {
        '_'
    }
}

/// What `char::is_alphabetic` returns (the Unicode `Alphabetic` property).
pub uninterp spec fn unicode_alphabetic(c: char) -> bool;

/// Calls `char::is_alphabetic`.
#[verifier::external_body]
fn is_alphabetic(c: char) -> (r: bool)
    ensures
        r == unicode_alphabetic(c),
{
    c.is_alphabetic()
}

/// Derives a file name (without extension) from a URL: letters and `-`
/// are kept, every other character becomes `_`.
pub fn filename_from_url(url: &str) -> (r: String)
    ensures
        r@ == url@.map_values(|c: char| filename_char(c)),
{
    let cs = str_chars(url);
    let mut out: Vec<char> = Vec::new();
    let mut i: usize = 0;
    while i < cs.len()
        invariant
            cs@ == url@,
            i <= cs@.len(),
            out@ == cs@.subrange(0, i as int).map_values(|c: char| filename_char(c)),
        decreases cs@.len() - i,
    {
        let c = cs[i];
        if is_alphabetic(c) || c == '-' {
            out.push(c);
        } else {
            out.push('_');
        }
        proof {
            assert(cs@.subrange(0, i + 1) == cs@.subrange(0, i as int).push(c));
        }
        i = i + 1;
        assert(out@ =~= cs@.subrange(0, i as int).map_values(|c: char| filename_char(c)));
    }
    assert(cs@.subrange(0, cs@.len() as int) == cs@);
    string_from_chars(out.as_slice())
}

/// The file name of a page saved by URL.
pub open spec fn auto_file_name_of(url: Seq<char>) -> Seq<char> {
    url.map_values(|c: char| filename_char(c)) + ".md"@
}

/// Whether the UTF-8 encoding of `p` is longer than `n` bytes.
fn utf8_longer_than(p: &[char], n: usize) -> (r: bool)
    ensures
        r == (utf8_len(p@) > n),
{
    let mut acc: usize = 0;
    let mut i: usize = 0;
    while i < p.len()
        invariant
            i <= p@.len(),
            acc == utf8_len(p@.subrange(0, i as int)),
            acc <= n,
        decreases p@.len() - i,
    {
        let u = p[i] as u32;
        let w: usize = if u < 0x80 {
            1
        } else if u < 0x800 {
            2
        } else if u < 0x10000 {
            3
        } else {
            4
        };
        proof {
            assert(p@.subrange(0, i + 1).drop_last() == p@.subrange(0, i as int));
        }
        if w > n - acc {
            proof {
                lemma_utf8_len_prefix(p@, i + 1);
            }
            return true;
        }
        acc = acc + w;
        i = i + 1;
    }
    assert(p@.subrange(0, p@.len() as int) == p@);
    false
}

proof fn lemma_utf8_len_prefix(s: Seq<char>, k: int)
    requires
        0 <= k <= s.len(),
    ensures
        utf8_len(s.subrange(0, k)) <= utf8_len(s),
    decreases s.len() - k,
{
    if k < s.len() {
        lemma_utf8_len_prefix(s, k + 1);
        assert(s.subrange(0, k + 1).drop_last() == s.subrange(0, k));
    } else {
        assert(s.subrange(0, k) == s);
    }
}

proof fn lemma_link_pieces_nonempty(s: Seq<char>)
    ensures
        link_pieces(s).len() >= 1,
    decreases s.len(),
{
    if s.len() > 0 {
        lemma_link_pieces_nonempty(s.drop_last());
    }
}

/// No piece of a text holds one of the ten link delimiters
/// `(`, `)`, space, newline, tab, `<`, `>`, `[`, `]` and `"`.
pub proof fn lemma_link_pieces_clean(s: Seq<char>)
    ensures
        forall|i: int, k: int|
            0 <= i < link_pieces(s).len() && 0 <= k < link_pieces(s)[i].len() ==> {
                let c = #[trigger] link_pieces(s)[i][k];
                c != '(' && c != ')' && c != ' ' && c != '\n' && c != '\t' && c != '<' && c != '>'
                    && c != '[' && c != ']' && c != '"'
            },
    decreases s.len(),
{
    if s.len() > 0 {
        lemma_link_pieces_clean(s.drop_last());
        lemma_link_pieces_nonempty(s.drop_last());
        let r = link_pieces(s.drop_last());
        let q = link_pieces(s);
        assert forall|i: int, k: int| 0 <= i < q.len() && 0 <= k < q[i].len() implies {
            let c = #[trigger] q[i][k];
            c != '(' && c != ')' && c != ' ' && c != '\n' && c != '\t' && c != '<' && c != '>'
                && c != '[' && c != ']' && c != '"'
        } by {
            if is_link_delim(s.last()) {
                if i < r.len() {
                    assert(q[i] == r[i]);
                }
            } else if i == r.len() - 1 {
                if k < r.last().len() {
                    assert(q[i][k] == r[i][k]);
                } else {
                    assert(q[i][k] == s.last());
                }
            } else {
                assert(q[i] == r[i]);
            }
        }
    }
}

/// A text without any of the ten link delimiters is a single piece.
pub proof fn lemma_link_pieces_whole(s: Seq<char>)
    requires
        forall|k: int|
            0 <= k < s.len() ==> {
                let c = #[trigger] s[k];
                c != '(' && c != ')' && c != ' ' && c != '\n' && c != '\t' && c != '<' && c != '>'
                    && c != '[' && c != ']' && c != '"'
            },
    ensures
        link_pieces(s) == seq![s],
    decreases s.len(),
{
    if s.len() > 0 {
        let p = s.drop_last();
        assert forall|k: int| 0 <= k < p.len() implies {
            let c = #[trigger] p[k];
            c != '(' && c != ')' && c != ' ' && c != '\n' && c != '\t' && c != '<' && c != '>'
                && c != '[' && c != ']' && c != '"'
        } by {
            assert(p[k] == s[k]);
        }
        lemma_link_pieces_whole(p);
        assert(s[s.len() - 1] == s.last());
        assert(p.push(s.last()) =~= s);
    } else {
        assert(s =~= Seq::<char>::empty());
    }
}

/// The links of a Markdown text hold none of the ten link delimiters; and
/// an `http(s)` text longer than ten bytes without delimiters is itself
/// its one link.
pub proof fn lemma_markdown_links_clean(md: Seq<char>)
    ensures
        forall|p: Seq<char>, k: int|
            markdown_links(md).contains(p) && 0 <= k < p.len() ==> {
                let c = #[trigger] p[k];
                c != '(' && c != ')' && c != ' ' && c != '\n' && c != '\t' && c != '<' && c != '>'
                    && c != '[' && c != ']' && c != '"'
            },
        (forall|k: int|
            0 <= k < md.len() ==> {
                let c = #[trigger] md[k];
                c != '(' && c != ')' && c != ' ' && c != '\n' && c != '\t' && c != '<' && c != '>'
                    && c != '[' && c != ']' && c != '"'
            }) && is_link_candidate(md) ==> markdown_links(md) == set![md],
{
    lemma_link_pieces_clean(md);
    assert forall|p: Seq<char>, k: int| markdown_links(md).contains(p) && 0 <= k < p.len() implies {
        let c = #[trigger] p[k];
        c != '(' && c != ')' && c != ' ' && c != '\n' && c != '\t' && c != '<' && c != '>' && c
            != '[' && c != ']' && c != '"'
    } by {
        let i = choose|i: int| 0 <= i < link_pieces(md).len() && link_pieces(md)[i] == p;
        assert(link_pieces(md)[i][k] == p[k]);
    }
    if (forall|k: int|
        0 <= k < md.len() ==> {
            let c = #[trigger] md[k];
            c != '(' && c != ')' && c != ' ' && c != '\n' && c != '\t' && c != '<' && c != '>' && c
                != '[' && c != ']' && c != '"'
        }) && is_link_candidate(md) {
        lemma_link_pieces_whole(md);
        assert(link_pieces(md)[0] == md);
        assert(markdown_links(md) =~= set![md]);
    }
}

/// The link candidates among some pieces.
pub open spec fn candidates_of(ps: Seq<Seq<char>>) -> Set<Seq<char>> {
    Set::new(|p: Seq<char>| ps.contains(p) && is_link_candidate(p))
}

proof fn lemma_candidates_push(ps: Seq<Seq<char>>, p: Seq<char>)
    ensures
        candidates_of(ps.push(p)) == if is_link_candidate(p) {
            candidates_of(ps).insert(p)
        } else {
            candidates_of(ps)
        },
{
    let qs = ps.push(p);
    assert forall|x: Seq<char>| qs.contains(x) <==> (ps.contains(x) || x == p) by {
        if qs.contains(x) {
            let i = choose|i: int| 0 <= i < qs.len() && qs[i] == x;
            if i < ps.len() {
                assert(ps[i] == x);
            }
        }
        if ps.contains(x) {
            let i = choose|i: int| 0 <= i < ps.len() && ps[i] == x;
            assert(qs[i] == x);
        }
        if x == p {
            assert(qs[ps.len() as int] == p);
        }
    }
    if is_link_candidate(p) {
        assert(candidates_of(qs) =~= candidates_of(ps).insert(p));
    } else {
        assert(candidates_of(qs) =~= candidates_of(ps));
    }
}

/// The link candidates of a Markdown text, in order of appearance.
fn link_candidates(md: &[char]) -> (r: Vec<String>)
    ensures
        views(r@).to_set() == markdown_links(md@),
{
    let mut found: Vec<String> = Vec::new();
    let mut piece: Vec<char> = Vec::new();
    let mut i: usize = 0;
    proof {
        assert(md@.subrange(0, 0) == Seq::<char>::empty());
        assert(views(found@).to_set() =~= Set::<Seq<char>>::empty());
        assert(candidates_of(Seq::<Seq<char>>::empty()) =~= Set::<Seq<char>>::empty());
    }
    while i < md.len()
        invariant
            i <= md@.len(),
            link_pieces(md@.subrange(0, i as int)).last() == piece@,
            views(found@).to_set() == candidates_of(
                link_pieces(md@.subrange(0, i as int)).drop_last(),
            ),
        decreases md@.len() - i,
    {
        let c = md[i];
        let ghost p = md@.subrange(0, i as int);
        let ghost p2 = md@.subrange(0, i + 1);
        proof {
            assert(p2.drop_last() == p);
            assert(p2.last() == c);
            lemma_link_pieces_nonempty(p);
        }
        if c == '(' || c == ')' || c == ' ' || c == '\n' || c == '\t' || c == '<' || c == '>' || c
            == '[' || c == ']' || c == '"' {
            let is_cand = (starts_with_str(piece.as_slice(), "http://") || starts_with_str(
                piece.as_slice(),
                "https://",
            )) && utf8_longer_than(piece.as_slice(), 10);
            let ghost old_found = found@;
            if is_cand {
                found.push(string_from_chars(piece.as_slice()));
                proof {
                    crate::order::lemma_push_to_set(views(old_found), piece@);
                    assert(views(found@) == views(old_found).push(piece@));
                }
            }
            proof {
                let r = link_pieces(p);
                assert(link_pieces(p2) == r.push(Seq::<char>::empty()));
                assert(link_pieces(p2).drop_last() == r);
                assert(r == r.drop_last().push(r.last()));
                lemma_candidates_push(r.drop_last(), r.last());
            }
            piece = Vec::new();
        } else {
            piece.push(c);
            proof {
                let r = link_pieces(p);
                assert(link_pieces(p2).drop_last() == r.drop_last());
            }
        }
        i = i + 1;
    }
    proof {
        assert(md@.subrange(0, md@.len() as int) == md@);
        let r = link_pieces(md@);
        lemma_link_pieces_nonempty(md@);
        assert(r == r.drop_last().push(r.last()));
        lemma_candidates_push(r.drop_last(), r.last());
    }
    let is_cand = (starts_with_str(piece.as_slice(), "http://") || starts_with_str(
        piece.as_slice(),
        "https://",
    )) && utf8_longer_than(piece.as_slice(), 10);
    let ghost old_found = found@;
    if is_cand {
        found.push(string_from_chars(piece.as_slice()));
        proof {
            crate::order::lemma_push_to_set(views(old_found), piece@);
            assert(views(found@) == views(old_found).push(piece@));
        }
    }
    proof {
        assert(candidates_of(link_pieces(md@)) =~= markdown_links(md@));
    }
    found
}

impl PageResult {
    /// Creates a result for `url` and `title` with the given chunks, stamped
    /// with the current time.
    pub fn new(url: &str, title: &str, chunks: Vec<PageChunk>) -> (r: Self)
        ensures
            r.url@ == url@,
            r.title@ == title@,
            r.chunks@ == chunks@,
    {
        let u = str_chars(url);
        let t = str_chars(title);
        PageResult {
            url: string_from_chars(u.as_slice()),
            title: string_from_chars(t.as_slice()),
            chunks,
            timestamp: utc_now(),
        }
    }

    /// The whole Markdown of the page: the chunk contents joined by empty
    /// lines.
    pub fn markdown(&self) -> (r: String)
        ensures
            r@ == joined_markdown(self.chunks@),
    {
        let mut out: Vec<char> = Vec::new();
        let mut i: usize = 0;
        while i < self.chunks.len()
            invariant
                i <= self.chunks@.len(),
                out@ == joined_markdown(self.chunks@.subrange(0, i as int)),
            decreases self.chunks@.len() - i,
        {
            proof {
                let p2 = self.chunks@.subrange(0, i + 1);
                assert(p2.drop_last() == self.chunks@.subrange(0, i as int));
                if i == 0 {
                    assert(p2[0] == self.chunks@[0]);
                }
            }
            if i > 0 {
                push_str(&mut out, "\n\n");
            }
            push_str(&mut out, self.chunks[i].content.as_str());
            i = i + 1;
        }
        assert(self.chunks@.subrange(0, self.chunks@.len() as int) == self.chunks@);
        string_from_chars(out.as_slice())
    }

    /// The name `save_auto` gives the page's file inside its directory: the
    /// file-name form of the URL followed by `.md`.
    pub fn auto_file_name(&self) -> (r: String)
        ensures
            r@ == auto_file_name_of(self.url@),
    {
        let base = filename_from_url(self.url.as_str());
        let mut out = str_chars(base.as_str());
        push_str(&mut out, ".md");
        string_from_chars(out.as_slice())
    }

    /// The sum of the token estimates of all chunks.
    pub fn total_tokens(&self) -> (r: usize)
        requires
            tokens_sum(self.chunks@) <= usize::MAX,
        ensures
            r == tokens_sum(self.chunks@),
    {
        let mut sum: usize = 0;
        let mut i: usize = 0;
        while i < self.chunks.len()
            invariant
                i <= self.chunks@.len(),
                tokens_sum(self.chunks@) <= usize::MAX,
                sum == tokens_sum(self.chunks@.subrange(0, i as int)),
            decreases self.chunks@.len() - i,
        {
            proof {
                assert(self.chunks@.subrange(0, i + 1).drop_last() == self.chunks@.subrange(
                    0,
                    i as int,
                ));
                lemma_tokens_sum_prefix(self.chunks@, i + 1);
            }
            sum = sum + self.chunks[i].tokens;
            i = i + 1;
        }
        assert(self.chunks@.subrange(0, self.chunks@.len() as int) == self.chunks@);
        sum
    }

    /// The distinct `http(s)` links that appear in the page's Markdown, in
    /// sorted order.
    pub fn get_urls(&self) -> (r: Vec<String>)
        ensures
            strictly_sorted(views(r@)),
            views(r@).to_set() == markdown_links(joined_markdown(self.chunks@)),
            forall|i: int, k: int|
                0 <= i < r@.len() && 0 <= k < r@[i]@.len() ==> {
                    let c = #[trigger] r@[i]@[k];
                    c != '(' && c != ')' && c != ' ' && c != '\n' && c != '\t' && c != '<' && c != '>'
                        && c != '[' && c != ']' && c != '"'
                },
    {
        let markdown = self.markdown();
        let md = str_chars(markdown.as_str());
        let found = link_candidates(md.as_slice());
        let r = sorted_unique(found);
        proof {
            let links = markdown_links(joined_markdown(self.chunks@));
            lemma_markdown_links_clean(joined_markdown(self.chunks@));
            assert forall|i: int, k: int| 0 <= i < r@.len() && 0 <= k < r@[i]@.len() implies {
                let c = #[trigger] r@[i]@[k];
                c != '(' && c != ')' && c != ' ' && c != '\n' && c != '\t' && c != '<' && c != '>'
                    && c != '[' && c != ']' && c != '"'
            } by {
                assert(views(r@)[i] == r@[i]@);
                assert(views(r@).to_set().contains(r@[i]@));
                assert(links.contains(r@[i]@));
            }
        }
        r
    }
}

proof fn lemma_tokens_sum_prefix(cs: Seq<PageChunk>, k: int)
    requires
        0 <= k <= cs.len(),
    ensures
        tokens_sum(cs.subrange(0, k)) <= tokens_sum(cs),
    decreases cs.len() - k,
{
    if k < cs.len() {
        lemma_tokens_sum_prefix(cs, k + 1);
        assert(cs.subrange(0, k + 1).drop_last() == cs.subrange(0, k));
    } else {
        assert(cs.subrange(0, k) == cs);
    }
}

} // verus!
