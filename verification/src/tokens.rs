//! Token estimates and Markdown post-processing.

use vstd::prelude::*;

use crate::scorer::HtmlChild;
use crate::text::{is_whitespace, is_ws, lemma_trim_shape, push_all, str_chars, string_from_chars,
    trim, trim_chars};

verus! {

/// A structurally-aware slice of the page's content converted to Markdown.
#[derive(Debug, Clone)]
pub struct PageChunk {
    /// The index of this chunk in the page (0-indexed).
    pub index: usize,
    /// The cleaned Markdown content of the chunk.
    pub content: String,
    /// The estimated number of tokens in the Markdown content.
    pub tokens: usize,
    /// The IEEE-754 single-precision bit pattern of the score of the node
    /// that closed this chunk.
    pub score_bits: u32,
}

// ---------------------------------------------------------------------------
// Markdown washing
// ---------------------------------------------------------------------------

/// The lines of `s`: the pieces between `'\n'` characters, the last piece
/// included even when it is empty.
pub open spec fn split_lines(s: Seq<char>) -> Seq<Seq<char>>
    decreases s.len(),
{
    if s.len() == 0 {
        seq![Seq::<char>::empty()]
    } else {
        let r = split_lines(s.drop_last());
        if s.last() == '\n' {
            r.push(Seq::<char>::empty())
        } else {
            r.update(r.len() - 1, r.last().push(s.last()))
        }
    }
}

/// The state of the washing pass after some lines: the text produced so far,
/// whether a non-blank line has been emitted, and whether a blank line has
/// been seen since the last non-blank one.
pub struct WashState {
    pub out: Seq<char>,
    pub started: bool,
    pub gap: bool,
}

/// One line of the washing pass: a blank line (after trimming) only marks a
/// gap; a non-blank line is emitted trimmed, separated from the previous
/// non-blank line by one newline, or by an empty line where the input had
/// one or more blank lines between them.
pub open spec fn wash_step(st: WashState, line: Seq<char>) -> WashState {
    let t = trim(line);
    if t.len() == 0 {
        WashState { out: st.out, started: st.started, gap: true }
    } else {
        let sep: Seq<char> = if !st.started {
            Seq::empty()
        } else if st.gap {
            seq!['\n', '\n']
        } else {
            seq!['\n']
        };
        WashState { out: st.out + sep + t, started: true, gap: false }
    }
}

/// The washing pass over a sequence of lines.
pub open spec fn wash_lines(ls: Seq<Seq<char>>) -> WashState
    decreases ls.len(),
{
    if ls.len() == 0 {
        WashState { out: Seq::empty(), started: false, gap: false }
    } else {
        wash_step(wash_lines(ls.drop_last()), ls.last())
    }
}

/// The washed form of a Markdown text: its non-blank lines, trimmed, with
/// every run of blank lines between two of them collapsed into one empty
/// line, and no blank lines before the first or after the last.
pub open spec fn washed(s: Seq<char>) -> Seq<char> {
    wash_lines(split_lines(s)).out
}

proof fn lemma_split_lines_nonempty(s: Seq<char>)
    ensures
        split_lines(s).len() >= 1,
    decreases s.len(),
{
    if s.len() > 0 {
        lemma_split_lines_nonempty(s.drop_last());
    }
}

proof fn lemma_split_lines_no_newline(s: Seq<char>)
    ensures
        forall|k: int, j: int|
            0 <= k < split_lines(s).len() && 0 <= j < split_lines(s)[k].len() ==> #[trigger] split_lines(s)[k][j]
                != '\n',
    decreases s.len(),
{
    if s.len() > 0 {
        lemma_split_lines_no_newline(s.drop_last());
        lemma_split_lines_nonempty(s.drop_last());
        let r = split_lines(s.drop_last());
        if s.last() != '\n' {
            assert forall|k: int, j: int|
                0 <= k < split_lines(s).len() && 0 <= j < split_lines(s)[k].len() implies #[trigger] split_lines(s)[k][j]
                    != '\n' by {
                if k == r.len() - 1 {
                    if j < r.last().len() {
                        assert(split_lines(s)[k][j] == r[k][j]);
                    }
                } else {
                    assert(split_lines(s)[k] == r[k]);
                }
            }
        } else {
            assert forall|k: int, j: int|
                0 <= k < split_lines(s).len() && 0 <= j < split_lines(s)[k].len() implies #[trigger] split_lines(s)[k][j]
                    != '\n' by {
                if k < r.len() {
                    assert(split_lines(s)[k] == r[k]);
                }
            }
        }
    }
}

/// Shape of the washed text: empty, or starting and ending with a
/// non-whitespace character; and never three newlines in a row.
pub open spec fn washed_shape(out: Seq<char>) -> bool {
    &&& out.len() > 0 ==> !is_ws(out[0]) && !is_ws(out.last())
    &&& forall|i: int|
        0 <= i && i + 2 < out.len() ==> !(#[trigger] out[i] == '\n' && out[i + 1] == '\n' && out[i
            + 2] == '\n')
}

proof fn lemma_wash_lines_shape(ls: Seq<Seq<char>>)
    requires
        forall|k: int, j: int| 0 <= k < ls.len() && 0 <= j < ls[k].len() ==> #[trigger] ls[k][j] != '\n',
    ensures
        washed_shape(wash_lines(ls).out),
        wash_lines(ls).started <==> wash_lines(ls).out.len() > 0,
    decreases ls.len(),
{
    if ls.len() > 0 {
        let prev = ls.drop_last();
        assert forall|k: int, j: int| 0 <= k < prev.len() && 0 <= j < prev[k].len() implies #[trigger] prev[k][j]
            != '\n' by {
            assert(prev[k] == ls[k]);
        }
        lemma_wash_lines_shape(prev);
        let st = wash_lines(prev);
        let line = ls.last();
        let t = trim(line);
        lemma_trim_shape(line);
        if t.len() > 0 {
            let sep: Seq<char> = if !st.started {
                Seq::empty()
            } else if st.gap {
                seq!['\n', '\n']
            } else {
                seq!['\n']
            };
            let out = st.out + sep + t;
            assert(wash_lines(ls).out == out);
            // `t` is a piece of a line, so it holds no newline.
            assert forall|j: int| 0 <= j < t.len() implies #[trigger] t[j] != '\n' by {
                let a = crate::text::lead_ws(line);
                crate::text::lemma_lead_ws(line);
                let ts = crate::text::trim_start(line);
                crate::text::lemma_trail_ws(ts);
                assert(t[j] == ts[j]);
                assert(ts[j] == line[j + a]);
                assert(0 <= j + a < line.len());
                assert(line[j + a] == ls[ls.len() - 1][j + a]);
            }
            if st.out.len() > 0 {
                assert(out[0] == st.out[0]);
            } else {
                assert(out[0] == t[0]);
            }
            assert(out.last() == t.last());
            assert forall|i: int| 0 <= i && i + 2 < out.len() implies !(#[trigger] out[i] == '\n'
                && out[i + 1] == '\n' && out[i + 2] == '\n') by {
                let n = st.out.len();
                let m = sep.len();
                if i + 2 < n {
                    assert(out[i] == st.out[i]);
                    assert(out[i + 1] == st.out[i + 1]);
                    assert(out[i + 2] == st.out[i + 2]);
                } else if i >= n + m {
                    assert(out[i] == t[i - n - m]);
                } else if i + 2 >= n + m {
                    assert(out[i + 2] == t[i + 2 - n - m]);
                } else {
                    // the separator is at most two characters and follows a
                    // non-whitespace character
                    if i == n - 1 {
                        assert(out[i] == st.out[n - 1]);
                    } else {
                        assert(i == n - 2);
                        assert(out[i + 1] == st.out[n - 1]);
                    }
                }
            }
        }
    }
}

/// Washing leaves no surrounding whitespace and at most one empty line in a row.
pub proof fn lemma_washed_shape(s: Seq<char>)
    ensures
        washed_shape(washed(s)),
{
    lemma_split_lines_no_newline(s);
    lemma_wash_lines_shape(split_lines(s));
}

/// A text that starts and ends with non-whitespace is its own trim.
proof fn lemma_trim_fixed(t: Seq<char>)
    requires
        t.len() > 0,
        !is_ws(t[0]),
        !is_ws(t.last()),
    ensures
        trim(t) == t,
{
    crate::text::lemma_lead_ws_unique(t, 0);
    assert(crate::text::trim_start(t) == t);
    crate::text::lemma_trail_ws_unique(t, 0);
}

/// A text without newlines is a single line.
proof fn lemma_split_lines_single(t: Seq<char>)
    requires
        forall|j: int| 0 <= j < t.len() ==> #[trigger] t[j] != '\n',
    ensures
        split_lines(t) == seq![t],
    decreases t.len(),
{
    if t.len() > 0 {
        let p = t.drop_last();
        assert forall|j: int| 0 <= j < p.len() implies #[trigger] p[j] != '\n' by {
            assert(p[j] == t[j]);
        }
        lemma_split_lines_single(p);
        assert(t.last() != '\n');
        assert(split_lines(t) =~= seq![p.push(t.last())]);
        assert(p.push(t.last()) =~= t);
    } else {
        assert(t =~= Seq::<char>::empty());
    }
}

/// Splitting at a newline splits the lines.
proof fn lemma_split_lines_concat(a: Seq<char>, b: Seq<char>)
    ensures
        split_lines(a + seq!['\n'] + b) == split_lines(a) + split_lines(b),
    decreases b.len(),
{
    let ab = a + seq!['\n'] + b;
    if b.len() == 0 {
        assert(ab.drop_last() =~= a);
        assert(ab.last() == '\n');
        assert(split_lines(b) =~= seq![Seq::<char>::empty()]);
        assert(split_lines(ab) =~= split_lines(a) + split_lines(b));
    } else {
        let b2 = b.drop_last();
        lemma_split_lines_concat(a, b2);
        lemma_split_lines_nonempty(b2);
        assert(ab.drop_last() =~= a + seq!['\n'] + b2);
        assert(ab.last() == b.last());
        let r = split_lines(a + seq!['\n'] + b2);
        let ra = split_lines(a);
        let rb = split_lines(b2);
        assert(r == ra + rb);
        if b.last() == '\n' {
            assert(split_lines(ab) == r.push(Seq::<char>::empty()));
            assert(split_lines(b) == rb.push(Seq::<char>::empty()));
            assert(split_lines(ab) =~= ra + split_lines(b));
        } else {
            assert(split_lines(ab) == r.update(r.len() - 1, r.last().push(b.last())));
            assert(split_lines(b) == rb.update(rb.len() - 1, rb.last().push(b.last())));
            assert(split_lines(ab) =~= ra + split_lines(b));
        }
    }
}

/// Washing the output of a washing pass over newline-free lines gives it
/// back, in a state that is started exactly when the output is non-empty
/// and has no pending gap after a non-empty output.
proof fn lemma_rewash(ls: Seq<Seq<char>>)
    requires
        forall|k: int, j: int| 0 <= k < ls.len() && 0 <= j < ls[k].len() ==> #[trigger] ls[k][j] != '\n',
    ensures
        ({
            let o = wash_lines(ls).out;
            let st2 = wash_lines(split_lines(o));
            &&& st2.out == o
            &&& st2.started == (o.len() > 0)
            &&& o.len() > 0 ==> !st2.gap
        }),
    decreases ls.len(),
{
    if ls.len() == 0 {
        assert(split_lines(Seq::<char>::empty()) == seq![Seq::<char>::empty()]);
        let one = seq![Seq::<char>::empty()];
        assert(one.drop_last() =~= Seq::<Seq<char>>::empty());
        assert(trim(Seq::<char>::empty()) =~= Seq::<char>::empty());
        assert(one.last() == Seq::<char>::empty());
        let st0 = wash_lines(Seq::<Seq<char>>::empty());
        assert(wash_lines(one) == wash_step(st0, Seq::<char>::empty()));
        assert(wash_lines(one).out.len() == 0);
        assert(!wash_lines(one).started);
    } else {
        let prev = ls.drop_last();
        assert forall|k: int, j: int| 0 <= k < prev.len() && 0 <= j < prev[k].len() implies #[trigger] prev[k][j]
            != '\n' by {
            assert(prev[k] == ls[k]);
        }
        lemma_rewash(prev);
        lemma_wash_lines_shape(prev);
        let st = wash_lines(prev);
        let o = st.out;
        let line = ls.last();
        let t = trim(line);
        lemma_trim_shape(line);
        if t.len() > 0 {
            // `t` holds no newline
            assert forall|j: int| 0 <= j < t.len() implies #[trigger] t[j] != '\n' by {
                let a = crate::text::lead_ws(line);
                crate::text::lemma_lead_ws(line);
                let ts = crate::text::trim_start(line);
                crate::text::lemma_trail_ws(ts);
                assert(t[j] == ts[j]);
                assert(ts[j] == line[j + a]);
                assert(line[j + a] == ls[ls.len() - 1][j + a]);
            }
            lemma_trim_fixed(t);
            lemma_split_lines_single(t);
            let st2 = wash_lines(split_lines(o));
            if !st.started {
                let o2 = o + Seq::<char>::empty() + t;
                assert(o.len() == 0);
                assert(o2 =~= t);
                assert(wash_lines(ls).out == o2);
                let one = seq![t];
                assert(one.drop_last() =~= Seq::<Seq<char>>::empty());
                assert(one.last() == t);
                let st0 = wash_lines(Seq::<Seq<char>>::empty());
                assert(wash_lines(one) == wash_step(st0, t));
                assert(wash_lines(one).out =~= t);
                assert(split_lines(o2) == one);
            } else if st.gap {
                let o2 = o + seq!['\n', '\n'] + t;
                assert(wash_lines(ls).out == o2);
                assert(o2 =~= o + seq!['\n'] + (seq!['\n'] + t));
                lemma_split_lines_concat(o, seq!['\n'] + t);
                assert(seq!['\n'] + t =~= Seq::<char>::empty() + seq!['\n'] + t);
                lemma_split_lines_concat(Seq::<char>::empty(), t);
                assert(split_lines(Seq::<char>::empty()) == seq![Seq::<char>::empty()]);
                let lines2 = split_lines(o) + seq![Seq::<char>::empty(), t];
                assert(split_lines(o2) =~= lines2);
                assert(lines2.drop_last() =~= split_lines(o).push(Seq::<char>::empty()));
                assert(lines2.drop_last().drop_last() =~= split_lines(o));
                assert(trim(Seq::<char>::empty()) =~= Seq::<char>::empty());
                let mid = wash_lines(lines2.drop_last());
                assert(mid == wash_step(st2, Seq::<char>::empty()));
                assert(mid.out == o && mid.gap && mid.started);
                assert(lines2.last() == t);
                let st3 = wash_lines(lines2);
                assert(st3 == wash_step(mid, t));
                assert(st3.out == o2);
                assert(st3.started);
                assert(!st3.gap);
            } else {
                let o2 = o + seq!['\n'] + t;
                assert(wash_lines(ls).out == o2);
                lemma_split_lines_concat(o, t);
                let lines2 = split_lines(o) + seq![t];
                assert(split_lines(o2) =~= lines2);
                assert(lines2.drop_last() =~= split_lines(o));
                assert(lines2.last() == t);
                let st3 = wash_lines(lines2);
                assert(st3 == wash_step(st2, t));
                assert(st3.out == o2);
                assert(st3.started);
                assert(!st3.gap);
            }
        } else {
            assert(wash_lines(ls).out == o);
        }
    }
}

/// Washing is idempotent: a washed text washes to itself.
pub proof fn lemma_wash_idempotent(s: Seq<char>)
    ensures
        washed(washed(s)) == washed(s),
{
    lemma_split_lines_no_newline(s);
    lemma_rewash(split_lines(s));
}

/// Post-processes generated Markdown to reduce its token count: every line is
/// trimmed, runs of blank lines collapse into a single empty line, and the
/// whole text is trimmed.
pub fn wash_markdown(content: &str) -> (r: String)
    ensures
        r@ == washed(content@),
        washed_shape(r@),
{
    let cs = str_chars(content);
    let res = wash_chars(cs.as_slice());
    string_from_chars(res.as_slice())
}

/// Washes a Markdown text given as characters.
pub fn wash_chars(cs: &[char]) -> (r: Vec<char>)
    ensures
        r@ == washed(cs@),
        washed_shape(r@),
{
    let mut out: Vec<char> = Vec::new();
    let mut started = false;
    let mut gap = false;
    let mut line: Vec<char> = Vec::new();
    let mut i: usize = 0;
    proof {
        assert(cs@.subrange(0, 0) == Seq::<char>::empty());
    }
    while i < cs.len()
        invariant
            i <= cs@.len(),
            split_lines(cs@.subrange(0, i as int)).last() == line@,
            wash_lines(split_lines(cs@.subrange(0, i as int)).drop_last()) == (WashState {
                out: out@,
                started,
                gap,
            }),
        decreases cs@.len() - i,
    {
        let c = cs[i];
        let ghost p = cs@.subrange(0, i as int);
        let ghost p2 = cs@.subrange(0, i + 1);
        proof {
            assert(p2.drop_last() == p);
            assert(p2.last() == c);
            lemma_split_lines_nonempty(p);
        }
        if c == '\n' {
            wash_one_line(&mut out, &mut started, &mut gap, line.as_slice());
            line = Vec::new();
            proof {
                let r = split_lines(p);
                assert(split_lines(p2) == r.push(Seq::<char>::empty()));
                assert(split_lines(p2).drop_last() == r);
                assert(r == r.drop_last().push(r.last()));
            }
        } else {
            line.push(c);
            proof {
                let r = split_lines(p);
                assert(split_lines(p2).drop_last() == r.drop_last());
            }
        }
        i = i + 1;
    }
    proof {
        assert(cs@.subrange(0, cs@.len() as int) == cs@);
        let r = split_lines(cs@);
        lemma_split_lines_nonempty(cs@);
        assert(r == r.drop_last().push(r.last()));
    }
    wash_one_line(&mut out, &mut started, &mut gap, line.as_slice());
    proof {
        lemma_washed_shape(cs@);
    }
    out
}

/// Applies one line to the washing state.
fn wash_one_line(out: &mut Vec<char>, started: &mut bool, gap: &mut bool, line: &[char])
    ensures
        wash_step(WashState { out: old(out)@, started: *old(started), gap: *old(gap) }, line@) == (
        WashState { out: final(out)@, started: *final(started), gap: *final(gap) }),
{
    let t = trim_chars(line);
    if t.len() == 0 {
        *gap = true;
    } else {
        if *started {
            out.push('\n');
            if *gap {
                out.push('\n');
            }
        }
        let ghost mid = out@;
        push_all(out, t.as_slice());
        proof {
            if *old(started) {
                if *old(gap) {
                    assert(mid == old(out)@ + seq!['\n', '\n']);
                } else {
                    assert(mid == old(out)@ + seq!['\n']);
                }
            } else {
                assert(mid == old(out)@ + Seq::<char>::empty());
            }
        }
        *started = true;
        *gap = false;
    }
}

// ---------------------------------------------------------------------------
// Token estimates
// ---------------------------------------------------------------------------

/// Length of the run of non-whitespace characters at the end of `t`.
pub open spec fn run_end(t: Seq<char>) -> nat
    decreases t.len(),
{
    if t.len() == 0 || is_ws(t.last()) {
        0
    } else {
        1 + run_end(t.drop_last())
    }
}

/// Number of words of `t`: maximal runs of non-whitespace characters.
pub open spec fn word_count(t: Seq<char>) -> nat
    decreases t.len(),
{
    if t.len() == 0 {
        0
    } else {
        word_count(t.drop_last()) + if !is_ws(t.last()) && run_end(t.drop_last()) == 0 {
            1nat
        } else {
            0nat
        }
    }
}

/// Estimated tokens of `t`: one token for every started group of four
/// characters of each word, so a word of `n` characters counts `ceil(n / 4)`.
pub open spec fn token_count(t: Seq<char>) -> nat
    decreases t.len(),
{
    if t.len() == 0 {
        0
    } else {
        token_count(t.drop_last()) + if !is_ws(t.last()) && run_end(t.drop_last()) % 4 == 0 {
            1nat
        } else {
            0nat
        }
    }
}

/// The text of a child, or nothing for an element child.
pub open spec fn child_text(c: HtmlChild) -> Seq<char> {
    match c {
        HtmlChild::Text(t) => t@,
        HtmlChild::Element => Seq::empty(),
    }
}

/// Sum of `f` over the direct text children among the first `k` children.
pub open spec fn texts_words(cs: Seq<HtmlChild>) -> nat
    decreases cs.len(),
{
    if cs.len() == 0 {
        0
    } else {
        texts_words(cs.drop_last()) + word_count(child_text(cs.last()))
    }
}

pub open spec fn texts_tokens(cs: Seq<HtmlChild>) -> nat
    decreases cs.len(),
{
    if cs.len() == 0 {
        0
    } else {
        texts_tokens(cs.drop_last()) + token_count(child_text(cs.last()))
    }
}

pub open spec fn texts_len(cs: Seq<HtmlChild>) -> nat
    decreases cs.len(),
{
    if cs.len() == 0 {
        0
    } else {
        texts_len(cs.drop_last()) + child_text(cs.last()).len()
    }
}

proof fn lemma_counts_bounded(t: Seq<char>)
    ensures
        word_count(t) <= t.len(),
        token_count(t) <= t.len(),
    decreases t.len(),
{
    if t.len() > 0 {
        lemma_counts_bounded(t.drop_last());
    }
}

/// Counts the words and estimated tokens of the direct text children of an
/// element, given as its children in document order; element children are
/// not looked into.
pub fn get_direct_text_metrics(children: &Vec<HtmlChild>) -> (r: (usize, usize))
    requires
        texts_len(children@) <= usize::MAX,
    ensures
        r.0 == texts_words(children@),
        r.1 == texts_tokens(children@),
{
    let mut total_words: usize = 0;
    let mut total_tokens: usize = 0;
    let mut k: usize = 0;
    while k < children.len()
        invariant
            k <= children@.len(),
            texts_len(children@) <= usize::MAX,
            total_words == texts_words(children@.subrange(0, k as int)),
            total_tokens == texts_tokens(children@.subrange(0, k as int)),
        decreases children@.len() - k,
    {
        let ghost pre = children@.subrange(0, k as int);
        let ghost pre2 = children@.subrange(0, k + 1);
        proof {
            assert(pre2.drop_last() == pre);
            lemma_texts_prefix(children@, k + 1);
            lemma_texts_bounded(pre2);
        }
        match &children[k] {
            HtmlChild::Text(text) => {
                let cs = str_chars(text.as_str());
                let (w, t) = text_metrics(cs.as_slice());
                total_words = total_words + w;
                total_tokens = total_tokens + t;
            },
            HtmlChild::Element => {},
        }
        k = k + 1;
    }
    assert(children@.subrange(0, children@.len() as int) == children@);
    (total_words, total_tokens)
}

proof fn lemma_texts_prefix(cs: Seq<HtmlChild>, k: int)
    requires
        0 <= k <= cs.len(),
    ensures
        texts_len(cs.subrange(0, k)) <= texts_len(cs),
    decreases cs.len() - k,
{
    if k < cs.len() {
        lemma_texts_prefix(cs, k + 1);
        assert(cs.subrange(0, k + 1).drop_last() == cs.subrange(0, k));
    } else {
        assert(cs.subrange(0, k) == cs);
    }
}

proof fn lemma_texts_bounded(cs: Seq<HtmlChild>)
    ensures
        texts_words(cs) <= texts_len(cs),
        texts_tokens(cs) <= texts_len(cs),
    decreases cs.len(),
{
    if cs.len() > 0 {
        lemma_texts_bounded(cs.drop_last());
        lemma_counts_bounded(child_text(cs.last()));
    }
}

/// Words and estimated tokens of one text.
fn text_metrics(t: &[char]) -> (r: (usize, usize))
    ensures
        r.0 == word_count(t@),
        r.1 == token_count(t@),
{
    let mut words: usize = 0;
    let mut tokens: usize = 0;
    let mut char_in_word: usize = 0;
    let mut in_word = false;
    let mut i: usize = 0;
    while i < t.len()
        invariant
            i <= t@.len(),
            in_word == (run_end(t@.subrange(0, i as int)) > 0),
            char_in_word == run_end(t@.subrange(0, i as int)) % 4,
            words == word_count(t@.subrange(0, i as int)),
            tokens + (if char_in_word > 0 { 1int } else { 0int }) == token_count(
                t@.subrange(0, i as int),
            ),
        decreases t@.len() - i,
    {
        let c = t[i];
        proof {
            let p2 = t@.subrange(0, i + 1);
            assert(p2.drop_last() == t@.subrange(0, i as int));
            assert(p2.last() == c);
            lemma_counts_bounded(p2);
        }
        if is_whitespace(c) {
            if in_word && char_in_word > 0 {
                tokens = tokens + 1;
                char_in_word = 0;
            }
            in_word = false;
        } else {
            if !in_word {
                words = words + 1;
                in_word = true;
            }
            char_in_word = char_in_word + 1;
            if char_in_word == 4 {
                tokens = tokens + 1;
                char_in_word = 0;
            }
        }
        i = i + 1;
    }
    assert(t@.subrange(0, t@.len() as int) == t@);
    proof {
        lemma_counts_bounded(t@);
    }
    if in_word && char_in_word > 0 {
        tokens = tokens + 1;
    }
    (words, tokens)
}

/// Whether a token count fits the budget `max` with its 10% soft allowance.
pub open spec fn within_budget(tokens: int, max: int) -> bool {
    tokens <= max + max / 10
}

/// Checks whether `tokens` is within the budget `max`, allowing a 10% soft
/// limit above it (the allowance is `max / 10`, rounded down).
pub fn is_within_budget(tokens: usize, max: usize) -> (r: bool)
    ensures
        r == within_budget(tokens as int, max as int),
{
    tokens <= max || tokens - max <= max / 10
}

/// Number of non-whitespace characters of `s`.
pub open spec fn nonws_count(s: Seq<char>) -> nat
    decreases s.len(),
{
    if s.len() == 0 {
        0
    } else {
        nonws_count(s.drop_last()) + if is_ws(s.last()) {
            0nat
        } else {
            1nat
        }
    }
}

/// The token estimate of a finished Markdown chunk: a quarter of its
/// non-whitespace characters, plus one.
pub open spec fn chunk_token_estimate(s: Seq<char>) -> nat {
    nonws_count(s) / 4 + 1
}

/// Estimates the tokens of a Markdown chunk from its non-whitespace characters.
pub fn estimate_chunk_tokens(s: &[char]) -> (r: usize)
    ensures
        r == chunk_token_estimate(s@),
{
    let mut n: usize = 0;
    let mut i: usize = 0;
    while i < s.len()
        invariant
            i <= s@.len(),
            n == nonws_count(s@.subrange(0, i as int)),
            n <= i,
        decreases s@.len() - i,
    {
        proof {
            let p2 = s@.subrange(0, i + 1);
            assert(p2.drop_last() == s@.subrange(0, i as int));
        }
        if !is_whitespace(s[i]) {
            n = n + 1;
        }
        i = i + 1;
    }
    assert(s@.subrange(0, s@.len() as int) == s@);
    n / 4 + 1
}

} // verus!
