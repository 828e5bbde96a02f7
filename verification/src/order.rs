//! The order of strings (`String`'s `Ord`: lexicographic by character,
//! which is also the order of their UTF-8 bytes) and sorted, duplicate-free
//! string lists.

use vstd::prelude::*;

verus! {

/// `a` comes strictly before `b` in lexicographic order.
pub open spec fn lex_lt(a: Seq<char>, b: Seq<char>) -> bool
    decreases a.len(),
{
    if a.len() == 0 {
        b.len() > 0
    } else if b.len() == 0 {
        false
    } else if a[0] < b[0] {
        true
    } else if a[0] > b[0] {
        false
    } else {
        lex_lt(a.drop_first(), b.drop_first())
    }
}

/// No text comes before itself.
pub proof fn lemma_lex_irreflexive(a: Seq<char>)
    ensures
        !lex_lt(a, a),
    decreases a.len(),
{
    if a.len() > 0 {
        lemma_lex_irreflexive(a.drop_first());
    }
}

/// The order is transitive.
pub proof fn lemma_lex_transitive(a: Seq<char>, b: Seq<char>, c: Seq<char>)
    requires
        lex_lt(a, b),
        lex_lt(b, c),
    ensures
        lex_lt(a, c),
    decreases a.len(),
{
    if a.len() > 0 && b.len() > 0 && c.len() > 0 {
        if a[0] == b[0] && b[0] == c[0] {
            lemma_lex_transitive(a.drop_first(), b.drop_first(), c.drop_first());
        }
    }
}

/// Any two texts are equal or ordered one way.
pub proof fn lemma_lex_total(a: Seq<char>, b: Seq<char>)
    ensures
        lex_lt(a, b) || lex_lt(b, a) || a == b,
    decreases a.len(),
{
    if a.len() > 0 && b.len() > 0 {
        if a[0] == b[0] {
            lemma_lex_total(a.drop_first(), b.drop_first());
            if a.drop_first() == b.drop_first() {
                assert(a == seq![a[0]] + a.drop_first());
                assert(b == seq![b[0]] + b.drop_first());
            }
        }
    } else if a.len() == 0 && b.len() == 0 {
        assert(a == b);
    }
}

/// The order never holds both ways.
pub proof fn lemma_lex_asymmetric(a: Seq<char>, b: Seq<char>)
    requires
        lex_lt(a, b),
    ensures
        !lex_lt(b, a),
{
    if lex_lt(b, a) {
        lemma_lex_transitive(a, b, a);
        lemma_lex_irreflexive(a);
    }
}

/// Compares two character sequences.
pub fn chars_lt(a: &[char], b: &[char]) -> (r: bool)
    ensures
        r == lex_lt(a@, b@),
{
    let mut i: usize = 0;
    assert(a@.subrange(0, a@.len() as int) == a@);
    assert(b@.subrange(0, b@.len() as int) == b@);
    while i < a.len() && i < b.len() && a[i] == b[i]
        invariant
            i <= a@.len(),
            i <= b@.len(),
            forall|j: int| 0 <= j < i ==> a@[j] == b@[j],
            lex_lt(a@, b@) == lex_lt(a@.subrange(i as int, a@.len() as int), b@.subrange(
                i as int,
                b@.len() as int,
            )),
        decreases a@.len() - i,
    {
        proof {
            let sa = a@.subrange(i as int, a@.len() as int);
            let sb = b@.subrange(i as int, b@.len() as int);
            assert(sa.drop_first() == a@.subrange(i + 1, a@.len() as int));
            assert(sb.drop_first() == b@.subrange(i + 1, b@.len() as int));
        }
        i = i + 1;
    }
    if i == a.len() {
        i < b.len()
    } else if i == b.len() {
        false
    } else {
        a[i] < b[i]
    }
}

/// The views of a list of strings.
pub open spec fn views(v: Seq<String>) -> Seq<Seq<char>> {
    v.map_values(|s: String| s@)
}

/// A list in strictly increasing order: sorted, without duplicates.
pub open spec fn strictly_sorted(s: Seq<Seq<char>>) -> bool {
    forall|i: int, j: int| 0 <= i < j < s.len() ==> lex_lt(#[trigger] s[i], #[trigger] s[j])
}

/// Two strictly increasing lists with the same elements are equal.
pub proof fn lemma_strictly_sorted_unique(a: Seq<Seq<char>>, b: Seq<Seq<char>>)
    requires
        strictly_sorted(a),
        strictly_sorted(b),
        a.to_set() == b.to_set(),
    ensures
        a == b,
    decreases a.len() + b.len(),
{
    if a.len() == 0 {
        if b.len() > 0 {
            assert(b.to_set().contains(b[0]));
        }
    } else if b.len() == 0 {
        assert(a.to_set().contains(a[0]));
    } else {
        // both minima are equal
        assert(a.to_set().contains(a[0]));
        assert(b.to_set().contains(b[0]));
        let ia = choose|i: int| 0 <= i < a.len() && a[i] == b[0];
        let ib = choose|i: int| 0 <= i < b.len() && b[i] == a[0];
        if ia > 0 {
            assert(lex_lt(a[0], a[ia]));
            if ib > 0 {
                assert(lex_lt(b[0], b[ib]));
                lemma_lex_asymmetric(a[0], b[0]);
            } else {
                lemma_lex_irreflexive(a[0]);
            }
        }
        assert(a[0] == b[0]) by {
            if ia == 0 {
            } else {
                if ib > 0 {
                    lemma_lex_asymmetric(a[0], b[0]);
                } else {
                    lemma_lex_irreflexive(a[0]);
                }
            }
        }
        let a1 = a.drop_first();
        let b1 = b.drop_first();
        assert forall|x: Seq<char>| a1.to_set().contains(x) implies b1.to_set().contains(x) by {
            let i = choose|i: int| 0 <= i < a1.len() && a1[i] == x;
            assert(a.to_set().contains(x));
            assert(lex_lt(a[0], a[i + 1]));
            lemma_lex_irreflexive(a[0]);
            let j = choose|j: int| 0 <= j < b.len() && b[j] == x;
            assert(j != 0);
            assert(b1[j - 1] == x);
        }
        assert forall|x: Seq<char>| b1.to_set().contains(x) implies a1.to_set().contains(x) by {
            let i = choose|i: int| 0 <= i < b1.len() && b1[i] == x;
            assert(b.to_set().contains(x));
            assert(lex_lt(b[0], b[i + 1]));
            lemma_lex_irreflexive(b[0]);
            let j = choose|j: int| 0 <= j < a.len() && a[j] == x;
            assert(j != 0);
            assert(a1[j - 1] == x);
        }
        assert(a1.to_set() =~= b1.to_set());
        lemma_strictly_sorted_unique(a1, b1);
        assert(a == seq![a[0]] + a1);
        assert(b == seq![b[0]] + b1);
    }
}

/// Pushing an element adds it to the set of the sequence's elements.
pub proof fn lemma_push_to_set<A>(s: Seq<A>, x: A)
    ensures
        s.push(x).to_set() == s.to_set().insert(x),
{
    let t = s.push(x);
    assert forall|y: A| t.to_set().contains(y) <==> s.to_set().insert(x).contains(y) by {
        if t.contains(y) {
            let i = choose|i: int| 0 <= i < t.len() && t[i] == y;
            if i < s.len() {
                assert(s[i] == y);
                assert(s.contains(y));
            }
        }
        if s.contains(y) {
            let i = choose|i: int| 0 <= i < s.len() && s[i] == y;
            assert(t[i] == y);
            assert(t.contains(y));
        }
        if y == x {
            assert(t[s.len() as int] == x);
            assert(t.contains(y));
        }
    }
    assert(t.to_set() =~= s.to_set().insert(x));
}

/// Inserts `x` into the strictly increasing list `out`, unless it is
/// already there.
pub fn insert_sorted(out: &mut Vec<String>, x: String)
    requires
        strictly_sorted(views(old(out)@)),
    ensures
        strictly_sorted(views(final(out)@)),
        views(final(out)@).to_set() == views(old(out)@).to_set().insert(x@),
{
    let ghost xv = x@;
    let xs = crate::text::str_chars(x.as_str());
    let mut j: usize = 0;
    let mut stop = false;
    // find the first element not below `x`
    while j < out.len() && !stop
        invariant
            j <= out@.len(),
            out@ == old(out)@,
            xs@ == xv,
            forall|i: int| 0 <= i < j ==> lex_lt(#[trigger] views(out@)[i], xv),
            stop ==> j < out@.len() && !lex_lt(views(out@)[j as int], xv),
        decreases out@.len() - j + (if stop { 0int } else { 1int }),
    {
        let ys = crate::text::str_chars(out[j].as_str());
        assert(views(out@)[j as int] == out@[j as int]@);
        if !chars_lt(ys.as_slice(), xs.as_slice()) {
            stop = true;
        } else {
            j = j + 1;
        }
    }
    let ghost vs = views(out@);
    if j < out.len() {
        let ys = crate::text::str_chars(out[j].as_str());
        assert(vs[j as int] == out@[j as int]@);
        if crate::text::chars_eq(ys.as_slice(), xs.as_slice()) {
            proof {
                assert(vs[j as int] == xv);
                assert(vs.to_set().insert(xv) =~= vs.to_set()) by {
                    assert(vs.contains(xv));
                }
            }
            return;
        }
        proof {
            lemma_lex_total(vs[j as int], xv);
        }
    }
    out.insert(j, x);
    proof {
        let ws = views(out@);
        assert(ws =~= vs.insert(j as int, xv));
        assert(j < vs.len() ==> lex_lt(xv, vs[j as int]));
        assert forall|a: int, b: int| 0 <= a < b < ws.len() implies lex_lt(
            #[trigger] ws[a],
            #[trigger] ws[b],
        ) by {
            if b < j {
            } else if a > j {
                assert(ws[a] == vs[a - 1]);
                assert(ws[b] == vs[b - 1]);
            } else if a == j {
                assert(ws[b] == vs[b - 1]);
                if b - 1 > j {
                    lemma_lex_transitive(xv, vs[j as int], vs[b - 1]);
                }
            } else if b == j {
                assert(ws[a] == vs[a]);
            } else {
                assert(ws[a] == vs[a]);
                assert(ws[b] == vs[b - 1]);
                assert(lex_lt(vs[a], vs[b - 1]));
            }
        }
        assert forall|y: Seq<char>| ws.to_set().contains(y) <==> vs.to_set().insert(xv).contains(
            y,
        ) by {
            if ws.contains(y) {
                let i = choose|i: int| 0 <= i < ws.len() && ws[i] == y;
                if i < j {
                    assert(vs[i] == y);
                    assert(vs.contains(y));
                } else if i > j {
                    assert(vs[i - 1] == y);
                    assert(vs.contains(y));
                }
            }
            if vs.contains(y) {
                let i = choose|i: int| 0 <= i < vs.len() && vs[i] == y;
                if i < j {
                    assert(ws[i] == y);
                } else {
                    assert(ws[i + 1] == y);
                }
                assert(ws.contains(y));
            }
            if y == xv {
                assert(ws[j as int] == xv);
                assert(ws.contains(y));
            }
        }
        assert(ws.to_set() =~= vs.to_set().insert(xv));
    }
}

/// Sorts a list of strings and removes duplicates.
pub fn sorted_unique(v: Vec<String>) -> (r: Vec<String>)
    ensures
        strictly_sorted(views(r@)),
        views(r@).to_set() == views(v@).to_set(),
{
    let mut out: Vec<String> = Vec::new();
    let rest = v;
    let ghost all = views(rest@);
    proof {
        assert(views(out@).to_set() =~= Set::<Seq<char>>::empty());
    }
    let mut i: usize = 0;
    let n = rest.len();
    while i < n
        invariant
            n == all.len(),
            i <= n,
            views(rest@) == all,
            strictly_sorted(views(out@)),
            views(out@).to_set() == all.subrange(0, i as int).to_set(),
        decreases n - i,
    {
        let x = rest[i].clone();
        assert(x@ == all[i as int]);
        insert_sorted(&mut out, x);
        proof {
            assert(all.subrange(0, i + 1) == all.subrange(0, i as int).push(all[i as int]));
            lemma_push_to_set(all.subrange(0, i as int), all[i as int]);
        }
        i = i + 1;
    }
    proof {
        assert(all.subrange(0, n as int) == all);
    }
    out
}

} // verus!
