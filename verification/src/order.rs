//! The order of texts: by their first difference, a start before the whole.

use vstd::prelude::*;
use crate::text::chars_of;

verus! {

/// Whether `a` comes before `b`.
pub open spec fn precedes(a: Seq<char>, b: Seq<char>) -> bool
    decreases a.len(),
{
    if b.len() == 0 {
        false
    } else if a.len() == 0 {
        true
    } else if a[0] != b[0] {
        a[0] < b[0]
    } else {
        precedes(a.skip(1), b.skip(1))
    }
}

/// Whether each text comes before those behind it.
pub open spec fn ascending(v: Seq<Seq<char>>) -> bool {
    forall|i: int, j: int|
        0 <= i < j < v.len() ==> #[trigger] precedes(v[i], v[j])
}

/// No text comes before itself.
pub proof fn lemma_irreflexive(a: Seq<char>)
    ensures
        !precedes(a, a),
    decreases a.len(),
{
    if a.len() > 0 {
        lemma_irreflexive(a.skip(1));
    }
}

/// What comes before a text comes before what follows it.
pub proof fn lemma_transitive(a: Seq<char>, b: Seq<char>, c: Seq<char>)
    requires
        precedes(a, b),
        precedes(b, c),
    ensures
        precedes(a, c),
    decreases a.len(),
{
    if a.len() > 0 && a[0] == b[0] && b[0] == c[0] {
        lemma_transitive(a.skip(1), b.skip(1), c.skip(1));
    }
}

/// Of two different texts one comes before the other.
pub proof fn lemma_total(a: Seq<char>, b: Seq<char>)
    ensures
        a == b || precedes(a, b) || precedes(b, a),
    decreases a.len(),
{
    if a.len() > 0 && b.len() > 0 && a[0] == b[0] {
        lemma_total(a.skip(1), b.skip(1));
        if a.skip(1) == b.skip(1) {
            assert(a =~= seq![a[0]] + a.skip(1));
            assert(b =~= seq![b[0]] + b.skip(1));
        }
    } else if a.len() == 0 && b.len() == 0 {
        assert(a =~= b);
    }
}

/// Whether `a` comes before `b`.
pub fn comes_before(a: &str, b: &str) -> (r: bool)
    ensures
        r == precedes(a@, b@),
{
    let x = chars_of(a);
    let y = chars_of(b);
    let mut i: usize = 0;
    assert(x@.skip(0) =~= x@);
    assert(y@.skip(0) =~= y@);
    while i < x.len() && i < y.len() && x[i] == y[i]
        invariant
            i <= x@.len(),
            i <= y@.len(),
            precedes(x@, y@) == precedes(x@.skip(i as int), y@.skip(i as int)),
        decreases x@.len() - i,
    {
        assert(x@.skip(i as int).skip(1) =~= x@.skip(i + 1));
        assert(y@.skip(i as int).skip(1) =~= y@.skip(i + 1));
        i = i + 1;
    }
    if i >= y.len() {
        false
    } else if i >= x.len() {
        true
    } else {
        x[i] < y[i]
    }
}

/// A list in ascending order holds no text twice, and is the only one in
/// ascending order that holds the same texts.
pub proof fn law_ascending_unique(v: Seq<Seq<char>>, w: Seq<Seq<char>>)
    requires
        ascending(v),
        ascending(w),
        forall|t: Seq<char>| v.contains(t) <==> w.contains(t),
    ensures
        v == w,
    decreases v.len(),
{
    if v.len() == 0 {
        if w.len() > 0 {
            assert(w.contains(w[0]));
        }
        assert(v =~= w);
    } else {
        assert(v.contains(v[0]));
        assert(w.contains(v[0]));
        assert(w.contains(w[0]));
        assert(v.contains(w[0]));
        let i = choose|i: int| 0 <= i < w.len() && w[i] == v[0];
        let j = choose|j: int| 0 <= j < v.len() && v[j] == w[0];
        if i > 0 && j > 0 {
            assert(precedes(w[0], w[i]));
            assert(precedes(v[0], v[j]));
            lemma_transitive(v[0], w[0], v[0]);
            lemma_irreflexive(v[0]);
        }
        assert(v[0] == w[0]);
        let p = v.skip(1);
        let q = w.skip(1);
        assert(ascending(p)) by {
            assert forall|a: int, b: int| 0 <= a < b < p.len() implies #[trigger] precedes(
                p[a],
                p[b],
            ) by {
                assert(precedes(v[a + 1], v[b + 1]));
            }
        }
        assert(ascending(q)) by {
            assert forall|a: int, b: int| 0 <= a < b < q.len() implies #[trigger] precedes(
                q[a],
                q[b],
            ) by {
                assert(precedes(w[a + 1], w[b + 1]));
            }
        }
        assert forall|t: Seq<char>| p.contains(t) <==> q.contains(t) by {
            lemma_irreflexive(v[0]);
            if p.contains(t) {
                let k = choose|k: int| 0 <= k < p.len() && p[k] == t;
                assert(v[k + 1] == t);
                assert(v.contains(t));
                assert(w.contains(t));
                let l = choose|l: int| 0 <= l < w.len() && w[l] == t;
                if l == 0 {
                    assert(precedes(v[0], v[k + 1]));
                } else {
                    assert(q[l - 1] == t);
                }
            }
            if q.contains(t) {
                let k = choose|k: int| 0 <= k < q.len() && q[k] == t;
                assert(w[k + 1] == t);
                assert(w.contains(t));
                assert(v.contains(t));
                let l = choose|l: int| 0 <= l < v.len() && v[l] == t;
                if l == 0 {
                    assert(precedes(w[0], w[k + 1]));
                } else {
                    assert(p[l - 1] == t);
                }
            }
        }
        law_ascending_unique(p, q);
        assert(v =~= seq![v[0]] + p);
        assert(w =~= seq![w[0]] + q);
    }
}

/// Texts are ordered by their first difference, and a start comes before the
/// whole.
pub proof fn law_order(p: Seq<char>, c: char, a: Seq<char>, d: char, b: Seq<char>)
    ensures
        precedes(p + seq![c] + a, p + seq![d] + b) <==> (c < d || (c == d && precedes(a, b))),
        precedes(p, p + seq![c] + a),
        !precedes(p + seq![c] + a, p),
    decreases p.len(),
{
    let x = p + seq![c] + a;
    let y = p + seq![d] + b;
    if p.len() > 0 {
        let q = p.skip(1);
        law_order(q, c, a, d, b);
        assert(x.skip(1) =~= q + seq![c] + a);
        assert(y.skip(1) =~= q + seq![d] + b);
        assert(x[0] == p[0] && y[0] == p[0]);
    } else {
        assert(x[0] == c && y[0] == d);
        assert(x.skip(1) =~= a);
        assert(y.skip(1) =~= b);
    }
}

} // verus!
