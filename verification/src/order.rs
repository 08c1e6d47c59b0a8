//! The order of strings, and sequences that keep it.
use vstd::prelude::*;

use crate::text::{chars_of, texts};

verus! {

broadcast use crate::deep::group_deep;

/// Whether `a` comes before `b`: at the first difference its character is the smaller, or it ends
/// where `b` goes on.
pub open spec fn less(a: Seq<char>, b: Seq<char>) -> bool
    decreases a.len(),
{
    if b.len() == 0 {
        false
    } else if a.len() == 0 {
        true
    } else if a[0] != b[0] {
        a[0] < b[0]
    } else {
        less(a.skip(1), b.skip(1))
    }
}

/// No string comes before itself.
pub proof fn lemma_less_irreflexive(a: Seq<char>)
    ensures
        !less(a, a),
    decreases a.len(),
{
    if a.len() > 0 {
        lemma_less_irreflexive(a.skip(1));
    }
}

/// The order is transitive.
pub proof fn lemma_less_transitive(a: Seq<char>, b: Seq<char>, c: Seq<char>)
    requires
        less(a, b),
        less(b, c),
    ensures
        less(a, c),
    decreases a.len(),
{
    if a.len() > 0 && b.len() > 0 && c.len() > 0 && a[0] == b[0] && b[0] == c[0] {
        lemma_less_transitive(a.skip(1), b.skip(1), c.skip(1));
    }
}

/// Of two different strings one comes before the other.
pub proof fn lemma_less_total(a: Seq<char>, b: Seq<char>)
    ensures
        less(a, b) || less(b, a) || a == b,
    decreases a.len(),
{
    if a.len() == 0 || b.len() == 0 {
        if a.len() == b.len() {
            assert(a =~= b);
        }
    } else if a[0] == b[0] {
        lemma_less_total(a.skip(1), b.skip(1));
        if a.skip(1) == b.skip(1) {
            assert(a =~= seq![a[0]] + a.skip(1));
            assert(b =~= seq![b[0]] + b.skip(1));
        }
    }
}

/// Of two strings at most one comes before the other.
pub proof fn lemma_less_asymmetric(a: Seq<char>, b: Seq<char>)
    requires
        less(a, b),
    ensures
        !less(b, a),
        a != b,
{
    if less(b, a) {
        lemma_less_transitive(a, b, a);
    }
    lemma_less_irreflexive(a);
}

/// Each element comes before those behind it.
pub open spec fn ascending(s: Seq<Seq<char>>) -> bool {
    forall|i: int, j: int| 0 <= i < j < s.len() ==> less(#[trigger] s[i], #[trigger] s[j])
}

/// No element comes before one in front of it.
pub open spec fn sorted(s: Seq<Seq<char>>) -> bool {
    forall|i: int, j: int| 0 <= i < j < s.len() ==> !less(#[trigger] s[j], #[trigger] s[i])
}

/// The elements of a finite set of strings in ascending order.
pub open spec fn in_order(s: Set<Seq<char>>) -> Seq<Seq<char>> {
    choose|v: Seq<Seq<char>>| #[trigger] ascending(v) && v.to_set() == s
}

/// An ascending sequence is determined by the set of its elements.
pub proof fn lemma_ascending_unique(a: Seq<Seq<char>>, b: Seq<Seq<char>>)
    requires
        ascending(a),
        ascending(b),
        a.to_set() == b.to_set(),
    ensures
        a == b,
    decreases a.len(),
{
    if a.len() == 0 {
        if b.len() > 0 {
            assert(b.to_set().contains(b[0]));
            assert(a.to_set().contains(b[0]));
        }
        assert(a =~= b);
    } else if b.len() == 0 {
        assert(a.to_set().contains(a[0]));
        assert(b.to_set().contains(a[0]));
    } else {
        let x = a.last();
        let y = b.last();
        assert(a.to_set().contains(x));
        assert(b.to_set().contains(y));
        assert(b.to_set().contains(x));
        assert(a.to_set().contains(y));
        let i = choose|i: int| 0 <= i < a.len() && a[i] == y;
        let j = choose|j: int| 0 <= j < b.len() && b[j] == x;
        if x != y {
            assert(less(a[i], a[a.len() - 1]));
            assert(less(b[j], b[b.len() - 1]));
            lemma_less_asymmetric(x, y);
        }
        let p = a.drop_last();
        let q = b.drop_last();
        assert forall|s: Seq<char>| p.to_set().contains(s) == q.to_set().contains(s) by {
            if p.to_set().contains(s) {
                let k = choose|k: int| 0 <= k < p.len() && p[k] == s;
                assert(less(a[k], a[a.len() - 1]));
                lemma_less_asymmetric(s, x);
                assert(a[k] == s);
                assert(a.to_set().contains(s));
                let l = choose|l: int| 0 <= l < b.len() && b[l] == s;
                assert(q[l] == s);
            }
            if q.to_set().contains(s) {
                let k = choose|k: int| 0 <= k < q.len() && q[k] == s;
                assert(less(b[k], b[b.len() - 1]));
                lemma_less_asymmetric(s, x);
                assert(b[k] == s);
                assert(b.to_set().contains(s));
                let l = choose|l: int| 0 <= l < a.len() && a[l] == s;
                assert(p[l] == s);
            }
        }
        assert(p.to_set() =~= q.to_set());
        lemma_ascending_unique(p, q);
        assert(a =~= p.push(x));
        assert(b =~= q.push(y));
    }
}

/// An ascending sequence is the ordered form of the set of its elements.
pub proof fn lemma_in_order(v: Seq<Seq<char>>)
    requires
        ascending(v),
    ensures
        in_order(v.to_set()) == v,
{
    lemma_ascending_unique(in_order(v.to_set()), v);
}

/// No element of an ascending sequence occurs twice.
pub proof fn lemma_ascending_distinct(v: Seq<Seq<char>>)
    requires
        ascending(v),
    ensures
        v.no_duplicates(),
{
    assert forall|i: int, j: int| 0 <= i < v.len() && 0 <= j < v.len() && i != j implies v[i] != v[j] by {
        if i < j {
            lemma_less_asymmetric(v[i], v[j]);
        } else {
            lemma_less_asymmetric(v[j], v[i]);
        }
    }
}

/// A new element between those that come before it and those that come behind it keeps the order.
pub proof fn lemma_insert_ascending(v: Seq<Seq<char>>, i: int, x: Seq<char>)
    requires
        ascending(v),
        0 <= i <= v.len(),
        forall|j: int| 0 <= j < i ==> less(#[trigger] v[j], x),
        i < v.len() ==> less(x, v[i]),
    ensures
        ascending(v.insert(i, x)),
        v.insert(i, x).to_set() == v.to_set().insert(x),
{
    let w = v.insert(i, x);
    assert forall|a: int, b: int| 0 <= a < b < w.len() implies less(#[trigger] w[a], #[trigger] w[b]) by {
        if a == i {
            if b - 1 > i {
                lemma_less_transitive(x, v[i], v[b - 1]);
            }
        }
    }
    assert forall|s: Seq<char>| w.to_set().contains(s) == v.to_set().insert(x).contains(s) by {
        if w.to_set().contains(s) {
            let k = choose|k: int| 0 <= k < w.len() && w[k] == s;
            if k < i {
                assert(v[k] == s);
            } else if k > i {
                assert(v[k - 1] == s);
            }
        }
        if v.to_set().contains(s) {
            let k = choose|k: int| 0 <= k < v.len() && v[k] == s;
            if k < i {
                assert(w[k] == s);
            } else {
                assert(w[k + 1] == s);
            }
        }
        assert(w[i] == x);
    }
    assert(w.to_set() =~= v.to_set().insert(x));
}

/// Whether `a` comes before `b`.
pub fn is_less(a: &str, b: &str) -> (r: bool)
    ensures
        r == less(a@, b@),
{
    let x = chars_of(a);
    let y = chars_of(b);
    let mut i: usize = 0;
    proof {
        assert(x@.skip(0) =~= x@);
        assert(y@.skip(0) =~= y@);
    }
    while i < x.len() && i < y.len() && x[i] == y[i]
        invariant
            i <= x@.len(),
            i <= y@.len(),
            less(x@, y@) == less(x@.skip(i as int), y@.skip(i as int)),
        decreases x.len() - i,
    {
        proof {
            assert(x@.skip(i as int).skip(1) =~= x@.skip(i + 1));
            assert(y@.skip(i as int).skip(1) =~= y@.skip(i + 1));
        }
        i += 1;
    }
    if i == y.len() {
        false
    } else if i == x.len() {
        true
    } else {
        x[i] < y[i]
    }
}

/// The first position whose string does not come before `k`.
pub fn lower_bound(v: &Vec<String>, k: &str) -> (r: usize)
    requires
        ascending(texts(v@)),
    ensures
        r <= v@.len(),
        forall|j: int| 0 <= j < r ==> less(#[trigger] texts(v@)[j], k@),
        r < v@.len() ==> !less(texts(v@)[r as int], k@),
{
    let mut i: usize = 0;
    while i < v.len() && is_less(v[i].as_str(), k)
        invariant
            i <= v@.len(),
            forall|j: int| 0 <= j < i ==> less(#[trigger] texts(v@)[j], k@),
        decreases v.len() - i,
    {
        i += 1;
    }
    i
}

} // verus!
