//! Stable sorting.
use vstd::prelude::*;

use crate::deep::deep;
use crate::order::{is_less, less};
use crate::path::{path_is_less, path_less};
use crate::text::{copy, texts};

verus! {

broadcast use {crate::deep::group_deep, crate::deep::lemma_take_next, crate::deep::lemma_take_all};

/// `s` with `x` behind all elements that `x` does not have to precede.
pub open spec fn insert_by<T>(s: Seq<T>, x: T, before: spec_fn(T, T) -> bool) -> Seq<T>
    decreases s.len(),
{
    if s.len() > 0 && before(x, s.last()) {
        insert_by(s.drop_last(), x, before).push(s.last())
    } else {
        s.push(x)
    }
}

/// The elements of `s` in order; those of which neither precedes the other keep their places.
pub open spec fn sort_by<T>(s: Seq<T>, before: spec_fn(T, T) -> bool) -> Seq<T>
    decreases s.len(),
{
    if s.len() == 0 {
        s
    } else {
        insert_by(sort_by(s.drop_last(), before), s.last(), before)
    }
}

/// Whether a relation can order a sequence: no two elements precede one another, and what does not
/// have to come later is passed on.
pub open spec fn orders<T>(before: spec_fn(T, T) -> bool) -> bool {
    &&& forall|a: T, b: T| #[trigger] before(a, b) ==> !before(b, a)
    &&& forall|a: T, b: T, c: T| #![trigger before(a, b), before(b, c)]
        !before(a, b) && !before(b, c) ==> !before(a, c)
}

/// No element has to precede one in front of it.
pub open spec fn sorted_by<T>(s: Seq<T>, before: spec_fn(T, T) -> bool) -> bool {
    forall|i: int, j: int| 0 <= i < j < s.len() ==> !before(#[trigger] s[j], #[trigger] s[i])
}

proof fn lemma_insert_sorted<T>(s: Seq<T>, x: T, before: spec_fn(T, T) -> bool)
    requires
        orders(before),
        sorted_by(s, before),
    ensures
        sorted_by(insert_by(s, x, before), before),
        insert_by(s, x, before).to_multiset() == s.to_multiset().insert(x),
        forall|y: T| #[trigger] insert_by(s, x, before).contains(y) ==> s.contains(y) || y == x,
    decreases s.len(),
{
    broadcast use vstd::seq_lib::group_to_multiset_ensures;

    let r = insert_by(s, x, before);
    if s.len() > 0 && before(x, s.last()) {
        let t = insert_by(s.drop_last(), x, before);
        lemma_insert_sorted(s.drop_last(), x, before);
        assert forall|i: int, j: int| 0 <= i < j < r.len() implies !before(#[trigger] r[j], #[trigger] r[i]) by {
            if j == t.len() {
                assert(t.contains(t[i]));
                if t[i] != x {
                    let k = choose|k: int| 0 <= k < s.drop_last().len() && s.drop_last()[k] == t[i];
                    assert(s[k] == t[i]);
                }
            }
        }
        assert forall|y: T| #[trigger] r.contains(y) implies s.contains(y) || y == x by {
            let k = choose|k: int| 0 <= k < r.len() && r[k] == y;
            if k < t.len() {
                assert(t.contains(y));
                if y != x {
                    let l = choose|l: int| 0 <= l < s.drop_last().len() && s.drop_last()[l] == y;
                    assert(s[l] == y);
                }
            }
        }
        assert(s =~= s.drop_last().push(s.last()));
        assert(r.to_multiset() =~= s.to_multiset().insert(x));
    } else {
        assert forall|i: int, j: int| 0 <= i < j < r.len() implies !before(#[trigger] r[j], #[trigger] r[i]) by {
            if j == s.len() && i < s.len() - 1 {
                assert(!before(s[s.len() - 1], s[i]));
                assert(!before(x, s[s.len() - 1]));
            }
        }
    }
}

/// Sorting orders a sequence and keeps its elements.
pub proof fn lemma_sort_by<T>(s: Seq<T>, before: spec_fn(T, T) -> bool)
    requires
        orders(before),
    ensures
        sorted_by(sort_by(s, before), before),
        sort_by(s, before).to_multiset() == s.to_multiset(),
    decreases s.len(),
{
    broadcast use vstd::seq_lib::group_to_multiset_ensures;

    if s.len() > 0 {
        lemma_sort_by(s.drop_last(), before);
        lemma_insert_sorted(sort_by(s.drop_last(), before), s.last(), before);
        assert(s =~= s.drop_last().push(s.last()));
    }
}

/// Sorting keeps the number of elements.
pub proof fn lemma_sort_len<T>(s: Seq<T>, before: spec_fn(T, T) -> bool)
    ensures
        sort_by(s, before).len() == s.len(),
    decreases s.len(),
{
    if s.len() > 0 {
        lemma_sort_len(s.drop_last(), before);
        lemma_insert_len(sort_by(s.drop_last(), before), s.last(), before);
    }
}

proof fn lemma_insert_len<T>(s: Seq<T>, x: T, before: spec_fn(T, T) -> bool)
    ensures
        insert_by(s, x, before).len() == s.len() + 1,
    decreases s.len(),
{
    if s.len() > 0 && before(x, s.last()) {
        lemma_insert_len(s.drop_last(), x, before);
    }
}

/// Sorting depends on the order of the elements alone.
pub proof fn lemma_sort_map<T, U>(
    s: Seq<T>,
    f: spec_fn(T) -> U,
    bt: spec_fn(T, T) -> bool,
    bu: spec_fn(U, U) -> bool,
)
    requires
        forall|a: T, b: T| #[trigger] bt(a, b) == bu(f(a), f(b)),
    ensures
        sort_by(s.map_values(f), bu) == sort_by(s, bt).map_values(f),
    decreases s.len(),
{
    if s.len() > 0 {
        lemma_sort_map(s.drop_last(), f, bt, bu);
        assert(s.map_values(f).drop_last() =~= s.drop_last().map_values(f));
        lemma_insert_map(sort_by(s.drop_last(), bt), s.last(), f, bt, bu);
    } else {
        assert(s.map_values(f) =~= Seq::empty());
        assert(sort_by(s, bt).map_values(f) =~= Seq::empty());
    }
}

proof fn lemma_insert_map<T, U>(
    s: Seq<T>,
    x: T,
    f: spec_fn(T) -> U,
    bt: spec_fn(T, T) -> bool,
    bu: spec_fn(U, U) -> bool,
)
    requires
        forall|a: T, b: T| #[trigger] bt(a, b) == bu(f(a), f(b)),
    ensures
        insert_by(s.map_values(f), f(x), bu) == insert_by(s, x, bt).map_values(f),
    decreases s.len(),
{
    if s.len() > 0 {
        let m = s.map_values(f);
        assert(m.last() == f(s.last()));
        assert(bt(x, s.last()) == bu(f(x), f(s.last())));
        if bt(x, s.last()) {
            lemma_insert_map(s.drop_last(), x, f, bt, bu);
            assert(m.drop_last() =~= s.drop_last().map_values(f));
            assert(insert_by(s, x, bt).map_values(f) =~= insert_by(s.drop_last(), x, bt).map_values(f).push(
                f(s.last()),
            ));
        } else {
            assert(s.push(x).map_values(f) =~= m.push(f(x)));
        }
    } else {
        assert(s.push(x).map_values(f) =~= s.map_values(f).push(f(x)));
    }
}

/// Something that is ordered by a text.
pub trait Keyed: Sized {
    spec fn key_text(&self) -> Seq<char>;

    fn key(&self) -> (r: &str)
        ensures
            r@ == self.key_text(),
    ;
}

impl Keyed for String {
    open spec fn key_text(&self) -> Seq<char> {
        self@
    }

    fn key(&self) -> (r: &str) {
        self.as_str()
    }
}

/// The order of two texts, as a relation.
pub open spec fn text_before() -> spec_fn(Seq<char>, Seq<char>) -> bool {
    |a: Seq<char>, b: Seq<char>| less(a, b)
}

/// The order of two paths, as a relation.
pub open spec fn path_before() -> spec_fn(Seq<char>, Seq<char>) -> bool {
    |a: Seq<char>, b: Seq<char>| path_less(a, b)
}

/// The order of two values by their texts, as a relation.
pub open spec fn key_before<T: Keyed>() -> spec_fn(T, T) -> bool {
    |a: T, b: T| less(a.key_text(), b.key_text())
}

proof fn lemma_insert_at<T>(s: Seq<T>, x: T, before: spec_fn(T, T) -> bool, i: int)
    requires
        0 <= i <= s.len(),
        forall|j: int| i <= j < s.len() ==> before(x, #[trigger] s[j]),
        i > 0 ==> !before(x, s[i - 1]),
    ensures
        insert_by(s, x, before) == s.insert(i, x),
    decreases s.len(),
{
    if i < s.len() {
        lemma_insert_at(s.drop_last(), x, before, i);
        assert(s.drop_last().insert(i, x).push(s.last()) =~= s.insert(i, x));
    } else {
        assert(s.push(x) =~= s.insert(i, x));
    }
}

/// Sorts values by their texts.
pub fn sort_keyed<T: Keyed>(v: Vec<T>) -> (r: Vec<T>)
    ensures
        r@ == sort_by(v@, key_before::<T>()),
{
    let ghost all = v@;
    let ghost before = key_before::<T>();
    let mut rest: Vec<T> = Vec::new();
    let mut v = v;
    loop
        invariant_except_break
            v@.len() + rest@.len() == all.len(),
            v@ == all.take(v@.len() as int),
            forall|j: int| 0 <= j < rest@.len() ==> #[trigger] rest@[j] == all[all.len() - 1 - j],
        ensures
            rest@.len() == all.len(),
            forall|j: int| 0 <= j < rest@.len() ==> #[trigger] rest@[j] == all[all.len() - 1 - j],
        decreases v@.len(),
    {
        match v.pop() {
            Some(x) => {
                rest.push(x);
            },
            None => {
                break;
            },
        }
    }
    let mut r: Vec<T> = Vec::new();
    loop
        invariant_except_break
            r@.len() + rest@.len() == all.len(),
            before == key_before::<T>(),
            r@ == sort_by(all.take(r@.len() as int), before),
            forall|j: int| 0 <= j < rest@.len() ==> #[trigger] rest@[j] == all[all.len() - 1 - j],
        ensures
            r@ == sort_by(all, before),
        decreases rest@.len(),
    {
        match rest.pop() {
            Some(x) => {
                let ghost k = r@.len() as int;
                let mut i: usize = r.len();
                while i > 0 && is_less(x.key(), r[i - 1].key())
                    invariant
                        i <= r@.len(),
                        before == key_before::<T>(),
                        forall|j: int| i <= j < r@.len() ==> before(x, #[trigger] r@[j]),
                    decreases i,
                {
                    i -= 1;
                }
                proof {
                    lemma_insert_at(r@, x, before, i as int);
                    assert(all.take(k + 1).drop_last() =~= all.take(k));
                    assert(all.take(k + 1).last() == x);
                    lemma_sort_len(all.take(k + 1), before);
                }
                r.insert(i, x);
            },
            None => {
                break;
            },
        }
    }
    r
}

/// The strings in order.
pub fn sort_texts(v: &Vec<String>) -> (r: Vec<String>)
    ensures
        texts(r@) == sort_by(texts(v@), text_before()),
{
    let c = crate::text::copy_all(v);
    let r = sort_keyed(c);
    proof {
        lemma_sort_map(c@, |x: String| x.deep_view(), key_before::<String>(), text_before());
    }
    r
}

/// The paths in order.
pub fn sort_paths(v: &Vec<String>) -> (r: Vec<String>)
    ensures
        texts(r@) == sort_by(texts(v@), path_before()),
{
    let ghost all = texts(v@);
    let ghost before = path_before();
    let mut r: Vec<String> = Vec::new();
    let mut n: usize = 0;
    while n < v.len()
        invariant
            n <= v@.len(),
            all == texts(v@),
            before == path_before(),
            texts(r@) == sort_by(all.take(n as int), before),
        decreases v.len() - n,
    {
        let x = copy(v[n].as_str());
        let mut i: usize = r.len();
        while i > 0 && path_is_less(x.as_str(), r[i - 1].as_str())
            invariant
                i <= r@.len(),
                before == path_before(),
                forall|j: int| i <= j < r@.len() ==> before(x@, #[trigger] texts(r@)[j]),
            decreases i,
        {
            i -= 1;
        }
        proof {
            lemma_insert_at(texts(r@), x@, before, i as int);
            assert(all.take(n + 1).drop_last() =~= all.take(n as int));
            assert(all.take(n + 1).last() == x@);
            assert(texts(r@.insert(i as int, x)) =~= texts(r@).insert(i as int, x@));
        }
        r.insert(i, x);
        n += 1;
    }
    r
}

/// The order of texts can order a sequence.
pub proof fn lemma_text_orders()
    ensures
        orders(text_before()),
{
    assert forall|a: Seq<char>, b: Seq<char>| #[trigger] less(a, b) implies !less(b, a) by {
        crate::order::lemma_less_asymmetric(a, b);
    }
    assert forall|a: Seq<char>, b: Seq<char>, c: Seq<char>|
        #![trigger text_before()(a, b), text_before()(b, c)]
        !less(a, b) && !less(b, c) implies !less(a, c) by {
        if less(a, c) {
            crate::order::lemma_less_total(a, b);
            crate::order::lemma_less_total(b, c);
            if less(b, a) {
                crate::order::lemma_less_transitive(b, a, c);
            }
        }
    }
}

/// Sorted texts are in order, and are those that were sorted.
pub proof fn law_sorted_texts(s: Seq<Seq<char>>)
    ensures
        crate::order::sorted(sort_by(s, text_before())),
        sort_by(s, text_before()).to_multiset() == s.to_multiset(),
{
    lemma_text_orders();
    lemma_sort_by(s, text_before());
    let r = sort_by(s, text_before());
    assert forall|i: int, j: int| 0 <= i < j < r.len() implies !less(#[trigger] r[j], #[trigger] r[i]) by {
        assert(!text_before()(r[j], r[i]));
    }
}

/// Sorting by a text of each element keeps all elements and puts none behind one with a greater text.
pub proof fn law_sorted_by_text<T>(s: Seq<T>, before: spec_fn(T, T) -> bool, text: spec_fn(T) -> Seq<char>, x: T)
    requires
        forall|a: T, b: T| #[trigger] before(a, b) == less(text(a), text(b)),
    ensures
        sort_by(s, before).len() == s.len(),
        sort_by(s, before).contains(x) <==> s.contains(x),
        forall|i: int, j: int|
            0 <= i < j < s.len() ==> !less(text(#[trigger] sort_by(s, before)[j]), text(#[trigger] sort_by(s, before)[i])),
{
    broadcast use vstd::seq_lib::group_to_multiset_ensures;

    assert forall|a: T, b: T| #[trigger] before(a, b) implies !before(b, a) by {
        crate::order::lemma_less_asymmetric(text(a), text(b));
    }
    assert forall|a: T, b: T, c: T|
        #![trigger before(a, b), before(b, c)]
        !before(a, b) && !before(b, c) implies !before(a, c) by {
        if less(text(a), text(c)) {
            crate::order::lemma_less_total(text(a), text(b));
            crate::order::lemma_less_total(text(b), text(c));
            if text(a) != text(b) {
                crate::order::lemma_less_transitive(text(b), text(a), text(c));
            }
        }
    }
    lemma_sort_by(s, before);
    lemma_sort_len(s, before);
    let r = sort_by(s, before);
    assert(r.contains(x) <==> r.to_multiset().count(x) > 0);
    assert(s.contains(x) <==> s.to_multiset().count(x) > 0);
    assert forall|i: int, j: int| 0 <= i < j < s.len() implies !less(text(#[trigger] r[j]), text(#[trigger] r[i])) by {
        assert(!before(r[j], r[i]));
    }
}

/// The order in which texts are given does not change how they are sorted.
pub proof fn law_sorting_forgets_the_order(s: Seq<Seq<char>>, t: Seq<Seq<char>>)
    requires
        s.to_multiset() == t.to_multiset(),
    ensures
        sort_by(s, text_before()) == sort_by(t, text_before()),
{
    let x = sort_by(s, text_before());
    let y = sort_by(t, text_before());
    let leq = |a: Seq<char>, b: Seq<char>| !less(b, a);
    law_sorted_texts(s);
    law_sorted_texts(t);
    assert forall|a: Seq<char>| #[trigger] leq(a, a) by {
        if less(a, a) {
            crate::order::lemma_less_asymmetric(a, a);
        }
    }
    assert forall|a: Seq<char>, b: Seq<char>| #[trigger] leq(a, b) && #[trigger] leq(b, a) implies a == b by {
        crate::order::lemma_less_total(a, b);
    }
    assert forall|a: Seq<char>, b: Seq<char>, c: Seq<char>| #[trigger] leq(a, b) && #[trigger] leq(b, c) implies leq(
        a,
        c,
    ) by {
        if less(c, a) {
            crate::order::lemma_less_total(a, b);
            crate::order::lemma_less_total(b, c);
            if a != b {
                crate::order::lemma_less_transitive(c, a, b);
            }
        }
    }
    assert forall|a: Seq<char>, b: Seq<char>| #[trigger] leq(a, b) || leq(b, a) by {
        if less(b, a) && less(a, b) {
            crate::order::lemma_less_asymmetric(a, b);
        }
    }
    assert(vstd::relations::total_ordering(leq));
    assert(vstd::relations::sorted_by(x, leq)) by {
        assert forall|i: int, j: int| 0 <= i < j < x.len() implies #[trigger] leq(x[i], x[j]) by {
            assert(!less(x[j], x[i]));
        }
    }
    assert(vstd::relations::sorted_by(y, leq)) by {
        assert forall|i: int, j: int| 0 <= i < j < y.len() implies #[trigger] leq(y[i], y[j]) by {
            assert(!less(y[j], y[i]));
        }
    }
    vstd::seq_lib::lemma_sorted_unique(x, y, leq);
}

} // verus!
