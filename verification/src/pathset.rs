//! Sets of paths: in order, and each path once.
use vstd::prelude::*;

use crate::deep::deep;
use crate::order::less;
use crate::path::{component_less, components, components_less, path_less, rank, same_path};
use crate::sort::{lemma_sort_by, orders, path_before, sort_by, sort_paths};
use crate::text::copy;

verus! {

broadcast use {crate::deep::group_deep, crate::deep::lemma_take_next, crate::deep::lemma_take_all};

/// Whether a path is in a list.
pub open spec fn has_path(paths: Seq<Seq<char>>, p: Seq<char>) -> bool {
    exists|i: int| 0 <= i < paths.len() && components(#[trigger] paths[i]) == components(p)
}

/// Whether a path is in a list.
pub fn contains_path(paths: &Vec<String>, p: &str) -> (r: bool)
    ensures
        r == has_path(paths.deep_view(), p@),
{
    let mut i: usize = 0;
    while i < paths.len()
        invariant
            i <= paths@.len(),
            forall|j: int| 0 <= j < i ==> components(#[trigger] deep(paths@)[j]) != components(p@),
        decreases paths.len() - i,
    {
        if same_path(paths[i].as_str(), p) {
            assert(components(deep(paths@)[i as int]) == components(p@));
            return true;
        }
        i += 1;
    }
    false
}

/// The paths without those that stand earlier in the list.
pub open spec fn distinct_paths(paths: Seq<Seq<char>>) -> Seq<Seq<char>>
    decreases paths.len(),
{
    if paths.len() == 0 {
        Seq::empty()
    } else {
        let before = distinct_paths(paths.drop_last());
        if has_path(before, paths.last()) {
            before
        } else {
            before.push(paths.last())
        }
    }
}

/// The paths in order, each once, in the form in which it stands first.
pub open spec fn path_set(paths: Seq<Seq<char>>) -> Seq<Seq<char>> {
    sort_by(distinct_paths(paths), path_before())
}

/// The paths in order, each once, in the form in which it stands first.
pub fn set_of_paths(paths: &Vec<String>) -> (r: Vec<String>)
    ensures
        r.deep_view() == path_set(paths.deep_view()),
{
    let ghost all = deep(paths@);
    let mut kept: Vec<String> = Vec::new();
    let mut i: usize = 0;
    while i < paths.len()
        invariant
            i <= paths@.len(),
            all == deep(paths@),
            deep(kept@) == distinct_paths(all.take(i as int)),
        decreases paths.len() - i,
    {
        proof {
            assert(all.take(i + 1).drop_last() =~= all.take(i as int));
        }
        if !contains_path(&kept, paths[i].as_str()) {
            kept.push(copy(paths[i].as_str()));
        }
        i += 1;
    }
    sort_paths(&kept)
}

/// Of two different components one comes before the other.
proof fn lemma_component_total(a: Seq<char>, b: Seq<char>)
    ensures
        component_less(a, b) || component_less(b, a) || a == b,
        component_less(a, b) ==> !component_less(b, a) && a != b,
{
    crate::order::lemma_less_total(a, b);
    if less(a, b) {
        crate::order::lemma_less_asymmetric(a, b);
    }
}

proof fn lemma_component_transitive(a: Seq<char>, b: Seq<char>, c: Seq<char>)
    requires
        component_less(a, b),
        component_less(b, c),
    ensures
        component_less(a, c),
{
    if rank(a) == 3 && rank(b) == 3 && rank(c) == 3 {
        crate::order::lemma_less_transitive(a, b, c);
    }
}

proof fn lemma_components_total(a: Seq<Seq<char>>, b: Seq<Seq<char>>)
    ensures
        components_less(a, b) || components_less(b, a) || a == b,
        components_less(a, b) ==> !components_less(b, a) && a != b,
    decreases a.len(),
{
    if a.len() == 0 || b.len() == 0 {
        if a.len() == 0 && b.len() == 0 {
            assert(a =~= b);
        }
    } else if a[0] != b[0] {
        lemma_component_total(a[0], b[0]);
    } else {
        lemma_components_total(a.skip(1), b.skip(1));
        if a.skip(1) == b.skip(1) {
            assert(a =~= seq![a[0]] + a.skip(1));
            assert(b =~= seq![b[0]] + b.skip(1));
        }
    }
}

proof fn lemma_components_transitive(a: Seq<Seq<char>>, b: Seq<Seq<char>>, c: Seq<Seq<char>>)
    requires
        components_less(a, b),
        components_less(b, c),
    ensures
        components_less(a, c),
    decreases a.len(),
{
    if a.len() > 0 {
        if a[0] == b[0] && b[0] == c[0] {
            lemma_components_transitive(a.skip(1), b.skip(1), c.skip(1));
        } else if a[0] != b[0] && b[0] != c[0] {
            lemma_component_transitive(a[0], b[0], c[0]);
            if a[0] == c[0] {
                lemma_component_total(a[0], b[0]);
            }
        }
    }
}

/// Paths can be ordered.
pub proof fn lemma_path_orders()
    ensures
        orders(path_before()),
{
    let before = path_before();
    assert forall|a: Seq<char>, b: Seq<char>| #[trigger] before(a, b) implies !before(b, a) by {
        lemma_components_total(components(a), components(b));
    }
    assert forall|a: Seq<char>, b: Seq<char>, c: Seq<char>| #![trigger before(a, b), before(b, c)]
        !before(a, b) && !before(b, c) implies !before(a, c) by {
        let (x, y, z) = (components(a), components(b), components(c));
        if before(a, c) {
            lemma_components_total(x, y);
            lemma_components_total(y, z);
            if components_less(y, x) {
                lemma_components_transitive(y, x, z);
            }
        }
    }
}

proof fn lemma_distinct(paths: Seq<Seq<char>>)
    ensures
        ({
            let r = distinct_paths(paths);
            &&& forall|i: int, j: int|
                0 <= i < j < r.len() ==> components(#[trigger] r[i]) != components(#[trigger] r[j])
            &&& forall|p: Seq<char>| #[trigger] has_path(paths, p) <==> has_path(r, p)
            &&& forall|p: Seq<char>| #[trigger] r.contains(p) ==> paths.contains(p)
        }),
    decreases paths.len(),
{
    if paths.len() > 0 {
        let rest = paths.drop_last();
        let before = distinct_paths(rest);
        let last = paths.last();
        let r = distinct_paths(paths);
        lemma_distinct(rest);
        assert forall|p: Seq<char>| #[trigger] has_path(paths, p) <==> has_path(r, p) by {
            assert(has_path(rest, p) <==> has_path(before, p));
            if has_path(paths, p) {
                let i = choose|i: int|
                    0 <= i < paths.len() && components(#[trigger] paths[i]) == components(p);
                if i < rest.len() {
                    assert(components(rest[i]) == components(p));
                    let k = choose|k: int|
                        0 <= k < before.len() && components(#[trigger] before[k]) == components(p);
                    assert(components(r[k]) == components(p));
                } else if has_path(before, last) {
                    let k = choose|k: int|
                        0 <= k < before.len() && components(#[trigger] before[k]) == components(last);
                    assert(components(r[k]) == components(p));
                } else {
                    assert(components(r[r.len() - 1]) == components(p));
                }
            }
            if has_path(r, p) {
                let k = choose|k: int| 0 <= k < r.len() && components(#[trigger] r[k]) == components(p);
                if k < before.len() {
                    assert(components(before[k]) == components(p));
                    let i = choose|i: int|
                        0 <= i < rest.len() && components(#[trigger] rest[i]) == components(p);
                    assert(components(paths[i]) == components(p));
                } else {
                    assert(components(paths[paths.len() - 1]) == components(p));
                }
            }
        }
        assert forall|p: Seq<char>| #[trigger] r.contains(p) implies paths.contains(p) by {
            let k = choose|k: int| 0 <= k < r.len() && r[k] == p;
            if k < before.len() {
                assert(before.contains(before[k]));
                let i = choose|i: int| 0 <= i < rest.len() && rest[i] == p;
                assert(paths[i] == p);
            } else {
                assert(paths[paths.len() - 1] == p);
            }
        }
    }
}

/// A set of paths is in order, holds no path twice, and holds the paths that it was made of and no
/// others.
pub proof fn law_path_set(paths: Seq<Seq<char>>)
    ensures
        ({
            let r = path_set(paths);
            &&& forall|i: int, j: int| 0 <= i < j < r.len() ==> path_less(#[trigger] r[i], #[trigger] r[j])
            &&& forall|p: Seq<char>| #[trigger] has_path(paths, p) <==> has_path(r, p)
            &&& forall|p: Seq<char>| #[trigger] r.contains(p) ==> paths.contains(p)
        }),
{
    broadcast use vstd::seq_lib::group_to_multiset_ensures;

    let d = distinct_paths(paths);
    let r = path_set(paths);
    lemma_distinct(paths);
    lemma_path_orders();
    lemma_sort_by(d, path_before());
    lemma_still_distinct(d);
    assert forall|p: Seq<char>| r.contains(p) <==> d.contains(p) by {
        assert(r.to_multiset().count(p) == d.to_multiset().count(p));
    }
    assert forall|i: int, j: int| 0 <= i < j < r.len() implies path_less(#[trigger] r[i], #[trigger] r[j]) by {
        assert(!path_before()(r[j], r[i]));
        lemma_components_total(components(r[i]), components(r[j]));
    }
    assert forall|p: Seq<char>| #[trigger] has_path(paths, p) <==> has_path(r, p) by {
        if has_path(d, p) {
            let k = choose|k: int| 0 <= k < d.len() && components(#[trigger] d[k]) == components(p);
            assert(d.contains(d[k]));
            let i = choose|i: int| 0 <= i < r.len() && r[i] == d[k];
            assert(components(r[i]) == components(p));
        }
        if has_path(r, p) {
            let k = choose|k: int| 0 <= k < r.len() && components(#[trigger] r[k]) == components(p);
            assert(r.contains(r[k]));
            let i = choose|i: int| 0 <= i < d.len() && d[i] == r[k];
            assert(components(d[i]) == components(p));
        }
    }
}

/// Sorting keeps paths apart.
proof fn lemma_still_distinct(d: Seq<Seq<char>>)
    requires
        forall|i: int, j: int|
            0 <= i < j < d.len() ==> components(#[trigger] d[i]) != components(#[trigger] d[j]),
    ensures
        ({
            let r = sort_by(d, path_before());
            forall|i: int, j: int|
                0 <= i < j < r.len() ==> components(#[trigger] r[i]) != components(#[trigger] r[j])
        }),
{
    broadcast use vstd::seq_lib::group_to_multiset_ensures;

    let r = sort_by(d, path_before());
    lemma_path_orders();
    lemma_sort_by(d, path_before());
    assert forall|i: int, j: int| 0 <= i < j < r.len() implies components(#[trigger] r[i]) != components(
        #[trigger] r[j],
    ) by {
        if components(r[i]) == components(r[j]) {
            assert(r.contains(r[i]) && r.contains(r[j]));
            assert(r.to_multiset().count(r[i]) > 0);
            assert(d.to_multiset().count(r[i]) > 0);
            assert(d.to_multiset().count(r[j]) > 0);
            assert(d.contains(r[i]) && d.contains(r[j]));
            let a = choose|a: int| 0 <= a < d.len() && d[a] == r[i];
            let b = choose|b: int| 0 <= b < d.len() && d[b] == r[j];
            assert(a == b);
            assert(d.no_duplicates()) by {
                assert forall|x: int, y: int| 0 <= x < d.len() && 0 <= y < d.len() && x != y implies d[x] != d[y] by {
                    if x < y {
                        assert(components(d[x]) != components(d[y]));
                    } else {
                        assert(components(d[y]) != components(d[x]));
                    }
                }
            }
            d.lemma_multiset_has_no_duplicates();
            assert(r.to_multiset().count(r[i]) <= 1);
            lemma_twice(r, i, j);
        }
    }
}

/// What stands at two places is counted twice.
proof fn lemma_twice<T>(s: Seq<T>, i: int, j: int)
    requires
        0 <= i < j < s.len(),
        s[i] == s[j],
    ensures
        s.to_multiset().count(s[i]) >= 2,
{
    broadcast use vstd::seq_lib::group_to_multiset_ensures;

    let t = s.remove(j);
    assert(t[i] == s[i]);
    assert(t.contains(s[i]));
    assert(s.to_multiset() == t.to_multiset().insert(s[j]));
}

} // verus!
