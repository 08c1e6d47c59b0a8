//! Models of sequences of values.
use vstd::prelude::*;

verus! {

/// The models of the elements of a sequence.
pub open spec fn deep<T: DeepView>(s: Seq<T>) -> Seq<T::V> {
    s.map_values(|x: T| x.deep_view())
}

pub broadcast proof fn lemma_deep_vec<T: DeepView>(v: Vec<T>)
    ensures
        #[trigger] v.deep_view() == deep(v@),
{
    assert(v.deep_view() =~= deep(v@));
}

pub broadcast proof fn lemma_deep_len<T: DeepView>(s: Seq<T>)
    ensures
        (#[trigger] deep(s)).len() == s.len(),
{
}

pub broadcast proof fn lemma_deep_index<T: DeepView>(s: Seq<T>, i: int)
    requires
        0 <= i < s.len(),
    ensures
        (#[trigger] deep(s)[i]) == s[i].deep_view(),
{
}

pub broadcast proof fn lemma_deep_push<T: DeepView>(s: Seq<T>, x: T)
    ensures
        #[trigger] deep(s.push(x)) == deep(s).push(x.deep_view()),
{
    assert(deep(s.push(x)) =~= deep(s).push(x.deep_view()));
}

pub broadcast proof fn lemma_deep_empty<T: DeepView>()
    ensures
        #[trigger] deep(Seq::<T>::empty()) == Seq::<T::V>::empty(),
{
    assert(deep(Seq::<T>::empty()) =~= Seq::<T::V>::empty());
}

pub broadcast proof fn lemma_deep_add<T: DeepView>(s: Seq<T>, t: Seq<T>)
    ensures
        #[trigger] deep(s + t) == deep(s) + deep(t),
{
    assert(deep(s + t) =~= deep(s) + deep(t));
}

/// One more element: what a left-to-right walk has seen.
pub broadcast proof fn lemma_take_next<T>(s: Seq<T>, i: int)
    requires
        0 <= i < s.len(),
    ensures
        (#[trigger] s.take(i + 1)) == s.take(i).push(s[i]),
{
    assert(s.take(i + 1) =~= s.take(i).push(s[i]));
}

/// A walk that has seen everything.
pub broadcast proof fn lemma_take_all<T>(s: Seq<T>)
    ensures
        #[trigger] s.take(s.len() as int) == s,
{
    assert(s.take(s.len() as int) =~= s);
}

pub broadcast group group_deep {
    lemma_deep_vec,
    lemma_deep_len,
    lemma_deep_index,
    lemma_deep_push,
    lemma_deep_empty,
    lemma_deep_add,
}

/// What `f` gives for the elements for which it gives something.
pub open spec fn filter_map<A, B>(s: Seq<A>, f: spec_fn(A) -> Option<B>) -> Seq<B>
    decreases s.len(),
{
    if s.len() == 0 {
        Seq::empty()
    } else {
        match f(s.last()) {
            Some(b) => filter_map(s.drop_last(), f).push(b),
            None => filter_map(s.drop_last(), f),
        }
    }
}

/// What `f` gives for each element, one after the other.
pub open spec fn flat_map<A, B>(s: Seq<A>, f: spec_fn(A) -> Seq<B>) -> Seq<B>
    decreases s.len(),
{
    if s.len() == 0 {
        Seq::empty()
    } else {
        flat_map(s.drop_last(), f) + f(s.last())
    }
}

pub proof fn lemma_filter_map_next<A, B>(s: Seq<A>, f: spec_fn(A) -> Option<B>, i: int)
    requires
        0 <= i < s.len(),
    ensures
        filter_map(s.take(i + 1), f) == (match f(s[i]) {
            Some(b) => filter_map(s.take(i), f).push(b),
            None => filter_map(s.take(i), f),
        }),
{
    assert(s.take(i + 1).drop_last() =~= s.take(i));
}

pub proof fn lemma_flat_map_next<A, B>(s: Seq<A>, f: spec_fn(A) -> Seq<B>, i: int)
    requires
        0 <= i < s.len(),
    ensures
        flat_map(s.take(i + 1), f) == flat_map(s.take(i), f) + f(s[i]),
{
    assert(s.take(i + 1).drop_last() =~= s.take(i));
}

/// How many elements `f` gives for the first `i` elements.
pub open spec fn given_before<A, B>(s: Seq<A>, f: spec_fn(A) -> Option<B>, i: int) -> int
    decreases i,
{
    if i <= 0 {
        0
    } else {
        given_before(s, f, i - 1) + (if f(s[i - 1]) is Some {
            1int
        } else {
            0
        })
    }
}

/// What `f` gives stands in the order of the elements: behind as many as it gives for those before.
pub proof fn lemma_filter_map_places<A, B>(s: Seq<A>, f: spec_fn(A) -> Option<B>)
    ensures
        filter_map(s, f).len() == given_before(s, f, s.len() as int),
        forall|i: int|
            #![trigger f(s[i])]
            0 <= i < s.len() && f(s[i]) is Some ==> 0 <= given_before(s, f, i) < filter_map(s, f).len()
                && filter_map(s, f)[given_before(s, f, i)] == f(s[i])->0,
    decreases s.len(),
{
    if s.len() > 0 {
        let rest = s.drop_last();
        lemma_filter_map_places(rest, f);
        lemma_given_before(rest, s, f, rest.len() as int);
        assert forall|i: int| #![trigger f(s[i])] 0 <= i < s.len() && f(s[i]) is Some implies 0 <= given_before(
            s,
            f,
            i,
        ) < filter_map(s, f).len() && filter_map(s, f)[given_before(s, f, i)] == f(s[i])->0 by {
            lemma_given_before(rest, s, f, i);
            if i < rest.len() {
                assert(f(rest[i]) == f(s[i]));
            }
        }
    }
}

proof fn lemma_given_before<A, B>(a: Seq<A>, b: Seq<A>, f: spec_fn(A) -> Option<B>, i: int)
    requires
        0 <= i <= a.len() <= b.len(),
        forall|k: int| 0 <= k < a.len() ==> a[k] == b[k],
    ensures
        given_before(a, f, i) == given_before(b, f, i) >= 0,
    decreases i,
{
    if i > 0 {
        lemma_given_before(a, b, f, i - 1);
    }
}

/// How many elements `f` gives for the first `i` elements, taken together.
pub open spec fn length_before<A, B>(s: Seq<A>, f: spec_fn(A) -> Seq<B>, i: int) -> int
    decreases i,
{
    if i <= 0 {
        0
    } else {
        length_before(s, f, i - 1) + f(s[i - 1]).len()
    }
}

/// What `f` gives for all elements is as long as what it gives for each, taken together.
pub proof fn lemma_flat_map_length<A, B>(s: Seq<A>, f: spec_fn(A) -> Seq<B>)
    ensures
        flat_map(s, f).len() == length_before(s, f, s.len() as int),
    decreases s.len(),
{
    if s.len() > 0 {
        let rest = s.drop_last();
        lemma_flat_map_length(rest, f);
        lemma_length_before(rest, s, f, rest.len() as int);
    }
}

/// What `f` gives for an element stands, in its order, behind all that it gives for those before.
pub proof fn lemma_flat_map_place<A, B>(s: Seq<A>, f: spec_fn(A) -> Seq<B>, i: int, j: int)
    requires
        0 <= i < s.len(),
        0 <= j < f(s[i]).len(),
    ensures
        0 <= length_before(s, f, i) + j < flat_map(s, f).len(),
        flat_map(s, f)[length_before(s, f, i) + j] == f(s[i])[j],
    decreases s.len(),
{
    let rest = s.drop_last();
    lemma_length_before(rest, s, f, i);
    lemma_flat_map_length(rest, f);
    if i < rest.len() {
        assert(rest[i] == s[i]);
        lemma_flat_map_place(rest, f, i, j);
    }
}

proof fn lemma_length_before<A, B>(a: Seq<A>, b: Seq<A>, f: spec_fn(A) -> Seq<B>, i: int)
    requires
        0 <= i <= a.len() <= b.len(),
        forall|k: int| 0 <= k < a.len() ==> a[k] == b[k],
    ensures
        length_before(a, f, i) == length_before(b, f, i) >= 0,
    decreases i,
{
    if i > 0 {
        lemma_length_before(a, b, f, i - 1);
    }
}

/// What `f` gives is all that it gives for some element, and nothing else.
pub proof fn lemma_filter_map_contains<A, B>(s: Seq<A>, f: spec_fn(A) -> Option<B>, b: B)
    ensures
        filter_map(s, f).contains(b) <==> exists|i: int| 0 <= i < s.len() && f(#[trigger] s[i]) == Some(b),
    decreases s.len(),
{
    if s.len() > 0 {
        let rest = s.drop_last();
        let before = filter_map(rest, f);
        lemma_filter_map_contains(rest, f, b);
        assert(s[s.len() - 1] == s.last());
        if exists|i: int| 0 <= i < s.len() && f(#[trigger] s[i]) == Some(b) {
            let i = choose|i: int| 0 <= i < s.len() && f(#[trigger] s[i]) == Some(b);
            if i < rest.len() {
                assert(rest[i] == s[i]);
            }
        }
        if before.contains(b) {
            let i = choose|i: int| 0 <= i < rest.len() && f(#[trigger] rest[i]) == Some(b);
            assert(s[i] == rest[i]);
        }
        if let Some(x) = f(s.last()) {
            lemma_push_contains(before, x, b);
        }
    }
}

pub proof fn lemma_push_contains<A>(s: Seq<A>, x: A, a: A)
    ensures
        s.push(x).contains(a) <==> s.contains(a) || a == x,
{
    let t = s.push(x);
    assert(t[s.len() as int] == x);
    if s.contains(a) {
        let k = choose|k: int| 0 <= k < s.len() && s[k] == a;
        assert(t[k] == a);
    }
    if t.contains(a) && a != x {
        let k = choose|k: int| 0 <= k < t.len() && t[k] == a;
        assert(s[k] == a);
    }
}

pub proof fn lemma_last_contains<A>(s: Seq<A>, a: A)
    requires
        s.len() > 0,
    ensures
        s.contains(a) <==> s.drop_last().contains(a) || a == s.last(),
{
    assert(s.drop_last().push(s.last()) =~= s);
    lemma_push_contains(s.drop_last(), s.last(), a);
}

} // verus!
