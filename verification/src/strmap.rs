//! Maps keyed by strings, walked in the order of their keys.
use vstd::prelude::*;

use crate::deep::deep;
use crate::order::{ascending, in_order, is_less, less, lemma_ascending_distinct, lemma_in_order, lemma_insert_ascending, lemma_less_irreflexive, lemma_less_total, lemma_less_transitive};
use crate::text::same;

verus! {

broadcast use crate::deep::group_deep;

/// A map from strings to values. Its entries stand in the order of their keys, each key once.
pub struct StrMap<V> {
    items: Vec<(String, V)>,
}

pub closed spec fn entry_keys<V>(items: Seq<(String, V)>) -> Seq<Seq<char>> {
    Seq::new(items.len(), |i: int| items[i].0@)
}

impl<V> StrMap<V> {
    #[verifier::type_invariant]
    spec fn ordered(self) -> bool {
        ascending(entry_keys(self.items@))
    }

    /// The keys, in ascending order.
    pub closed spec fn keys(self) -> Seq<Seq<char>> {
        entry_keys(self.items@)
    }

    /// The value behind the key at a position.
    pub closed spec fn value_at(self, i: int) -> V {
        self.items@[i].1
    }

    /// The position of a key.
    pub open spec fn position(self, k: Seq<char>) -> int {
        self.keys().index_of(k)
    }
}

impl<V: DeepView> View for StrMap<V> {
    type V = Map<Seq<char>, V::V>;

    open spec fn view(&self) -> Map<Seq<char>, V::V> {
        Map::new(
            |k: Seq<char>| self.keys().contains(k),
            |k: Seq<char>| self.value_at(self.position(k)).deep_view(),
        )
    }
}

impl<V: DeepView> DeepView for StrMap<V> {
    type V = Map<Seq<char>, V::V>;

    open spec fn deep_view(&self) -> Map<Seq<char>, V::V> {
        self.view()
    }
}

/// The entry that a map has at a position of its keys.
pub proof fn lemma_entry<V: DeepView>(m: StrMap<V>, i: int)
    requires
        ascending(m.keys()),
        0 <= i < m.keys().len(),
    ensures
        m@.contains_key(m.keys()[i]),
        m@[m.keys()[i]] == m.value_at(i).deep_view(),
        m.position(m.keys()[i]) == i,
{
    lemma_ascending_distinct(m.keys());
    assert(m.keys().contains(m.keys()[i]));
}

impl<V: DeepView> StrMap<V> {
    /// The empty map.
    pub fn new() -> (r: Self)
        ensures
            r@ == Map::<Seq<char>, V::V>::empty(),
    {
        let r = StrMap { items: Vec::new() };
        assert(r@ =~= Map::<Seq<char>, V::V>::empty());
        r
    }

    /// The number of entries.
    pub fn len(&self) -> (r: usize)
        ensures
            r == self.keys().len(),
            self.keys() == in_order(self@.dom()),
            ascending(self.keys()),
            self.keys().to_set() == self@.dom(),
    {
        proof {
            use_type_invariant(self);
            lemma_in_order(self.keys());
            assert(self.keys().to_set() =~= self@.dom());
        }
        self.items.len()
    }

    /// The key at a position.
    pub fn key(&self, i: usize) -> (r: &String)
        requires
            i < self.keys().len(),
        ensures
            r@ == self.keys()[i as int],
            self@.contains_key(r@),
            self@[r@] == self.value_at(i as int).deep_view(),
    {
        proof {
            use_type_invariant(self);
            lemma_entry(*self, i as int);
        }
        &self.items[i].0
    }

    /// The value at a position.
    pub fn value(&self, i: usize) -> (r: &V)
        requires
            i < self.keys().len(),
        ensures
            *r == self.value_at(i as int),
            self@.contains_key(self.keys()[i as int]),
            r.deep_view() == self@[self.keys()[i as int]],
    {
        proof {
            use_type_invariant(self);
            lemma_entry(*self, i as int);
        }
        &self.items[i].1
    }

    fn lower_bound(&self, k: &str) -> (r: usize)
        ensures
            r <= self.keys().len(),
            forall|j: int| 0 <= j < r ==> less(#[trigger] self.keys()[j], k@),
            r < self.keys().len() ==> !less(self.keys()[r as int], k@),
    {
        proof {
            use_type_invariant(self);
        }
        let mut i: usize = 0;
        let mut n: usize = self.items.len();
        while i < n
            invariant
                i <= n <= self.items@.len(),
                ascending(self.keys()),
                forall|j: int| 0 <= j < i ==> less(#[trigger] self.keys()[j], k@),
                n < self.items@.len() ==> !less(self.keys()[n as int], k@),
            decreases n - i,
        {
            let m: usize = i + (n - i) / 2;
            if is_less(self.items[m].0.as_str(), k) {
                proof {
                    assert(self.keys()[m as int] == self.items@[m as int].0@);
                    assert forall|j: int| 0 <= j < m + 1 implies less(#[trigger] self.keys()[j], k@) by {
                        if j < m {
                            lemma_less_transitive(self.keys()[j], self.keys()[m as int], k@);
                        }
                    }
                }
                i = m + 1;
            } else {
                n = m;
            }
        }
        i
    }

    /// The value behind a key.
    pub fn get(&self, k: &str) -> (r: Option<&V>)
        ensures
            r is Some == self@.contains_key(k@),
            r matches Some(v) ==> v.deep_view() == self@[k@] && *v == self.value_at(self.position(k@)),
    {
        proof {
            use_type_invariant(self);
        }
        let i = self.lower_bound(k);
        if i < self.items.len() && same(self.items[i].0.as_str(), k) {
            proof {
                lemma_entry(*self, i as int);
            }
            Some(&self.items[i].1)
        } else {
            proof {
                if self.keys().contains(k@) {
                    let p = choose|p: int| 0 <= p < self.keys().len() && self.keys()[p] == k@;
                    lemma_less_irreflexive(k@);
                    if i < p {
                        assert(less(self.keys()[i as int], self.keys()[p]));
                    }
                }
            }
            None
        }
    }

    /// Whether a key has a value.
    pub fn contains_key(&self, k: &str) -> (r: bool)
        ensures
            r == self@.contains_key(k@),
    {
        self.get(k).is_some()
    }

    /// Puts a value behind a key, in place of the one it had.
    pub fn insert(&mut self, k: String, v: V)
        ensures
            final(self)@ == old(self)@.insert(k@, v.deep_view()),
    {
        proof {
            use_type_invariant(&*self);
        }
        let ghost before = *self;
        let ghost dv = v.deep_view();
        let i = self.lower_bound(k.as_str());
        let mut items: Vec<(String, V)> = Vec::new();
        std::mem::swap(&mut items, &mut self.items);
        let ghost was = items@;
        assert(was == before.items@);
        if i < items.len() && same(items[i].0.as_str(), k.as_str()) {
            let ghost key = k@;
            items.remove(i);
            items.insert(i, (k, v));
            proof {
                assert(entry_keys(items@) =~= entry_keys(was));
            }
            self.items = items;
            proof {
                assert forall|s: Seq<char>| self.keys().contains(s) implies self@[s]
                    == before@.insert(key, dv)[s] by {
                    let p = choose|p: int| 0 <= p < self.keys().len() && self.keys()[p] == s;
                    lemma_entry(*self, p);
                    lemma_entry(before, p);
                }
                assert(before.keys()[i as int] == key);
                assert(self@ =~= before@.insert(key, dv));
            }
        } else {
            let ghost key = k@;
            proof {
                if i < items.len() {
                    lemma_less_total(key, before.keys()[i as int]);
                }
                lemma_insert_ascending(before.keys(), i as int, key);
            }
            items.insert(i, (k, v));
            proof {
                assert(entry_keys(items@) =~= before.keys().insert(i as int, key));
            }
            self.items = items;
            proof {
                let old_keys = before.keys();
                let new_keys = self.keys();
                assert forall|s: Seq<char>| #[trigger] new_keys.contains(s) == old_keys.to_set().insert(
                    key,
                ).contains(s) by {
                    assert(new_keys.contains(s) == new_keys.to_set().contains(s));
                }
                assert forall|s: Seq<char>| new_keys.contains(s) implies self@[s]
                    == before@.insert(key, dv)[s] by {
                    let p = choose|p: int| 0 <= p < new_keys.len() && new_keys[p] == s;
                    lemma_entry(*self, p);
                    if p < i {
                        lemma_entry(before, p);
                        lemma_less_irreflexive(key);
                    } else if p > i {
                        lemma_entry(before, p - 1);
                        assert(less(new_keys[i as int], new_keys[p]));
                        lemma_less_irreflexive(key);
                    }
                }
                assert(self@ =~= before@.insert(key, dv));
            }
        }
    }

    /// Takes the value behind a key out of the map.
    pub fn remove(&mut self, k: &str) -> (r: Option<V>)
        ensures
            final(self)@ == old(self)@.remove(k@),
            r is Some == old(self)@.contains_key(k@),
            r matches Some(v) ==> v.deep_view() == old(self)@[k@],
    {
        proof {
            use_type_invariant(&*self);
        }
        let ghost before = *self;
        if !self.contains_key(k) {
            assert(before@.remove(k@) =~= before@);
            return None;
        }
        let i = self.lower_bound(k);
        let mut items: Vec<(String, V)> = Vec::new();
        std::mem::swap(&mut items, &mut self.items);
        let ghost was = items@;
        proof {
            let p = choose|p: int| 0 <= p < before.keys().len() && before.keys()[p] == k@;
            lemma_less_irreflexive(k@);
            if i < p {
                assert(less(before.keys()[i as int], before.keys()[p]));
            }
            assert(p == i);
            lemma_entry(before, i as int);
        }
        let e = items.remove(i);
        proof {
            assert(entry_keys(items@) =~= before.keys().remove(i as int));
            assert(ascending(entry_keys(items@)));
        }
        self.items = items;
        proof {
            lemma_ascending_distinct(before.keys());
            assert forall|s: Seq<char>| #[trigger] self.keys().contains(s) <==> before.keys().contains(s) && s
                != k@ by {
                if self.keys().contains(s) {
                    let p = choose|p: int| 0 <= p < self.keys().len() && self.keys()[p] == s;
                    if p < i {
                        assert(before.keys()[p] == s);
                    } else {
                        assert(before.keys()[p + 1] == s);
                    }
                }
                if before.keys().contains(s) && s != k@ {
                    let p = choose|p: int| 0 <= p < before.keys().len() && before.keys()[p] == s;
                    if p < i {
                        assert(self.keys()[p] == s);
                    } else {
                        assert(self.keys()[p - 1] == s);
                    }
                }
            }
            assert forall|s: Seq<char>| self.keys().contains(s) implies self@[s] == before@[s] by {
                let p = choose|p: int| 0 <= p < self.keys().len() && self.keys()[p] == s;
                lemma_entry(*self, p);
                if p < i {
                    lemma_entry(before, p);
                } else {
                    lemma_entry(before, p + 1);
                }
            }
            assert(self@ =~= before@.remove(k@));
        }
        Some(e.1)
    }

    /// The values in the order of their keys.
    pub fn into_values(self) -> (r: Vec<V>)
        ensures
            deep(r@) == values_in_order(self@),
    {
        proof {
            use_type_invariant(&self);
        }
        let ghost before = self;
        let ghost n = self.items@.len();
        let mut items = self.items;
        let mut back: Vec<V> = Vec::new();
        loop
            invariant_except_break
                items@.len() + back@.len() == n,
                n == before.items@.len(),
                items@ == before.items@.take(items@.len() as int),
                forall|j: int| 0 <= j < back@.len() ==> #[trigger] back@[j] == before.items@[n - 1 - j].1,
            ensures
                back@.len() == n,
                forall|j: int| 0 <= j < back@.len() ==> #[trigger] back@[j] == before.items@[n - 1 - j].1,
            decreases items@.len(),
        {
            match items.pop() {
                Some(e) => {
                    back.push(e.1);
                },
                None => {
                    break;
                },
            }
        }
        let mut r: Vec<V> = Vec::new();
        loop
            invariant_except_break
                r@.len() + back@.len() == n,
                n == before.items@.len(),
                forall|j: int| 0 <= j < back@.len() ==> #[trigger] back@[j] == before.items@[n - 1 - j].1,
                forall|j: int| 0 <= j < r@.len() ==> #[trigger] r@[j] == before.items@[j].1,
            ensures
                r@.len() == n,
                forall|j: int| 0 <= j < r@.len() ==> #[trigger] r@[j] == before.items@[j].1,
            decreases back@.len(),
        {
            match back.pop() {
                Some(v) => {
                    r.push(v);
                },
                None => {
                    break;
                },
            }
        }
        proof {
            lemma_in_order(before.keys());
            assert(before.keys().to_set() =~= before@.dom());
            assert forall|j: int| 0 <= j < n implies deep(r@)[j] == values_in_order(before@)[j] by {
                lemma_entry(before, j);
            }
            assert(deep(r@) =~= values_in_order(before@));
        }
        r
    }
}

/// The values of a map in the order of their keys.
pub open spec fn values_in_order<T>(m: Map<Seq<char>, T>) -> Seq<T> {
    in_order(m.dom()).map_values(|k: Seq<char>| m[k])
}

} // verus!
