//! The dependency graph of a profile's units.
//!
//! A unit's `depends_on` names other units of the same profile. The graph is layered: each level
//! holds the units whose dependencies all stand in earlier levels, so that the units of one level
//! can run side by side.
use vstd::prelude::*;

use crate::config::{UnitModel, Workspace};
use crate::deep::deep;
use crate::order::{ascending, in_order, lemma_in_order};
use crate::strmap::StrMap;
use crate::text::{cat4, cat7, copy, copy_all, join, joined, texts};

verus! {

broadcast use {crate::deep::group_deep, crate::deep::lemma_take_next, crate::deep::lemma_take_all};

/// The units of a profile in the order in which they can run.
#[derive(Debug)]
pub struct ProfileGraph {
    pub monad: String,
    pub levels: Vec<Vec<String>>,
}

/// Why a profile has no such order.
#[derive(Debug)]
pub enum GraphError {
    /// A unit names a dependency that is not a unit of the profile.
    UnknownDep { monad: String, unit: String, missing: String },
    /// Some units wait, one through the other, for themselves: all of them, in order.
    Cycle { monad: String, cycle: Vec<String> },
}

#[verifier::ext_equal]
pub enum GraphErrorModel {
    UnknownDep { monad: Seq<char>, unit: Seq<char>, missing: Seq<char> },
    Cycle { monad: Seq<char>, cycle: Seq<Seq<char>> },
}

impl DeepView for GraphError {
    type V = GraphErrorModel;

    open spec fn deep_view(&self) -> GraphErrorModel {
        match self {
            GraphError::UnknownDep { monad, unit, missing } => GraphErrorModel::UnknownDep {
                monad: monad@,
                unit: unit@,
                missing: missing@,
            },
            GraphError::Cycle { monad, cycle } => GraphErrorModel::Cycle {
                monad: monad@,
                cycle: cycle.deep_view(),
            },
        }
    }
}

impl GraphError {
    /// What the error says.
    pub fn message(&self) -> (r: String)
        ensures
            match self.deep_view() {
                GraphErrorModel::UnknownDep { monad, unit, missing } => r@ == "unit '"@ + unit
                    + "' in monad '"@ + monad + "' depends_on '"@ + missing
                    + "', which is not a unit of this monad"@,
                GraphErrorModel::Cycle { monad, cycle } => r@ == "cycle detected in monad '"@ + monad
                    + "' among units: "@ + joined(cycle, " → "@),
            },
    {
        match self {
            GraphError::UnknownDep { monad, unit, missing } => cat7(
                "unit '",
                unit.as_str(),
                "' in monad '",
                monad.as_str(),
                "' depends_on '",
                missing.as_str(),
                "', which is not a unit of this monad",
            ),
            GraphError::Cycle { monad, cycle } => {
                let list = join(cycle, " → ");
                cat4("cycle detected in monad '", monad.as_str(), "' among units: ", list.as_str())
            },
        }
    }
}

/// The levels one after the other.
pub open spec fn flat(levels: Seq<Seq<Seq<char>>>) -> Seq<Seq<char>>
    decreases levels.len(),
{
    if levels.len() == 0 {
        Seq::empty()
    } else {
        flat(levels.drop_last()) + levels.last()
    }
}

impl ProfileGraph {
    /// The names of the units, level by level.
    pub fn flattened(&self) -> (r: Vec<&str>)
        ensures
            deep(r@) == flat(self.levels.deep_view()),
    {
        let ghost all = deep(self.levels@);
        let mut r: Vec<&str> = Vec::new();
        let mut i: usize = 0;
        while i < self.levels.len()
            invariant
                i <= self.levels@.len(),
                all == deep(self.levels@),
                deep(r@) == flat(all.take(i as int)),
            decreases self.levels.len() - i,
        {
            let level = &self.levels[i];
            let ghost before = deep(r@);
            let ghost names = deep(level@);
            let mut j: usize = 0;
            assert(before + names.take(0) =~= before);
            while j < level.len()
                invariant
                    j <= level@.len(),
                    names == deep(level@),
                    deep(r@) == before + names.take(j as int),
                decreases level.len() - j,
            {
                let name = level[j].as_str();
                proof {
                    assert(before + names.take(j + 1) =~= (before + names.take(j as int)).push(
                        names[j as int],
                    ));
                }
                r.push(name);
                j += 1;
            }
            proof {
                assert(all.take(i + 1).drop_last() =~= all.take(i as int));
                assert(all.take(i + 1).last() == names);
            }
            i += 1;
        }
        r
    }

    /// How many units the graph has.
    pub fn unit_count(&self) -> (r: usize)
        requires
            flat(self.levels.deep_view()).len() <= usize::MAX,
        ensures
            r == flat(self.levels.deep_view()).len(),
    {
        let ghost all = deep(self.levels@);
        let mut n: usize = 0;
        let mut i: usize = 0;
        while i < self.levels.len()
            invariant
                i <= self.levels@.len(),
                all == deep(self.levels@),
                flat(all).len() <= usize::MAX,
                n == flat(all.take(i as int)).len(),
            decreases self.levels.len() - i,
        {
            proof {
                assert(all.take(i + 1).drop_last() =~= all.take(i as int));
                lemma_flat_grows(all, i + 1);
            }
            n += self.levels[i].len();
            i += 1;
        }
        n
    }
}

proof fn lemma_flat_grows(levels: Seq<Seq<Seq<char>>>, i: int)
    requires
        0 <= i <= levels.len(),
    ensures
        flat(levels.take(i)).len() <= flat(levels).len(),
    decreases levels.len() - i,
{
    if i < levels.len() {
        lemma_flat_grows(levels, i + 1);
        assert(levels.take(i + 1).drop_last() =~= levels.take(i));
    }
}

/// An edge: the unit that waits, and the unit it waits for.
pub type Edge = (Seq<char>, Seq<char>);

/// The edges out of one unit.
pub open spec fn unit_edges(u: UnitModel) -> Seq<Edge> {
    u.depends_on.map_values(|d: Seq<char>| (u.name, d))
}

/// The edges out of all units, in the order in which they are declared.
pub open spec fn edges_of(units: Seq<UnitModel>) -> Seq<Edge>
    decreases units.len(),
{
    if units.len() == 0 {
        Seq::empty()
    } else {
        edges_of(units.drop_last()) + unit_edges(units.last())
    }
}

/// The units that a profile lists.
pub open spec fn profile_units(ws: Workspace, profile: Seq<char>) -> Seq<UnitModel> {
    ws.profiles@[profile].units.map_values(|r: Seq<char>| ws.unit(r).config)
}

/// The names of some units.
pub open spec fn names_of(units: Seq<UnitModel>) -> Set<Seq<char>> {
    units.map_values(|u: UnitModel| u.name).to_set()
}

/// Whether a unit waits for none of `left`.
pub open spec fn free(edges: Seq<Edge>, left: Set<Seq<char>>, n: Seq<char>) -> bool {
    forall|d: Seq<char>| edges.contains((n, d)) ==> !#[trigger] left.contains(d)
}

/// The units of `left` that wait for none of `left`.
pub open spec fn ready(edges: Seq<Edge>, left: Set<Seq<char>>) -> Set<Seq<char>> {
    left.filter(|n: Seq<char>| free(edges, left, n))
}

pub proof fn lemma_ready_shrinks(edges: Seq<Edge>, left: Set<Seq<char>>)
    requires
        left.finite(),
        ready(edges, left).len() > 0 || exists|n: Seq<char>| ready(edges, left).contains(n),
    ensures
        left.difference(ready(edges, left)).finite(),
        left.difference(ready(edges, left)).len() < left.len(),
{
    let r = ready(edges, left);
    assert(r.finite());
    if r.len() > 0 {
        assert(r.contains(r.choose()));
    }
    let n = choose|n: Seq<char>| r.contains(n);
    vstd::set_lib::lemma_len_subset(left.difference(r), left.remove(n));
}

/// The layering of `left`: first the units that wait for none of `left`, then the layering of the
/// others, until none is free.
pub open spec fn layers(edges: Seq<Edge>, left: Set<Seq<char>>) -> Seq<Set<Seq<char>>>
    decreases left.len(),
{
    if left.finite() && ready(edges, left).len() > 0 {
        proof {
            lemma_ready_shrinks(edges, left);
        }
        seq![ready(edges, left)] + layers(edges, left.difference(ready(edges, left)))
    } else {
        Seq::empty()
    }
}

/// The units that the layering leaves out.
pub open spec fn knot(edges: Seq<Edge>, left: Set<Seq<char>>) -> Set<Seq<char>>
    decreases left.len(),
{
    if left.finite() && ready(edges, left).len() > 0 {
        proof {
            lemma_ready_shrinks(edges, left);
        }
        knot(edges, left.difference(ready(edges, left)))
    } else {
        left
    }
}

/// Whether `p` leads from one unit to another, each unit of it waiting for the next.
pub open spec fn leads(edges: Seq<Edge>, p: Seq<Seq<char>>, from: Seq<char>, to: Seq<char>) -> bool {
    &&& p.len() >= 2
    &&& p[0] == from
    &&& p.last() == to
    &&& forall|i: int| 0 <= i < p.len() - 1 ==> #[trigger] edges.contains((p[i], p[i + 1]))
}

/// Whether a unit waits for another, directly or through others.
pub open spec fn waits_for(edges: Seq<Edge>, from: Seq<char>, to: Seq<char>) -> bool {
    exists|p: Seq<Seq<char>>| #[trigger] leads(edges, p, from, to)
}

/// The units that wait for themselves: the members of every cycle.
pub open spec fn circular(edges: Seq<Edge>, names: Set<Seq<char>>) -> Set<Seq<char>> {
    names.filter(|n: Seq<char>| waits_for(edges, n, n))
}

/// What the graph of a profile is.
pub open spec fn built(ws: Workspace, profile: Seq<char>, r: Result<ProfileGraph, GraphError>) -> bool {
    let units = profile_units(ws, profile);
    let names = names_of(units);
    let edges = edges_of(units);
    match r {
        Ok(g) => {
            &&& forall|i: int| 0 <= i < edges.len() ==> names.contains((#[trigger] edges[i]).1)
            &&& circular(edges, names) == Set::<Seq<char>>::empty()
            &&& g.monad@ == profile
            &&& g.levels.deep_view() == layers(edges, names).map_values(|s: Set<Seq<char>>| in_order(s))
        },
        Err(GraphError::UnknownDep { monad, unit, missing }) => {
            &&& monad@ == profile
            &&& exists|i: int| #[trigger]
                first_unknown(edges, names, i) && edges[i] == (unit@, missing@)
        },
        Err(GraphError::Cycle { monad, cycle }) => {
            &&& forall|i: int| 0 <= i < edges.len() ==> names.contains((#[trigger] edges[i]).1)
            &&& monad@ == profile
            &&& circular(edges, names) != Set::<Seq<char>>::empty()
            &&& cycle.deep_view() == in_order(circular(edges, names))
        },
    }
}

/// Whether the edge at `i` is the first that leads out of `names`.
pub open spec fn first_unknown(edges: Seq<Edge>, names: Set<Seq<char>>, i: int) -> bool {
    &&& 0 <= i < edges.len()
    &&& !names.contains(edges[i].1)
    &&& forall|j: int| 0 <= j < i ==> names.contains((#[trigger] edges[j]).1)
}

/// Whether the lists of `deps` hold exactly the edges.
spec fn lists(deps: Map<Seq<char>, Seq<Seq<char>>>, edges: Seq<Edge>) -> bool {
    forall|n: Seq<char>, d: Seq<char>| #[trigger]
        edges.contains((n, d)) <==> deps.contains_key(n) && deps[n].contains(d)
}

proof fn lemma_lists_push(deps: Map<Seq<char>, Seq<Seq<char>>>, edges: Seq<Edge>, n: Seq<char>, d: Seq<char>)
    requires
        lists(deps, edges),
        deps.contains_key(n),
    ensures
        lists(deps.insert(n, deps[n].push(d)), edges.push((n, d))),
{
    let after = deps.insert(n, deps[n].push(d));
    let more = edges.push((n, d));
    assert forall|a: Seq<char>, b: Seq<char>| #[trigger] more.contains((a, b)) <==> after.contains_key(a)
        && after[a].contains(b) by {
        if more.contains((a, b)) {
            let k = choose|k: int| 0 <= k < more.len() && more[k] == (a, b);
            if k < edges.len() {
                assert(edges[k] == (a, b));
                assert(edges.contains((a, b)));
                let l = choose|l: int| 0 <= l < deps[a].len() && deps[a][l] == b;
                if a == n {
                    assert(deps[n].push(d)[l] == b);
                }
            } else {
                assert(deps[n].push(d)[deps[n].len() as int] == d);
            }
        }
        if after.contains_key(a) && after[a].contains(b) {
            let l = choose|l: int| 0 <= l < after[a].len() && after[a][l] == b;
            if a == n && l == deps[n].len() {
                assert(more[edges.len() as int] == (n, d));
            } else {
                assert(deps[a][l] == b);
                assert(edges.contains((a, b)));
                let k = choose|k: int| 0 <= k < edges.len() && edges[k] == (a, b);
                assert(more[k] == (a, b));
            }
        }
    }
}

/// The free units of `left`, and the others, each in order.
fn part(deps: &StrMap<Vec<String>>, left: &StrMap<()>, Ghost(edges): Ghost<Seq<Edge>>) -> (r: (
    Vec<String>,
    StrMap<()>,
))
    requires
        lists(deps@, edges),
        forall|n: Seq<char>| left@.contains_key(n) ==> deps@.contains_key(n),
    ensures
        ascending(texts(r.0@)),
        texts(r.0@).to_set() == ready(edges, left@.dom()),
        r.1@.dom() == left@.dom().difference(ready(edges, left@.dom())),
{
    let n = left.len();
    let ghost names = left.keys();
    let ghost set = left@.dom();
    let mut level: Vec<String> = Vec::new();
    let mut rest: StrMap<()> = StrMap::new();
    let mut i: usize = 0;
    proof {
        assert(texts(level@) =~= Seq::<Seq<char>>::empty());
        assert(texts(level@).to_set() =~= Set::empty());
        assert(names.take(0).to_set() =~= Set::empty());
        assert(rest@.dom() =~= Set::empty());
    }
    while i < n
        invariant
            i <= n == names.len(),
            names == left.keys(),
            set == left@.dom(),
            ascending(names),
            names.to_set() == set,
            lists(deps@, edges),
            forall|n: Seq<char>| left@.contains_key(n) ==> deps@.contains_key(n),
            ascending(texts(level@)),
            forall|k: int| 0 <= k < level@.len() ==> exists|j: int|
                0 <= j < i && names[j] == #[trigger] texts(level@)[k],
            forall|s: Seq<char>| #[trigger]
                texts(level@).to_set().contains(s) <==> names.take(i as int).to_set().contains(s) && free(
                    edges,
                    set,
                    s,
                ),
            forall|s: Seq<char>| #[trigger]
                rest@.dom().contains(s) <==> names.take(i as int).to_set().contains(s) && !free(
                    edges,
                    set,
                    s,
                ),
        decreases n - i,
    {
        let name = left.key(i);
        let list = match deps.get(name.as_str()) {
            Some(l) => l,
            None => {
                return (level, rest);
            },
        };
        let mut blocked = false;
        let mut j: usize = 0;
        while j < list.len()
            invariant
                j <= list@.len(),
                set == left@.dom(),
                blocked == exists|k: int| 0 <= k < j && set.contains(#[trigger] texts(list@)[k]),
            decreases list.len() - j,
        {
            if left.contains_key(list[j].as_str()) {
                assert(set.contains(texts(list@)[j as int]));
                blocked = true;
            }
            j += 1;
        }
        proof {
            if blocked {
                let k = choose|k: int| 0 <= k < list@.len() && set.contains(#[trigger] texts(list@)[k]);
                let d = texts(list@)[k];
                assert(deps@[name@].contains(d));
                assert(edges.contains((name@, d)));
                assert(!free(edges, set, name@));
            } else {
                assert forall|d: Seq<char>| edges.contains((name@, d)) implies !#[trigger] set.contains(
                    d,
                ) by {
                    let k = choose|k: int| 0 <= k < deps@[name@].len() && deps@[name@][k] == d;
                    assert(texts(list@)[k] == d);
                }
                assert(free(edges, set, name@));
            }
            let was = names.take(i as int);
            let now = names.take(i + 1);
            assert(now == was.push(name@));
            assert forall|s: Seq<char>| #[trigger] now.to_set().contains(s) <==> was.to_set().contains(s)
                || s == name@ by {
                if was.contains(s) {
                    let k = choose|k: int| 0 <= k < was.len() && was[k] == s;
                    assert(now[k] == s);
                }
                assert(now[i as int] == name@);
            }
        }
        let owned = copy(name.as_str());
        if blocked {
            rest.insert(owned, ());
            proof {
                assert forall|s: Seq<char>| #[trigger] texts(level@).to_set().contains(s) <==> names.take(
                    i + 1,
                ).to_set().contains(s) && free(edges, set, s) by {
                    assert(names.take(i + 1).to_set().contains(s) <==> names.take(i as int).to_set().contains(s)
                        || s == name@);
                }
            }
        } else {
            let ghost before = texts(level@);
            proof {
                assert forall|a: int, b: int| 0 <= a < b < before.push(name@).len() implies crate::order::less(
                    #[trigger] before.push(name@)[a],
                    #[trigger] before.push(name@)[b],
                ) by {
                    if b == before.len() {
                        assert(before.push(name@)[a] == before[a]);
                        let k = choose|k: int| 0 <= k < i && names[k] == before[a];
                        assert(crate::order::less(names[k], names[i as int]));
                    }
                }
            }
            level.push(owned);
            proof {
                let after = texts(level@);
                assert(after == before.push(name@));
                assert forall|s: Seq<char>| #[trigger] after.to_set().contains(s) <==> before.to_set().contains(
                    s,
                ) || s == name@ by {
                    if before.contains(s) {
                        let k = choose|k: int| 0 <= k < before.len() && before[k] == s;
                        assert(after[k] == s);
                    }
                    assert(after[before.len() as int] == name@);
                }
                assert forall|k: int| 0 <= k < level@.len() implies exists|j: int|
                    0 <= j < i + 1 && names[j] == #[trigger] texts(level@)[k] by {
                    if k == before.len() {
                        assert(names[i as int] == texts(level@)[k]);
                    } else {
                        assert(before[k] == texts(level@)[k]);
                        let j = choose|j: int| 0 <= j < i && names[j] == before[k];
                        assert(names[j] == texts(level@)[k]);
                    }
                }
            }
        }
        i += 1;
    }
    proof {
        assert(names.take(n as int) =~= names);
        assert(texts(level@).to_set() =~= ready(edges, set));
        assert(rest@.dom() =~= set.difference(ready(edges, set)));
    }
    (level, rest)
}

proof fn lemma_waits_longer(edges: Seq<Edge>, from: Seq<char>, via: Seq<char>, to: Seq<char>)
    requires
        from == via || waits_for(edges, from, via),
        edges.contains((via, to)),
    ensures
        waits_for(edges, from, to),
{
    let p = if waits_for(edges, from, via) {
        choose|p: Seq<Seq<char>>| #[trigger] leads(edges, p, from, via)
    } else {
        seq![from]
    };
    let q = p.push(to);
    assert forall|i: int| 0 <= i < q.len() - 1 implies #[trigger] edges.contains((q[i], q[i + 1])) by {
        if i < p.len() - 1 {
            assert(edges.contains((p[i], p[i + 1])));
        }
    }
    assert(leads(edges, q, from, to));
}

proof fn lemma_path_stays(edges: Seq<Edge>, seen: Set<Seq<char>>, p: Seq<Seq<char>>, to: Seq<char>, i: int)
    requires
        leads(edges, p, p[0], to),
        forall|d: Seq<char>| edges.contains((p[0], d)) ==> seen.contains(d),
        forall|s: Seq<char>, d: Seq<char>| seen.contains(s) && #[trigger] edges.contains((s, d)) ==> seen.contains(d),
        1 <= i < p.len(),
    ensures
        seen.contains(p[i]),
    decreases i,
{
    assert(edges.contains((p[i - 1], p[i - 1 + 1])));
    if i > 1 {
        lemma_path_stays(edges, seen, p, to, i - 1);
    }
}

/// Whether a unit waits for itself.
fn waits_for_itself(deps: &StrMap<Vec<String>>, name: &str, Ghost(edges): Ghost<Seq<Edge>>) -> (r: bool)
    requires
        lists(deps@, edges),
        deps@.dom().finite(),
        deps@.contains_key(name@),
        forall|i: int| 0 <= i < edges.len() ==> deps@.contains_key((#[trigger] edges[i]).1),
    ensures
        r == waits_for(edges, name@, name@),
{
    let mut seen: StrMap<()> = StrMap::new();
    let mut todo: Vec<String> = match deps.get(name) {
        Some(l) => copy_all(l),
        None => Vec::new(),
    };
    proof {
        assert forall|d: Seq<char>| #[trigger] texts(todo@).contains(d) implies waits_for(edges, name@, d) by {
            assert(edges.contains((name@, d)));
            lemma_waits_longer(edges, name@, name@, d);
        }
        assert(seen@.dom() =~= Set::empty());
    }
    while todo.len() > 0
        invariant
            lists(deps@, edges),
            deps@.dom().finite(),
            forall|i: int| 0 <= i < edges.len() ==> deps@.contains_key((#[trigger] edges[i]).1),
            seen@.dom().subset_of(deps@.dom()),
            forall|d: Seq<char>| #[trigger] texts(todo@).contains(d) ==> waits_for(edges, name@, d),
            forall|d: Seq<char>| #[trigger] seen@.contains_key(d) ==> waits_for(edges, name@, d),
            forall|d: Seq<char>|
                edges.contains((name@, d)) ==> seen@.contains_key(d) || texts(todo@).contains(d),
            forall|s: Seq<char>, d: Seq<char>|
                seen@.contains_key(s) && #[trigger] edges.contains((s, d)) ==> seen@.contains_key(d) || texts(
                    todo@,
                ).contains(d),
        decreases deps@.dom().difference(seen@.dom()).len(), todo.len(),
    {
        let ghost before = texts(todo@);
        let ghost was = seen@.dom();
        let last: usize = todo.len() - 1;
        let d = todo.remove(last);
        proof {
            assert(before.contains(before[last as int]));
            assert(texts(todo@) =~= before.drop_last());
            assert forall|x: Seq<char>| before.contains(x) implies x == d@ || texts(todo@).contains(x) by {
                let k = choose|k: int| 0 <= k < before.len() && before[k] == x;
                if k < last {
                    assert(texts(todo@)[k] == x);
                }
            }
            assert forall|x: Seq<char>| #[trigger] texts(todo@).contains(x) implies before.contains(x) by {
                let k = choose|k: int| 0 <= k < todo@.len() && texts(todo@)[k] == x;
                assert(before[k] == x);
            }
        }
        if !seen.contains_key(d.as_str()) {
            let mut more = match deps.get(d.as_str()) {
                Some(l) => copy_all(l),
                None => Vec::new(),
            };
            let ghost popped = texts(todo@);
            let ghost added = texts(more@);
            proof {
                lemma_known(deps@, edges, name@, d@);
                assert forall|x: Seq<char>| added.contains(x) implies waits_for(edges, name@, x) by {
                    assert(edges.contains((d@, x)));
                    lemma_waits_longer(edges, name@, d@, x);
                }
            }
            todo.append(&mut more);
            proof {
                assert(texts(todo@) =~= popped + added);
                assert forall|x: Seq<char>| #[trigger] texts(todo@).contains(x) <==> popped.contains(x)
                    || added.contains(x) by {
                    if texts(todo@).contains(x) {
                        let k = choose|k: int| 0 <= k < todo@.len() && texts(todo@)[k] == x;
                        if k < popped.len() {
                            assert(popped[k] == x);
                        } else {
                            assert(added[k - popped.len()] == x);
                        }
                    }
                    if popped.contains(x) {
                        let k = choose|k: int| 0 <= k < popped.len() && popped[k] == x;
                        assert(texts(todo@)[k] == x);
                    }
                    if added.contains(x) {
                        let k = choose|k: int| 0 <= k < added.len() && added[k] == x;
                        assert(texts(todo@)[popped.len() + k] == x);
                    }
                }
            }
            seen.insert(d, ());
            proof {
                assert(seen@.dom() =~= was.insert(d@));
                let less = deps@.dom().difference(was.insert(d@));
                let more = deps@.dom().difference(was);
                assert(less =~= more.remove(d@));
                assert(more.contains(d@));
            }
        }
    }
    proof {
        if waits_for(edges, name@, name@) {
            let p = choose|p: Seq<Seq<char>>| #[trigger] leads(edges, p, name@, name@);
            lemma_path_stays(edges, seen@.dom(), p, name@, p.len() - 1);
        }
    }
    seen.contains_key(name)
}

proof fn lemma_known(deps: Map<Seq<char>, Seq<Seq<char>>>, edges: Seq<Edge>, from: Seq<char>, to: Seq<char>)
    requires
        waits_for(edges, from, to),
        forall|i: int| 0 <= i < edges.len() ==> deps.contains_key((#[trigger] edges[i]).1),
    ensures
        deps.contains_key(to),
{
    let p = choose|p: Seq<Seq<char>>| #[trigger] leads(edges, p, from, to);
    let i = p.len() - 2;
    assert(edges.contains((p[i], p[i + 1])));
    let k = choose|k: int| 0 <= k < edges.len() && edges[k] == (p[i], p[i + 1]);
    assert(deps.contains_key(edges[k].1));
}

/// The layered graph of a profile.
pub fn build(workspace: &Workspace, monad_name: &str) -> (r: Result<ProfileGraph, GraphError>)
    requires
        workspace.profiles@.contains_key(monad_name@),
        workspace.refs_resolve(monad_name@),
    ensures
        built(*workspace, monad_name@, r),
{
    let ghost units = profile_units(*workspace, monad_name@);
    let ghost names = names_of(units);
    let ghost edges = edges_of(units);
    let profile = match workspace.profiles.get(monad_name) {
        Some(p) => p,
        None => {
            return Err(GraphError::Cycle { monad: copy(monad_name), cycle: Vec::new() });
        },
    };
    let ghost refs = workspace.profiles@[monad_name@].units;
    assert(refs == texts(profile.units@));
    let mut deps: StrMap<Vec<String>> = StrMap::new();
    let mut left: StrMap<()> = StrMap::new();
    let mut i: usize = 0;
    proof {
        assert(left@.dom() =~= Set::empty());
        assert(deps@.dom() =~= Set::empty());
        assert(names_of(units.take(0)) =~= Set::empty());
    }
    while i < profile.units.len()
        invariant
            i <= profile.units@.len(),
            refs == texts(profile.units@),
            refs == workspace.profiles@[monad_name@].units,
            workspace.refs_resolve(monad_name@),
            units == profile_units(*workspace, monad_name@),
            left@.dom() == names_of(units.take(i as int)),
            deps@.dom() == left@.dom(),
            forall|n: Seq<char>| #[trigger] deps@.contains_key(n) ==> deps@[n] == Seq::<Seq<char>>::empty(),
        decreases profile.units.len() - i,
    {
        let unit_ref = profile.units[i].as_str();
        assert(unit_ref@ == refs[i as int]);
        if let Some(loaded) = workspace.unit_at(unit_ref) {
            let ghost name = loaded.config.name@;
            proof {
                assert(units[i as int] == workspace.unit(unit_ref@).config);
                lemma_names_push(units.take(i as int), units[i as int]);
            }
            left.insert(copy(loaded.config.name.as_str()), ());
            deps.insert(copy(loaded.config.name.as_str()), Vec::new());
            proof {
                assert(left@.dom() =~= names_of(units.take(i + 1)));
                assert(deps@.dom() =~= left@.dom());
            }
        }
        i += 1;
    }
    proof {
        assert(units.take(i as int) =~= units);
        assert(lists(deps@, Seq::<Edge>::empty()));
    }
    let mut i: usize = 0;
    assert(edges_of(units.take(0)) =~= Seq::<Edge>::empty());
    while i < profile.units.len()
        invariant
            i <= profile.units@.len(),
            refs == texts(profile.units@),
            refs == workspace.profiles@[monad_name@].units,
            workspace.refs_resolve(monad_name@),
            units == profile_units(*workspace, monad_name@),
            names == names_of(units),
            edges == edges_of(units),
            left@.dom() == names,
            deps@.dom() == names,
            lists(deps@, edges_of(units.take(i as int))),
            forall|k: int| 0 <= k < edges_of(units.take(i as int)).len() ==> names.contains(
                (#[trigger] edges_of(units.take(i as int))[k]).1,
            ),
        decreases profile.units.len() - i,
    {
        let unit_ref = profile.units[i].as_str();
        assert(unit_ref@ == refs[i as int]);
        if let Some(loaded) = workspace.unit_at(unit_ref) {
            let ghost u = units[i as int];
            let ghost out = unit_edges(u);
            let ghost done = edges_of(units.take(i as int));
            proof {
                assert(u == workspace.unit(unit_ref@).config);
                assert(u == loaded.config.deep_view());
                assert(names.contains(u.name)) by {
                    assert(units.map_values(|u: UnitModel| u.name)[i as int] == u.name);
                }
                assert(units.take(i + 1).drop_last() =~= units.take(i as int));
                assert(done + out.take(0) =~= done);
                lemma_edges_prefix(units, i + 1);
            }
            let mut j: usize = 0;
            while j < loaded.config.depends_on.len()
                invariant
                    i < profile.units@.len(),
                    j <= loaded.config.depends_on@.len(),
                    u == loaded.config.deep_view(),
                    out == unit_edges(u),
                    out.len() == loaded.config.depends_on@.len(),
                    names.contains(u.name),
                    names == names_of(units),
                    units == profile_units(*workspace, monad_name@),
                    edges == edges_of(units),
                    (done + out).is_prefix_of(edges),
                    left@.dom() == names,
                    deps@.dom() == names,
                    lists(deps@, done + out.take(j as int)),
                    forall|k: int| 0 <= k < (done + out.take(j as int)).len() ==> names.contains(
                        (#[trigger] (done + out.take(j as int))[k]).1,
                    ),
                decreases loaded.config.depends_on.len() - j,
            {
                let dep = loaded.config.depends_on[j].as_str();
                let ghost so_far = done + out.take(j as int);
                proof {
                    assert(out[j as int] == (u.name, dep@));
                }
                if !left.contains_key(dep) {
                    proof {
                        let at = so_far.len() as int;
                        assert((done + out)[at] == out[j as int]);
                        assert(edges[at] == (u.name, dep@));
                        assert forall|k: int| 0 <= k < at implies names.contains((#[trigger] edges[k]).1) by {
                            assert(edges[k] == (done + out)[k]);
                            assert((done + out)[k] == so_far[k]);
                        }
                        assert(first_unknown(edges, names, at));
                    }
                    return Err(
                        GraphError::UnknownDep {
                            monad: copy(monad_name),
                            unit: copy(loaded.config.name.as_str()),
                            missing: copy(dep),
                        },
                    );
                }
                let mut list = match deps.get(loaded.config.name.as_str()) {
                    Some(l) => copy_all(l),
                    None => Vec::new(),
                };
                list.push(copy(dep));
                proof {
                    lemma_lists_push(deps@, so_far, u.name, dep@);
                    assert(so_far.push(out[j as int]) =~= done + out.take(j + 1));
                }
                deps.insert(copy(loaded.config.name.as_str()), list);
                proof {
                    assert(deps@.dom() =~= names);
                    assert forall|k: int| 0 <= k < (done + out.take(j + 1)).len() implies names.contains(
                        (#[trigger] (done + out.take(j + 1))[k]).1,
                    ) by {
                        if k < so_far.len() {
                            assert((done + out.take(j + 1))[k] == so_far[k]);
                        } else {
                            assert((done + out.take(j + 1))[k] == (u.name, dep@));
                        }
                    }
                }
                j += 1;
            }
            proof {
                assert(out.take(j as int) =~= out);
                assert(edges_of(units.take(i + 1)) == done + out);
            }
        }
        i += 1;
    }
    proof {
        assert(units.take(i as int) =~= units);
        assert(names.finite());
    }
    let mut levels: Vec<Vec<String>> = Vec::new();
    let ghost ordered = |s: Set<Seq<char>>| in_order(s);
    let ghost goal = layers(edges, names).map_values(ordered);
    proof {
        assert(deep(levels@) + goal =~= goal);
    }
    loop
        invariant_except_break
            lists(deps@, edges),
            deps@.dom() == names,
            forall|n: Seq<char>| left@.contains_key(n) ==> deps@.contains_key(n),
            left@.dom().finite(),
            goal == layers(edges, names).map_values(ordered),
            ordered == |s: Set<Seq<char>>| in_order(s),
            deep(levels@) + layers(edges, left@.dom()).map_values(ordered) == goal,
            knot(edges, left@.dom()) == knot(edges, names),
        ensures
            left@.dom() == knot(edges, names),
            deep(levels@) == goal,
        decreases left@.dom().len(),
    {
        let ghost set = left@.dom();
        let (level, rest) = part(&deps, &left, Ghost(edges));
        let ghost first = ready(edges, set);
        proof {
            assert(first.finite());
        }
        if level.len() == 0 {
            proof {
                assert(texts(level@).to_set() =~= Set::empty());
                assert(layers(edges, set) =~= Seq::empty());
                assert(layers(edges, set).map_values(ordered) =~= Seq::empty());
                assert(deep(levels@) + Seq::<Seq<Seq<char>>>::empty() =~= deep(levels@));
            }
            break;
        }
        proof {
            assert(texts(level@).to_set().contains(texts(level@)[0]));
            assert(first.contains(texts(level@)[0]));
            assert(first.len() > 0) by {
                if first.len() == 0 {
                    assert(first =~= Set::empty());
                }
            }
            lemma_ready_shrinks(edges, set);
            lemma_in_order(texts(level@));
            let l = layers(edges, set.difference(first));
            assert((seq![first] + l).map_values(ordered) =~= seq![in_order(first)] + l.map_values(ordered));
            assert(deep(levels@).push(in_order(first)) + l.map_values(ordered) =~= deep(levels@) + (
            seq![in_order(first)] + l.map_values(ordered)));
            assert(level.deep_view() == in_order(first));
        }
        levels.push(level);
        left = rest;
    }
    let n = left.len();
    let ghost keys = left.keys();
    let mut cycle: Vec<String> = Vec::new();
    let mut i: usize = 0;
    proof {
        assert(texts(cycle@) =~= Seq::<Seq<char>>::empty());
        assert(edges_known(edges, names));
        law_levels_partition(edges, names);
    }
    while i < n
        invariant
            i <= n == keys.len(),
            keys == left.keys(),
            ascending(keys),
            keys.to_set() == left@.dom(),
            lists(deps@, edges),
            deps@.dom() == names,
            names.finite(),
            left@.dom().subset_of(names),
            edges_known(edges, names),
            texts(cycle@) == kept(edges, keys.take(i as int)),
        decreases n - i,
    {
        let name = left.key(i).as_str();
        proof {
            assert(keys.take(i + 1).drop_last() =~= keys.take(i as int));
            assert(keys.to_set().contains(keys[i as int]));
        }
        if waits_for_itself(&deps, name, Ghost(edges)) {
            cycle.push(copy(name));
        }
        i += 1;
    }
    proof {
        assert(keys.take(n as int) =~= keys);
        lemma_kept(edges, keys);
        law_only_cycles_are_left_over(edges, names);
        assert(texts(cycle@).to_set() =~= circular(edges, names));
        lemma_in_order(texts(cycle@));
    }
    if cycle.len() > 0 {
        proof {
            assert(texts(cycle@).to_set().contains(texts(cycle@)[0]));
        }
        return Err(GraphError::Cycle { monad: copy(monad_name), cycle });
    }
    proof {
        assert(texts(cycle@).to_set() =~= Set::empty());
    }
    Ok(ProfileGraph { monad: copy(monad_name), levels })
}

/// Whether every edge leads to one of `names`.
pub open spec fn edges_known(edges: Seq<Edge>, names: Set<Seq<char>>) -> bool {
    forall|i: int| 0 <= i < edges.len() ==> names.contains((#[trigger] edges[i]).1)
}

/// Those of some units that wait for themselves.
spec fn kept(edges: Seq<Edge>, units: Seq<Seq<char>>) -> Seq<Seq<char>>
    decreases units.len(),
{
    if units.len() == 0 {
        Seq::empty()
    } else if waits_for(edges, units.last(), units.last()) {
        kept(edges, units.drop_last()).push(units.last())
    } else {
        kept(edges, units.drop_last())
    }
}

proof fn lemma_kept(edges: Seq<Edge>, units: Seq<Seq<char>>)
    requires
        ascending(units),
    ensures
        ascending(kept(edges, units)),
        forall|n: Seq<char>| #[trigger]
            kept(edges, units).contains(n) <==> units.contains(n) && waits_for(edges, n, n),
    decreases units.len(),
{
    let r = kept(edges, units);
    if units.len() > 0 {
        let before = units.drop_last();
        let b = kept(edges, before);
        lemma_kept(edges, before);
        let last = units.last();
        assert forall|n: Seq<char>| units.contains(n) <==> before.contains(n) || n == last by {
            if units.contains(n) {
                let k = choose|k: int| 0 <= k < units.len() && units[k] == n;
                if k < before.len() {
                    assert(before[k] == n);
                }
            }
            if before.contains(n) {
                let k = choose|k: int| 0 <= k < before.len() && before[k] == n;
                assert(units[k] == n);
            }
            assert(units[units.len() - 1] == last);
        }
        if waits_for(edges, last, last) {
            assert forall|n: Seq<char>| r.contains(n) <==> b.contains(n) || n == last by {
                if r.contains(n) {
                    let k = choose|k: int| 0 <= k < r.len() && r[k] == n;
                    if k < b.len() {
                        assert(b[k] == n);
                    }
                }
                if b.contains(n) {
                    let k = choose|k: int| 0 <= k < b.len() && b[k] == n;
                    assert(r[k] == n);
                }
                assert(r[b.len() as int] == last);
            }
            assert forall|i: int, j: int| 0 <= i < j < r.len() implies crate::order::less(#[trigger] r[i], #[trigger] r[j]) by {
                if j == b.len() {
                    assert(b.contains(r[i]));
                    let k = choose|k: int| 0 <= k < before.len() && before[k] == r[i];
                    assert(crate::order::less(units[k], units[units.len() - 1]));
                } else {
                    assert(r[i] == b[i] && r[j] == b[j]);
                }
            }
        }
    }
}

/// The units that wait for themselves are all left over by the layering, and where units are left
/// over, some wait for themselves: the layering is complete exactly where no unit waits for itself.
pub proof fn law_only_cycles_are_left_over(edges: Seq<Edge>, names: Set<Seq<char>>)
    requires
        names.finite(),
        edges_known(edges, names),
    ensures
        circular(edges, names).subset_of(knot(edges, names)),
        circular(edges, names) == Set::<Seq<char>>::empty() ==> knot(edges, names) == Set::<Seq<char>>::empty(),
{
    assert forall|n: Seq<char>| circular(edges, names).contains(n) implies knot(edges, names).contains(n) by {
        let p = choose|p: Seq<Seq<char>>| #[trigger] leads(edges, p, n, n);
        let c = p.drop_last();
        assert forall|i: int| 0 <= i < c.len() - 1 implies #[trigger] edges.contains((c[i], c[i + 1])) by {
            assert(edges.contains((p[i], p[i + 1])));
        }
        assert(edges.contains((p[p.len() - 2], p[p.len() - 2 + 1])));
        assert(is_cycle(edges, c));
        assert forall|m: Seq<char>| c.to_set().contains(m) implies names.contains(m) by {
            let i = choose|i: int| 0 <= i < c.len() && c[i] == m;
            if i > 0 {
                assert(edges.contains((p[i - 1], p[i - 1 + 1])));
                let k = choose|k: int| 0 <= k < edges.len() && edges[k] == (p[i - 1], p[i]);
                assert(names.contains(edges[k].1));
            }
        }
        law_cycles_are_left_over(edges, names, c);
        assert(c.to_set().contains(c[0]));
    }
    if knot(edges, names) != Set::<Seq<char>>::empty() {
        law_leftover_holds_a_cycle(edges, names);
        let c = choose|c: Seq<Seq<char>>| #[trigger] is_cycle(edges, c) && c.to_set().subset_of(knot(edges, names));
        law_cycle_members_wait_for_themselves(edges, c, 0);
        law_levels_partition(edges, names);
        assert(c.to_set().contains(c[0]));
        assert(names.contains(c[0]));
        assert(circular(edges, names).contains(c[0]));
    }
}

/// Each unit of a circle waits for itself.
pub proof fn law_cycle_members_wait_for_themselves(edges: Seq<Edge>, c: Seq<Seq<char>>, i: int)
    requires
        is_cycle(edges, c),
        0 <= i < c.len(),
    ensures
        waits_for(edges, c[i], c[i]),
{
    let p = c.subrange(i, c.len() as int) + c.subrange(0, i + 1);
    let n = c.len() - i;
    assert forall|k: int| 0 <= k < p.len() - 1 implies #[trigger] edges.contains((p[k], p[k + 1])) by {
        if k < n - 1 {
            assert(edges.contains((c[i + k], c[i + k + 1])));
        } else if k == n - 1 {
            assert(p[k] == c.last() && p[k + 1] == c[0]);
        } else {
            assert(edges.contains((c[k - n], c[k - n + 1])));
        }
    }
    assert(leads(edges, p, c[i], c[i]));
}

proof fn lemma_names_push(units: Seq<UnitModel>, u: UnitModel)
    ensures
        names_of(units.push(u)) == names_of(units).insert(u.name),
{
    let f = |u: UnitModel| u.name;
    let a = units.map_values(f);
    let b = units.push(u).map_values(f);
    assert(b =~= a.push(u.name));
    assert forall|s: Seq<char>| b.to_set().contains(s) <==> a.to_set().insert(u.name).contains(s) by {
        if a.contains(s) {
            let k = choose|k: int| 0 <= k < a.len() && a[k] == s;
            assert(b[k] == s);
        }
        assert(b[a.len() as int] == u.name);
    }
    assert(b.to_set() =~= a.to_set().insert(u.name));
}

proof fn lemma_edges_prefix(units: Seq<UnitModel>, i: int)
    requires
        0 <= i <= units.len(),
    ensures
        edges_of(units.take(i)).is_prefix_of(edges_of(units)),
    decreases units.len() - i,
{
    if i < units.len() {
        lemma_edges_prefix(units, i + 1);
        assert(units.take(i + 1).drop_last() =~= units.take(i));
        let a = edges_of(units.take(i));
        let b = edges_of(units.take(i + 1));
        assert(a =~= b.subrange(0, a.len() as int));
        assert(a =~= edges_of(units).subrange(0, a.len() as int));
    } else {
        assert(units.take(i) =~= units);
        assert(edges_of(units) =~= edges_of(units).subrange(0, edges_of(units).len() as int));
    }
}

/// Each unit stands in at most one level, and each unit of the profile in one unless it is left
/// over.
pub proof fn law_levels_partition(edges: Seq<Edge>, left: Set<Seq<char>>)
    requires
        left.finite(),
    ensures
        forall|i: int, j: int|
            0 <= i < j < layers(edges, left).len() ==> (#[trigger] layers(edges, left)[i]).disjoint(
                #[trigger] layers(edges, left)[j],
            ),
        forall|i: int|
            0 <= i < layers(edges, left).len() ==> (#[trigger] layers(edges, left)[i]).disjoint(
                knot(edges, left),
            ),
        forall|n: Seq<char>|
            left.contains(n) <==> knot(edges, left).contains(n) || exists|i: int|
                0 <= i < layers(edges, left).len() && (#[trigger] layers(edges, left)[i]).contains(n),
    decreases left.len(),
{
    let first = ready(edges, left);
    if first.len() > 0 {
        lemma_ready_shrinks(edges, left);
        let rest = left.difference(first);
        law_levels_partition(edges, rest);
        let ls = layers(edges, left);
        let tail = layers(edges, rest);
        assert(ls =~= seq![first] + tail);
        assert forall|n: Seq<char>| rest.contains(n) implies !first.contains(n) by {}
        assert forall|i: int, j: int| 0 <= i < j < ls.len() implies (#[trigger] ls[i]).disjoint(
            #[trigger] ls[j],
        ) by {
            assert(ls[j] == tail[j - 1]);
            if i > 0 {
                assert(ls[i] == tail[i - 1]);
            } else {
                assert forall|n: Seq<char>| !(first.contains(n) && tail[j - 1].contains(n)) by {
                    if tail[j - 1].contains(n) {
                        assert(rest.contains(n));
                    }
                }
            }
        }
        assert forall|i: int| 0 <= i < ls.len() implies (#[trigger] ls[i]).disjoint(knot(edges, left)) by {
            if i > 0 {
                assert(ls[i] == tail[i - 1]);
            } else {
                assert forall|n: Seq<char>| !(first.contains(n) && knot(edges, rest).contains(n)) by {
                    if knot(edges, rest).contains(n) {
                        assert(rest.contains(n));
                    }
                }
            }
        }
        assert forall|n: Seq<char>|
            left.contains(n) <==> knot(edges, left).contains(n) || exists|i: int|
                0 <= i < ls.len() && (#[trigger] ls[i]).contains(n) by {
            if left.contains(n) {
                if first.contains(n) {
                    assert(ls[0].contains(n));
                } else {
                    assert(rest.contains(n));
                    if !knot(edges, rest).contains(n) {
                        let k = choose|k: int| 0 <= k < tail.len() && (#[trigger] tail[k]).contains(n);
                        assert(ls[k + 1].contains(n));
                    }
                }
            } else {
                if exists|i: int| 0 <= i < ls.len() && (#[trigger] ls[i]).contains(n) {
                    let k = choose|k: int| 0 <= k < ls.len() && (#[trigger] ls[k]).contains(n);
                    if k > 0 {
                        assert(tail[k - 1].contains(n));
                        assert(rest.contains(n));
                    } else {
                        assert(first.contains(n));
                    }
                }
                if knot(edges, left).contains(n) {
                    assert(rest.contains(n));
                }
            }
        }
    }
}

/// A unit stands in a later level than each unit it waits for.
pub proof fn law_dependencies_come_first(edges: Seq<Edge>, left: Set<Seq<char>>, n: Seq<char>, d: Seq<char>, j: int)
    requires
        left.finite(),
        edges.contains((n, d)),
        left.contains(d),
        0 <= j < layers(edges, left).len(),
        layers(edges, left)[j].contains(n),
    ensures
        exists|i: int| 0 <= i < j && (#[trigger] layers(edges, left)[i]).contains(d),
    decreases left.len(),
{
    let first = ready(edges, left);
    lemma_ready_shrinks(edges, left);
    let rest = left.difference(first);
    let tail = layers(edges, rest);
    let ls = layers(edges, left);
    assert(ls =~= seq![first] + tail);
    if j == 0 {
        assert(free(edges, left, n));
        assert(false);
    } else if first.contains(d) {
        assert(ls[0].contains(d));
    } else {
        assert(tail[j - 1].contains(n));
        law_dependencies_come_first(edges, rest, n, d, j - 1);
        let i = choose|i: int| 0 <= i < j - 1 && (#[trigger] tail[i]).contains(d);
        assert(ls[i + 1].contains(d));
    }
}

/// Each unit of the set waits for a unit of the set.
pub open spec fn knotted(edges: Seq<Edge>, s: Set<Seq<char>>) -> bool {
    forall|n: Seq<char>| #[trigger]
        s.contains(n) ==> exists|d: Seq<char>| s.contains(d) && #[trigger] edges.contains((n, d))
}

/// The units left over are the largest set in which each unit waits for one of the set.
pub proof fn law_leftover_is_largest_knot(edges: Seq<Edge>, left: Set<Seq<char>>)
    requires
        left.finite(),
    ensures
        knotted(edges, knot(edges, left)),
        forall|s: Set<Seq<char>>|
            s.subset_of(left) && #[trigger] knotted(edges, s) ==> s.subset_of(knot(edges, left)),
    decreases left.len(),
{
    let first = ready(edges, left);
    if first.len() > 0 {
        lemma_ready_shrinks(edges, left);
        let rest = left.difference(first);
        law_leftover_is_largest_knot(edges, rest);
        assert forall|s: Set<Seq<char>>| s.subset_of(left) && #[trigger] knotted(
            edges,
            s,
        ) implies s.subset_of(knot(edges, left)) by {
            assert forall|n: Seq<char>| s.contains(n) implies rest.contains(n) by {
                let d = choose|d: Seq<char>| s.contains(d) && #[trigger] edges.contains((n, d));
                assert(left.contains(d));
                assert(!free(edges, left, n));
            }
        }
    } else {
        assert(first.finite());
        assert forall|n: Seq<char>| #[trigger] left.contains(n) implies exists|d: Seq<char>|
            left.contains(d) && #[trigger] edges.contains((n, d)) by {
            if free(edges, left, n) {
                assert(first.contains(n));
                assert(first.len() > 0) by {
                    if first.len() == 0 {
                        assert(first =~= Set::empty());
                    }
                }
            }
        }
    }
}

/// Whether each unit of `c` waits for the next, and the last for the first.
pub open spec fn is_cycle(edges: Seq<Edge>, c: Seq<Seq<char>>) -> bool {
    &&& c.len() > 0
    &&& forall|i: int| 0 <= i < c.len() - 1 ==> #[trigger] edges.contains((c[i], c[i + 1]))
    &&& edges.contains((c.last(), c[0]))
}

/// Units that wait for one another in a circle are all left over.
pub proof fn law_cycles_are_left_over(edges: Seq<Edge>, left: Set<Seq<char>>, c: Seq<Seq<char>>)
    requires
        left.finite(),
        is_cycle(edges, c),
        c.to_set().subset_of(left),
    ensures
        c.to_set().subset_of(knot(edges, left)),
{
    let s = c.to_set();
    assert forall|n: Seq<char>| #[trigger] s.contains(n) implies exists|d: Seq<char>|
        s.contains(d) && #[trigger] edges.contains((n, d)) by {
        let i = choose|i: int| 0 <= i < c.len() && c[i] == n;
        if i < c.len() - 1 {
            assert(edges.contains((c[i], c[i + 1])));
            assert(s.contains(c[i + 1]));
        } else {
            assert(s.contains(c[0]));
        }
    }
    assert(knotted(edges, s));
    law_leftover_is_largest_knot(edges, left);
}

spec fn step(edges: Seq<Edge>, s: Set<Seq<char>>, n: Seq<char>) -> Seq<char> {
    choose|d: Seq<char>| s.contains(d) && #[trigger] edges.contains((n, d))
}

spec fn walk(edges: Seq<Edge>, s: Set<Seq<char>>, n: Seq<char>, k: nat) -> Seq<Seq<char>>
    decreases k,
{
    if k == 0 {
        seq![n]
    } else {
        let w = walk(edges, s, n, (k - 1) as nat);
        w.push(step(edges, s, w.last()))
    }
}

proof fn lemma_walk(edges: Seq<Edge>, s: Set<Seq<char>>, n: Seq<char>, k: nat)
    requires
        knotted(edges, s),
        s.contains(n),
    ensures
        walk(edges, s, n, k).len() == k + 1,
        walk(edges, s, n, k).to_set().subset_of(s),
        forall|i: int|
            0 <= i < k ==> #[trigger] edges.contains((walk(edges, s, n, k)[i], walk(edges, s, n, k)[i + 1])),
    decreases k,
{
    let w = walk(edges, s, n, k);
    if k > 0 {
        let v = walk(edges, s, n, (k - 1) as nat);
        lemma_walk(edges, s, n, (k - 1) as nat);
        assert(v.to_set().contains(v.last()));
        assert(s.contains(v.last()));
        let d = step(edges, s, v.last());
        assert(s.contains(d) && edges.contains((v.last(), d)));
        assert forall|m: Seq<char>| w.to_set().contains(m) implies s.contains(m) by {
            let i = choose|i: int| 0 <= i < w.len() && w[i] == m;
            if i < v.len() {
                assert(v[i] == m);
                assert(v.to_set().contains(m));
            }
        }
        assert forall|i: int| 0 <= i < k implies #[trigger] edges.contains((w[i], w[i + 1])) by {
            if i < k - 1 {
                assert(edges.contains((v[i], v[i + 1])));
            }
        }
    } else {
        assert forall|m: Seq<char>| w.to_set().contains(m) implies s.contains(m) by {
            let i = choose|i: int| 0 <= i < w.len() && w[i] == m;
        }
    }
}

/// Where units are left over, some of them wait for one another in a circle.
pub proof fn law_leftover_holds_a_cycle(edges: Seq<Edge>, left: Set<Seq<char>>)
    requires
        left.finite(),
        knot(edges, left) != Set::<Seq<char>>::empty(),
    ensures
        exists|c: Seq<Seq<char>>| #[trigger] is_cycle(edges, c) && c.to_set().subset_of(knot(edges, left)),
{
    let s = knot(edges, left);
    law_leftover_is_largest_knot(edges, left);
    law_levels_partition(edges, left);
    assert(s.subset_of(left));
    vstd::set_lib::lemma_len_subset(s, left);
    let n = choose|n: Seq<char>| s.contains(n);
    if forall|m: Seq<char>| !s.contains(m) {
        assert(s =~= Set::empty());
    }
    let k = s.len();
    let w = walk(edges, s, n, k);
    lemma_walk(edges, s, n, k);
    if w.no_duplicates() {
        w.unique_seq_to_set();
        vstd::set_lib::lemma_len_subset(w.to_set(), s);
        assert(false);
    }
    let (i, j) = choose|i: int, j: int| 0 <= i < w.len() && 0 <= j < w.len() && i != j && w[i] == w[j];
    let (a, b) = if i < j {
        (i, j)
    } else {
        (j, i)
    };
    let c = w.subrange(a, b);
    assert forall|l: int| 0 <= l < c.len() - 1 implies #[trigger] edges.contains((c[l], c[l + 1])) by {
        assert(edges.contains((w[a + l], w[a + l + 1])));
    }
    assert(edges.contains((w[b - 1], w[b - 1 + 1])));
    assert(c.last() == w[b - 1] && c[0] == w[b]);
    assert(is_cycle(edges, c));
    assert forall|m: Seq<char>| c.to_set().contains(m) implies s.contains(m) by {
        let l = choose|l: int| 0 <= l < c.len() && c[l] == m;
        assert(w[a + l] == m);
        assert(w.to_set().contains(m));
    }
}

/// There is an edge for each dependency that a unit declares, and no other.
pub proof fn law_edges_are_dependencies(units: Seq<UnitModel>, n: Seq<char>, d: Seq<char>)
    ensures
        edges_of(units).contains((n, d)) <==> exists|i: int|
            0 <= i < units.len() && (#[trigger] units[i]).name == n && units[i].depends_on.contains(d),
    decreases units.len(),
{
    if units.len() > 0 {
        let rest = units.drop_last();
        let before = edges_of(rest);
        let u = units.last();
        let last = unit_edges(u);
        let all = edges_of(units);
        law_edges_are_dependencies(rest, n, d);
        assert(units[units.len() - 1] == u);
        if before.contains((n, d)) {
            let k = choose|k: int| 0 <= k < before.len() && before[k] == (n, d);
            assert(all[k] == (n, d));
            let i = choose|i: int|
                0 <= i < rest.len() && (#[trigger] rest[i]).name == n && rest[i].depends_on.contains(d);
            assert(units[i] == rest[i]);
        }
        if u.name == n && u.depends_on.contains(d) {
            let k = choose|k: int| 0 <= k < u.depends_on.len() && u.depends_on[k] == d;
            assert(last[k] == (n, d));
            assert(all[before.len() + k] == (n, d));
        }
        if all.contains((n, d)) {
            let k = choose|k: int| 0 <= k < all.len() && all[k] == (n, d);
            if k < before.len() {
                assert(before[k] == (n, d));
            } else {
                assert(last[k - before.len()] == (n, d));
                assert(u.depends_on[k - before.len()] == d);
            }
        }
        if exists|i: int| 0 <= i < units.len() && (#[trigger] units[i]).name == n && units[i].depends_on.contains(d) {
            let i = choose|i: int|
                0 <= i < units.len() && (#[trigger] units[i]).name == n && units[i].depends_on.contains(d);
            if i < rest.len() {
                assert(rest[i] == units[i]);
            }
        }
    }
}

/// Units run as early as they can: each unit of a level but the first waits for one of the level before it.
pub proof fn law_units_run_as_early_as_they_can(edges: Seq<Edge>, left: Set<Seq<char>>, n: Seq<char>, j: int)
    requires
        left.finite(),
        0 < j < layers(edges, left).len(),
        layers(edges, left)[j].contains(n),
    ensures
        exists|d: Seq<char>| edges.contains((n, d)) && #[trigger] layers(edges, left)[j - 1].contains(d),
    decreases left.len(),
{
    let first = ready(edges, left);
    lemma_ready_shrinks(edges, left);
    let rest = left.difference(first);
    let ls = layers(edges, left);
    let tail = layers(edges, rest);
    assert(ls[j] == tail[j - 1]);
    if j == 1 {
        assert(tail[0] == ready(edges, rest));
        assert(rest.contains(n) && !first.contains(n));
        assert(!free(edges, left, n));
        let d = choose|d: Seq<char>| edges.contains((n, d)) && #[trigger] left.contains(d);
        assert(free(edges, rest, n));
        assert(!rest.contains(d));
        assert(first.contains(d));
        assert(ls[0] == first);
    } else {
        law_units_run_as_early_as_they_can(edges, rest, n, j - 1);
        let d = choose|d: Seq<char>| edges.contains((n, d)) && #[trigger] tail[j - 1 - 1].contains(d);
        assert(ls[j - 1] == tail[j - 2]);
        assert(ls[j - 1].contains(d));
    }
}

} // verus!
