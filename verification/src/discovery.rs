//! Units that lie in the workspace and belong to no profile.
use vstd::prelude::*;

use crate::config::Workspace;
use crate::deep::{deep, filter_map, lemma_filter_map_next};
use crate::execute::names_of;
use crate::order::in_order;
use crate::path::{components, path_components, path_less};
use crate::pathset::{contains_path, has_path, path_set, set_of_paths};
use crate::text::{copy, same, texts};

verus! {

broadcast use {crate::deep::group_deep, crate::deep::lemma_take_next, crate::deep::lemma_take_all};

/// Whether a directory of that name is never looked into: it holds what tools write.
pub open spec fn noise(name: Seq<char>) -> bool {
    name == "target"@ || name == "node_modules"@ || name == ".git"@ || name == ".monad"@ || name == "dist"@
        || name == "build"@ || name == ".next"@
}

/// Whether a directory of that name is never looked into.
pub fn is_noise_dir(name: &str) -> (r: bool)
    ensures
        r == noise(name@),
{
    same(name, "target") || same(name, "node_modules") || same(name, ".git") || same(name, ".monad") || same(
        name,
        "dist",
    ) || same(name, "build") || same(name, ".next")
}

/// Whether a path leads through a directory that is never looked into.
pub open spec fn in_noise(path: Seq<char>) -> bool {
    exists|i: int| 0 <= i < components(path).len() && noise(#[trigger] components(path)[i])
}

fn leads_through_noise(path: &str) -> (r: bool)
    ensures
        r == in_noise(path@),
{
    let c = path_components(path);
    let mut i: usize = 0;
    while i < c.len()
        invariant
            i <= c@.len(),
            texts(c@) == components(path@),
            forall|j: int| 0 <= j < i ==> !noise(#[trigger] components(path@)[j]),
        decreases c.len() - i,
    {
        if is_noise_dir(c[i].as_str()) {
            assert(noise(components(path@)[i as int]));
            return true;
        }
        i += 1;
    }
    false
}

/// The directory, where it is an orphan.
pub open spec fn orphan(wired: Seq<Seq<char>>) -> spec_fn(Seq<char>) -> Option<Seq<char>> {
    |d: Seq<char>|
        if d.len() == 0 || in_noise(d) || has_path(wired, d) {
            None
        } else {
            Some(d)
        }
}

/// The directories that are orphans: not the workspace itself, not below what tools write, and not
/// wired.
pub open spec fn orphans_among(found: Seq<Seq<char>>, wired: Seq<Seq<char>>) -> Seq<Seq<char>> {
    path_set(filter_map(found, orphan(wired)))
}

/// The directories that are orphans; in order, and each once. `found` holds the directories with a
/// `unit.toml`, as seen from the workspace.
pub fn scan_orphans(found: &Vec<String>, wired_paths: &Vec<String>) -> (r: Vec<String>)
    ensures
        r.deep_view() == orphans_among(found.deep_view(), wired_paths.deep_view()),
{
    let ghost all = deep(found@);
    let ghost f = orphan(deep(wired_paths@));
    let mut r: Vec<String> = Vec::new();
    let mut i: usize = 0;
    while i < found.len()
        invariant
            i <= found@.len(),
            all == deep(found@),
            f == orphan(deep(wired_paths@)),
            deep(r@) == filter_map(all.take(i as int), f),
        decreases found.len() - i,
    {
        let d = found[i].as_str();
        proof {
            lemma_filter_map_next(all, f, i as int);
        }
        if !d.is_empty() && !leads_through_noise(d) && !contains_path(wired_paths, d) {
            r.push(copy(d));
        }
        i += 1;
    }
    set_of_paths(&r)
}

/// The orphans of a workspace.
pub fn scan_orphan_unites(workspace: &Workspace, found: &Vec<String>) -> (r: Vec<String>)
    ensures
        r.deep_view() == orphans_among(found.deep_view(), in_order(workspace.units_by_path@.dom())),
{
    let wired = names_of(&workspace.units_by_path);
    scan_orphans(found, &wired)
}

proof fn lemma_kept(found: Seq<Seq<char>>, wired: Seq<Seq<char>>)
    ensures
        forall|d: Seq<char>| #[trigger] filter_map(found, orphan(wired)).contains(d) <==> found.contains(d)
            && d.len() > 0 && !in_noise(d) && !has_path(wired, d),
    decreases found.len(),
{
    let f = orphan(wired);
    let r = filter_map(found, f);
    if found.len() > 0 {
        let rest = found.drop_last();
        let before = filter_map(rest, f);
        lemma_kept(rest, wired);
        assert forall|d: Seq<char>| #[trigger] r.contains(d) <==> found.contains(d) && d.len() > 0 && !in_noise(d)
            && !has_path(wired, d) by {
            assert(before.contains(d) <==> rest.contains(d) && d.len() > 0 && !in_noise(d) && !has_path(wired, d));
            assert(found.contains(d) <==> rest.contains(d) || d == found.last()) by {
                if found.contains(d) {
                    let i = choose|i: int| 0 <= i < found.len() && found[i] == d;
                    if i < rest.len() {
                        assert(rest[i] == d);
                    }
                }
                if rest.contains(d) {
                    let i = choose|i: int| 0 <= i < rest.len() && rest[i] == d;
                    assert(found[i] == d);
                }
                if d == found.last() {
                    assert(found[found.len() - 1] == d);
                }
            }
            if f(found.last()) is Some {
                assert(r == before.push(found.last()));
                if before.contains(d) {
                    let i = choose|i: int| 0 <= i < before.len() && before[i] == d;
                    assert(r[i] == d);
                }
                if d == found.last() {
                    assert(r[r.len() - 1] == d);
                }
            }
        }
    }
}

/// The orphans are in order, no two are the same path, and each is a directory that was found, is
/// not wired and is not below what tools write; no other such directory is missing.
pub proof fn law_orphans(found: Seq<Seq<char>>, wired: Seq<Seq<char>>)
    ensures
        ({
            let r = orphans_among(found, wired);
            &&& forall|i: int, j: int| 0 <= i < j < r.len() ==> path_less(#[trigger] r[i], #[trigger] r[j])
            &&& forall|d: Seq<char>| #[trigger] r.contains(d) ==> found.contains(d) && !has_path(wired, d)
                && !in_noise(d)
            &&& forall|d: Seq<char>|
                #![trigger found.contains(d)]
                found.contains(d) && d.len() > 0 && !in_noise(d) && !has_path(wired, d) ==> has_path(r, d)
        }),
{
    let kept = filter_map(found, orphan(wired));
    let r = orphans_among(found, wired);
    lemma_kept(found, wired);
    crate::pathset::law_path_set(kept);
    assert forall|d: Seq<char>| #[trigger] r.contains(d) implies found.contains(d) && !has_path(wired, d)
        && !in_noise(d) by {
        assert(kept.contains(d));
    }
    assert forall|d: Seq<char>|
        #![trigger found.contains(d)]
        found.contains(d) && d.len() > 0 && !in_noise(d) && !has_path(wired, d) implies has_path(r, d) by {
        assert(kept.contains(d));
        let i = choose|i: int| 0 <= i < kept.len() && kept[i] == d;
        assert(components(kept[i]) == components(d));
        assert(has_path(kept, d));
    }
}

/// What tools write is never looked into: build outputs, installed dependencies, and the directories of git
/// and of this tool.
pub proof fn law_what_is_never_looked_into(path: Seq<char>, i: int)
    requires
        0 <= i < components(path).len(),
    ensures
        components(path)[i] == "target"@ || components(path)[i] == "node_modules"@ || components(path)[i] == ".git"@
            || components(path)[i] == ".monad"@ || components(path)[i] == "dist"@ || components(path)[i] == "build"@
            || components(path)[i] == ".next"@ ==> in_noise(path),
{
}

} // verus!
