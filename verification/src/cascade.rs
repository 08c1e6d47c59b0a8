//! Signatures of units, and how they carry changes to dependents.
//!
//! The effective signature of a unit takes in its own content and the effective signatures of the
//! units it depends on, so that a change anywhere below a unit shows in the unit's signature. A unit
//! that is forced to be independent is signed by its own content alone.
use vstd::prelude::*;

use crate::config::{AdapterFacts, AdapterFactsModel, LoadedUnitModel, UnitConfig, UnitModel, Workspace};
use crate::deep::deep;
use crate::digest::{blake3_of, digest, hex_of, is_hex_digit, law_hex_of, le_bytes, push_bytes, push_text, push_u64, to_hex, utf8};
use crate::globs::{build_matcher, globs_compile, globs_fail, matching, select, GlobError};
use crate::graph::{flat, ProfileGraph};
use crate::sort::{path_before, sort_by, sort_texts, text_before};
use crate::strmap::StrMap;
use crate::text::{cat3, cat5, contains, copy, copy_all};

verus! {

broadcast use {crate::deep::group_deep, crate::deep::lemma_take_next, crate::deep::lemma_take_all};

/// The digest of a unit's effective content.
pub type UnitSig = [u8; 32];

/// The lower-case hexadecimal form of a signature.
pub fn sig_to_hex(sig: &UnitSig) -> (r: String)
    ensures
        r@ == hex_of(sig@),
        r@.len() == 64,
        forall|i: int| 0 <= i < 64 ==> is_hex_digit(#[trigger] r@[i]),
{
    proof {
        law_hex_of(sig@, sig@);
    }
    to_hex(sig.as_slice())
}

/// A file of a unit.
#[derive(Debug)]
pub struct SourceFile {
    /// Its path from the unit's directory.
    pub rel: String,
    pub content: Vec<u8>,
}

#[verifier::ext_equal]
pub struct SourceFileModel {
    pub rel: Seq<char>,
    pub content: Seq<u8>,
}

impl DeepView for SourceFile {
    type V = SourceFileModel;

    open spec fn deep_view(&self) -> SourceFileModel {
        SourceFileModel { rel: self.rel@, content: self.content@ }
    }
}

/// The texts of `a`, then those of `b` that are not there yet.
pub open spec fn union_of(a: Seq<Seq<char>>, b: Seq<Seq<char>>) -> Seq<Seq<char>>
    decreases b.len(),
{
    if b.len() == 0 {
        a
    } else {
        let before = union_of(a, b.drop_last());
        if before.contains(b.last()) {
            before
        } else {
            before.push(b.last())
        }
    }
}

/// The texts of `a`, then those of `b` that are not there yet.
pub fn union(a: &Vec<String>, b: &Vec<String>) -> (r: Vec<String>)
    ensures
        r.deep_view() == union_of(a.deep_view(), b.deep_view()),
{
    let mut r = copy_all(a);
    let ghost all = deep(b@);
    let mut i: usize = 0;
    while i < b.len()
        invariant
            i <= b@.len(),
            all == deep(b@),
            deep(r@) == union_of(deep(a@), all.take(i as int)),
        decreases b.len() - i,
    {
        proof {
            assert(all.take(i + 1).drop_last() =~= all.take(i as int));
        }
        if !contains(&r, b[i].as_str()) {
            r.push(copy(b[i].as_str()));
        }
        i += 1;
    }
    r
}

/// The globs that say which files belong to a unit's content.
pub open spec fn content_globs(u: UnitModel, adapter: Option<AdapterFactsModel>) -> Seq<Seq<char>> {
    match adapter {
        Some(a) => union_of(u.inputs, a.fingerprint_files),
        None => u.inputs,
    }
}

/// The globs of what an adapter writes.
pub open spec fn derived_globs(adapter: Option<AdapterFactsModel>) -> Seq<Seq<char>> {
    match adapter {
        Some(a) => a.derived_paths,
        None => Seq::empty(),
    }
}

/// Which globs do not make a set, and why.
#[derive(Debug)]
pub enum ContentError {
    /// Those of the unit's content.
    Content(GlobError),
    /// Those of what its adapter writes.
    Derived(GlobError),
}

impl ContentError {
    /// What the globs are called.
    pub fn what(&self) -> (r: &'static str)
        ensures
            r@ == (match self {
                ContentError::Content(_) => "dep-sig"@,
                ContentError::Derived(_) => "derived-paths"@,
            }),
    {
        match self {
            ContentError::Content(_) => "dep-sig",
            ContentError::Derived(_) => "derived-paths",
        }
    }
}

/// The files of a unit that go into its signature, in order. `walked` holds the paths of all files
/// in the unit's directory; it is `None` where there is no such directory.
pub fn content_files(
    unit: &UnitConfig,
    adapter: Option<&AdapterFacts>,
    walked: Option<&Vec<String>>,
) -> (r: Result<Vec<String>, ContentError>)
    ensures
        ({
            let globs = content_globs(unit.deep_view(), adapter.deep_view());
            let derived = derived_globs(adapter.deep_view());
            match walked.deep_view() {
                Some(paths) if globs.len() > 0 => match r {
                    Ok(v) => {
                        &&& globs_compile(globs)
                        &&& derived.len() > 0 ==> globs_compile(derived)
                        &&& v.deep_view() == sort_by(matching(paths, globs, derived), path_before())
                    },
                    Err(ContentError::Content(e)) => !globs_compile(globs) && globs_fail(globs, e),
                    Err(ContentError::Derived(e)) => {
                        &&& globs_compile(globs)
                        &&& derived.len() > 0
                        &&& !globs_compile(derived)
                        &&& globs_fail(derived, e)
                    },
                },
                _ => r matches Ok(v) && v.deep_view() == Seq::<Seq<char>>::empty(),
            }
        }),
{
    let globs = match adapter {
        Some(a) => union(&unit.inputs, &a.fingerprint_files),
        None => copy_all(&unit.inputs),
    };
    let paths = match walked {
        Some(p) => p,
        None => {
            return Ok(Vec::new());
        },
    };
    if globs.len() == 0 {
        return Ok(Vec::new());
    }
    let matcher = match build_matcher(&globs) {
        Ok(m) => m,
        Err(e) => {
            return Err(ContentError::Content(e));
        },
    };
    match adapter {
        Some(a) => {
            if a.derived_paths.len() == 0 {
                assert(deep(a.derived_paths@) =~= Seq::<Seq<char>>::empty());
                Ok(select(paths, &matcher, None))
            } else {
                match build_matcher(&a.derived_paths) {
                    Ok(d) => Ok(select(paths, &matcher, Some(&d))),
                    Err(e) => Err(ContentError::Derived(e)),
                }
            }
        },
        None => Ok(select(paths, &matcher, None)),
    }
}

/// The bytes that stand for one file: the lengths of its path and content come before them.
pub open spec fn file_bytes(f: SourceFileModel) -> Seq<u8> {
    le_bytes(utf8(f.rel).len(), 8) + utf8(f.rel) + le_bytes(f.content.len(), 8) + f.content
}

/// Appends the bytes that stand for a file of a path and a content.
pub fn push_file(out: &mut Vec<u8>, rel: &str, content: &[u8])
    ensures
        final(out)@ == old(out)@ + file_bytes(SourceFileModel { rel: rel@, content: content@ }),
{
    let ghost before = out@;
    let path = rel.as_bytes();
    push_u64(out, path.len() as u64);
    push_bytes(out, path);
    push_u64(out, content.len() as u64);
    push_bytes(out, content);
    assert(out@ =~= before + file_bytes(SourceFileModel { rel: rel@, content: content@ }));
}

/// The bytes that stand for some files.
pub open spec fn files_bytes(files: Seq<SourceFileModel>) -> Seq<u8>
    decreases files.len(),
{
    if files.len() == 0 {
        Seq::empty()
    } else {
        files_bytes(files.drop_last()) + file_bytes(files.last())
    }
}

/// The message whose digest signs a unit's content.
pub open spec fn content_message(name: Seq<char>, files: Seq<SourceFileModel>) -> Seq<u8> {
    utf8("monad-unit-content-v1"@) + utf8(name) + files_bytes(files)
}

/// The signature of a unit's own content.
pub fn content_hash(unit_name: &str, files: &Vec<SourceFile>) -> (r: UnitSig)
    ensures
        r@ == blake3_of(content_message(unit_name@, files.deep_view())),
{
    let mut message: Vec<u8> = Vec::new();
    push_text(&mut message, "monad-unit-content-v1");
    push_text(&mut message, unit_name);
    let ghost head = utf8("monad-unit-content-v1"@) + utf8(unit_name@);
    let ghost all = deep(files@);
    proof {
        assert(Seq::<u8>::empty() + utf8("monad-unit-content-v1"@) =~= utf8("monad-unit-content-v1"@));
        assert(head + Seq::<u8>::empty() =~= head);
    }
    let mut i: usize = 0;
    while i < files.len()
        invariant
            i <= files@.len(),
            all == deep(files@),
            message@ == head + files_bytes(all.take(i as int)),
        decreases files.len() - i,
    {
        let f = &files[i];
        push_file(&mut message, f.rel.as_str(), f.content.as_slice());
        proof {
            assert(all.take(i + 1).drop_last() =~= all.take(i as int));
            assert(all.take(i + 1).last() == f.deep_view());
            assert(head + files_bytes(all.take(i + 1)) =~= head + files_bytes(all.take(i as int))
                + file_bytes(f.deep_view()));
        }
        i += 1;
    }
    digest(&message)
}

/// The signatures of some units, one after the other.
pub open spec fn sigs_bytes(names: Seq<Seq<char>>, sigs: Map<Seq<char>, Seq<u8>>) -> Seq<u8>
    decreases names.len(),
{
    if names.len() == 0 {
        Seq::empty()
    } else {
        sigs_bytes(names.drop_last(), sigs) + sigs[names.last()]
    }
}

/// The message whose digest signs a unit together with what it depends on.
pub open spec fn effective_message(
    content: Seq<u8>,
    deps: Seq<Seq<char>>,
    sigs: Map<Seq<char>, Seq<u8>>,
) -> Seq<u8> {
    utf8("monad-unit-effective-v1"@) + content + sigs_bytes(sort_by(deps, text_before()), sigs)
}

/// The effective signature of a unit, given those of the units it depends on.
pub open spec fn effective(u: UnitModel, content: Seq<u8>, sigs: Map<Seq<char>, Seq<u8>>) -> Seq<u8> {
    if u.force_independent {
        content
    } else {
        blake3_of(effective_message(content, u.depends_on, sigs))
    }
}

/// Why units cannot be signed.
#[derive(Debug)]
pub enum CascadeError {
    /// The graph names a unit that the workspace does not have.
    MissingUnit { unit: String },
    /// A unit depends on one that has no signature.
    MissingDep { unit: String, dep: String },
}

impl CascadeError {
    /// What the error says.
    pub fn message(&self) -> (r: String)
        ensures
            match self {
                CascadeError::MissingUnit { unit } => r@ == "unit '"@ + unit@
                    + "' referenced by graph but missing from workspace"@,
                CascadeError::MissingDep { unit, dep } => r@ == "unit '"@ + unit@ + "' lists dep '"@ + dep@
                    + "' that isn't in this graph — build_graph should have caught this"@,
            },
    {
        match self {
            CascadeError::MissingUnit { unit } => cat3(
                "unit '",
                unit.as_str(),
                "' referenced by graph but missing from workspace",
            ),
            CascadeError::MissingDep { unit, dep } => cat5(
                "unit '",
                unit.as_str(),
                "' lists dep '",
                dep.as_str(),
                "' that isn't in this graph — build_graph should have caught this",
            ),
        }
    }
}

/// Whether a unit can be signed once `sigs` are known.
pub open spec fn signable(
    units: Map<Seq<char>, LoadedUnitModel>,
    sigs: Map<Seq<char>, Seq<u8>>,
    n: Seq<char>,
) -> bool {
    units.contains_key(n) && (units[n].config.force_independent || forall|i: int|
        0 <= i < units[n].config.depends_on.len() ==> sigs.contains_key(
            #[trigger] units[n].config.depends_on[i],
        ))
}

/// The signatures of the units of `order`, each signed when those before it are.
pub open spec fn signed(
    units: Map<Seq<char>, LoadedUnitModel>,
    contents: Map<Seq<char>, Seq<u8>>,
    order: Seq<Seq<char>>,
) -> Map<Seq<char>, Seq<u8>>
    decreases order.len(),
{
    if order.len() == 0 {
        Map::empty()
    } else {
        let before = signed(units, contents, order.drop_last());
        before.insert(
            order.last(),
            effective(units[order.last()].config, contents[order.last()], before),
        )
    }
}

/// Whether each unit of `order` can be signed when those before it are.
pub open spec fn all_signable(
    units: Map<Seq<char>, LoadedUnitModel>,
    contents: Map<Seq<char>, Seq<u8>>,
    order: Seq<Seq<char>>,
) -> bool {
    forall|i: int|
        0 <= i < order.len() ==> signable(
            units,
            #[trigger] signed(units, contents, order.take(i)),
            order[i],
        )
}

/// Whether there is a digest for each unit of a list that the workspace holds.
pub open spec fn has_contents(workspace: Workspace, names: Seq<Seq<char>>, contents: Map<Seq<char>, Seq<u8>>) -> bool {
    forall|i: int|
        0 <= i < names.len() && workspace.units_by_name@.contains_key(names[i]) ==> contents.contains_key(
            #[trigger] names[i],
        )
}

/// The effective signature of each unit of a graph, from the signatures of the units' contents.
pub fn compute(workspace: &Workspace, graph: &ProfileGraph, contents: &StrMap<UnitSig>) -> (r: Result<
    StrMap<UnitSig>,
    CascadeError,
>)
    requires
        has_contents(*workspace, flat(graph.levels.deep_view()), contents@),
    ensures
        ({
            let units = workspace.units_by_name@;
            let order = flat(graph.levels.deep_view());
            match r {
                Ok(m) => all_signable(units, contents@, order) && m@ == signed(units, contents@, order),
                Err(e) => exists|i: int|
                    {
                        &&& 0 <= i < order.len()
                        &&& all_signable(units, contents@, order.take(i))
                        &&& !signable(units, #[trigger] signed(units, contents@, order.take(i)), order[i])
                        &&& match e {
                            CascadeError::MissingUnit { unit } => unit@ == order[i] && !units.contains_key(
                                unit@,
                            ),
                            CascadeError::MissingDep { unit, dep } => {
                                let deps = sort_by(units[order[i]].config.depends_on, text_before());
                                let sigs = signed(units, contents@, order.take(i));
                                &&& unit@ == order[i]
                                &&& units.contains_key(unit@)
                                &&& exists|k: int|
                                    0 <= k < deps.len() && #[trigger] deps[k] == dep@ && !sigs.contains_key(
                                        dep@,
                                    ) && forall|l: int|
                                        0 <= l < k ==> sigs.contains_key(#[trigger] deps[l])
                            },
                        }
                    },
            }
        }),
{
    let names = graph.flattened();
    let ghost order = deep(names@);
    let ghost units = workspace.units_by_name@;
    let mut sigs: StrMap<UnitSig> = StrMap::new();
    let mut i: usize = 0;
    while i < names.len()
        invariant
            i <= names@.len(),
            order == deep(names@),
            order == flat(graph.levels.deep_view()),
            units == workspace.units_by_name@,
            has_contents(*workspace, order, contents@),
            sigs@ == signed(units, contents@, order.take(i as int)),
            forall|j: int|
                0 <= j < i ==> signable(
                    units,
                    #[trigger] signed(units, contents@, order.take(j)),
                    order[j],
                ),
        decreases names.len() - i,
    {
        let name = names[i];
        proof {
            assert(name@ == order[i as int]);
            assert(order.take(i + 1).drop_last() =~= order.take(i as int));
            assert forall|j: int| 0 <= j < i implies signable(
                units,
                #[trigger] signed(units, contents@, order.take(i as int).take(j)),
                order.take(i as int)[j],
            ) by {
                assert(order.take(i as int).take(j) =~= order.take(j));
                assert(signable(units, signed(units, contents@, order.take(j)), order[j]));
            }
            assert(all_signable(units, contents@, order.take(i as int)));
        }
        let loaded = match workspace.units_by_name.get(name) {
            Some(l) => l,
            None => {
                return Err(CascadeError::MissingUnit { unit: copy(name) });
            },
        };
        let ghost u = units[name@].config;
        let content: UnitSig = match contents.get(name) {
            Some(c) => *c,
            None => {
                assert(contents@.contains_key(name@));
                return Err(CascadeError::MissingUnit { unit: copy(name) });
            },
        };
        proof {
            assert(content.deep_view() =~= content@);
        }
        let sig: UnitSig = if loaded.config.force_independent {
            content
        } else {
            let mut message: Vec<u8> = Vec::new();
            push_text(&mut message, "monad-unit-effective-v1");
            push_bytes(&mut message, content.as_slice());
            let ghost head = utf8("monad-unit-effective-v1"@) + content@;
            let deps = sort_texts(&loaded.config.depends_on);
            let ghost ds = deep(deps@);
            proof {
                assert(Seq::<u8>::empty() + utf8("monad-unit-effective-v1"@) =~= utf8(
                    "monad-unit-effective-v1"@,
                ));
                assert(head + Seq::<u8>::empty() =~= head);
            }
            let mut k: usize = 0;
            while k < deps.len()
                invariant
                    k <= deps@.len(),
                    i < names@.len(),
                    order == deep(names@),
                    order == flat(graph.levels.deep_view()),
                    name@ == order[i as int],
                    units == workspace.units_by_name@,
                    units.contains_key(name@),
                    u == units[name@].config,
                    u == loaded.config.deep_view(),
                    !u.force_independent,
                    all_signable(units, contents@, order.take(i as int)),
                    sigs@ == signed(units, contents@, order.take(i as int)),
                    ds == deep(deps@),
                    ds == sort_by(u.depends_on, text_before()),
                    message@ == head + sigs_bytes(ds.take(k as int), sigs@),
                    forall|l: int| 0 <= l < k ==> sigs@.contains_key(#[trigger] ds[l]),
                decreases deps.len() - k,
            {
                let dep = deps[k].as_str();
                proof {
                    assert(ds[k as int] == dep@);
                    assert(ds.take(k + 1).drop_last() =~= ds.take(k as int));
                }
                match sigs.get(dep) {
                    Some(s) => {
                        proof {
                            assert(s.deep_view() =~= s@);
                            assert(head + sigs_bytes(ds.take(k + 1), sigs@) =~= head + sigs_bytes(
                                ds.take(k as int),
                                sigs@,
                            ) + s@);
                        }
                        push_bytes(&mut message, s.as_slice());
                    },
                    None => {
                        proof {
                            lemma_sorted_member(u.depends_on, dep@);
                            let at = choose|at: int| 0 <= at < u.depends_on.len() && u.depends_on[at] == dep@;
                            assert(!signable(units, sigs@, name@));
                        }
                        return Err(CascadeError::MissingDep { unit: copy(name), dep: copy(dep) });
                    },
                }
                k += 1;
            }
            proof {
                assert forall|l: int| 0 <= l < u.depends_on.len() implies sigs@.contains_key(
                    #[trigger] u.depends_on[l],
                ) by {
                    lemma_sorted_member(u.depends_on, u.depends_on[l]);
                    let at = choose|at: int| 0 <= at < ds.len() && ds[at] == u.depends_on[l];
                    assert(sigs@.contains_key(ds[at]));
                }
                assert(signable(units, sigs@, name@));
                assert(message@ == effective_message(content@, u.depends_on, sigs@));
            }
            digest(&message)
        };
        proof {
            assert(sig.deep_view() =~= sig@);
        }
        sigs.insert(copy(name), sig);
        i += 1;
    }
    Ok(sigs)
}

/// Sorting neither adds nor drops a text.
proof fn lemma_sorted_member(s: Seq<Seq<char>>, x: Seq<char>)
    ensures
        sort_by(s, text_before()).contains(x) <==> s.contains(x),
{
    broadcast use vstd::seq_lib::group_to_multiset_ensures;

    crate::sort::law_sorted_texts(s);
    let r = sort_by(s, text_before());
    assert(r.contains(x) <==> r.to_multiset().count(x) > 0);
    assert(s.contains(x) <==> s.to_multiset().count(x) > 0);
}

/// The texts that have a signature.
pub open spec fn known_of(names: Seq<Seq<char>>, sigs: Map<Seq<char>, Seq<u8>>) -> Seq<Seq<char>>
    decreases names.len(),
{
    if names.len() == 0 {
        Seq::empty()
    } else if sigs.contains_key(names.last()) {
        known_of(names.drop_last(), sigs).push(names.last())
    } else {
        known_of(names.drop_last(), sigs)
    }
}

/// What goes into the keys of a unit's tasks for its dependencies: name and signature, in the order
/// of the names; nothing where the unit is forced to be independent.
pub open spec fn key_deps(u: UnitModel, sigs: Map<Seq<char>, Seq<u8>>) -> Seq<(Seq<char>, Seq<u8>)> {
    if u.force_independent {
        Seq::empty()
    } else {
        sort_by(known_of(u.depends_on, sigs), text_before()).map_values(|n: Seq<char>| (n, sigs[n]))
    }
}

/// What goes into the keys of a unit's tasks for its dependencies.
pub fn deps_for_key(unit: &UnitConfig, signatures: &StrMap<UnitSig>) -> (r: Vec<(String, UnitSig)>)
    ensures
        r.deep_view() == key_deps(unit.deep_view(), signatures@),
{
    let mut r: Vec<(String, UnitSig)> = Vec::new();
    if unit.force_independent {
        return r;
    }
    let mut known: Vec<String> = Vec::new();
    let ghost all = deep(unit.depends_on@);
    let mut i: usize = 0;
    while i < unit.depends_on.len()
        invariant
            i <= unit.depends_on@.len(),
            all == deep(unit.depends_on@),
            deep(known@) == known_of(all.take(i as int), signatures@),
            forall|j: int| 0 <= j < known@.len() ==> signatures@.contains_key(#[trigger] deep(known@)[j]),
        decreases unit.depends_on.len() - i,
    {
        let name = unit.depends_on[i].as_str();
        proof {
            assert(all.take(i + 1).drop_last() =~= all.take(i as int));
        }
        if signatures.contains_key(name) {
            known.push(copy(name));
        }
        i += 1;
    }
    let sorted = sort_texts(&known);
    let ghost names = deep(sorted@);
    let ghost want = names.map_values(|n: Seq<char>| (n, signatures@[n]));
    let mut i: usize = 0;
    while i < sorted.len()
        invariant
            i <= sorted@.len(),
            names == deep(sorted@),
            names == sort_by(deep(known@), text_before()),
            forall|j: int| 0 <= j < known@.len() ==> signatures@.contains_key(#[trigger] deep(known@)[j]),
            want == names.map_values(|n: Seq<char>| (n, signatures@[n])),
            deep(r@) == want.take(i as int),
        decreases sorted.len() - i,
    {
        let name = sorted[i].as_str();
        proof {
            assert(names[i as int] == name@);
            assert(names.contains(name@));
            lemma_sorted_member(deep(known@), name@);
            let at = choose|at: int| 0 <= at < deep(known@).len() && deep(known@)[at] == name@;
            assert(signatures@.contains_key(deep(known@)[at]));
        }
        match signatures.get(name) {
            Some(s) => {
                let pair: (String, UnitSig) = (copy(name), *s);
                proof {
                    assert(pair.deep_view() == want[i as int]);
                }
                r.push(pair);
            },
            None => {},
        }
        i += 1;
    }
    r
}

/// The effective signature of a unit is that of its content and the effective signatures of what it
/// depends on; of a unit that is forced to be independent, that of its content alone.
pub proof fn law_effective_signature(
    units: Map<Seq<char>, LoadedUnitModel>,
    contents: Map<Seq<char>, Seq<u8>>,
    order: Seq<Seq<char>>,
    i: int,
)
    requires
        order.no_duplicates(),
        all_signable(units, contents, order),
        0 <= i < order.len(),
    ensures
        signed(units, contents, order)[order[i]] == effective(
            units[order[i]].config,
            contents[order[i]],
            signed(units, contents, order),
        ),
{
    let before = signed(units, contents, order.take(i));
    let all = signed(units, contents, order);
    let u = units[order[i]].config;
    assert(signable(units, before, order[i]));
    assert(order.take(i + 1).drop_last() =~= order.take(i));
    lemma_signed_stays(units, contents, order, i + 1, order[i]);
    if !u.force_independent {
        let deps = sort_by(u.depends_on, text_before());
        assert forall|k: int| 0 <= k < deps.len() implies before[#[trigger] deps[k]] == all[deps[k]] by {
            assert(deps.contains(deps[k]));
            lemma_sorted_member(u.depends_on, deps[k]);
            let at = choose|at: int| 0 <= at < u.depends_on.len() && u.depends_on[at] == deps[k];
            assert(before.contains_key(u.depends_on[at]));
            lemma_signed_stays(units, contents, order, i, deps[k]);
        }
        lemma_sigs_bytes_same(deps, before, all);
    }
}

proof fn lemma_sigs_bytes_same(
    names: Seq<Seq<char>>,
    a: Map<Seq<char>, Seq<u8>>,
    b: Map<Seq<char>, Seq<u8>>,
)
    requires
        forall|k: int| 0 <= k < names.len() ==> a[#[trigger] names[k]] == b[names[k]],
    ensures
        sigs_bytes(names, a) == sigs_bytes(names, b),
    decreases names.len(),
{
    if names.len() > 0 {
        assert forall|k: int| 0 <= k < names.drop_last().len() implies a[#[trigger] names.drop_last()[k]]
            == b[names.drop_last()[k]] by {
            assert(a[names[k]] == b[names[k]]);
        }
        lemma_sigs_bytes_same(names.drop_last(), a, b);
        assert(a[names[names.len() - 1]] == b[names[names.len() - 1]]);
    }
}

/// What is signed early stays as it is, and only units of the order are signed.
proof fn lemma_signed_stays(
    units: Map<Seq<char>, LoadedUnitModel>,
    contents: Map<Seq<char>, Seq<u8>>,
    order: Seq<Seq<char>>,
    i: int,
    n: Seq<char>,
)
    requires
        order.no_duplicates(),
        0 <= i <= order.len(),
        signed(units, contents, order.take(i)).contains_key(n),
    ensures
        order.take(i).contains(n),
        signed(units, contents, order).contains_key(n),
        signed(units, contents, order)[n] == signed(units, contents, order.take(i))[n],
    decreases order.len() - i,
{
    lemma_signed_members(units, contents, order.take(i), n);
    if i < order.len() {
        assert(order.take(i + 1).drop_last() =~= order.take(i));
        let k = choose|k: int| 0 <= k < i && order.take(i)[k] == n;
        assert(order[k] == n);
        assert(order[i] != n);
        lemma_signed_stays(units, contents, order, i + 1, n);
    } else {
        assert(order.take(i) =~= order);
    }
}

proof fn lemma_signed_members(
    units: Map<Seq<char>, LoadedUnitModel>,
    contents: Map<Seq<char>, Seq<u8>>,
    order: Seq<Seq<char>>,
    n: Seq<char>,
)
    requires
        signed(units, contents, order).contains_key(n),
    ensures
        order.contains(n),
    decreases order.len(),
{
    if order.len() > 0 {
        if n == order.last() {
            assert(order[order.len() - 1] == n);
        } else {
            lemma_signed_members(units, contents, order.drop_last(), n);
            let k = choose|k: int| 0 <= k < order.drop_last().len() && order.drop_last()[k] == n;
            assert(order[k] == n);
        }
    }
}

/// A path of units from one to another that it depends on, directly or through others. No unit of it but
/// the last is forced to be independent.
pub open spec fn carries(units: Map<Seq<char>, LoadedUnitModel>, p: Seq<Seq<char>>) -> bool {
    &&& p.len() > 0
    &&& forall|k: int|
        0 <= k < p.len() - 1 ==> (#[trigger] units[p[k]]).config.depends_on.contains(p[k + 1])
            && !units[p[k]].config.force_independent
}

/// Whether the digest tells the messages apart that sign the units under two contents.
pub open spec fn told_apart(
    units: Map<Seq<char>, LoadedUnitModel>,
    a: Map<Seq<char>, Seq<u8>>,
    b: Map<Seq<char>, Seq<u8>>,
    order: Seq<Seq<char>>,
) -> bool {
    forall|i: int|
        0 <= i < order.len() ==> {
            let u = (#[trigger] units[order[i]]).config;
            let m = effective_message(a[order[i]], u.depends_on, signed(units, a, order));
            let n = effective_message(b[order[i]], u.depends_on, signed(units, b, order));
            blake3_of(m) == blake3_of(n) ==> m == n
        }
}

/// Whether each unit of a list has a digest of 32 bytes.
pub open spec fn digests(order: Seq<Seq<char>>, sigs: Map<Seq<char>, Seq<u8>>) -> bool {
    forall|i: int| 0 <= i < order.len() ==> sigs[#[trigger] order[i]].len() == 32
}

proof fn lemma_sigs_bytes_parts(
    names: Seq<Seq<char>>,
    a: Map<Seq<char>, Seq<u8>>,
    b: Map<Seq<char>, Seq<u8>>,
)
    requires
        digests(names, a),
        digests(names, b),
        sigs_bytes(names, a) == sigs_bytes(names, b),
    ensures
        forall|k: int| 0 <= k < names.len() ==> a[#[trigger] names[k]] == b[names[k]],
    decreases names.len(),
{
    if names.len() > 0 {
        let before = names.drop_last();
        let last = names[names.len() - 1];
        assert forall|i: int| 0 <= i < before.len() implies a[#[trigger] before[i]].len() == 32
            && b[before[i]].len() == 32 by {
            assert(before[i] == names[i]);
        }
        lemma_sigs_bytes_len(before, a);
        lemma_sigs_bytes_len(before, b);
        let n = sigs_bytes(before, a).len() as int;
        assert(sigs_bytes(names, a).take(n) =~= sigs_bytes(before, a));
        assert(sigs_bytes(names, b).take(n) =~= sigs_bytes(before, b));
        assert(sigs_bytes(names, a).skip(n) =~= a[last]);
        assert(sigs_bytes(names, b).skip(n) =~= b[last]);
        lemma_sigs_bytes_parts(before, a, b);
        assert forall|k: int| 0 <= k < names.len() implies a[#[trigger] names[k]] == b[names[k]] by {
            if k < before.len() {
                assert(before[k] == names[k]);
            }
        }
    }
}

proof fn lemma_sigs_bytes_len(names: Seq<Seq<char>>, sigs: Map<Seq<char>, Seq<u8>>)
    requires
        digests(names, sigs),
    ensures
        sigs_bytes(names, sigs).len() == 32 * names.len(),
    decreases names.len(),
{
    if names.len() > 0 {
        let before = names.drop_last();
        assert forall|i: int| 0 <= i < before.len() implies sigs[#[trigger] before[i]].len() == 32 by {
            assert(before[i] == names[i]);
        }
        lemma_sigs_bytes_len(before, sigs);
        assert(sigs[names[names.len() - 1]].len() == 32);
    }
}

proof fn lemma_deps_are_signed(
    units: Map<Seq<char>, LoadedUnitModel>,
    contents: Map<Seq<char>, Seq<u8>>,
    order: Seq<Seq<char>>,
    i: int,
)
    requires
        order.no_duplicates(),
        all_signable(units, contents, order),
        digests(order, signed(units, contents, order)),
        0 <= i < order.len(),
        !units[order[i]].config.force_independent,
    ensures
        digests(sort_by(units[order[i]].config.depends_on, text_before()), signed(units, contents, order)),
{
    let u = units[order[i]].config;
    let deps = sort_by(u.depends_on, text_before());
    let all = signed(units, contents, order);
    assert(signable(units, signed(units, contents, order.take(i)), order[i]));
    assert forall|k: int| 0 <= k < deps.len() implies all[#[trigger] deps[k]].len() == 32 by {
        assert(deps.contains(deps[k]));
        lemma_sorted_member(u.depends_on, deps[k]);
        let at = choose|at: int| 0 <= at < u.depends_on.len() && u.depends_on[at] == deps[k];
        assert(signed(units, contents, order.take(i)).contains_key(u.depends_on[at]));
        lemma_signed_stays(units, contents, order, i, deps[k]);
        let j = choose|j: int| 0 <= j < order.take(i).len() && order.take(i)[j] == deps[k];
        assert(order[j] == deps[k]);
    }
}

/// A change of a unit's content changes the effective signature of every unit that depends on it,
/// directly or through others, unless a unit on the way is forced to be independent. The digest is
/// taken to tell the messages at hand apart.
pub proof fn law_changes_reach_dependents(
    units: Map<Seq<char>, LoadedUnitModel>,
    a: Map<Seq<char>, Seq<u8>>,
    b: Map<Seq<char>, Seq<u8>>,
    order: Seq<Seq<char>>,
    p: Seq<Seq<char>>,
)
    requires
        order.no_duplicates(),
        all_signable(units, a, order),
        all_signable(units, b, order),
        digests(order, a),
        digests(order, b),
        digests(order, signed(units, a, order)),
        digests(order, signed(units, b, order)),
        told_apart(units, a, b, order),
        carries(units, p),
        forall|k: int| 0 <= k < p.len() ==> order.contains(#[trigger] p[k]),
        a[p.last()] != b[p.last()],
    ensures
        signed(units, a, order)[p[0]] != signed(units, b, order)[p[0]],
    decreases p.len(),
{
    let x = signed(units, a, order);
    let y = signed(units, b, order);
    assert(order.contains(p[0]));
    let i = choose|i: int| 0 <= i < order.len() && order[i] == p[0];
    let u = units[order[i]].config;
    law_effective_signature(units, a, order, i);
    law_effective_signature(units, b, order, i);
    let deps = sort_by(u.depends_on, text_before());
    let head = utf8("monad-unit-effective-v1"@);
    let m = effective_message(a[p[0]], u.depends_on, x);
    let n = effective_message(b[p[0]], u.depends_on, y);
    let h = head.len() as int;
    if !u.force_independent && m == n {
        assert(m.subrange(h, h + 32) =~= a[p[0]]);
        assert(n.subrange(h, h + 32) =~= b[p[0]]);
        assert(m.skip(h + 32) =~= sigs_bytes(deps, x));
        assert(n.skip(h + 32) =~= sigs_bytes(deps, y));
        if p.len() > 1 {
            let rest = p.skip(1);
            assert forall|k: int| 0 <= k < rest.len() - 1 implies (#[trigger] units[rest[k]]).config.depends_on.contains(
                rest[k + 1],
            ) && !units[rest[k]].config.force_independent by {
                assert(units[p[k + 1]] == units[rest[k]]);
            }
            assert forall|k: int| 0 <= k < rest.len() implies order.contains(#[trigger] rest[k]) by {
                assert(rest[k] == p[k + 1]);
            }
            law_changes_reach_dependents(units, a, b, order, rest);
            lemma_deps_are_signed(units, a, order, i);
            lemma_deps_are_signed(units, b, order, i);
            lemma_sigs_bytes_parts(deps, x, y);
            assert(units[p[0]].config.depends_on.contains(p[1]));
            lemma_sorted_member(u.depends_on, p[1]);
            let k = choose|k: int| 0 <= k < deps.len() && deps[k] == p[1];
            assert(x[deps[k]] == y[deps[k]]);
        }
    }
    if p.len() > 1 {
        assert(!units[p[0]].config.force_independent);
    }
    assert(units[order[i]].config == u);
}

/// A unit that is forced to be independent is signed by its own content, whatever it depends on.
pub proof fn law_independent_units_stop_changes(
    units: Map<Seq<char>, LoadedUnitModel>,
    contents: Map<Seq<char>, Seq<u8>>,
    order: Seq<Seq<char>>,
    i: int,
)
    requires
        order.no_duplicates(),
        all_signable(units, contents, order),
        0 <= i < order.len(),
        units[order[i]].config.force_independent,
    ensures
        signed(units, contents, order)[order[i]] == contents[order[i]],
{
    law_effective_signature(units, contents, order, i);
}

/// What `w` bytes can count up to.
pub open spec fn byte_range(w: nat) -> nat
    decreases w,
{
    if w == 0 {
        1
    } else {
        256 * byte_range((w - 1) as nat)
    }
}

pub proof fn lemma_le_bytes(n: nat, m: nat, w: nat)
    requires
        n < byte_range(w),
        m < byte_range(w),
    ensures
        le_bytes(n, w).len() == w,
        le_bytes(n, w) == le_bytes(m, w) ==> n == m,
    decreases w,
{
    if w > 0 {
        lemma_le_bytes(n / 256, m / 256, (w - 1) as nat);
        let a = le_bytes(n, w);
        let b = le_bytes(m, w);
        if a == b {
            assert(a[0] == (n % 256) as u8);
            assert(b[0] == (m % 256) as u8);
            assert(a.skip(1) =~= le_bytes(n / 256, (w - 1) as nat));
            assert(b.skip(1) =~= le_bytes(m / 256, (w - 1) as nat));
        }
    }
}

proof fn lemma_files_bytes_first(files: Seq<SourceFileModel>)
    requires
        files.len() > 0,
    ensures
        files_bytes(files) == file_bytes(files[0]) + files_bytes(files.skip(1)),
    decreases files.len(),
{
    if files.len() == 1 {
        assert(files.drop_last() =~= Seq::empty());
        assert(files.skip(1) =~= Seq::empty());
        assert(Seq::<u8>::empty() + file_bytes(files[0]) =~= file_bytes(files[0]) + Seq::<u8>::empty());
    } else {
        lemma_files_bytes_first(files.drop_last());
        assert(files.drop_last().skip(1) =~= files.skip(1).drop_last());
        assert(files.skip(1).last() == files.last());
        assert(files_bytes(files) =~= file_bytes(files[0]) + files_bytes(files.skip(1)));
    }
}

/// Whether the lengths of a file's path and content fit in eight bytes.
pub open spec fn file_fits(f: SourceFileModel) -> bool {
    utf8(f.rel).len() < byte_range(8) && f.content.len() < byte_range(8)
}

proof fn lemma_file_bytes_injective(f: SourceFileModel, g: SourceFileModel, x: Seq<u8>, y: Seq<u8>)
    requires
        file_fits(f),
        file_fits(g),
        file_bytes(f) + x == file_bytes(g) + y,
    ensures
        f == g,
        x == y,
{
    let a = file_bytes(f) + x;
    let b = file_bytes(g) + y;
    let (r1, r2) = (utf8(f.rel), utf8(g.rel));
    lemma_le_bytes(r1.len(), r2.len(), 8);
    lemma_le_bytes(r2.len(), r1.len(), 8);
    lemma_le_bytes(f.content.len(), g.content.len(), 8);
    lemma_le_bytes(g.content.len(), f.content.len(), 8);
    assert(a.take(8) =~= le_bytes(r1.len(), 8));
    assert(b.take(8) =~= le_bytes(r2.len(), 8));
    let n = r1.len() as int;
    assert(a.subrange(8, 8 + n) =~= r1);
    assert(b.subrange(8, 8 + n) =~= r2);
    assert(a.subrange(8 + n, 16 + n) =~= le_bytes(f.content.len(), 8));
    assert(b.subrange(8 + n, 16 + n) =~= le_bytes(g.content.len(), 8));
    let m = f.content.len() as int;
    assert(a.subrange(16 + n, 16 + n + m) =~= f.content);
    assert(b.subrange(16 + n, 16 + n + m) =~= g.content);
    assert(a.skip(16 + n + m) =~= x);
    assert(b.skip(16 + n + m) =~= y);
    vstd::utf8::encode_utf8_decode_utf8(f.rel);
    vstd::utf8::encode_utf8_decode_utf8(g.rel);
}

pub proof fn lemma_files_bytes_injective(f: Seq<SourceFileModel>, g: Seq<SourceFileModel>)
    requires
        forall|i: int| 0 <= i < f.len() ==> file_fits(#[trigger] f[i]),
        forall|i: int| 0 <= i < g.len() ==> file_fits(#[trigger] g[i]),
        files_bytes(f) == files_bytes(g),
    ensures
        f == g,
    decreases f.len(),
{
    if f.len() == 0 {
        if g.len() > 0 {
            lemma_files_bytes_first(g);
            lemma_le_bytes(utf8(g[0].rel).len(), 0, 8);
        }
        assert(f =~= g);
    } else if g.len() == 0 {
        lemma_files_bytes_first(f);
        lemma_le_bytes(utf8(f[0].rel).len(), 0, 8);
    } else {
        lemma_files_bytes_first(f);
        lemma_files_bytes_first(g);
        lemma_file_bytes_injective(f[0], g[0], files_bytes(f.skip(1)), files_bytes(g.skip(1)));
        lemma_files_bytes_injective(f.skip(1), g.skip(1));
        assert(f =~= seq![f[0]] + f.skip(1));
        assert(g =~= seq![g[0]] + g.skip(1));
    }
}

/// For one unit, different files make different messages: the lengths keep paths and contents
/// apart.
pub proof fn law_content_message_injective(
    name: Seq<char>,
    f: Seq<SourceFileModel>,
    g: Seq<SourceFileModel>,
)
    requires
        forall|i: int| 0 <= i < f.len() ==> file_fits(#[trigger] f[i]),
        forall|i: int| 0 <= i < g.len() ==> file_fits(#[trigger] g[i]),
        content_message(name, f) == content_message(name, g),
    ensures
        f == g,
{
    let head = utf8("monad-unit-content-v1"@) + utf8(name);
    assert(content_message(name, f).skip(head.len() as int) =~= files_bytes(f));
    assert(content_message(name, g).skip(head.len() as int) =~= files_bytes(g));
    lemma_files_bytes_injective(f, g);
}

/// The units that are signed are those of the order.
pub proof fn law_all_units_are_signed(
    units: Map<Seq<char>, LoadedUnitModel>,
    contents: Map<Seq<char>, Seq<u8>>,
    order: Seq<Seq<char>>,
)
    ensures
        signed(units, contents, order).dom() == order.to_set(),
    decreases order.len(),
{
    if order.len() > 0 {
        let rest = order.drop_last();
        law_all_units_are_signed(units, contents, rest);
        assert forall|n: Seq<char>| rest.to_set().insert(order.last()).contains(n) <==> order.to_set().contains(n) by {
            if rest.contains(n) {
                let k = choose|k: int| 0 <= k < rest.len() && rest[k] == n;
                assert(order[k] == n);
            }
            if n == order.last() {
                assert(order[order.len() - 1] == n);
            }
            if order.contains(n) && n != order.last() {
                let k = choose|k: int| 0 <= k < order.len() && order[k] == n;
                assert(rest[k] == n);
            }
        }
        assert(signed(units, contents, order).dom() =~= rest.to_set().insert(order.last()));
    }
    assert(signed(units, contents, order).dom() =~= order.to_set());
}

/// Whether each unit of a list has the same signature in both maps.
pub open spec fn same_signatures(
    names: Seq<Seq<char>>,
    x: Map<Seq<char>, Seq<u8>>,
    y: Map<Seq<char>, Seq<u8>>,
) -> bool {
    forall|k: int| 0 <= k < names.len() ==> x[#[trigger] names[k]] == y[names[k]]
}

/// Of one graph under two contents: the signature of a unit stays the same if and only if its own
/// content does and, unless it is forced to be independent, the signature of each unit that it depends
/// on. The digest is taken to tell the messages at hand apart.
pub proof fn law_signature_follows_content_and_dependencies(
    units: Map<Seq<char>, LoadedUnitModel>,
    a: Map<Seq<char>, Seq<u8>>,
    b: Map<Seq<char>, Seq<u8>>,
    order: Seq<Seq<char>>,
    i: int,
)
    requires
        order.no_duplicates(),
        all_signable(units, a, order),
        all_signable(units, b, order),
        digests(order, a),
        digests(order, b),
        digests(order, signed(units, a, order)),
        digests(order, signed(units, b, order)),
        told_apart(units, a, b, order),
        0 <= i < order.len(),
    ensures
        ({
            let n = order[i];
            let u = units[n].config;
            let x = signed(units, a, order);
            let y = signed(units, b, order);
            x[n] == y[n] <==> a[n] == b[n] && (u.force_independent || same_signatures(u.depends_on, x, y))
        }),
{
    let n = order[i];
    let u = units[n].config;
    let x = signed(units, a, order);
    let y = signed(units, b, order);
    law_effective_signature(units, a, order, i);
    law_effective_signature(units, b, order, i);
    if !u.force_independent {
        let deps = sort_by(u.depends_on, text_before());
        let head = utf8("monad-unit-effective-v1"@);
        let h = head.len() as int;
        let v = effective_message(a[n], u.depends_on, x);
        let w = effective_message(b[n], u.depends_on, y);
        assert(units[order[i]].config == u);
        if v == w {
            assert(v.subrange(h, h + 32) =~= a[n]);
            assert(w.subrange(h, h + 32) =~= b[n]);
            assert(v.skip(h + 32) =~= sigs_bytes(deps, x));
            assert(w.skip(h + 32) =~= sigs_bytes(deps, y));
            lemma_deps_are_signed(units, a, order, i);
            lemma_deps_are_signed(units, b, order, i);
            lemma_sigs_bytes_parts(deps, x, y);
            assert forall|k: int| 0 <= k < u.depends_on.len() implies x[#[trigger] u.depends_on[k]]
                == y[u.depends_on[k]] by {
                assert(u.depends_on.contains(u.depends_on[k]));
                lemma_sorted_member(u.depends_on, u.depends_on[k]);
                let at = choose|at: int| 0 <= at < deps.len() && deps[at] == u.depends_on[k];
                assert(x[deps[at]] == y[deps[at]]);
            }
        }
        if a[n] == b[n] && same_signatures(u.depends_on, x, y) {
            assert forall|k: int| 0 <= k < deps.len() implies x[#[trigger] deps[k]] == y[deps[k]] by {
                assert(deps.contains(deps[k]));
                lemma_sorted_member(u.depends_on, deps[k]);
                let at = choose|at: int| 0 <= at < u.depends_on.len() && u.depends_on[at] == deps[k];
                assert(x[u.depends_on[at]] == y[u.depends_on[at]]);
            }
            lemma_sigs_bytes_same(deps, x, y);
        }
    }
}

/// Whether the contents of the units of an order are those of some files.
pub open spec fn contents_of_files(
    units: Map<Seq<char>, LoadedUnitModel>,
    order: Seq<Seq<char>>,
    files: Map<Seq<char>, Seq<SourceFileModel>>,
    contents: Map<Seq<char>, Seq<u8>>,
) -> bool {
    forall|i: int|
        0 <= i < order.len() ==> contents[#[trigger] order[i]] == blake3_of(
            content_message(units[order[i]].config.name, files[order[i]]),
        ) && forall|k: int| 0 <= k < files[order[i]].len() ==> file_fits(#[trigger] files[order[i]][k])
}

/// Of one graph whose files changed: the signature of a unit stays the same if and only if its files
/// do and, unless it is forced to be independent, the signature of each unit that it depends on. The
/// digest is taken to tell the messages at hand apart.
pub proof fn law_signature_follows_files_and_dependencies(
    units: Map<Seq<char>, LoadedUnitModel>,
    f: Map<Seq<char>, Seq<SourceFileModel>>,
    g: Map<Seq<char>, Seq<SourceFileModel>>,
    a: Map<Seq<char>, Seq<u8>>,
    b: Map<Seq<char>, Seq<u8>>,
    order: Seq<Seq<char>>,
    i: int,
)
    requires
        order.no_duplicates(),
        contents_of_files(units, order, f, a),
        contents_of_files(units, order, g, b),
        all_signable(units, a, order),
        all_signable(units, b, order),
        digests(order, a),
        digests(order, b),
        digests(order, signed(units, a, order)),
        digests(order, signed(units, b, order)),
        told_apart(units, a, b, order),
        0 <= i < order.len(),
        a[order[i]] == b[order[i]] ==> content_message(units[order[i]].config.name, f[order[i]])
            == content_message(units[order[i]].config.name, g[order[i]]),
    ensures
        ({
            let n = order[i];
            let u = units[n].config;
            let x = signed(units, a, order);
            let y = signed(units, b, order);
            x[n] == y[n] <==> f[n] == g[n] && (u.force_independent || same_signatures(u.depends_on, x, y))
        }),
{
    let n = order[i];
    law_signature_follows_content_and_dependencies(units, a, b, order, i);
    assert(a[order[i]] == blake3_of(content_message(units[n].config.name, f[n])));
    assert(b[order[i]] == blake3_of(content_message(units[n].config.name, g[n])));
    if a[n] == b[n] {
        law_content_message_injective(units[n].config.name, f[n], g[n]);
    }
}

/// A union has what either side has, and begins with the first side.
pub proof fn law_union_holds_both(a: Seq<Seq<char>>, b: Seq<Seq<char>>, g: Seq<char>)
    ensures
        union_of(a, b).contains(g) <==> a.contains(g) || b.contains(g),
        union_of(a, b).len() >= a.len(),
        union_of(a, b).take(a.len() as int) == a,
        a.no_duplicates() ==> union_of(a, b).no_duplicates(),
    decreases b.len(),
{
    if b.len() == 0 {
        assert(a.take(a.len() as int) =~= a);
    } else {
        let rest = b.drop_last();
        let before = union_of(a, rest);
        law_union_holds_both(a, rest, g);
        crate::deep::lemma_last_contains(b, g);
        crate::deep::lemma_push_contains(before, b.last(), g);
        assert(union_of(a, b).take(a.len() as int) =~= before.take(a.len() as int));
    }
}

/// A file goes into a unit's signature if and only if one of the unit's inputs, or of the files that
/// the adapter always looks at, matches it, and nothing that the adapter derives does.
pub proof fn law_content_files(u: UnitModel, adapter: Option<AdapterFactsModel>, paths: Seq<Seq<char>>, p: Seq<char>)
    ensures
        ({
            let globs = content_globs(u, adapter);
            let derived = derived_globs(adapter);
            let chosen = sort_by(matching(paths, globs, derived), path_before());
            &&& chosen.contains(p) <==> paths.contains(p) && crate::globs::any_matches(globs, p)
                && !crate::globs::any_matches(derived, p)
            &&& forall|g: Seq<char>| #[trigger]
                globs.contains(g) <==> u.inputs.contains(g) || (adapter matches Some(a)
                    && a.fingerprint_files.contains(g))
            &&& forall|g: Seq<char>| #[trigger]
                derived.contains(g) <==> (adapter matches Some(a) && a.derived_paths.contains(g))
        }),
{
    let globs = content_globs(u, adapter);
    let derived = derived_globs(adapter);
    crate::globs::law_what_matches_is_selected(paths, globs, derived, p);
    assert forall|g: Seq<char>| #[trigger] globs.contains(g) <==> u.inputs.contains(g) || (adapter matches Some(a)
        && a.fingerprint_files.contains(g)) by {
        if let Some(a) = adapter {
            law_union_holds_both(u.inputs, a.fingerprint_files, g);
        }
    }
}

/// The keys of a unit's tasks take in the signature of each unit that it depends on and that has one,
/// unless the unit is forced to be independent; in the order of the names, and no other.
pub proof fn law_key_deps(u: UnitModel, sigs: Map<Seq<char>, Seq<u8>>, n: Seq<char>, s: Seq<u8>)
    ensures
        key_deps(u, sigs).contains((n, s)) <==> !u.force_independent && u.depends_on.contains(n) && sigs.contains_key(
            n,
        ) && sigs[n] == s,
        forall|i: int, j: int|
            0 <= i < j < key_deps(u, sigs).len() ==> !crate::order::less(
                (#[trigger] key_deps(u, sigs)[j]).0,
                (#[trigger] key_deps(u, sigs)[i]).0,
            ),
{
    if !u.force_independent {
        let known = known_of(u.depends_on, sigs);
        let ordered = sort_by(known, text_before());
        let pairs = key_deps(u, sigs);
        lemma_known_of(u.depends_on, sigs, n);
        crate::sort::lemma_text_orders();
        crate::sort::lemma_sort_by(known, text_before());
        lemma_sorted_member(known, n);
        if pairs.contains((n, s)) {
            let k = choose|k: int| 0 <= k < pairs.len() && pairs[k] == (n, s);
            assert(ordered[k] == n);
            assert(ordered.contains(n));
        }
        if ordered.contains(n) && sigs[n] == s {
            let k = choose|k: int| 0 <= k < ordered.len() && ordered[k] == n;
            assert(pairs[k] == (n, s));
        }
        assert forall|i: int, j: int| 0 <= i < j < pairs.len() implies !crate::order::less(
            (#[trigger] pairs[j]).0,
            (#[trigger] pairs[i]).0,
        ) by {
            assert(pairs[j].0 == ordered[j] && pairs[i].0 == ordered[i]);
            assert(!text_before()(ordered[j], ordered[i]));
        }
    }
}

proof fn lemma_known_of(names: Seq<Seq<char>>, sigs: Map<Seq<char>, Seq<u8>>, n: Seq<char>)
    ensures
        known_of(names, sigs).contains(n) <==> names.contains(n) && sigs.contains_key(n),
    decreases names.len(),
{
    if names.len() > 0 {
        let rest = names.drop_last();
        lemma_known_of(rest, sigs, n);
        crate::deep::lemma_last_contains(names, n);
        crate::deep::lemma_push_contains(known_of(rest, sigs), names.last(), n);
    }
}

/// The order in which a unit lists what it depends on changes neither its effective signature nor what goes
/// into the keys of its tasks.
pub proof fn law_the_order_of_dependencies_is_nothing(
    u: UnitModel,
    other: UnitModel,
    content: Seq<u8>,
    sigs: Map<Seq<char>, Seq<u8>>,
)
    requires
        u.force_independent == other.force_independent,
        u.depends_on.to_multiset() == other.depends_on.to_multiset(),
    ensures
        effective(u, content, sigs) == effective(other, content, sigs),
        key_deps(u, sigs) == key_deps(other, sigs),
{
    crate::sort::law_sorting_forgets_the_order(u.depends_on, other.depends_on);
    lemma_known_counts(u.depends_on, sigs);
    lemma_known_counts(other.depends_on, sigs);
    assert(known_of(u.depends_on, sigs).to_multiset() =~= known_of(other.depends_on, sigs).to_multiset()) by {
        assert forall|x: Seq<char>|
            known_of(u.depends_on, sigs).to_multiset().count(x) == known_of(other.depends_on, sigs).to_multiset().count(
                x,
            ) by {}
    }
    crate::sort::law_sorting_forgets_the_order(known_of(u.depends_on, sigs), known_of(other.depends_on, sigs));
}

proof fn lemma_known_counts(names: Seq<Seq<char>>, sigs: Map<Seq<char>, Seq<u8>>)
    ensures
        forall|x: Seq<char>| #[trigger]
            known_of(names, sigs).to_multiset().count(x) == if sigs.contains_key(x) {
                names.to_multiset().count(x)
            } else {
                0
            },
    decreases names.len(),
{
    broadcast use vstd::seq_lib::group_to_multiset_ensures;

    if names.len() > 0 {
        lemma_known_counts(names.drop_last(), sigs);
        let rest = names.drop_last();
        let last = names.last();
        assert(names =~= rest.push(last));
        vstd::seq_lib::to_multiset_build(rest, last);
        vstd::seq_lib::to_multiset_build(known_of(rest, sigs), last);
        assert forall|x: Seq<char>| #[trigger]
            known_of(names, sigs).to_multiset().count(x) == if sigs.contains_key(x) {
                names.to_multiset().count(x)
            } else {
                0
            } by {
            assert(known_of(rest, sigs).to_multiset().count(x) == if sigs.contains_key(x) {
                rest.to_multiset().count(x)
            } else {
                0
            });
            assert(names.to_multiset() == rest.to_multiset().insert(last));
        }
    } else {
        vstd::seq_lib::to_multiset_len(names);
        vstd::seq_lib::to_multiset_len(known_of(names, sigs));
        assert(names =~= Seq::<Seq<char>>::empty());
        assert(known_of(names, sigs) == names);
        assert(names.to_multiset() =~= vstd::multiset::Multiset::<Seq<char>>::empty());
    }
}

/// The same files make different messages in units of different names.
pub proof fn law_the_name_is_part_of_the_content(a: Seq<char>, b: Seq<char>, files: Seq<SourceFileModel>)
    requires
        content_message(a, files) == content_message(b, files),
    ensures
        a == b,
{
    let head = utf8("monad-unit-content-v1"@);
    let x = content_message(a, files);
    let y = content_message(b, files);
    assert(x.len() == head.len() + utf8(a).len() + files_bytes(files).len());
    assert(y.len() == head.len() + utf8(b).len() + files_bytes(files).len());
    assert(x.subrange(head.len() as int, (head.len() + utf8(a).len()) as int) =~= utf8(a));
    assert(y.subrange(head.len() as int, (head.len() + utf8(b).len()) as int) =~= utf8(b));
    vstd::utf8::encode_utf8_decode_utf8(a);
    vstd::utf8::encode_utf8_decode_utf8(b);
}

} // verus!
