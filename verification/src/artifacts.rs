//! The files that units have produced: their declared outputs, as far as they are on disk.
use vstd::prelude::*;

use crate::config::{LoadedUnitModel, TaskModel, UnitConfig, UnitModel, Workspace};
use crate::deep::{deep, filter_map, lemma_filter_map_next};
use crate::execute::names_of;
use crate::globs::{any_matches, build_matcher, glob_matches, globs_compile, globs_fail, set_globs, set_is_match, GlobError};
use crate::order::in_order;
use crate::path::{components, join_path, path_joined};
use crate::pathset::{has_path, path_set, set_of_paths};
use crate::sort::{path_before, sort_by, sort_paths};
use crate::strmap::{values_in_order, StrMap};
use crate::text::{cat5, contains, copy, has_char, join, joined, replace, replaced};

verus! {

broadcast use {crate::deep::group_deep, crate::deep::lemma_take_next, crate::deep::lemma_take_all};

/// Why artifacts cannot be listed.
#[derive(Debug)]
pub enum ArtifactsError {
    /// There is no profile of that name.
    UnknownProfile { name: String, available: String },
}

impl ArtifactsError {
    /// What the error says.
    pub fn message(&self) -> (r: String)
        ensures
            match self {
                ArtifactsError::UnknownProfile { name, available } => r@ == "no monad named '"@ + name@
                    + "' (known: "@ + available@ + ")"@,
            },
    {
        match self {
            ArtifactsError::UnknownProfile { name, available } => cat5(
                "no monad named '",
                name.as_str(),
                "' (known: ",
                available.as_str(),
                ")",
            ),
        }
    }
}

/// Whether a pattern holds a character that means more than itself.
pub open spec fn globby(s: Seq<char>) -> bool {
    s.contains('*') || s.contains('?') || s.contains('[') || s.contains('{')
}

/// Whether a pattern holds a character that means more than itself.
pub fn is_glob(s: &str) -> (r: bool)
    ensures
        r == globby(s@),
{
    has_char(s, '*') || has_char(s, '?') || has_char(s, '[') || has_char(s, '{')
}

/// `base` with those of `more` that are not there yet.
pub open spec fn with_new(base: Seq<Seq<char>>, more: Seq<Seq<char>>) -> Seq<Seq<char>>
    decreases more.len(),
{
    if more.len() == 0 {
        base
    } else {
        let before = with_new(base, more.drop_last());
        if before.contains(more.last()) {
            before
        } else {
            before.push(more.last())
        }
    }
}

/// `base` with the outputs of some tasks that are not there yet.
pub open spec fn with_outputs(base: Seq<Seq<char>>, tasks: Seq<TaskModel>) -> Seq<Seq<char>>
    decreases tasks.len(),
{
    if tasks.len() == 0 {
        base
    } else {
        let before = with_outputs(base, tasks.drop_last());
        match tasks.last().outputs {
            Some(o) => with_new(before, o),
            None => before,
        }
    }
}

/// The output patterns of a unit: its own, then those of its tasks in the order of their names, each
/// where it stands first.
pub open spec fn patterns_of(u: UnitModel) -> Seq<Seq<char>> {
    with_outputs(with_new(Seq::empty(), u.outputs), values_in_order(u.tasks))
}

fn add_new(patterns: &mut Vec<String>, more: &Vec<String>)
    ensures
        deep(final(patterns)@) == with_new(deep(old(patterns)@), deep(more@)),
{
    let ghost base = deep(patterns@);
    let ghost all = deep(more@);
    let mut i: usize = 0;
    while i < more.len()
        invariant
            i <= more@.len(),
            all == deep(more@),
            deep(patterns@) == with_new(base, all.take(i as int)),
        decreases more.len() - i,
    {
        proof {
            assert(all.take(i + 1).drop_last() =~= all.take(i as int));
        }
        if !contains(patterns, more[i].as_str()) {
            patterns.push(copy(more[i].as_str()));
        }
        i += 1;
    }
}

/// The output patterns of a unit, each once.
pub fn collect_patterns(unit: &UnitConfig) -> (r: Vec<String>)
    ensures
        r.deep_view() == patterns_of(unit.deep_view()),
{
    let mut patterns: Vec<String> = Vec::new();
    add_new(&mut patterns, &unit.outputs);
    let ghost base = deep(patterns@);
    let ghost all = values_in_order(unit.tasks@);
    let n = unit.tasks.len();
    let mut i: usize = 0;
    while i < n
        invariant
            i <= n == unit.tasks.keys().len(),
            unit.tasks.keys() == in_order(unit.tasks@.dom()),
            all == values_in_order(unit.tasks@),
            deep(patterns@) == with_outputs(base, all.take(i as int)),
        decreases n - i,
    {
        let task = unit.tasks.value(i);
        proof {
            assert(all[i as int] == task.deep_view());
            assert(all.take(i + 1).drop_last() =~= all.take(i as int));
        }
        if let Some(o) = &task.outputs {
            add_new(&mut patterns, o);
        }
        i += 1;
    }
    patterns
}

proof fn lemma_with_new(base: Seq<Seq<char>>, more: Seq<Seq<char>>)
    requires
        base.no_duplicates(),
    ensures
        with_new(base, more).no_duplicates(),
        base.is_prefix_of(with_new(base, more)),
        forall|p: Seq<char>| #[trigger] with_new(base, more).contains(p) <==> base.contains(p)
            || more.contains(p),
    decreases more.len(),
{
    if more.len() > 0 {
        let rest = more.drop_last();
        let before = with_new(base, rest);
        let r = with_new(base, more);
        lemma_with_new(base, rest);
        assert forall|p: Seq<char>| #[trigger] r.contains(p) <==> base.contains(p) || more.contains(p) by {
            assert(before.contains(p) <==> base.contains(p) || rest.contains(p));
            assert(more =~= rest.push(more.last()));
            assert(more.contains(p) <==> rest.contains(p) || p == more.last()) by {
                if rest.contains(p) {
                    let i = choose|i: int| 0 <= i < rest.len() && rest[i] == p;
                    assert(more[i] == p);
                }
                if p == more.last() {
                    assert(more[more.len() - 1] == p);
                }
            }
            if !before.contains(more.last()) {
                assert(r.contains(p) <==> before.contains(p) || p == more.last()) by {
                    if before.contains(p) {
                        let i = choose|i: int| 0 <= i < before.len() && before[i] == p;
                        assert(r[i] == p);
                    }
                    if p == more.last() {
                        assert(r[r.len() - 1] == p);
                    }
                }
            }
        }
    }
}

/// Whether a task declares an output pattern.
pub open spec fn declares(t: TaskModel, p: Seq<char>) -> bool {
    t.outputs is Some && t.outputs->0.contains(p)
}

proof fn lemma_with_outputs(base: Seq<Seq<char>>, tasks: Seq<TaskModel>)
    requires
        base.no_duplicates(),
    ensures
        with_outputs(base, tasks).no_duplicates(),
        forall|p: Seq<char>| #[trigger] with_outputs(base, tasks).contains(p) <==> base.contains(p) || exists|i: int|
            0 <= i < tasks.len() && declares(#[trigger] tasks[i], p),
    decreases tasks.len(),
{
    if tasks.len() > 0 {
        let rest = tasks.drop_last();
        let before = with_outputs(base, rest);
        lemma_with_outputs(base, rest);
        if let Some(o) = tasks.last().outputs {
            lemma_with_new(before, o);
        }
        assert forall|p: Seq<char>| #[trigger] with_outputs(base, tasks).contains(p) <==> base.contains(p)
            || exists|i: int| 0 <= i < tasks.len() && declares(#[trigger] tasks[i], p) by {
            assert(with_outputs(base, tasks).contains(p) <==> before.contains(p) || declares(tasks.last(), p));
            if before.contains(p) && !base.contains(p) {
                let i = choose|i: int| 0 <= i < rest.len() && declares(#[trigger] rest[i], p);
                assert(declares(tasks[i], p));
            }
            if declares(tasks.last(), p) {
                assert(declares(tasks[tasks.len() - 1], p));
            }
            if exists|i: int| 0 <= i < tasks.len() && declares(#[trigger] tasks[i], p) {
                let i = choose|i: int| 0 <= i < tasks.len() && declares(#[trigger] tasks[i], p);
                if i < rest.len() {
                    assert(declares(rest[i], p));
                }
            }
        }
    }
}

/// The patterns of a unit are those that it declares itself and those that its tasks declare, and
/// none stands twice.
pub proof fn law_patterns_are_the_union(u: UnitModel)
    ensures
        patterns_of(u).no_duplicates(),
        forall|p: Seq<char>| #[trigger] patterns_of(u).contains(p) <==> u.outputs.contains(p) || exists|i: int|
            0 <= i < values_in_order(u.tasks).len() && declares(#[trigger] values_in_order(u.tasks)[i], p),
{
    let base = with_new(Seq::empty(), u.outputs);
    lemma_with_new(Seq::empty(), u.outputs);
    lemma_with_outputs(base, values_in_order(u.tasks));
    assert forall|p: Seq<char>| base.contains(p) <==> u.outputs.contains(p) by {}
}

/// What was found in a unit's directory.
#[derive(Debug)]
pub struct DirContents {
    /// The patterns without special characters whose path exists.
    pub present: Vec<String>,
    /// Every file below the directory, as seen from it.
    pub files: Vec<String>,
}

#[verifier::ext_equal]
pub struct DirContentsModel {
    pub present: Seq<Seq<char>>,
    pub files: Seq<Seq<char>>,
}

impl DeepView for DirContents {
    type V = DirContentsModel;

    open spec fn deep_view(&self) -> DirContentsModel {
        DirContentsModel { present: self.present.deep_view(), files: self.files.deep_view() }
    }
}

/// The patterns that are globs (or those that are not).
pub open spec fn of_form(patterns: Seq<Seq<char>>, globs: bool) -> Seq<Seq<char>>
    decreases patterns.len(),
{
    if patterns.len() == 0 {
        Seq::empty()
    } else if globby(patterns.last()) == globs {
        of_form(patterns.drop_last(), globs).push(patterns.last())
    } else {
        of_form(patterns.drop_last(), globs)
    }
}

fn with_form(patterns: &Vec<String>, globs: bool) -> (r: Vec<String>)
    ensures
        deep(r@) == of_form(deep(patterns@), globs),
{
    let ghost all = deep(patterns@);
    let mut r: Vec<String> = Vec::new();
    let mut i: usize = 0;
    while i < patterns.len()
        invariant
            i <= patterns@.len(),
            all == deep(patterns@),
            deep(r@) == of_form(all.take(i as int), globs),
        decreases patterns.len() - i,
    {
        proof {
            assert(all.take(i + 1).drop_last() =~= all.take(i as int));
        }
        if is_glob(patterns[i].as_str()) == globs {
            r.push(copy(patterns[i].as_str()));
        }
        i += 1;
    }
    r
}

/// The path of a literal pattern, where it exists.
pub open spec fn literal_hit(dir: Seq<char>, present: Seq<Seq<char>>) -> spec_fn(Seq<char>) -> Option<Seq<char>> {
    |p: Seq<char>|
        if present.contains(p) {
            Some(path_joined(dir, p))
        } else {
            None
        }
}

/// The path of a file, where a glob matches it.
pub open spec fn glob_hit(dir: Seq<char>, globs: Seq<Seq<char>>) -> spec_fn(Seq<char>) -> Option<Seq<char>> {
    |f: Seq<char>|
        if any_matches(globs, f) {
            Some(path_joined(dir, f))
        } else {
            None
        }
}

/// The paths that some patterns mean: the literal ones that exist, and the files that a glob
/// matches; in order, and each once.
pub open spec fn resolved_paths(dir: Seq<char>, patterns: Seq<Seq<char>>, found: DirContentsModel) -> Seq<Seq<char>> {
    let globs = of_form(patterns, true);
    path_set(
        filter_map(of_form(patterns, false), literal_hit(dir, found.present)) + (if globs.len() == 0 {
            Seq::empty()
        } else {
            filter_map(found.files, glob_hit(dir, globs))
        }),
    )
}

/// The paths that some patterns mean in a unit's directory.
pub fn resolve_patterns(unit_dir: &str, patterns: &Vec<String>, found: &DirContents) -> (r: Result<
    Vec<String>,
    GlobError,
>)
    ensures
        ({
            let globs = of_form(patterns.deep_view(), true);
            let ok = globs.len() == 0 || globs_compile(globs);
            match r {
                Ok(paths) => ok && paths.deep_view() == resolved_paths(
                    unit_dir@,
                    patterns.deep_view(),
                    found.deep_view(),
                ),
                Err(e) => !ok && globs_fail(globs, e),
            }
        }),
{
    let literals = with_form(patterns, false);
    let globs = with_form(patterns, true);
    let mut hits: Vec<String> = Vec::new();
    let ghost all = deep(literals@);
    let ghost f = literal_hit(unit_dir@, deep(found.present@));
    let mut i: usize = 0;
    while i < literals.len()
        invariant
            i <= literals@.len(),
            all == deep(literals@),
            f == literal_hit(unit_dir@, deep(found.present@)),
            deep(hits@) == filter_map(all.take(i as int), f),
        decreases literals.len() - i,
    {
        proof {
            lemma_filter_map_next(all, f, i as int);
        }
        if contains(&found.present, literals[i].as_str()) {
            hits.push(join_path(unit_dir, literals[i].as_str()));
        }
        i += 1;
    }
    let ghost base = deep(hits@);
    if globs.len() > 0 {
        let set = match build_matcher(&globs) {
            Ok(s) => s,
            Err(e) => {
                return Err(e);
            },
        };
        let ghost all = deep(found.files@);
        let ghost g = glob_hit(unit_dir@, deep(globs@));
        assert(base + filter_map(all.take(0), g) =~= base);
        let mut j: usize = 0;
        while j < found.files.len()
            invariant
                j <= found.files@.len(),
                all == deep(found.files@),
                g == glob_hit(unit_dir@, deep(globs@)),
                set_globs(set) == deep(globs@),
                deep(hits@) == base + filter_map(all.take(j as int), g),
            decreases found.files.len() - j,
        {
            proof {
                lemma_filter_map_next(all, g, j as int);
            }
            if set_is_match(&set, found.files[j].as_str()) {
                let p = join_path(unit_dir, found.files[j].as_str());
                assert(base + filter_map(all.take(j as int), g).push(p@) =~= (base + filter_map(
                    all.take(j as int),
                    g,
                )).push(p@));
                hits.push(p);
            }
            j += 1;
        }
    } else {
        assert(base + Seq::<Seq<char>>::empty() =~= base);
    }
    Ok(set_of_paths(&hits))
}

/// What went wrong while artifacts were listed.
#[derive(Debug)]
pub enum CollectError {
    Artifacts(ArtifactsError),
    Globs(GlobError),
}

/// Whether the artifacts of a unit are listed: where a profile is named, it must list the unit's
/// path.
pub open spec fn chosen(ws: Workspace, filter: Option<Seq<char>>, path: Seq<char>) -> bool {
    match filter {
        Some(name) => ws.profiles@[name].units.contains(replaced(path, '\\', '/')),
        None => true,
    }
}

/// What was found in a unit's directory; nothing where nothing was looked for.
pub open spec fn contents_of(disk: Map<Seq<char>, DirContentsModel>, path: Seq<char>) -> DirContentsModel {
    if disk.contains_key(path) {
        disk[path]
    } else {
        DirContentsModel { present: Seq::empty(), files: Seq::empty() }
    }
}

/// The artifacts of the units at some paths, by the names of the units; a unit without any is left
/// out.
pub open spec fn collected(
    ws: Workspace,
    filter: Option<Seq<char>>,
    disk: Map<Seq<char>, DirContentsModel>,
    paths: Seq<Seq<char>>,
) -> Map<Seq<char>, Seq<Seq<char>>>
    decreases paths.len(),
{
    if paths.len() == 0 {
        Map::empty()
    } else {
        let before = collected(ws, filter, disk, paths.drop_last());
        let path = paths.last();
        let u = ws.units_by_path@[path];
        let found = resolved_paths(u.dir, patterns_of(u.config), contents_of(disk, path));
        if chosen(ws, filter, path) && found.len() > 0 {
            before.insert(u.config.name, found)
        } else {
            before
        }
    }
}

/// Whether the output globs of a unit make a set.
pub open spec fn unit_globs_compile(u: LoadedUnitModel) -> bool {
    let globs = of_form(patterns_of(u.config), true);
    globs.len() == 0 || globs_compile(globs)
}

/// The unit paths in order.
pub open spec fn unit_paths(ws: Workspace) -> Seq<Seq<char>> {
    sort_by(in_order(ws.units_by_path@.dom()), path_before())
}

/// Whether `i` is the place of the first unit whose output globs are wrong.
pub open spec fn first_broken(ws: Workspace, filter: Option<Seq<char>>, i: int) -> bool {
    let paths = unit_paths(ws);
    &&& 0 <= i < paths.len()
    &&& chosen(ws, filter, paths[i])
    &&& !unit_globs_compile(ws.units_by_path@[paths[i]])
    &&& forall|j: int|
        0 <= j < i && chosen(ws, filter, paths[j]) ==> unit_globs_compile(
            ws.units_by_path@[#[trigger] paths[j]],
        )
}

/// What a listing of artifacts gives.
pub open spec fn collects(
    ws: Workspace,
    filter: Option<Seq<char>>,
    disk: Map<Seq<char>, DirContentsModel>,
    r: Result<StrMap<Vec<String>>, CollectError>,
) -> bool {
    let known = filter is None || ws.profiles@.contains_key(filter->0);
    match r {
        Ok(m) => {
            &&& known
            &&& forall|i: int| !#[trigger] first_broken(ws, filter, i)
            &&& m@ == collected(ws, filter, disk, unit_paths(ws))
        },
        Err(CollectError::Artifacts(ArtifactsError::UnknownProfile { name, available })) => {
            &&& !known
            &&& name@ == filter->0
            &&& available@ == joined(in_order(ws.profiles@.dom()), ", "@)
        },
        Err(CollectError::Globs(e)) => {
            &&& known
            &&& exists|i: int| #[trigger]
                first_broken(ws, filter, i) && globs_fail(
                    of_form(patterns_of(ws.units_by_path@[unit_paths(ws)[i]].config), true),
                    e,
                )
        },
    }
}

/// The artifacts of the units, or of the units of one profile, by the names of the units. `disk`
/// says what was found in the units' directories, by the paths of the units.
pub fn collect(workspace: &Workspace, monad_filter: Option<&str>, disk: &StrMap<DirContents>) -> (r: Result<
    StrMap<Vec<String>>,
    CollectError,
>)
    ensures
        collects(*workspace, monad_filter.deep_view(), disk@, r),
{
    let refs: Option<&Vec<String>> = match monad_filter {
        Some(name) => match workspace.profiles.get(name) {
            Some(p) => Some(&p.units),
            None => {
                let known = names_of(&workspace.profiles);
                return Err(
                    CollectError::Artifacts(
                        ArtifactsError::UnknownProfile {
                            name: copy(name),
                            available: join(&known, ", "),
                        },
                    ),
                );
            },
        },
        None => None,
    };
    let ghost filter = monad_filter.deep_view();
    let names = names_of(&workspace.units_by_path);
    let paths = sort_paths(&names);
    let ghost all = unit_paths(*workspace);
    assert(deep(paths@) == all);
    proof {
        lemma_paths_known(*workspace, deep(names@));
    }
    let mut out: StrMap<Vec<String>> = StrMap::new();
    let mut i: usize = 0;
    while i < paths.len()
        invariant
            i <= paths@.len(),
            deep(paths@) == all,
            all == unit_paths(*workspace),
            filter == monad_filter.deep_view(),
            filter is None || workspace.profiles@.contains_key(filter->0),
            refs is Some == filter is Some,
            refs matches Some(v) ==> deep(v@) == workspace.profiles@[filter->0].units,
            forall|k: int|
                0 <= k < all.len() ==> workspace.units_by_path@.contains_key(#[trigger] all[k]),
            forall|j: int|
                0 <= j < i && chosen(*workspace, filter, all[j]) ==> unit_globs_compile(
                    workspace.units_by_path@[#[trigger] all[j]],
                ),
            out@ == collected(*workspace, filter, disk@, all.take(i as int)),
        decreases paths.len() - i,
    {
        let path = paths[i].as_str();
        proof {
            assert(path@ == all[i as int]);
            assert(all.take(i + 1).drop_last() =~= all.take(i as int));
            assert(all.take(i + 1).last() == all[i as int]);
        }
        let wanted = match refs {
            Some(v) => {
                let shown = replace(path, '\\', '/');
                contains(v, shown.as_str())
            },
            None => true,
        };
        assert(wanted == chosen(*workspace, filter, path@));
        if wanted {
            if let Some(loaded) = workspace.units_by_path.get(path) {
                let patterns = collect_patterns(&loaded.config);
                let nothing = DirContents { present: Vec::new(), files: Vec::new() };
                let found = match disk.get(path) {
                    Some(d) => d,
                    None => &nothing,
                };
                assert(found.deep_view() == contents_of(disk@, path@));
                match resolve_patterns(loaded.dir.as_str(), &patterns, found) {
                    Ok(resolved) => {
                        if resolved.len() > 0 {
                            out.insert(copy(loaded.config.name.as_str()), resolved);
                        }
                    },
                    Err(e) => {
                        assert(first_broken(*workspace, filter, i as int));
                        return Err(CollectError::Globs(e));
                    },
                }
            }
        }
        i += 1;
    }
    assert forall|k: int| !#[trigger] first_broken(*workspace, filter, k) by {
        if first_broken(*workspace, filter, k) {
            assert(unit_globs_compile(workspace.units_by_path@[all[k]]));
        }
    }
    Ok(out)
}

/// The unit paths are those of the units.
proof fn lemma_paths_known(ws: Workspace, names: Seq<Seq<char>>)
    requires
        names == in_order(ws.units_by_path@.dom()),
        forall|i: int| 0 <= i < names.len() ==> ws.units_by_path@.contains_key(#[trigger] names[i]),
    ensures
        forall|k: int|
            0 <= k < unit_paths(ws).len() ==> ws.units_by_path@.contains_key(#[trigger] unit_paths(ws)[k]),
{
    broadcast use vstd::seq_lib::group_to_multiset_ensures;

    crate::pathset::lemma_path_orders();
    crate::sort::lemma_sort_by(names, path_before());
    let r = unit_paths(ws);
    assert forall|k: int| 0 <= k < r.len() implies ws.units_by_path@.contains_key(#[trigger] r[k]) by {
        assert(r.contains(r[k]));
        assert(r.to_multiset().count(r[k]) > 0);
        assert(names.to_multiset().count(r[k]) > 0);
        assert(names.contains(r[k]));
        let i = choose|i: int| 0 <= i < names.len() && names[i] == r[k];
        assert(ws.units_by_path@.contains_key(names[i]));
    }
}

/// A path is an artifact if and only if it is a pattern without special characters whose path exists, or a
/// file that a glob among the patterns matches.
pub proof fn law_which_paths_are_artifacts(
    dir: Seq<char>,
    patterns: Seq<Seq<char>>,
    found: DirContentsModel,
    q: Seq<char>,
)
    ensures
        has_path(resolved_paths(dir, patterns, found), q) <==> {
            ||| exists|i: int|
                0 <= i < patterns.len() && !globby(#[trigger] patterns[i]) && found.present.contains(patterns[i])
                    && components(path_joined(dir, patterns[i])) == components(q)
            ||| exists|i: int|
                0 <= i < found.files.len() && file_matches(patterns, #[trigger] found.files[i]) && components(
                    path_joined(dir, found.files[i]),
                ) == components(q)
        },
{
    let literals = of_form(patterns, false);
    let globs = of_form(patterns, true);
    let f = literal_hit(dir, found.present);
    let g = glob_hit(dir, globs);
    let a = filter_map(literals, f);
    let b = if globs.len() == 0 {
        Seq::empty()
    } else {
        filter_map(found.files, g)
    };
    crate::pathset::law_path_set(a + b);
    lemma_globs_among(patterns);
    assert(has_path(a + b, q) <==> has_path(a, q) || has_path(b, q)) by {
        if has_path(a, q) {
            let i = choose|i: int| 0 <= i < a.len() && components(#[trigger] a[i]) == components(q);
            assert((a + b)[i] == a[i]);
        }
        if has_path(b, q) {
            let i = choose|i: int| 0 <= i < b.len() && components(#[trigger] b[i]) == components(q);
            assert((a + b)[a.len() + i] == b[i]);
        }
    }
    if has_path(a, q) {
        let k = choose|k: int| 0 <= k < a.len() && components(#[trigger] a[k]) == components(q);
        assert(a.contains(a[k]));
        crate::deep::lemma_filter_map_contains(literals, f, a[k]);
        let m = choose|m: int| 0 <= m < literals.len() && f(#[trigger] literals[m]) == Some(a[k]);
        lemma_of_form(patterns, false, literals[m]);
        assert(literals.contains(literals[m]));
        let i = choose|i: int| 0 <= i < patterns.len() && patterns[i] == literals[m];
        assert(!globby(patterns[i]));
    }
    if exists|i: int|
        0 <= i < patterns.len() && !globby(#[trigger] patterns[i]) && found.present.contains(patterns[i]) && components(
            path_joined(dir, patterns[i]),
        ) == components(q) {
        let i = choose|i: int|
            0 <= i < patterns.len() && !globby(#[trigger] patterns[i]) && found.present.contains(patterns[i])
                && components(path_joined(dir, patterns[i])) == components(q);
        assert(patterns.contains(patterns[i]));
        lemma_of_form(patterns, false, patterns[i]);
        let m = choose|m: int| 0 <= m < literals.len() && literals[m] == patterns[i];
        assert(f(literals[m]) == Some(path_joined(dir, patterns[i])));
        crate::deep::lemma_filter_map_contains(literals, f, path_joined(dir, patterns[i]));
        let k = choose|k: int| 0 <= k < a.len() && a[k] == path_joined(dir, patterns[i]);
        assert(components(a[k]) == components(q));
    }
    if has_path(b, q) {
        let k = choose|k: int| 0 <= k < b.len() && components(#[trigger] b[k]) == components(q);
        assert(b.contains(b[k]));
        crate::deep::lemma_filter_map_contains(found.files, g, b[k]);
        let i = choose|i: int| 0 <= i < found.files.len() && g(#[trigger] found.files[i]) == Some(b[k]);
        assert(any_matches(globs, found.files[i]));
        assert(file_matches(patterns, found.files[i]));
    }
    if exists|i: int|
        0 <= i < found.files.len() && file_matches(patterns, #[trigger] found.files[i]) && components(
            path_joined(dir, found.files[i]),
        ) == components(q) {
        let i = choose|i: int|
            0 <= i < found.files.len() && file_matches(patterns, #[trigger] found.files[i]) && components(
                path_joined(dir, found.files[i]),
            ) == components(q);
        assert(any_matches(globs, found.files[i]));
        assert(globs.len() > 0);
        assert(g(found.files[i]) == Some(path_joined(dir, found.files[i])));
        crate::deep::lemma_filter_map_contains(found.files, g, path_joined(dir, found.files[i]));
        let k = choose|k: int| 0 <= k < b.len() && b[k] == path_joined(dir, found.files[i]);
        assert(components(b[k]) == components(q));
    }
}

/// Whether a glob among some patterns matches a file.
pub open spec fn file_matches(patterns: Seq<Seq<char>>, file: Seq<char>) -> bool {
    exists|j: int| 0 <= j < patterns.len() && globby(#[trigger] patterns[j]) && glob_matches(patterns[j], file)
}

proof fn lemma_of_form(patterns: Seq<Seq<char>>, globs: bool, p: Seq<char>)
    ensures
        of_form(patterns, globs).contains(p) <==> patterns.contains(p) && globby(p) == globs,
    decreases patterns.len(),
{
    if patterns.len() > 0 {
        let rest = patterns.drop_last();
        lemma_of_form(rest, globs, p);
        crate::deep::lemma_last_contains(patterns, p);
        crate::deep::lemma_push_contains(of_form(rest, globs), patterns.last(), p);
    }
}

proof fn lemma_globs_among(patterns: Seq<Seq<char>>)
    ensures
        forall|file: Seq<char>| #[trigger]
            any_matches(of_form(patterns, true), file) <==> file_matches(patterns, file),
{
    let globs = of_form(patterns, true);
    assert forall|file: Seq<char>| #[trigger] any_matches(globs, file) <==> file_matches(patterns, file) by {
        if any_matches(globs, file) {
            let i = choose|i: int| 0 <= i < globs.len() && glob_matches(#[trigger] globs[i], file);
            assert(globs.contains(globs[i]));
            lemma_of_form(patterns, true, globs[i]);
            let j = choose|j: int| 0 <= j < patterns.len() && patterns[j] == globs[i];
            assert(globby(patterns[j]));
        }
        if file_matches(patterns, file) {
            let j = choose|j: int|
                0 <= j < patterns.len() && globby(#[trigger] patterns[j]) && glob_matches(patterns[j], file);
            assert(patterns.contains(patterns[j]));
            lemma_of_form(patterns, true, patterns[j]);
            let i = choose|i: int| 0 <= i < globs.len() && globs[i] == patterns[j];
            assert(glob_matches(globs[i], file));
        }
    }
}

/// The artifacts of a unit are listed under its name where it is chosen and has any; where the last unit of
/// a name is left out, what an earlier one has stays. Of two units of one name the last counts.
pub proof fn law_artifacts_of_each_unit(
    ws: Workspace,
    filter: Option<Seq<char>>,
    disk: Map<Seq<char>, DirContentsModel>,
    paths: Seq<Seq<char>>,
    i: int,
)
    requires
        0 <= i < paths.len(),
        chosen(ws, filter, paths[i]),
        resolved_paths(
            ws.units_by_path@[paths[i]].dir,
            patterns_of(ws.units_by_path@[paths[i]].config),
            contents_of(disk, paths[i]),
        ).len() > 0,
        forall|j: int|
            i < j < paths.len() ==> ws.units_by_path@[#[trigger] paths[j]].config.name
                != ws.units_by_path@[paths[i]].config.name,
    ensures
        ({
            let u = ws.units_by_path@[paths[i]];
            let m = collected(ws, filter, disk, paths);
            &&& m.contains_key(u.config.name)
            &&& m[u.config.name] == resolved_paths(u.dir, patterns_of(u.config), contents_of(disk, paths[i]))
        }),
    decreases paths.len(),
{
    let rest = paths.drop_last();
    if i < rest.len() {
        assert(rest[i] == paths[i]);
        assert forall|j: int| i < j < rest.len() implies ws.units_by_path@[#[trigger] rest[j]].config.name
            != ws.units_by_path@[rest[i]].config.name by {
            assert(rest[j] == paths[j]);
        }
        law_artifacts_of_each_unit(ws, filter, disk, rest, i);
        assert(paths[paths.len() - 1] == paths.last());
    }
}

/// Nothing is listed of a unit that is not chosen: each name that is listed is that of a unit that is, and
/// that has artifacts.
pub proof fn law_only_chosen_units_have_artifacts(
    ws: Workspace,
    filter: Option<Seq<char>>,
    disk: Map<Seq<char>, DirContentsModel>,
    paths: Seq<Seq<char>>,
    n: Seq<char>,
)
    requires
        collected(ws, filter, disk, paths).contains_key(n),
    ensures
        exists|i: int|
            0 <= i < paths.len() && chosen(ws, filter, #[trigger] paths[i]) && ws.units_by_path@[paths[i]].config.name
                == n,
        collected(ws, filter, disk, paths)[n].len() > 0,
    decreases paths.len(),
{
    if paths.len() > 0 {
        let rest = paths.drop_last();
        assert(paths[paths.len() - 1] == paths.last());
        let u = ws.units_by_path@[paths.last()];
        let found = resolved_paths(u.dir, patterns_of(u.config), contents_of(disk, paths.last()));
        if chosen(ws, filter, paths.last()) && found.len() > 0 && u.config.name == n {
        } else {
            law_only_chosen_units_have_artifacts(ws, filter, disk, rest, n);
            let i = choose|i: int|
                0 <= i < rest.len() && chosen(ws, filter, #[trigger] rest[i])
                    && ws.units_by_path@[rest[i]].config.name == n;
            assert(paths[i] == rest[i]);
        }
    }
}

/// Where a profile is named, only the units that it lists are looked at; where none is, all are.
pub proof fn law_which_units_are_looked_at(ws: Workspace, filter: Option<Seq<char>>, path: Seq<char>)
    requires
        !path.contains('\\'),
    ensures
        filter is None ==> chosen(ws, filter, path),
        filter matches Some(name) ==> (chosen(ws, filter, path) <==> ws.profiles@[name].units.contains(path)),
{
    assert(replaced(path, '\\', '/') =~= path);
}

/// A unit that declares no glob has none that is wrong; of a unit that declares some, all have to be right, one
/// by one and together.
pub proof fn law_which_globs_are_wrong(u: LoadedUnitModel)
    ensures
        of_form(patterns_of(u.config), true).len() == 0 ==> unit_globs_compile(u),
        of_form(patterns_of(u.config), true).len() > 0 ==> (unit_globs_compile(u) <==> globs_compile(
            of_form(patterns_of(u.config), true),
        )),
{
}

} // verus!
