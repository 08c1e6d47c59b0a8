//! Which files and directories changed, from what `git` printed.
use vstd::prelude::*;

use crate::deep::{deep, filter_map, lemma_filter_map_contains, lemma_filter_map_next};
use crate::excerpt::{lossy, shown_as_is, utf8_lossy};
use crate::path::{ancestors, ancestors_of, components, path_components, path_starts_with, same_path, within};
use crate::pathset::{has_path, path_set, set_of_paths};
use crate::plan::{first_marked, nearest};
use crate::text::{cat, cat3, cat4, copy, lines, lines_of, trim, trim_of};

verus! {

broadcast use {crate::deep::group_deep, crate::deep::lemma_take_next, crate::deep::lemma_take_all};

/// What became of running a command.
#[derive(Debug)]
pub enum GitRun {
    /// It could not be started.
    NotStarted,
    Ended { success: bool, stdout: Vec<u8>, stderr: Vec<u8> },
}

/// A git repository.
#[derive(Debug)]
pub struct GitDiff {
    repo_root: String,
}

/// The lines that name something.
pub open spec fn naming_line() -> spec_fn(Seq<char>) -> Option<Seq<char>> {
    |l: Seq<char>|
        if trim_of(l).len() == 0 {
            None
        } else {
            Some(l)
        }
}

/// The paths that a command printed, one on each line.
pub open spec fn names_in(out: Seq<char>) -> Seq<Seq<char>> {
    filter_map(lines_of(out), naming_line())
}

/// The paths that a command printed, one on each line.
pub fn parse_names(bytes: &Vec<u8>) -> (r: Vec<String>)
    ensures
        r.deep_view() == names_in(utf8_lossy(bytes@)),
        shown_as_is(bytes@),
{
    let text = lossy(bytes.as_slice());
    names_of_text(text.as_str())
}

/// The paths in a text, one on each line.
pub fn names_of_text(text: &str) -> (r: Vec<String>)
    ensures
        r.deep_view() == names_in(text@),
{
    let all_lines = lines(text);
    let ghost all = deep(all_lines@);
    let ghost f = naming_line();
    let mut r: Vec<String> = Vec::new();
    let mut i: usize = 0;
    while i < all_lines.len()
        invariant
            i <= all_lines@.len(),
            all == deep(all_lines@),
            f == naming_line(),
            deep(r@) == filter_map(all.take(i as int), f),
        decreases all_lines.len() - i,
    {
        proof {
            lemma_filter_map_next(all, f, i as int);
        }
        let t = trim(all_lines[i].as_str());
        if !t.as_str().is_empty() {
            r.push(copy(all_lines[i].as_str()));
        }
        i += 1;
    }
    r
}

/// The paths that a command printed, or why there are none.
pub open spec fn git_names(args: Seq<char>, run: GitRun) -> Result<Seq<Seq<char>>, Seq<char>> {
    match run {
        GitRun::NotStarted => Err("running `git "@ + args + "`"@),
        GitRun::Ended { success, stdout, stderr } => if success {
            Ok(names_in(utf8_lossy(stdout@)))
        } else {
            Err("`git "@ + args + "` failed: "@ + utf8_lossy(stderr@))
        },
    }
}

/// Whether what is read of a command's output is shown as it is, as far as it is UTF-8: the paths where
/// it succeeded, the complaint where it did not.
pub open spec fn read_as_is(run: GitRun) -> bool {
    match run {
        GitRun::NotStarted => true,
        GitRun::Ended { success, stdout, stderr } => shown_as_is(
            if success {
                stdout@
            } else {
                stderr@
            },
        ),
    }
}

/// The paths that `git` printed, or why there are none. `args` are its arguments, with spaces
/// between.
pub fn run_git_names(args: &str, run: &GitRun) -> (r: Result<Vec<String>, String>)
    ensures
        match r {
            Ok(v) => git_names(args@, *run) == Ok::<Seq<Seq<char>>, Seq<char>>(v.deep_view()),
            Err(e) => git_names(args@, *run) == Err::<Seq<Seq<char>>, Seq<char>>(e@),
        },
        read_as_is(*run),
{
    match run {
        GitRun::NotStarted => Err(cat3("running `git ", args, "`")),
        GitRun::Ended { success, stdout, stderr } => if *success {
            Ok(parse_names(stdout))
        } else {
            let e = lossy(stderr.as_slice());
            Err(cat4("`git ", args, "` failed: ", e.as_str()))
        },
    }
}

/// The arguments that list the tracked files that differ from a base.
pub open spec fn diff_args(base_ref: Seq<char>) -> Seq<char> {
    "diff --name-only "@ + base_ref
}

/// The files that differ from a base, from what the two commands gave: tracked files that changed,
/// and files that are not tracked.
pub open spec fn changed(base_ref: Seq<char>, edited: GitRun, added: GitRun) -> Result<
    Seq<Seq<char>>,
    Seq<char>,
> {
    match git_names(diff_args(base_ref), edited) {
        Err(e) => Err(e),
        Ok(a) => match git_names("ls-files --others --exclude-standard"@, added) {
            Err(e) => Err(e),
            Ok(b) => Ok(path_set(a + b)),
        },
    }
}

/// Whether a file lies strictly inside a directory. Everything lies inside the directory without a
/// name.
pub open spec fn strictly_inside(file: Seq<char>, dir: Seq<char>) -> bool {
    components(dir).len() == 0 || (within(file, dir) && components(file) != components(dir))
}

/// Whether a file lies strictly inside a directory: a directory does not lie inside itself, nor what
/// lies beside it under a longer name.
pub fn file_is_inside(file: &str, dir: &str) -> (r: bool)
    ensures
        r == strictly_inside(file@, dir@),
{
    let parts = path_components(dir);
    assert(crate::text::texts(parts@).len() == parts@.len());
    parts.len() == 0 || (path_starts_with(file, dir) && !same_path(file, dir))
}

/// The directory, where it holds a changed file.
pub open spec fn dirty_dir(files: Seq<Seq<char>>) -> spec_fn(Seq<char>) -> Option<Seq<char>> {
    |d: Seq<char>|
        if holds_any(files, d) {
            Some(d)
        } else {
            None
        }
}

/// Whether the path of a directory begins the path of one of the files.
pub open spec fn holds_any(files: Seq<Seq<char>>, dir: Seq<char>) -> bool {
    exists|i: int| 0 <= i < files.len() && within(#[trigger] files[i], dir)
}

/// Those of some directories that hold a changed file.
pub open spec fn dirty(files: Seq<Seq<char>>, dirs: Seq<Seq<char>>) -> Seq<Seq<char>> {
    path_set(filter_map(dirs, dirty_dir(files)))
}

/// Those of some directories that hold a changed file; in order, and each once.
pub fn dirty_dirs(files: &Vec<String>, dirs: &Vec<String>) -> (r: Vec<String>)
    ensures
        r.deep_view() == dirty(files.deep_view(), dirs.deep_view()),
{
    let ghost all = deep(dirs@);
    let ghost f = dirty_dir(deep(files@));
    let mut r: Vec<String> = Vec::new();
    let mut i: usize = 0;
    while i < dirs.len()
        invariant
            i <= dirs@.len(),
            all == deep(dirs@),
            f == dirty_dir(deep(files@)),
            deep(r@) == filter_map(all.take(i as int), f),
        decreases dirs.len() - i,
    {
        let d = dirs[i].as_str();
        proof {
            lemma_filter_map_next(all, f, i as int);
        }
        let mut found = false;
        let mut j: usize = 0;
        while j < files.len() && !found
            invariant
                j <= files@.len(),
                found ==> holds_any(deep(files@), d@),
                !found ==> forall|k: int| 0 <= k < j ==> !within(#[trigger] deep(files@)[k], d@),
            decreases files.len() - j,
        {
            if path_starts_with(files[j].as_str(), d) {
                assert(within(deep(files@)[j as int], d@));
                found = true;
            }
            j += 1;
        }
        assert(found == holds_any(deep(files@), d@));
        if found {
            r.push(copy(d));
        }
        i += 1;
    }
    set_of_paths(&r)
}

impl GitDiff {
    /// The directory of the repository.
    pub closed spec fn root(self) -> Seq<char> {
        self.repo_root@
    }

    /// The repository at a directory.
    pub fn new(repo_root: &str) -> (r: GitDiff)
        ensures
            r.root() == repo_root@,
    {
        GitDiff { repo_root: copy(repo_root) }
    }

    /// The repository at or above a directory, or why there is none. `canonical` is the resolved form
    /// of `start`; `marked` says of `canonical` and of each directory above it, nearest first, whether
    /// it holds a `.git`.
    pub fn discover(start: &str, canonical: &str, marked: &Vec<bool>) -> (r: Result<GitDiff, String>)
        requires
            marked@.len() == ancestors_of(canonical@).len(),
        ensures
            match r {
                Ok(d) => exists|i: int| #[trigger]
                    nearest(marked@, i) && ancestors_of(canonical@)[i] == d.root(),
                Err(e) => e@ == "no git repository found at or above "@ + start@ && forall|i: int|
                    0 <= i < marked@.len() ==> !#[trigger] marked@[i],
            },
    {
        let dirs = ancestors(canonical);
        match first_marked(&dirs, marked) {
            Some(d) => Ok(GitDiff { repo_root: d }),
            None => Err(cat("no git repository found at or above ", start)),
        }
    }

    /// The directory of the repository.
    pub fn repo_root(&self) -> (r: &str)
        ensures
            r@ == self.root(),
    {
        self.repo_root.as_str()
    }

    /// The files that differ from a base, as seen from the root; in order, and each once. `edited`
    /// and `added` are what `git diff --name-only` and `git ls-files --others
    /// --exclude-standard` gave.
    pub fn changed_files(&self, base_ref: &str, edited: &GitRun, added: &GitRun) -> (r: Result<
        Vec<String>,
        String,
    >)
        ensures
            match r {
                Ok(v) => changed(base_ref@, *edited, *added) == Ok::<Seq<Seq<char>>, Seq<char>>(
                    v.deep_view(),
                ),
                Err(e) => changed(base_ref@, *edited, *added) == Err::<Seq<Seq<char>>, Seq<char>>(e@),
            },
            read_as_is(*edited),
            git_names(diff_args(base_ref@), *edited) is Ok ==> read_as_is(*added),
    {
        let args = cat("diff --name-only ", base_ref);
        let mut all = match run_git_names(args.as_str(), edited) {
            Ok(v) => v,
            Err(e) => {
                return Err(e);
            },
        };
        let mut more = match run_git_names("ls-files --others --exclude-standard", added) {
            Ok(v) => v,
            Err(e) => {
                return Err(e);
            },
        };
        all.append(&mut more);
        Ok(set_of_paths(&all))
    }

    /// Those of some directories that hold a file that differs from a base; in order, and each once.
    pub fn changed_dirs(
        &self,
        base_ref: &str,
        unit_dirs: &Vec<String>,
        edited: &GitRun,
        added: &GitRun,
    ) -> (r: Result<Vec<String>, String>)
        ensures
            match changed(base_ref@, *edited, *added) {
                Ok(files) => r is Ok && r->Ok_0.deep_view() == dirty(files, unit_dirs.deep_view()),
                Err(e) => r is Err && r->Err_0@ == e,
            },
            read_as_is(*edited),
            git_names(diff_args(base_ref@), *edited) is Ok ==> read_as_is(*added),
    {
        match self.changed_files(base_ref, edited, added) {
            Ok(files) => Ok(dirty_dirs(&files, unit_dirs)),
            Err(e) => Err(e),
        }
    }
}

/// The paths that a command printed are its lines, but for those that are blank, as they stand.
pub proof fn law_each_line_is_a_path(out: Seq<char>, p: Seq<char>)
    ensures
        names_in(out).contains(p) <==> lines_of(out).contains(p) && trim_of(p).len() > 0,
{
    lemma_filter_map_contains(lines_of(out), naming_line(), p);
    if lines_of(out).contains(p) {
        let i = choose|i: int| 0 <= i < lines_of(out).len() && lines_of(out)[i] == p;
        assert(naming_line()(lines_of(out)[i]) is Some <==> trim_of(p).len() > 0);
    }
}

/// A file is changed if and only if one of the two commands names it, and both have to succeed: where
/// one fails there is an error, that of the first where both do.
pub proof fn law_changed_files(base_ref: Seq<char>, edited: GitRun, added: GitRun, p: Seq<char>)
    ensures
        edited is NotStarted || (edited matches GitRun::Ended { success, .. } && !success) ==> changed(
            base_ref,
            edited,
            added,
        ) is Err,
        added is NotStarted || (added matches GitRun::Ended { success, .. } && !success) ==> changed(
            base_ref,
            edited,
            added,
        ) is Err,
        edited matches GitRun::Ended { success: true, stdout: a, .. } ==> (added matches GitRun::Ended {
            success: true,
            stdout: b,
            ..
        } ==> (changed(base_ref, edited, added) matches Ok(files) && (has_path(files, p) <==> has_path(
            names_in(utf8_lossy(a@)),
            p,
        ) || has_path(names_in(utf8_lossy(b@)), p)))),
{
    if let GitRun::Ended { success: true, stdout: a, .. } = edited {
        if let GitRun::Ended { success: true, stdout: b, .. } = added {
            let x = names_in(utf8_lossy(a@));
            let y = names_in(utf8_lossy(b@));
            crate::pathset::law_path_set(x + y);
            assert(has_path(x + y, p) <==> has_path(x, p) || has_path(y, p)) by {
                if has_path(x, p) {
                    let i = choose|i: int| 0 <= i < x.len() && components(#[trigger] x[i]) == components(p);
                    assert((x + y)[i] == x[i]);
                }
                if has_path(y, p) {
                    let i = choose|i: int| 0 <= i < y.len() && components(#[trigger] y[i]) == components(p);
                    assert((x + y)[x.len() + i] == y[i]);
                }
            }
        }
    }
}

/// A unit's directory is dirty if and only if it is one of those that are asked about and a changed
/// file lies in it.
pub proof fn law_dirty_dirs(files: Seq<Seq<char>>, dirs: Seq<Seq<char>>, d: Seq<char>)
    ensures
        has_path(filter_map(dirs, dirty_dir(files)), d) <==> has_path(dirty(files, dirs), d),
        filter_map(dirs, dirty_dir(files)).contains(d) <==> dirs.contains(d) && exists|i: int|
            0 <= i < files.len() && within(#[trigger] files[i], d),
{
    let f = dirty_dir(files);
    crate::pathset::law_path_set(filter_map(dirs, f));
    lemma_filter_map_contains(dirs, f, d);
    if dirs.contains(d) {
        let i = choose|i: int| 0 <= i < dirs.len() && dirs[i] == d;
        assert(f(dirs[i]) is Some <==> holds_any(files, d));
    }
}

/// A unit's directory is dirty where a file below it changed, however deep.
pub proof fn law_a_file_below_makes_dirty(files: Seq<Seq<char>>, dirs: Seq<Seq<char>>, dir: Seq<char>, rel: Seq<char>)
    requires
        dir.len() > 0,
        dirs.contains(dir),
        !crate::path::is_absolute(rel),
        files.contains(crate::path::path_joined(dir, rel)),
    ensures
        has_path(dirty(files, dirs), dir),
{
    let file = crate::path::path_joined(dir, rel);
    crate::path::law_components_below(dir, rel);
    let i = choose|i: int| 0 <= i < files.len() && files[i] == file;
    assert(within(files[i], dir));
    law_dirty_dirs(files, dirs, dir);
    let kept = filter_map(dirs, dirty_dir(files));
    assert(kept.contains(dir));
    let k = choose|k: int| 0 <= k < kept.len() && kept[k] == dir;
    assert(components(kept[k]) == components(dir));
}

/// A file lies strictly inside a directory if it has the components of the directory and then at least one more.
/// So no directory with a name lies inside itself, none of two lies inside the other if the other lies inside
/// it, and what lies inside something that lies inside a directory lies inside the directory.
pub proof fn law_strictly_inside(a: Seq<char>, b: Seq<char>, c: Seq<char>)
    requires
        components(b).len() > 0,
        components(c).len() > 0,
    ensures
        strictly_inside(a, b) <==> components(a).len() > components(b).len() && forall|i: int|
            0 <= i < components(b).len() ==> #[trigger] components(b)[i] == components(a)[i],
        !strictly_inside(b, b),
        strictly_inside(b, c) ==> !strictly_inside(c, b),
        strictly_inside(a, b) && strictly_inside(b, c) ==> strictly_inside(a, c),
{
    let (x, y) = (components(a), components(b));
    crate::path::law_inside_is_passed_on(a, b, c);
    if within(a, b) {
        assert forall|i: int| 0 <= i < y.len() implies #[trigger] y[i] == x[i] by {
            assert(x.subrange(0, y.len() as int)[i] == x[i]);
        }
        if x.len() == y.len() {
            assert(x =~= y);
        }
    }
    if x.len() > y.len() && (forall|i: int| 0 <= i < y.len() ==> #[trigger] y[i] == x[i]) {
        assert(y =~= x.subrange(0, y.len() as int));
    }
    if within(b, c) && within(c, b) {
        assert(components(b) =~= components(c)) by {
            assert(y.len() == components(c).len());
            assert(components(c) =~= y.subrange(0, y.len() as int));
            assert(y =~= y.subrange(0, y.len() as int));
        }
    }
    if strictly_inside(a, b) && strictly_inside(b, c) {
        assert(components(c).len() <= y.len() <= x.len());
        if x == components(c) {
            assert(y.len() == x.len());
            assert(y =~= x);
        }
    }
}

} // verus!
