//! Sets of glob patterns.
use globset::{GlobSet, GlobSetBuilder};
use vstd::prelude::*;

use crate::deep::deep;
use crate::sort::{path_before, sort_by, sort_paths};
use crate::text::copy;

verus! {

broadcast use {crate::deep::group_deep, crate::deep::lemma_take_next, crate::deep::lemma_take_all};

#[verifier::external_type_specification]
#[verifier::external_body]
pub struct ExGlobSet(globset::GlobSet);

#[verifier::external_type_specification]
#[verifier::external_body]
pub struct ExGlobSetBuilder(globset::GlobSetBuilder);

/// The patterns added to a builder, in the order in which they were added.
pub uninterp spec fn builder_globs(b: globset::GlobSetBuilder) -> Seq<Seq<char>>;

/// The patterns of a set.
pub uninterp spec fn set_globs(s: globset::GlobSet) -> Seq<Seq<char>>;

/// What is wrong with a pattern.
pub uninterp spec fn glob_error(pattern: Seq<char>) -> Option<Seq<char>>;

/// What is wrong with a list of patterns each of which is right.
pub uninterp spec fn glob_set_error(patterns: Seq<Seq<char>>) -> Option<Seq<char>>;

/// Whether a pattern matches a path.
pub uninterp spec fn glob_matches(pattern: Seq<char>, path: Seq<char>) -> bool;

/// `GlobSetBuilder::new`: a builder without patterns.
#[verifier::external_body]
fn new_builder() -> (r: GlobSetBuilder)
    ensures
        builder_globs(r) == Seq::<Seq<char>>::empty(),
{
    GlobSetBuilder::new()
}

/// `GlobSetBuilder::add`, with the pattern compiled by `Glob::new`: a pattern that compiles stands
/// behind those that are there; of one that does not, the error says what is wrong, and the builder
/// stays as it was.
#[verifier::external_body]
fn add_glob(b: &mut GlobSetBuilder, pattern: &str) -> (r: Result<(), String>)
    ensures
        match r {
            Ok(_) => glob_error(pattern@) is None && builder_globs(*final(b)) == builder_globs(*old(b)).push(
                pattern@,
            ),
            Err(e) => glob_error(pattern@) == Some(e@) && builder_globs(*final(b)) == builder_globs(*old(b)),
        },
{
    let glob = globset::Glob::new(pattern).map_err(|e| e.to_string())?;
    b.add(glob);
    Ok(())
}

/// `GlobSetBuilder::build`: a set of the builder's patterns, or what is wrong with them as a set.
#[verifier::external_body]
fn build_set(b: &GlobSetBuilder) -> (r: Result<GlobSet, String>)
    ensures
        match r {
            Ok(s) => glob_set_error(builder_globs(*b)) is None && set_globs(s) == builder_globs(*b),
            Err(e) => glob_set_error(builder_globs(*b)) == Some(e@),
        },
{
    b.build().map_err(|e| e.to_string())
}

/// `GlobSet::is_match`: whether any pattern of the set matches a path, where `/` separates the
/// components of a path.
#[verifier::external_body]
pub(crate) fn set_is_match(s: &GlobSet, path: &str) -> (r: bool)
    ensures
        r == (exists|i: int|
            0 <= i < set_globs(*s).len() && glob_matches(#[trigger] set_globs(*s)[i], path@)),
{
    s.is_match(path)
}

/// Whether any of the patterns matches a path.
pub open spec fn any_matches(patterns: Seq<Seq<char>>, path: Seq<char>) -> bool {
    exists|i: int| 0 <= i < patterns.len() && glob_matches(#[trigger] patterns[i], path)
}

/// Why patterns do not make a set.
#[derive(Debug)]
pub enum GlobError {
    /// A pattern is wrong.
    Pattern { glob: String, message: String },
    /// The patterns are wrong together.
    Together { message: String },
}

impl GlobError {
    /// What the error says, where the patterns are `what`.
    pub fn message(&self, what: &str) -> (r: String)
        ensures
            match self {
                GlobError::Pattern { glob, message } => r@ == "compiling "@ + what@ + " glob `"@ + glob@
                    + "`"@,
                GlobError::Together { message } => r@ == message@,
            },
    {
        match self {
            GlobError::Pattern { glob, message } => crate::text::cat5(
                "compiling ",
                what,
                " glob `",
                glob.as_str(),
                "`",
            ),
            GlobError::Together { message } => copy(message.as_str()),
        }
    }
}

/// Whether patterns make a set.
pub open spec fn globs_compile(patterns: Seq<Seq<char>>) -> bool {
    &&& forall|i: int| 0 <= i < patterns.len() ==> glob_error(#[trigger] patterns[i]) is None
    &&& glob_set_error(patterns) is None
}

/// What is wrong with patterns: the first that is wrong, or all together.
pub open spec fn globs_fail(patterns: Seq<Seq<char>>, e: GlobError) -> bool {
    match e {
        GlobError::Pattern { glob, message } => exists|i: int|
            0 <= i < patterns.len() && #[trigger] patterns[i] == glob@ && glob_error(patterns[i]) == Some(
                message@,
            ) && forall|j: int| 0 <= j < i ==> glob_error(#[trigger] patterns[j]) is None,
        GlobError::Together { message } => (forall|i: int|
            0 <= i < patterns.len() ==> glob_error(#[trigger] patterns[i]) is None) && glob_set_error(
            patterns,
        ) == Some(message@),
    }
}

/// The set of some patterns.
pub fn build_matcher(patterns: &Vec<String>) -> (r: Result<GlobSet, GlobError>)
    ensures
        match r {
            Ok(s) => globs_compile(patterns.deep_view()) && set_globs(s) == patterns.deep_view(),
            Err(e) => !globs_compile(patterns.deep_view()) && globs_fail(patterns.deep_view(), e),
        },
{
    let mut b = new_builder();
    let ghost all = deep(patterns@);
    let mut i: usize = 0;
    while i < patterns.len()
        invariant
            i <= patterns@.len(),
            all == deep(patterns@),
            builder_globs(b) == all.take(i as int),
            forall|j: int| 0 <= j < i ==> glob_error(#[trigger] all[j]) is None,
        decreases patterns.len() - i,
    {
        match add_glob(&mut b, patterns[i].as_str()) {
            Ok(_) => {},
            Err(message) => {
                assert(all[i as int] == patterns@[i as int]@);
                return Err(GlobError::Pattern { glob: copy(patterns[i].as_str()), message });
            },
        }
        i += 1;
    }
    match build_set(&b) {
        Ok(s) => Ok(s),
        Err(message) => Err(GlobError::Together { message }),
    }
}

/// The paths that some pattern matches and none of `but` does.
pub open spec fn matching(
    paths: Seq<Seq<char>>,
    patterns: Seq<Seq<char>>,
    but: Seq<Seq<char>>,
) -> Seq<Seq<char>>
    decreases paths.len(),
{
    if paths.len() == 0 {
        Seq::empty()
    } else if any_matches(patterns, paths.last()) && !any_matches(but, paths.last()) {
        matching(paths.drop_last(), patterns, but).push(paths.last())
    } else {
        matching(paths.drop_last(), patterns, but)
    }
}

/// The paths that the set matches and `but` does not, in order.
pub fn select(paths: &Vec<String>, set: &GlobSet, but: Option<&GlobSet>) -> (r: Vec<String>)
    ensures
        r.deep_view() == sort_by(
            matching(
                paths.deep_view(),
                set_globs(*set),
                match but {
                    Some(d) => set_globs(*d),
                    None => Seq::empty(),
                },
            ),
            path_before(),
        ),
{
    let ghost all = deep(paths@);
    let ghost derived = match but {
        Some(d) => set_globs(*d),
        None => Seq::empty(),
    };
    let mut found: Vec<String> = Vec::new();
    let mut i: usize = 0;
    while i < paths.len()
        invariant
            i <= paths@.len(),
            all == deep(paths@),
            derived == (match but {
                Some(d) => set_globs(*d),
                None => Seq::empty(),
            }),
            deep(found@) == matching(all.take(i as int), set_globs(*set), derived),
        decreases paths.len() - i,
    {
        let p = paths[i].as_str();
        let excluded = match but {
            Some(d) => set_is_match(d, p),
            None => false,
        };
        proof {
            assert(all.take(i + 1).drop_last() =~= all.take(i as int));
            assert(all.take(i + 1).last() == p@);
        }
        if !excluded && set_is_match(set, p) {
            found.push(copy(p));
        }
        i += 1;
    }
    sort_paths(&found)
}

/// A path that no pattern matches, or that a pattern of `but` does, makes no difference: what an
/// adapter writes does not change what is selected.
pub proof fn law_excluded_paths_do_not_count(
    before: Seq<Seq<char>>,
    path: Seq<char>,
    behind: Seq<Seq<char>>,
    patterns: Seq<Seq<char>>,
    but: Seq<Seq<char>>,
)
    requires
        !any_matches(patterns, path) || any_matches(but, path),
    ensures
        matching(before.push(path) + behind, patterns, but) == matching(before + behind, patterns, but),
    decreases behind.len(),
{
    let with = before.push(path) + behind;
    let without = before + behind;
    if behind.len() == 0 {
        assert(with.drop_last() =~= before);
        assert(without =~= before);
    } else {
        law_excluded_paths_do_not_count(before, path, behind.drop_last(), patterns, but);
        assert(with.drop_last() =~= before.push(path) + behind.drop_last());
        assert(without.drop_last() =~= before + behind.drop_last());
    }
}

/// A path is selected if and only if it is there, a pattern matches it and none of `but` does; as often
/// as it is there.
pub proof fn law_what_matches_is_selected(
    paths: Seq<Seq<char>>,
    patterns: Seq<Seq<char>>,
    but: Seq<Seq<char>>,
    p: Seq<char>,
)
    ensures
        ({
            let r = sort_by(matching(paths, patterns, but), path_before());
            &&& r.to_multiset().count(p) == (if any_matches(patterns, p) && !any_matches(but, p) {
                paths.to_multiset().count(p)
            } else {
                0
            })
            &&& r.contains(p) <==> paths.contains(p) && any_matches(patterns, p) && !any_matches(but, p)
            &&& crate::sort::sorted_by(r, path_before())
        }),
{
    broadcast use vstd::seq_lib::group_to_multiset_ensures;

    let m = matching(paths, patterns, but);
    let r = sort_by(m, path_before());
    crate::pathset::lemma_path_orders();
    crate::sort::lemma_sort_by(m, path_before());
    lemma_matching_count(paths, patterns, but, p);
    assert(r.contains(p) <==> r.to_multiset().count(p) > 0);
    assert(paths.contains(p) <==> paths.to_multiset().count(p) > 0);
}

proof fn lemma_matching_count(paths: Seq<Seq<char>>, patterns: Seq<Seq<char>>, but: Seq<Seq<char>>, p: Seq<char>)
    ensures
        matching(paths, patterns, but).to_multiset().count(p) == (if any_matches(patterns, p) && !any_matches(
            but,
            p,
        ) {
            paths.to_multiset().count(p)
        } else {
            0
        }),
    decreases paths.len(),
{
    broadcast use vstd::seq_lib::group_to_multiset_ensures;

    if paths.len() > 0 {
        let rest = paths.drop_last();
        lemma_matching_count(rest, patterns, but, p);
        assert(rest.push(paths.last()) =~= paths);
        assert(paths.to_multiset() =~= rest.to_multiset().insert(paths.last()));
        let before = matching(rest, patterns, but);
        assert(before.push(paths.last()).to_multiset() =~= before.to_multiset().insert(paths.last()));
    } else {
        assert(paths.to_multiset().count(p) == 0);
    }
}

/// What is told to be wrong is wrong: a pattern that is named stands among the patterns, is wrong on its own and
/// for the reason that is told; and of patterns that make a set nothing is told to be wrong.
pub proof fn law_what_is_wrong_with_patterns(patterns: Seq<Seq<char>>, e: GlobError)
    requires
        globs_fail(patterns, e),
    ensures
        !globs_compile(patterns),
        e matches GlobError::Pattern { glob, message } ==> patterns.contains(glob@) && glob_error(glob@) == Some(message@),
        e matches GlobError::Together { message } ==> glob_set_error(patterns) == Some(message@) && forall|i: int|
            0 <= i < patterns.len() ==> glob_error(#[trigger] patterns[i]) is None,
{
}

} // verus!
