//! Lists of a workspace's units and profiles.
use vstd::prelude::*;

use crate::config::{LoadedUnitModel, ProfileModel, Workspace};
use crate::deep::{deep, filter_map, lemma_filter_map_next};
use crate::discovery::{orphans_among, scan_orphan_unites};
use crate::order::{in_order, less};
use crate::path::{components, path_components, path_starts_with, render, rendered, within};
use crate::sort::{key_before, lemma_sort_map, sort_by, sort_keyed, Keyed};
use crate::strmap::values_in_order;
use crate::text::{contains, copy, copy_all, copy_opt, texts};

verus! {

broadcast use {crate::deep::group_deep, crate::deep::lemma_take_next, crate::deep::lemma_take_all};

/// A unit in a list.
#[derive(Debug)]
pub struct UnitListItem {
    pub name: String,
    /// Its directory, from the workspace.
    pub path: String,
    pub language: Option<String>,
    /// The names of the profiles that list it.
    pub profiles: Vec<String>,
}

#[verifier::ext_equal]
pub struct UnitListItemModel {
    pub name: Seq<char>,
    pub path: Seq<char>,
    pub language: Option<Seq<char>>,
    pub profiles: Seq<Seq<char>>,
}

impl DeepView for UnitListItem {
    type V = UnitListItemModel;

    open spec fn deep_view(&self) -> UnitListItemModel {
        UnitListItemModel {
            name: self.name@,
            path: self.path@,
            language: self.language.deep_view(),
            profiles: self.profiles.deep_view(),
        }
    }
}

impl Keyed for UnitListItem {
    open spec fn key_text(&self) -> Seq<char> {
        self.name@
    }

    fn key(&self) -> (r: &str) {
        self.name.as_str()
    }
}

/// The units of a workspace.
#[derive(Debug)]
pub struct UnitListOutput {
    pub units: Vec<UnitListItem>,
    /// The directories with a `unit.toml` that no profile lists.
    pub orphans: Vec<String>,
}

/// A profile in a list.
#[derive(Debug)]
pub struct BoxListItem {
    pub name: String,
    /// The file that declares it, from the workspace.
    pub source: String,
    /// The paths of its units, as the file lists them.
    pub units: Vec<String>,
}

#[verifier::ext_equal]
pub struct BoxListItemModel {
    pub name: Seq<char>,
    pub source: Seq<char>,
    pub units: Seq<Seq<char>>,
}

impl DeepView for BoxListItem {
    type V = BoxListItemModel;

    open spec fn deep_view(&self) -> BoxListItemModel {
        BoxListItemModel { name: self.name@, source: self.source@, units: self.units.deep_view() }
    }
}

impl Keyed for BoxListItem {
    open spec fn key_text(&self) -> Seq<char> {
        self.name@
    }

    fn key(&self) -> (r: &str) {
        self.name.as_str()
    }
}

/// The profiles of a workspace.
#[derive(Debug)]
pub struct BoxListOutput {
    pub profiles: Vec<BoxListItem>,
}

/// The name of a profile, where it lists a unit.
pub open spec fn listing(rel: Seq<char>) -> spec_fn(ProfileModel) -> Option<Seq<char>> {
    |p: ProfileModel|
        if p.units.contains(rel) {
            Some(p.name)
        } else {
            None
        }
}

/// The names of the profiles that list a unit, in the order of the profiles.
pub open spec fn profiles_listing(profiles: Map<Seq<char>, ProfileModel>, rel: Seq<char>) -> Seq<Seq<char>> {
    filter_map(values_in_order(profiles), listing(rel))
}

/// The names of the profiles that list a unit.
pub fn profiles_with(workspace: &Workspace, rel: &str) -> (r: Vec<String>)
    ensures
        r.deep_view() == profiles_listing(workspace.profiles@, rel@),
{
    let ghost all = values_in_order(workspace.profiles@);
    let ghost f = listing(rel@);
    let n = workspace.profiles.len();
    let mut r: Vec<String> = Vec::new();
    let mut i: usize = 0;
    while i < n
        invariant
            i <= n == workspace.profiles.keys().len(),
            workspace.profiles.keys() == in_order(workspace.profiles@.dom()),
            all == values_in_order(workspace.profiles@),
            f == listing(rel@),
            deep(r@) == filter_map(all.take(i as int), f),
        decreases n - i,
    {
        let p = workspace.profiles.value(i);
        proof {
            assert(all[i as int] == p.deep_view());
            lemma_filter_map_next(all, f, i as int);
        }
        if contains(&p.units, rel) {
            r.push(copy(p.name.as_str()));
        }
        i += 1;
    }
    r
}

/// A file as seen from the workspace; as it is where it lies elsewhere.
pub open spec fn seen_from(root: Seq<char>, source: Seq<char>) -> Seq<char> {
    if within(source, root) {
        rendered(components(source).skip(components(root).len() as int))
    } else {
        source
    }
}

/// A file as seen from the workspace; as it is where it lies elsewhere.
pub fn relative_source(root: &str, source: &str) -> (r: String)
    ensures
        r@ == seen_from(root@, source@),
{
    if !path_starts_with(source, root) {
        return copy(source);
    }
    let c = path_components(source);
    let skip = path_components(root).len();
    assert(texts(c@).len() == c@.len());
    let mut rest: Vec<String> = Vec::new();
    let ghost want = components(source@).skip(skip as int);
    let mut i: usize = skip;
    while i < c.len()
        invariant
            skip <= i <= c@.len(),
            texts(c@) == components(source@),
            want == components(source@).skip(skip as int),
            texts(rest@) == want.take(i - skip),
        decreases c.len() - i,
    {
        let p = copy(c[i].as_str());
        assert(p@ == want[i - skip]);
        assert(want.take(i - skip + 1) =~= want.take(i - skip).push(p@));
        rest.push(p);
        i += 1;
    }
    assert(texts(rest@) =~= want);
    render(&rest, rest.len())
}

/// A unit in a list.
pub open spec fn unit_item(profiles: Map<Seq<char>, ProfileModel>, u: LoadedUnitModel) -> UnitListItemModel {
    UnitListItemModel {
        name: u.config.name,
        path: u.rel,
        language: u.config.language,
        profiles: profiles_listing(profiles, u.rel),
    }
}

/// The order of units: by their names.
pub open spec fn unit_before() -> spec_fn(UnitListItemModel, UnitListItemModel) -> bool {
    |a: UnitListItemModel, b: UnitListItemModel| less(a.name, b.name)
}

/// The units of a workspace, in the order of their names.
pub open spec fn unit_items(profiles: Map<Seq<char>, ProfileModel>, units: Map<Seq<char>, LoadedUnitModel>) -> Seq<
    UnitListItemModel,
> {
    sort_by(values_in_order(units).map_values(|u: LoadedUnitModel| unit_item(profiles, u)), unit_before())
}

/// The units of a workspace, in the order of their names. `found` holds the directories with a
/// `unit.toml`, as seen from the workspace.
pub fn unit_list(workspace: &Workspace, found: &Vec<String>) -> (r: UnitListOutput)
    ensures
        r.units.deep_view() == unit_items(workspace.profiles@, workspace.units_by_name@),
        r.orphans.deep_view() == orphans_among(found.deep_view(), in_order(workspace.units_by_path@.dom())),
{
    let ghost all = values_in_order(workspace.units_by_name@);
    let ghost want = all.map_values(|u: LoadedUnitModel| unit_item(workspace.profiles@, u));
    let n = workspace.units_by_name.len();
    let mut units: Vec<UnitListItem> = Vec::new();
    let mut i: usize = 0;
    while i < n
        invariant
            i <= n == workspace.units_by_name.keys().len(),
            workspace.units_by_name.keys() == in_order(workspace.units_by_name@.dom()),
            all == values_in_order(workspace.units_by_name@),
            want == all.map_values(|u: LoadedUnitModel| unit_item(workspace.profiles@, u)),
            deep(units@) == want.take(i as int),
        decreases n - i,
    {
        let u = workspace.units_by_name.value(i);
        assert(all[i as int] == u.deep_view());
        let item = UnitListItem {
            name: copy(u.config.name.as_str()),
            path: copy(u.rel.as_str()),
            language: copy_opt(&u.config.language),
            profiles: profiles_with(workspace, u.rel.as_str()),
        };
        assert(item.deep_view() == want[i as int]);
        units.push(item);
        i += 1;
    }
    let ghost listed = units@;
    let units = sort_keyed(units);
    proof {
        lemma_sort_map(
            listed,
            |x: UnitListItem| x.deep_view(),
            key_before::<UnitListItem>(),
            unit_before(),
        );
    }
    UnitListOutput { units, orphans: scan_orphan_unites(workspace, found) }
}

/// A profile in a list.
pub open spec fn box_item(root: Seq<char>, p: ProfileModel) -> BoxListItemModel {
    BoxListItemModel { name: p.name, source: seen_from(root, p.source), units: p.units }
}

/// The order of profiles: by their names.
pub open spec fn box_before() -> spec_fn(BoxListItemModel, BoxListItemModel) -> bool {
    |a: BoxListItemModel, b: BoxListItemModel| less(a.name, b.name)
}

/// The profiles of a workspace, in the order of their names.
pub open spec fn box_items(root: Seq<char>, profiles: Map<Seq<char>, ProfileModel>) -> Seq<BoxListItemModel> {
    sort_by(values_in_order(profiles).map_values(|p: ProfileModel| box_item(root, p)), box_before())
}

/// The profiles of a workspace, in the order of their names.
pub fn box_list(workspace: &Workspace) -> (r: BoxListOutput)
    ensures
        r.profiles.deep_view() == box_items(workspace.root@, workspace.profiles@),
{
    let ghost all = values_in_order(workspace.profiles@);
    let ghost want = all.map_values(|p: ProfileModel| box_item(workspace.root@, p));
    let n = workspace.profiles.len();
    let mut profiles: Vec<BoxListItem> = Vec::new();
    let mut i: usize = 0;
    while i < n
        invariant
            i <= n == workspace.profiles.keys().len(),
            workspace.profiles.keys() == in_order(workspace.profiles@.dom()),
            all == values_in_order(workspace.profiles@),
            want == all.map_values(|p: ProfileModel| box_item(workspace.root@, p)),
            deep(profiles@) == want.take(i as int),
        decreases n - i,
    {
        let p = workspace.profiles.value(i);
        assert(all[i as int] == p.deep_view());
        let item = BoxListItem {
            name: copy(p.name.as_str()),
            source: relative_source(workspace.root.as_str(), p.source.as_str()),
            units: copy_all(&p.units),
        };
        assert(item.deep_view() == want[i as int]);
        profiles.push(item);
        i += 1;
    }
    let ghost listed = profiles@;
    let profiles = sort_keyed(profiles);
    proof {
        lemma_sort_map(
            listed,
            |x: BoxListItem| x.deep_view(),
            key_before::<BoxListItem>(),
            box_before(),
        );
    }
    BoxListOutput { profiles }
}

/// Each value of a map stands among its values.
pub proof fn lemma_value_in_order<T>(m: Map<Seq<char>, T>, k: Seq<char>)
    requires
        in_order(m.dom()).to_set() == m.dom(),
        m.contains_key(k),
    ensures
        values_in_order(m).contains(m[k]),
{
    let keys = in_order(m.dom());
    assert(keys.to_set().contains(k));
    let i = choose|i: int| 0 <= i < keys.len() && keys[i] == k;
    assert(values_in_order(m)[i] == m[k]);
}

/// A profile is told to list a unit if and only if the unit's path stands in it.
pub proof fn law_profiles_that_list_a_unit(profiles: Map<Seq<char>, ProfileModel>, rel: Seq<char>, n: Seq<char>)
    ensures
        profiles_listing(profiles, rel).contains(n) <==> exists|i: int|
            0 <= i < values_in_order(profiles).len() && (#[trigger] values_in_order(profiles)[i]).name == n
                && values_in_order(profiles)[i].units.contains(rel),
{
    let all = values_in_order(profiles);
    let f = listing(rel);
    crate::deep::lemma_filter_map_contains(all, f, n);
    if exists|i: int| 0 <= i < all.len() && (#[trigger] all[i]).name == n && all[i].units.contains(rel) {
        let i = choose|i: int| 0 <= i < all.len() && (#[trigger] all[i]).name == n && all[i].units.contains(rel);
        assert(f(all[i]) == Some(n));
    }
    if exists|i: int| 0 <= i < all.len() && f(#[trigger] all[i]) == Some(n) {
        let i = choose|i: int| 0 <= i < all.len() && f(#[trigger] all[i]) == Some(n);
        assert(all[i].name == n);
    }
}

/// The list of units holds each unit once, with its name, its path, its language and the profiles that list
/// it, and is in the order of the names.
pub proof fn law_every_unit_is_listed(
    profiles: Map<Seq<char>, ProfileModel>,
    units: Map<Seq<char>, LoadedUnitModel>,
    k: Seq<char>,
)
    requires
        in_order(units.dom()).to_set() == units.dom(),
        units.contains_key(k),
    ensures
        ({
            let all = unit_items(profiles, units);
            let u = units[k];
            &&& all.len() == in_order(units.dom()).len()
            &&& exists|i: int|
                0 <= i < all.len() && (#[trigger] all[i]).name == u.config.name && all[i].path == u.rel && all[i].language
                    == u.config.language && all[i].profiles == profiles_listing(profiles, u.rel)
            &&& forall|i: int, j: int| 0 <= i < j < all.len() ==> !less((#[trigger] all[j]).name, (#[trigger] all[i]).name)
        }),
{
    broadcast use vstd::seq_lib::group_to_multiset_ensures;

    let listed = values_in_order(units).map_values(|u: LoadedUnitModel| unit_item(profiles, u));
    let all = unit_items(profiles, units);
    lemma_value_in_order(units, k);
    let i = choose|i: int| 0 <= i < values_in_order(units).len() && values_in_order(units)[i] == units[k];
    let item = unit_item(profiles, units[k]);
    assert(listed[i] == item);
    assert(listed.contains(item));
    lemma_unit_order();
    crate::sort::lemma_sort_by(listed, unit_before());
    crate::sort::lemma_sort_len(listed, unit_before());
    assert(all.to_multiset().count(item) == listed.to_multiset().count(item));
    assert(all.contains(item));
    assert forall|i: int, j: int| 0 <= i < j < all.len() implies !less((#[trigger] all[j]).name, (#[trigger] all[i]).name) by {
        assert(!unit_before()(all[j], all[i]));
    }
}

proof fn lemma_unit_order()
    ensures
        crate::sort::orders(unit_before()),
{
    assert forall|a: UnitListItemModel, b: UnitListItemModel| #[trigger] unit_before()(a, b) implies !unit_before()(
        b,
        a,
    ) by {
        crate::order::lemma_less_asymmetric(a.name, b.name);
    }
    assert forall|a: UnitListItemModel, b: UnitListItemModel, c: UnitListItemModel|
        #![trigger unit_before()(a, b), unit_before()(b, c)]
        !unit_before()(a, b) && !unit_before()(b, c) implies !unit_before()(a, c) by {
        if less(a.name, c.name) {
            crate::order::lemma_less_total(a.name, b.name);
            crate::order::lemma_less_total(b.name, c.name);
            if a.name != b.name {
                crate::order::lemma_less_transitive(b.name, a.name, c.name);
            }
        }
    }
}

/// A file below the workspace is seen from there by what follows the workspace's path; a file elsewhere stays
/// as it is.
pub proof fn law_files_as_seen_from_the_workspace(root: Seq<char>, rel: Seq<char>, other: Seq<char>)
    requires
        root.len() > 0,
        crate::path::plain(rel),
    ensures
        seen_from(root, crate::path::path_joined(root, rel)) == rel,
        !within(other, root) ==> seen_from(root, other) == other,
{
    crate::path::lemma_plain(rel);
    crate::path::law_components_below(root, rel);
    let pieces = crate::text::split_on(rel, '/');
    assert((components(root) + pieces).skip(components(root).len() as int) =~= pieces);
}

/// The list of profiles holds each profile once, with its name, its units and the file that declares it, and is
/// in the order of the names.
pub proof fn law_every_profile_is_listed(root: Seq<char>, profiles: Map<Seq<char>, ProfileModel>, k: Seq<char>)
    requires
        in_order(profiles.dom()).to_set() == profiles.dom(),
        profiles.contains_key(k),
    ensures
        ({
            let all = box_items(root, profiles);
            let p = profiles[k];
            &&& all.len() == in_order(profiles.dom()).len()
            &&& exists|i: int|
                0 <= i < all.len() && (#[trigger] all[i]).name == p.name && all[i].units == p.units && all[i].source
                    == seen_from(root, p.source)
            &&& forall|i: int, j: int| 0 <= i < j < all.len() ==> !less((#[trigger] all[j]).name, (#[trigger] all[i]).name)
        }),
{
    let listed = values_in_order(profiles).map_values(|p: ProfileModel| box_item(root, p));
    let text = |x: BoxListItemModel| x.name;
    let item = box_item(root, profiles[k]);
    lemma_value_in_order(profiles, k);
    let i = choose|i: int| 0 <= i < values_in_order(profiles).len() && values_in_order(profiles)[i] == profiles[k];
    assert(listed[i] == item);
    crate::sort::law_sorted_by_text(listed, box_before(), text, item);
    let all = box_items(root, profiles);
    assert(all.contains(item));
    assert forall|i: int, j: int| 0 <= i < j < all.len() implies !less((#[trigger] all[j]).name, (#[trigger] all[i]).name) by {
        assert(!less(text(sort_by(listed, box_before())[j]), text(sort_by(listed, box_before())[i])));
    }
}

} // verus!
