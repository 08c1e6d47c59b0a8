//! A snapshot of a workspace, with what to do next.
use vstd::prelude::*;

use crate::config::{CacheConfig, LoadedUnitModel, ProfileModel, Workspace};
use crate::deep::{deep, flat_map, lemma_flat_map_next};
use crate::discovery::{orphans_among, scan_orphan_unites};
use crate::inventory::{profiles_listing, profiles_with, relative_source, seen_from};
use crate::order::{in_order, less};
use crate::plan::{MissReason, Plan, PlannedProfile, PlannedProfileModel, PlannedTaskModel, PlannedUnitModel, TaskStatus};
use crate::sort::{key_before, lemma_sort_map, sort_by, sort_keyed, Keyed};
use crate::strmap::{values_in_order, StrMap};
use crate::text::{cat, cat3, copy, copy_all, copy_opt, decimal, number};

verus! {

broadcast use {crate::deep::group_deep, crate::deep::lemma_take_next, crate::deep::lemma_take_all};

/// A profile.
#[derive(Debug)]
pub struct ProfileRef {
    pub name: String,
    /// The file that declares it, from the workspace.
    pub source: String,
    pub unit_count: usize,
}

#[verifier::ext_equal]
pub struct ProfileRefModel {
    pub name: Seq<char>,
    pub source: Seq<char>,
    pub unit_count: usize,
}

impl DeepView for ProfileRef {
    type V = ProfileRefModel;

    open spec fn deep_view(&self) -> ProfileRefModel {
        ProfileRefModel { name: self.name@, source: self.source@, unit_count: self.unit_count }
    }
}

impl Keyed for ProfileRef {
    open spec fn key_text(&self) -> Seq<char> {
        self.name@
    }

    fn key(&self) -> (r: &str) {
        self.name.as_str()
    }
}

/// A unit.
#[derive(Debug)]
pub struct UnitRef {
    pub name: String,
    pub path: String,
    pub language: Option<String>,
    /// The names of the profiles that list it.
    pub profiles: Vec<String>,
    /// The integrations that it configures.
    pub integrations: Vec<String>,
}

#[verifier::ext_equal]
pub struct UnitRefModel {
    pub name: Seq<char>,
    pub path: Seq<char>,
    pub language: Option<Seq<char>>,
    pub profiles: Seq<Seq<char>>,
    pub integrations: Seq<Seq<char>>,
}

impl DeepView for UnitRef {
    type V = UnitRefModel;

    open spec fn deep_view(&self) -> UnitRefModel {
        UnitRefModel {
            name: self.name@,
            path: self.path@,
            language: self.language.deep_view(),
            profiles: self.profiles.deep_view(),
            integrations: self.integrations.deep_view(),
        }
    }
}

impl Keyed for UnitRef {
    open spec fn key_text(&self) -> Seq<char> {
        self.name@
    }

    fn key(&self) -> (r: &str) {
        self.name.as_str()
    }
}

/// The state of the caches.
#[derive(Debug)]
pub struct CacheStatus {
    pub local_dir: String,
    pub local_exists: bool,
    pub remote_url: Option<String>,
    /// The variable that holds the token of the remote cache.
    pub remote_token_env: Option<String>,
    /// Whether that variable has a value.
    pub remote_token_resolved: bool,
}

#[verifier::ext_equal]
pub struct CacheStatusModel {
    pub local_dir: Seq<char>,
    pub local_exists: bool,
    pub remote_url: Option<Seq<char>>,
    pub remote_token_env: Option<Seq<char>>,
    pub remote_token_resolved: bool,
}

impl DeepView for CacheStatus {
    type V = CacheStatusModel;

    open spec fn deep_view(&self) -> CacheStatusModel {
        CacheStatusModel {
            local_dir: self.local_dir@,
            local_exists: self.local_exists,
            remote_url: self.remote_url.deep_view(),
            remote_token_env: self.remote_token_env.deep_view(),
            remote_token_resolved: self.remote_token_resolved,
        }
    }
}

/// A task of a plan.
#[derive(Debug)]
pub struct PlanTask {
    pub unit: String,
    pub task: String,
    pub status: TaskStatus,
    pub miss_reason: Option<MissReason>,
}

#[verifier::ext_equal]
pub struct PlanTaskModel {
    pub unit: Seq<char>,
    pub task: Seq<char>,
    pub status: TaskStatus,
    pub miss_reason: Option<MissReason>,
}

impl DeepView for PlanTask {
    type V = PlanTaskModel;

    open spec fn deep_view(&self) -> PlanTaskModel {
        PlanTaskModel {
            unit: self.unit@,
            task: self.task@,
            status: self.status,
            miss_reason: self.miss_reason,
        }
    }
}

/// What a plan of the whole workspace holds.
#[derive(Debug)]
pub struct PlanSnapshot {
    /// The first tasks.
    pub preview: Vec<PlanTask>,
    pub total_tasks: usize,
    pub hits: usize,
    pub misses: usize,
    pub skipped: usize,
}

/// How many tasks a preview shows.
pub const PREVIEW_LIMIT: usize = 5;

/// A snapshot of a workspace.
#[derive(Debug)]
pub struct Output {
    pub workspace_root: String,
    pub profiles: Vec<ProfileRef>,
    pub units: Vec<UnitRef>,
    /// The directories with a `unit.toml` that no profile lists.
    pub orphan_units: Vec<String>,
    pub cache: CacheStatus,
    pub plan: PlanSnapshot,
    /// What to do next, the first thing first.
    pub recommended_next: Vec<String>,
}

/// A profile.
pub open spec fn profile_ref(root: Seq<char>, p: ProfileModel) -> ProfileRefModel {
    ProfileRefModel { name: p.name, source: seen_from(root, p.source), unit_count: p.units.len() as usize }
}

/// The order of profiles: by their names.
pub open spec fn profile_before() -> spec_fn(ProfileRefModel, ProfileRefModel) -> bool {
    |a: ProfileRefModel, b: ProfileRefModel| less(a.name, b.name)
}

/// The profiles of a workspace, in the order of their names.
pub open spec fn profile_refs(root: Seq<char>, profiles: Map<Seq<char>, ProfileModel>) -> Seq<ProfileRefModel> {
    sort_by(values_in_order(profiles).map_values(|p: ProfileModel| profile_ref(root, p)), profile_before())
}

/// The profiles of a workspace.
pub fn collect_profiles(ws: &Workspace) -> (r: Vec<ProfileRef>)
    ensures
        r.deep_view() == profile_refs(ws.root@, ws.profiles@),
{
    let ghost all = values_in_order(ws.profiles@);
    let ghost want = all.map_values(|p: ProfileModel| profile_ref(ws.root@, p));
    let n = ws.profiles.len();
    let mut out: Vec<ProfileRef> = Vec::new();
    let mut i: usize = 0;
    while i < n
        invariant
            i <= n == ws.profiles.keys().len(),
            ws.profiles.keys() == in_order(ws.profiles@.dom()),
            all == values_in_order(ws.profiles@),
            want == all.map_values(|p: ProfileModel| profile_ref(ws.root@, p)),
            deep(out@) == want.take(i as int),
        decreases n - i,
    {
        let p = ws.profiles.value(i);
        assert(all[i as int] == p.deep_view());
        let item = ProfileRef {
            name: copy(p.name.as_str()),
            source: relative_source(ws.root.as_str(), p.source.as_str()),
            unit_count: p.units.len(),
        };
        assert(item.deep_view() == want[i as int]);
        out.push(item);
        i += 1;
    }
    let ghost listed = out@;
    let out = sort_keyed(out);
    proof {
        lemma_sort_map(listed, |x: ProfileRef| x.deep_view(), key_before::<ProfileRef>(), profile_before());
    }
    out
}

/// A unit.
pub open spec fn unit_ref(profiles: Map<Seq<char>, ProfileModel>, u: LoadedUnitModel) -> UnitRefModel {
    UnitRefModel {
        name: u.config.name,
        path: u.rel,
        language: u.config.language,
        profiles: profiles_listing(profiles, u.rel),
        integrations: u.config.integrations,
    }
}

/// The order of units: by their names.
pub open spec fn unit_before() -> spec_fn(UnitRefModel, UnitRefModel) -> bool {
    |a: UnitRefModel, b: UnitRefModel| less(a.name, b.name)
}

/// The units of a workspace, in the order of their names.
pub open spec fn unit_refs(profiles: Map<Seq<char>, ProfileModel>, units: Map<Seq<char>, LoadedUnitModel>) -> Seq<
    UnitRefModel,
> {
    sort_by(values_in_order(units).map_values(|u: LoadedUnitModel| unit_ref(profiles, u)), unit_before())
}

/// The units of a workspace.
pub fn collect_units(ws: &Workspace) -> (r: Vec<UnitRef>)
    ensures
        r.deep_view() == unit_refs(ws.profiles@, ws.units_by_name@),
{
    let ghost all = values_in_order(ws.units_by_name@);
    let ghost want = all.map_values(|u: LoadedUnitModel| unit_ref(ws.profiles@, u));
    let n = ws.units_by_name.len();
    let mut out: Vec<UnitRef> = Vec::new();
    let mut i: usize = 0;
    while i < n
        invariant
            i <= n == ws.units_by_name.keys().len(),
            ws.units_by_name.keys() == in_order(ws.units_by_name@.dom()),
            all == values_in_order(ws.units_by_name@),
            want == all.map_values(|u: LoadedUnitModel| unit_ref(ws.profiles@, u)),
            deep(out@) == want.take(i as int),
        decreases n - i,
    {
        let u = ws.units_by_name.value(i);
        assert(all[i as int] == u.deep_view());
        let item = UnitRef {
            name: copy(u.config.name.as_str()),
            path: copy(u.rel.as_str()),
            language: copy_opt(&u.config.language),
            profiles: profiles_with(ws, u.rel.as_str()),
            integrations: copy_all(&u.config.integrations),
        };
        assert(item.deep_view() == want[i as int]);
        out.push(item);
        i += 1;
    }
    let ghost listed = out@;
    let out = sort_keyed(out);
    proof {
        lemma_sort_map(listed, |x: UnitRef| x.deep_view(), key_before::<UnitRef>(), unit_before());
    }
    out
}

/// Whether a variable has a value that is not empty.
pub open spec fn has_value(env: Map<Seq<char>, Seq<char>>, name: Seq<char>) -> bool {
    env.contains_key(name) && env[name].len() > 0
}

/// The state of the caches.
pub open spec fn cache_status(
    c: CacheConfig,
    local_dir: Option<Seq<char>>,
    local_exists: bool,
    env: Map<Seq<char>, Seq<char>>,
) -> CacheStatusModel {
    CacheStatusModel {
        local_dir: match local_dir {
            Some(d) => d,
            None => "(unknown)"@,
        },
        local_exists,
        remote_url: c.remote.deep_view(),
        remote_token_env: c.remote_token_env.deep_view(),
        remote_token_resolved: c.remote_token_env is Some && has_value(env, c.remote_token_env->0@),
    }
}

/// The state of the caches. `local_dir` is where the local cache lies, where that is known, and
/// `local_exists` whether there is a directory.
pub fn collect_cache(c: &CacheConfig, local_dir: Option<&str>, local_exists: bool, env: &StrMap<String>) -> (r: CacheStatus)
    ensures
        r.deep_view() == cache_status(*c, local_dir.deep_view(), local_exists, env@),
{
    let resolved = match &c.remote_token_env {
        Some(name) => match env.get(name.as_str()) {
            Some(v) => !v.as_str().is_empty(),
            None => false,
        },
        None => false,
    };
    CacheStatus {
        local_dir: match local_dir {
            Some(d) => copy(d),
            None => copy("(unknown)"),
        },
        local_exists,
        remote_url: copy_opt(&c.remote),
        remote_token_env: copy_opt(&c.remote_token_env),
        remote_token_resolved: resolved,
    }
}

/// A row of a preview, as a function of the task.
pub open spec fn row_of(unit: Seq<char>) -> spec_fn(PlannedTaskModel) -> PlanTaskModel {
    |t: PlannedTaskModel|
        PlanTaskModel { unit, task: t.name, status: t.status, miss_reason: t.miss_reason }
}

/// The rows of a unit.
pub open spec fn rows_of_unit() -> spec_fn(PlannedUnitModel) -> Seq<PlanTaskModel> {
    |u: PlannedUnitModel| u.tasks.map_values(row_of(u.name))
}

/// The rows of a profile.
pub open spec fn rows_of_profile() -> spec_fn(PlannedProfileModel) -> Seq<PlanTaskModel> {
    |p: PlannedProfileModel| flat_map(p.units, rows_of_unit())
}

/// All rows of a plan, in order.
pub open spec fn rows_of(profiles: Seq<PlannedProfileModel>) -> Seq<PlanTaskModel> {
    flat_map(profiles, rows_of_profile())
}

/// The first rows of a list.
pub open spec fn shown<T>(rows: Seq<T>) -> Seq<T> {
    if rows.len() <= PREVIEW_LIMIT {
        rows
    } else {
        rows.take(PREVIEW_LIMIT as int)
    }
}

/// What is shown of a list decides, with what follows, what is shown of both.
proof fn lemma_shown<T>(a: Seq<T>, b: Seq<T>)
    ensures
        shown(shown(a) + b) == shown(a + b),
{
    assert(shown(shown(a) + b) =~= shown(a + b));
}

/// Adds the rows of a unit to a preview.
fn preview_unit(preview: &mut Vec<PlanTask>, unit: &crate::plan::PlannedUnit)
    requires
        old(preview)@.len() <= PREVIEW_LIMIT,
    ensures
        deep(final(preview)@) == shown(deep(old(preview)@) + rows_of_unit()(unit.deep_view())),
{
    let ghost base = deep(preview@);
    let ghost all = rows_of_unit()(unit.deep_view());
    assert(base + all.take(0) =~= base);
    let mut i: usize = 0;
    while i < unit.tasks.len()
        invariant
            i <= unit.tasks@.len() == all.len(),
            all == rows_of_unit()(unit.deep_view()),
            preview@.len() <= PREVIEW_LIMIT,
            deep(preview@) == shown(base + all.take(i as int)),
        decreases unit.tasks.len() - i,
    {
        let t = &unit.tasks[i];
        proof {
            let next = all[i as int];
            assert(next == row_of(unit.name@)(t.deep_view()));
            assert(base + all.take(i + 1) =~= (base + all.take(i as int)).push(next));
        }
        if preview.len() < PREVIEW_LIMIT {
            let row = PlanTask {
                unit: copy(unit.name.as_str()),
                task: copy(t.name.as_str()),
                status: t.status,
                miss_reason: t.miss_reason,
            };
            assert(row.deep_view() == all[i as int]);
            preview.push(row);
        }
        assert(deep(preview@) =~= shown(base + all.take(i + 1)));
        i += 1;
    }
}

/// Adds the rows of a profile to a preview.
fn preview_profile(preview: &mut Vec<PlanTask>, profile: &PlannedProfile)
    requires
        old(preview)@.len() <= PREVIEW_LIMIT,
    ensures
        deep(final(preview)@) == shown(deep(old(preview)@) + rows_of_profile()(profile.deep_view())),
{
    let ghost base = deep(preview@);
    let ghost all = deep(profile.units@);
    let ghost f = rows_of_unit();
    assert(base + flat_map(all.take(0), f) =~= base);
    let mut i: usize = 0;
    while i < profile.units.len()
        invariant
            i <= profile.units@.len(),
            all == deep(profile.units@),
            f == rows_of_unit(),
            preview@.len() <= PREVIEW_LIMIT,
            deep(preview@) == shown(base + flat_map(all.take(i as int), f)),
        decreases profile.units.len() - i,
    {
        proof {
            let before = flat_map(all.take(i as int), f);
            let next = f(all[i as int]);
            lemma_flat_map_next(all, f, i as int);
            lemma_shown(base + before, next);
            assert(base + before + next =~= base + (before + next));
        }
        preview_unit(preview, &profile.units[i]);
        i += 1;
    }
}

/// What a plan of the whole workspace holds.
pub fn collect_plan(plan: &Plan) -> (r: PlanSnapshot)
    ensures
        r.preview.deep_view() == shown(rows_of(plan.profiles.deep_view())),
        r.total_tasks == plan.summary.tasks,
        r.hits == plan.summary.hits,
        r.misses == plan.summary.misses,
        r.skipped == plan.summary.skipped,
{
    let mut preview: Vec<PlanTask> = Vec::new();
    let ghost all = deep(plan.profiles@);
    let ghost f = rows_of_profile();
    let mut i: usize = 0;
    while i < plan.profiles.len()
        invariant
            i <= plan.profiles@.len(),
            all == deep(plan.profiles@),
            f == rows_of_profile(),
            preview@.len() <= PREVIEW_LIMIT,
            deep(preview@) == shown(flat_map(all.take(i as int), f)),
        decreases plan.profiles.len() - i,
    {
        proof {
            lemma_flat_map_next(all, f, i as int);
            lemma_shown(flat_map(all.take(i as int), f), f(all[i as int]));
        }
        preview_profile(&mut preview, &plan.profiles[i]);
        i += 1;
    }
    PlanSnapshot {
        preview,
        total_tasks: plan.summary.tasks,
        hits: plan.summary.hits,
        misses: plan.summary.misses,
        skipped: plan.summary.skipped,
    }
}

/// A step, where there is reason for it.
pub open spec fn step_if(reason: bool, step: Seq<char>) -> Seq<Seq<char>> {
    if reason {
        seq![step]
    } else {
        Seq::empty()
    }
}

/// The steps for which there is reason.
pub open spec fn reasoned_steps(
    no_profiles: bool,
    no_units: bool,
    orphans: nat,
    cache: CacheStatusModel,
    hits: nat,
    misses: nat,
) -> Seq<Seq<char>> {
    step_if(no_profiles, "run `monad box add <name>` to create your first monad"@) + step_if(
        no_units,
        "run `monad unit add <path> --lang <lang>` to scaffold a unit"@,
    ) + step_if(
        orphans > 0,
        decimal(orphans)
            + " orphan unit.toml file(s) not in any monad — `monad unit list --json` to see them, then `monad unit add <path>` to wire each one"@,
    ) + step_if(
        cache.remote_url is Some && !cache.remote_token_resolved,
        "remote cache is configured but "@ + (match cache.remote_token_env {
            Some(name) => name,
            None => "the token env var"@,
        })
            + " is not set in the environment — export it or unset `remote_token_env` in [cache]"@,
    ) + step_if(
        misses > 0,
        if hits == 0 {
            "no cache yet — run `monad install` then `monad ci` to prime the cache"@
        } else {
            decimal(misses) + " task(s) would miss cache — run `monad ci` to build+cache them"@
        },
    )
}

/// What to do next: the steps for which there is reason, or else what a warm cache allows.
pub open spec fn next_steps(
    no_profiles: bool,
    no_units: bool,
    orphans: nat,
    cache: CacheStatusModel,
    hits: nat,
    misses: nat,
) -> Seq<Seq<char>> {
    let steps = reasoned_steps(no_profiles, no_units, orphans, cache, hits, misses);
    if steps.len() == 0 {
        seq![
            "workspace is cache-warm; run `monad plan` to inspect, `monad build <target>` to build, or `monad deploy <target>` to ship"@,
        ]
    } else {
        steps
    }
}

/// There is always something to do next.
pub proof fn law_always_a_next_step(
    no_profiles: bool,
    no_units: bool,
    orphans: nat,
    cache: CacheStatusModel,
    hits: nat,
    misses: nat,
)
    ensures
        next_steps(no_profiles, no_units, orphans, cache, hits, misses).len() >= 1,
{
}

/// What to do next, the first thing first.
pub fn recommend_next(ws: &Workspace, orphans: &Vec<String>, cache: &CacheStatus, plan: &PlanSnapshot) -> (r: Vec<String>)
    ensures
        r.deep_view() == next_steps(
            ws.profiles.keys().len() == 0,
            ws.units_by_name.keys().len() == 0,
            orphans@.len(),
            cache.deep_view(),
            plan.hits as nat,
            plan.misses as nat,
        ),
{
    let mut steps: Vec<String> = Vec::new();
    if ws.profiles.len() == 0 {
        steps.push(copy("run `monad box add <name>` to create your first monad"));
    }
    if ws.units_by_name.len() == 0 {
        steps.push(copy("run `monad unit add <path> --lang <lang>` to scaffold a unit"));
    }
    if orphans.len() > 0 {
        let n = number(orphans.len() as u64);
        steps.push(
            cat(
                n.as_str(),
                " orphan unit.toml file(s) not in any monad — `monad unit list --json` to see them, then `monad unit add <path>` to wire each one",
            ),
        );
    }
    if cache.remote_url.is_some() && !cache.remote_token_resolved {
        let name = match &cache.remote_token_env {
            Some(n) => n.as_str(),
            None => "the token env var",
        };
        steps.push(
            cat3(
                "remote cache is configured but ",
                name,
                " is not set in the environment — export it or unset `remote_token_env` in [cache]",
            ),
        );
    }
    if plan.misses > 0 {
        if plan.hits == 0 {
            steps.push(copy("no cache yet — run `monad install` then `monad ci` to prime the cache"));
        } else {
            let n = number(plan.misses as u64);
            steps.push(cat(n.as_str(), " task(s) would miss cache — run `monad ci` to build+cache them"));
        }
    }
    assert(deep(steps@) =~= reasoned_steps(
        ws.profiles.keys().len() == 0,
        ws.units_by_name.keys().len() == 0,
        orphans@.len(),
        cache.deep_view(),
        plan.hits as nat,
        plan.misses as nat,
    ));
    if steps.len() == 0 {
        steps.push(
            copy(
                "workspace is cache-warm; run `monad plan` to inspect, `monad build <target>` to build, or `monad deploy <target>` to ship",
            ),
        );
    }
    steps
}

/// A snapshot of a workspace. `found` holds the directories with a `unit.toml`, as seen from the
/// workspace; `plan` is a plan of all of it.
pub fn compute(
    ws: &Workspace,
    found: &Vec<String>,
    local_dir: Option<&str>,
    local_exists: bool,
    env: &StrMap<String>,
    plan: &Plan,
) -> (r: Output)
    ensures
        ({
            let orphans = orphans_among(found.deep_view(), in_order(ws.units_by_path@.dom()));
            let cache = cache_status(ws.repo.cache, local_dir.deep_view(), local_exists, env@);
            &&& r.workspace_root@ == ws.root@
            &&& r.profiles.deep_view() == profile_refs(ws.root@, ws.profiles@)
            &&& r.units.deep_view() == unit_refs(ws.profiles@, ws.units_by_name@)
            &&& r.orphan_units.deep_view() == orphans
            &&& r.cache.deep_view() == cache
            &&& r.plan.preview.deep_view() == shown(rows_of(plan.profiles.deep_view()))
            &&& r.plan.total_tasks == plan.summary.tasks
            &&& r.plan.hits == plan.summary.hits
            &&& r.plan.misses == plan.summary.misses
            &&& r.plan.skipped == plan.summary.skipped
            &&& r.recommended_next.deep_view() == next_steps(
                ws.profiles.keys().len() == 0,
                ws.units_by_name.keys().len() == 0,
                orphans.len(),
                cache,
                plan.summary.hits as nat,
                plan.summary.misses as nat,
            )
        }),
{
    let orphan_units = scan_orphan_unites(ws, found);
    let cache = collect_cache(&ws.repo.cache, local_dir, local_exists, env);
    let plan = collect_plan(plan);
    let recommended_next = recommend_next(ws, &orphan_units, &cache, &plan);
    Output {
        workspace_root: copy(ws.root.as_str()),
        profiles: collect_profiles(ws),
        units: collect_units(ws),
        orphan_units,
        cache,
        plan,
        recommended_next,
    }
}

/// The preview is the beginning of the rows of the plan, as many as fit.
pub proof fn law_preview_is_a_beginning<T>(rows: Seq<T>)
    ensures
        shown(rows).is_prefix_of(rows),
        shown(rows).len() <= PREVIEW_LIMIT,
        rows.len() <= PREVIEW_LIMIT ==> shown(rows) == rows,
        rows.len() > PREVIEW_LIMIT ==> shown(rows).len() == PREVIEW_LIMIT,
{
    assert(shown(rows) =~= rows.subrange(0, shown(rows).len() as int));
}

/// A step is recommended if and only if there is reason for it: there is no profile, or no unit, or a unit
/// that no profile lists, or a remote cache without its token, or a task that would miss; only where there
/// is none is the workspace called warm.
pub proof fn law_steps_have_reasons(
    no_profiles: bool,
    no_units: bool,
    orphans: nat,
    cache: CacheStatusModel,
    hits: nat,
    misses: nat,
)
    ensures
        ({
            let r = next_steps(no_profiles, no_units, orphans, cache, hits, misses);
            let count = |b: bool|
                if b {
                    1int
                } else {
                    0
                };
            let tokenless = cache.remote_url is Some && !cache.remote_token_resolved;
            let reasons = count(no_profiles) + count(no_units) + count(orphans > 0) + count(tokenless) + count(misses
                > 0);
            &&& reasons > 0 ==> r.len() == reasons
            &&& reasons == 0 ==> r.len() == 1
            &&& no_profiles ==> r[0] == "run `monad box add <name>` to create your first monad"@
            &&& no_units ==> r[count(no_profiles)]
                == "run `monad unit add <path> --lang <lang>` to scaffold a unit"@
            &&& misses > 0 && hits == 0 ==> r.last()
                == "no cache yet — run `monad install` then `monad ci` to prime the cache"@
            &&& misses > 0 && hits > 0 ==> r.last() == decimal(misses)
                + " task(s) would miss cache — run `monad ci` to build+cache them"@
        }),
{
}

/// The token of the remote cache is found if and only if a variable is named for it and has a value.
pub proof fn law_when_the_token_is_found(
    c: CacheConfig,
    local_dir: Option<Seq<char>>,
    local_exists: bool,
    env: Map<Seq<char>, Seq<char>>,
)
    ensures
        cache_status(c, local_dir, local_exists, env).remote_token_resolved <==> (c.remote_token_env matches Some(v)
            && env.contains_key(v@) && env[v@].len() > 0),
        cache_status(c, local_dir, local_exists, env).local_exists == local_exists,
        local_dir matches Some(d) ==> cache_status(c, local_dir, local_exists, env).local_dir == d,
        cache_status(c, local_dir, local_exists, env).remote_url == c.remote.deep_view(),
{
}

/// The rows of a plan are those of its tasks, each with the name of its unit, its status and the reason for
/// a miss.
pub proof fn law_rows_are_the_tasks(profiles: Seq<PlannedProfileModel>, i: int, j: int, k: int)
    requires
        0 <= i < profiles.len(),
        0 <= j < profiles[i].units.len(),
        0 <= k < profiles[i].units[j].tasks.len(),
    ensures
        ({
            let u = profiles[i].units[j];
            let t = u.tasks[k];
            rows_of(profiles).contains(
                PlanTaskModel { unit: u.name, task: t.name, status: t.status, miss_reason: t.miss_reason },
            )
        }),
{
    let p = profiles[i];
    let u = p.units[j];
    let f = rows_of_unit();
    let g = rows_of_profile();
    let row = row_of(u.name)(u.tasks[k]);
    assert(f(u)[k] == row);
    crate::deep::lemma_flat_map_place(p.units, f, j, k);
    let at = crate::deep::length_before(p.units, f, j) + k;
    assert(g(p)[at] == row);
    crate::deep::lemma_flat_map_place(profiles, g, i, at);
    assert(rows_of(profiles)[crate::deep::length_before(profiles, g, i) + at] == row);
}

/// The snapshot holds each profile once, with its name, the file that declares it and how many units it lists,
/// in the order of the names.
pub proof fn law_every_profile_is_in_the_snapshot(root: Seq<char>, profiles: Map<Seq<char>, ProfileModel>, k: Seq<char>)
    requires
        in_order(profiles.dom()).to_set() == profiles.dom(),
        profiles.contains_key(k),
    ensures
        ({
            let all = profile_refs(root, profiles);
            let p = profiles[k];
            &&& all.len() == in_order(profiles.dom()).len()
            &&& exists|i: int|
                0 <= i < all.len() && (#[trigger] all[i]).name == p.name && all[i].source == seen_from(root, p.source)
                    && (p.units.len() <= usize::MAX ==> all[i].unit_count == p.units.len())
            &&& forall|i: int, j: int| 0 <= i < j < all.len() ==> !less((#[trigger] all[j]).name, (#[trigger] all[i]).name)
        }),
{
    let listed = values_in_order(profiles).map_values(|p: ProfileModel| profile_ref(root, p));
    let text = |x: ProfileRefModel| x.name;
    let item = profile_ref(root, profiles[k]);
    crate::inventory::lemma_value_in_order(profiles, k);
    let i = choose|i: int| 0 <= i < values_in_order(profiles).len() && values_in_order(profiles)[i] == profiles[k];
    assert(listed[i] == item);
    crate::sort::law_sorted_by_text(listed, profile_before(), text, item);
    let all = profile_refs(root, profiles);
    assert(all.contains(item));
    assert forall|i: int, j: int| 0 <= i < j < all.len() implies !less((#[trigger] all[j]).name, (#[trigger] all[i]).name) by {
        assert(!less(text(sort_by(listed, profile_before())[j]), text(sort_by(listed, profile_before())[i])));
    }
}

/// The snapshot holds each unit once, with its name, its path, its language, its integrations and the profiles
/// that list it, in the order of the names.
pub proof fn law_every_unit_is_in_the_snapshot(
    profiles: Map<Seq<char>, ProfileModel>,
    units: Map<Seq<char>, LoadedUnitModel>,
    k: Seq<char>,
)
    requires
        in_order(units.dom()).to_set() == units.dom(),
        units.contains_key(k),
    ensures
        ({
            let all = unit_refs(profiles, units);
            let u = units[k];
            &&& all.len() == in_order(units.dom()).len()
            &&& exists|i: int|
                0 <= i < all.len() && (#[trigger] all[i]).name == u.config.name && all[i].path == u.rel && all[i].language
                    == u.config.language && all[i].profiles == profiles_listing(profiles, u.rel)
                    && all[i].integrations == u.config.integrations
            &&& forall|i: int, j: int| 0 <= i < j < all.len() ==> !less((#[trigger] all[j]).name, (#[trigger] all[i]).name)
        }),
{
    let listed = values_in_order(units).map_values(|u: LoadedUnitModel| unit_ref(profiles, u));
    let text = |x: UnitRefModel| x.name;
    let item = unit_ref(profiles, units[k]);
    crate::inventory::lemma_value_in_order(units, k);
    let i = choose|i: int| 0 <= i < values_in_order(units).len() && values_in_order(units)[i] == units[k];
    assert(listed[i] == item);
    crate::sort::law_sorted_by_text(listed, unit_before(), text, item);
    let all = unit_refs(profiles, units);
    assert(all.contains(item));
    assert forall|i: int, j: int| 0 <= i < j < all.len() implies !less((#[trigger] all[j]).name, (#[trigger] all[i]).name) by {
        assert(!less(text(sort_by(listed, unit_before())[j]), text(sort_by(listed, unit_before())[i])));
    }
}

} // verus!
