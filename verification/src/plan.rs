//! Plans: the tasks of a workspace with their keys, and whether a cache holds their results.
use vstd::prelude::*;

use crate::config::{path_key, ContainerMode, RepoConfig, UnitConfig, UnitModel, Workspace};
use crate::deep::deep;
use crate::order::in_order;
use crate::path::{ancestors, ancestors_of, join_path, path_joined};
use crate::pathset::{contains_path, has_path};
use crate::tasks::{ResolvedTask, ResolvedTaskModel};
use crate::text::{cat, copy, copy_opt, same};

verus! {

broadcast use {crate::deep::group_deep, crate::deep::lemma_take_next, crate::deep::lemma_take_all};

/// Whether a task's result is in the cache.
#[derive(Debug, Clone, Copy, PartialEq, Eq, Structural)]
pub enum TaskStatus {
    CacheHit,
    CacheMiss,
    /// The unit has no adapter and declares no tasks.
    NoAdapter,
    /// Nothing changed in the unit since the base; a hit is taken for granted.
    SkippedDiffClean,
}

/// Why a task is a miss.
#[derive(Debug, Clone, Copy, PartialEq, Eq, Structural)]
pub enum MissReason {
    /// The task is never cached.
    Uncacheable,
    /// Every task was asked to run again.
    ForceRerun,
    /// The cache has nothing under the task's key.
    NeverCached,
}

impl DeepView for TaskStatus {
    type V = TaskStatus;

    open spec fn deep_view(&self) -> TaskStatus {
        *self
    }
}

/// A task of a plan.
#[derive(Debug)]
pub struct PlannedTask {
    pub name: String,
    pub run: String,
    pub key: String,
    pub status: TaskStatus,
    pub miss_reason: Option<MissReason>,
}

#[verifier::ext_equal]
pub struct PlannedTaskModel {
    pub name: Seq<char>,
    pub run: Seq<char>,
    pub key: Seq<char>,
    pub status: TaskStatus,
    pub miss_reason: Option<MissReason>,
}

impl DeepView for PlannedTask {
    type V = PlannedTaskModel;

    open spec fn deep_view(&self) -> PlannedTaskModel {
        PlannedTaskModel {
            name: self.name@,
            run: self.run@,
            key: self.key@,
            status: self.status,
            miss_reason: self.miss_reason,
        }
    }
}

/// A unit of a plan.
#[derive(Debug)]
pub struct PlannedUnit {
    pub name: String,
    pub path: String,
    pub language: Option<String>,
    pub tasks: Vec<PlannedTask>,
    /// Nothing changed in the unit since the base.
    pub skipped_by_diff: bool,
}

#[verifier::ext_equal]
pub struct PlannedUnitModel {
    pub name: Seq<char>,
    pub path: Seq<char>,
    pub language: Option<Seq<char>>,
    pub tasks: Seq<PlannedTaskModel>,
    pub skipped_by_diff: bool,
}

impl DeepView for PlannedUnit {
    type V = PlannedUnitModel;

    open spec fn deep_view(&self) -> PlannedUnitModel {
        PlannedUnitModel {
            name: self.name@,
            path: self.path@,
            language: self.language.deep_view(),
            tasks: self.tasks.deep_view(),
            skipped_by_diff: self.skipped_by_diff,
        }
    }
}

/// A profile of a plan.
#[derive(Debug)]
pub struct PlannedProfile {
    pub name: String,
    pub units: Vec<PlannedUnit>,
}

#[verifier::ext_equal]
pub struct PlannedProfileModel {
    pub name: Seq<char>,
    pub units: Seq<PlannedUnitModel>,
}

impl DeepView for PlannedProfile {
    type V = PlannedProfileModel;

    open spec fn deep_view(&self) -> PlannedProfileModel {
        PlannedProfileModel { name: self.name@, units: self.units.deep_view() }
    }
}

/// The counts of a plan.
#[derive(Debug, Clone, Copy, PartialEq, Eq, Structural)]
pub struct PlanSummary {
    pub units: usize,
    pub tasks: usize,
    pub hits: usize,
    pub misses: usize,
    pub skipped: usize,
}

impl Default for PlanSummary {
    fn default() -> (r: Self)
        ensures
            r == (PlanSummary { units: 0, tasks: 0, hits: 0, misses: 0, skipped: 0 }),
    {
        PlanSummary { units: 0, tasks: 0, hits: 0, misses: 0, skipped: 0 }
    }
}

/// A plan.
#[derive(Debug)]
pub struct Plan {
    pub profiles: Vec<PlannedProfile>,
    pub summary: PlanSummary,
    /// The directories with a `unit.toml` that no profile lists.
    pub orphans: Vec<String>,
}

/// What to plan.
#[derive(Debug)]
pub struct PlanOptions {
    /// This profile alone.
    pub monad_filter: Option<String>,
    /// This unit alone.
    pub unit_filter: Option<String>,
    /// Every task is a miss.
    pub no_cache: bool,
    /// The base that changes are counted from.
    pub since: Option<String>,
}

impl Default for PlanOptions {
    fn default() -> (r: Self)
        ensures
            r.monad_filter is None,
            r.unit_filter is None,
            !r.no_cache,
            r.since is None,
    {
        PlanOptions { monad_filter: None, unit_filter: None, no_cache: false, since: None }
    }
}

/// The status of a task, and why it is a miss where it is one.
pub open spec fn status_of(clean: bool, task_no_cache: bool, no_cache: bool, cached: bool) -> (
    TaskStatus,
    Option<MissReason>,
) {
    if clean {
        (TaskStatus::SkippedDiffClean, None)
    } else if task_no_cache {
        (TaskStatus::CacheMiss, Some(MissReason::Uncacheable))
    } else if no_cache {
        (TaskStatus::CacheMiss, Some(MissReason::ForceRerun))
    } else if cached {
        (TaskStatus::CacheHit, None)
    } else {
        (TaskStatus::CacheMiss, Some(MissReason::NeverCached))
    }
}

/// The status of a task, and why it is a miss where it is one.
pub fn classify(clean: bool, task_no_cache: bool, no_cache: bool, cached: bool) -> (r: (
    TaskStatus,
    Option<MissReason>,
))
    ensures
        r == status_of(clean, task_no_cache, no_cache, cached),
{
    if clean {
        (TaskStatus::SkippedDiffClean, None)
    } else if task_no_cache {
        (TaskStatus::CacheMiss, Some(MissReason::Uncacheable))
    } else if no_cache {
        (TaskStatus::CacheMiss, Some(MissReason::ForceRerun))
    } else if cached {
        (TaskStatus::CacheHit, None)
    } else {
        (TaskStatus::CacheMiss, Some(MissReason::NeverCached))
    }
}

/// A task as it is planned under a key.
pub open spec fn planned_task(t: ResolvedTaskModel, key: Seq<char>, clean: bool, no_cache: bool, cached: bool) -> PlannedTaskModel {
    let s = status_of(clean, t.no_cache, no_cache, cached);
    PlannedTaskModel { name: t.name, run: t.run, key, status: s.0, miss_reason: s.1 }
}

/// The row that stands for a unit without anything to run.
pub open spec fn no_adapter_row() -> PlannedTaskModel {
    PlannedTaskModel {
        name: "<none>"@,
        run: Seq::empty(),
        key: Seq::empty(),
        status: TaskStatus::NoAdapter,
        miss_reason: None,
    }
}

/// The rows of a unit.
pub open spec fn planned_tasks(
    u: UnitModel,
    has_adapter: bool,
    tasks: Seq<ResolvedTaskModel>,
    keys: Seq<Seq<char>>,
    cached: Seq<bool>,
    clean: bool,
    no_cache: bool,
) -> Seq<PlannedTaskModel> {
    let rows = Seq::new(
        tasks.len(),
        |i: int| planned_task(tasks[i], keys[i], clean, no_cache, cached[i]),
    );
    if rows.len() == 0 && !has_adapter && u.tasks.dom() == Set::<Seq<char>>::empty() {
        seq![no_adapter_row()]
    } else {
        rows
    }
}

/// The plan of a unit, once the key of each task is known and whether the cache holds it. `clean`
/// says that nothing changed in the unit since the base.
pub fn plan_unit(
    unit: &UnitConfig,
    rel: &str,
    language: Option<&str>,
    tasks: &Vec<ResolvedTask>,
    keys: &Vec<String>,
    cached: &Vec<bool>,
    clean: bool,
    opts: &PlanOptions,
) -> (r: PlannedUnit)
    requires
        keys@.len() == tasks@.len(),
        cached@.len() == tasks@.len(),
    ensures
        r.deep_view() == (PlannedUnitModel {
            name: unit.name@,
            path: rel@,
            language: language.deep_view(),
            tasks: planned_tasks(
                unit.deep_view(),
                language is Some,
                tasks.deep_view(),
                keys.deep_view(),
                cached@,
                clean,
                opts.no_cache,
            ),
            skipped_by_diff: clean,
        }),
{
    let ghost ts = deep(tasks@);
    let ghost ks = deep(keys@);
    let ghost want = Seq::new(
        ts.len(),
        |i: int| planned_task(ts[i], ks[i], clean, opts.no_cache, cached@[i]),
    );
    let mut rows: Vec<PlannedTask> = Vec::new();
    let mut i: usize = 0;
    while i < tasks.len()
        invariant
            i <= tasks@.len(),
            keys@.len() == tasks@.len(),
            cached@.len() == tasks@.len(),
            ts == deep(tasks@),
            ks == deep(keys@),
            want == Seq::new(
                ts.len(),
                |i: int| planned_task(ts[i], ks[i], clean, opts.no_cache, cached@[i]),
            ),
            deep(rows@) == want.take(i as int),
        decreases tasks.len() - i,
    {
        let t = &tasks[i];
        let (status, miss_reason) = classify(clean, t.no_cache, opts.no_cache, cached[i]);
        let row = PlannedTask {
            name: copy(t.name.as_str()),
            run: copy(t.run.as_str()),
            key: copy(keys[i].as_str()),
            status,
            miss_reason,
        };
        proof {
            assert(want[i as int] == row.deep_view());
        }
        rows.push(row);
        i += 1;
    }
    let own = unit.tasks.len();
    proof {
        assert(unit.tasks@.dom() == Set::<Seq<char>>::empty() <==> own == 0) by {
            if own > 0 {
                assert(unit.tasks.keys().to_set().contains(unit.tasks.keys()[0]));
            } else {
                assert(unit.tasks.keys().to_set() =~= Set::empty());
            }
        }
    }
    if rows.len() == 0 && language.is_none() && own == 0 {
        let row = PlannedTask {
            name: copy("<none>"),
            run: String::new(),
            key: String::new(),
            status: TaskStatus::NoAdapter,
            miss_reason: None,
        };
        proof {
            assert(row.deep_view() =~= no_adapter_row());
            assert(deep(rows@).push(row.deep_view()) =~= seq![no_adapter_row()]);
        }
        rows.push(row);
    }
    PlannedUnit {
        name: copy(unit.name.as_str()),
        path: copy(rel),
        language: match language {
            Some(l) => Some(copy(l)),
            None => None,
        },
        tasks: rows,
        skipped_by_diff: clean,
    }
}

/// Whether a filter lets a name through.
pub open spec fn admits(filter: Option<Seq<char>>, name: Seq<char>) -> bool {
    filter is None || filter == Some(name)
}

/// Whether a filter lets a name through.
pub fn allows(filter: &Option<String>, name: &str) -> (r: bool)
    ensures
        r == admits(filter.deep_view(), name@),
{
    match filter {
        Some(f) => same(f.as_str(), name),
        None => true,
    }
}

/// The units of a list that are there and that a filter lets through, by path.
pub open spec fn admitted(ws: Workspace, refs: Seq<Seq<char>>, filter: Option<Seq<char>>) -> Seq<Seq<char>>
    decreases refs.len(),
{
    if refs.len() == 0 {
        Seq::empty()
    } else if ws.units_by_path@.contains_key(path_key(refs.last())) && admits(
        filter,
        ws.unit(refs.last()).config.name,
    ) {
        admitted(ws, refs.drop_last(), filter).push(refs.last())
    } else {
        admitted(ws, refs.drop_last(), filter)
    }
}

/// The profiles of a list that a filter lets through.
pub open spec fn admitted_profiles(names: Seq<Seq<char>>, filter: Option<Seq<char>>) -> Seq<Seq<char>>
    decreases names.len(),
{
    if names.len() == 0 {
        Seq::empty()
    } else if admits(filter, names.last()) {
        admitted_profiles(names.drop_last(), filter).push(names.last())
    } else {
        admitted_profiles(names.drop_last(), filter)
    }
}

/// The names of the profiles to plan or run, in order.
pub fn profile_targets(workspace: &Workspace, filter: &Option<String>) -> (r: Vec<String>)
    ensures
        r.deep_view() == admitted_profiles(in_order(workspace.profiles@.dom()), filter.deep_view()),
{
    let n = workspace.profiles.len();
    let ghost names = workspace.profiles.keys();
    let mut r: Vec<String> = Vec::new();
    let mut i: usize = 0;
    while i < n
        invariant
            i <= n == names.len(),
            names == workspace.profiles.keys(),
            deep(r@) == admitted_profiles(names.take(i as int), filter.deep_view()),
        decreases n - i,
    {
        let name = workspace.profiles.key(i);
        proof {
            assert(names.take(i + 1).drop_last() =~= names.take(i as int));
        }
        if allows(filter, name.as_str()) {
            r.push(copy(name.as_str()));
        }
        i += 1;
    }
    r
}

/// The paths of the units of a profile that a filter lets through, in the profile's order.
pub fn unit_targets(workspace: &Workspace, monad_name: &str, filter: &Option<String>) -> (r: Vec<String>)
    requires
        workspace.profiles@.contains_key(monad_name@),
    ensures
        r.deep_view() == admitted(*workspace, workspace.profiles@[monad_name@].units, filter.deep_view()),
{
    let mut r: Vec<String> = Vec::new();
    if let Some(p) = workspace.profiles.get(monad_name) {
        let ghost refs = workspace.profiles@[monad_name@].units;
        let mut i: usize = 0;
        while i < p.units.len()
            invariant
                i <= p.units@.len(),
                refs == deep(p.units@),
                refs == workspace.profiles@[monad_name@].units,
                deep(r@) == admitted(*workspace, refs.take(i as int), filter.deep_view()),
            decreases p.units.len() - i,
        {
            let unit_ref = p.units[i].as_str();
            proof {
                assert(unit_ref@ == refs[i as int]);
                assert(refs.take(i + 1).drop_last() =~= refs.take(i as int));
            }
            if let Some(loaded) = workspace.unit_at(unit_ref) {
                if allows(filter, loaded.config.name.as_str()) {
                    r.push(copy(unit_ref));
                }
            }
            i += 1;
        }
    }
    r
}

/// How many rows have a status.
pub open spec fn count_status(tasks: Seq<PlannedTaskModel>, s: TaskStatus) -> nat
    decreases tasks.len(),
{
    if tasks.len() == 0 {
        0
    } else {
        count_status(tasks.drop_last(), s) + (if tasks.last().status == s {
            1nat
        } else {
            0
        })
    }
}

/// All rows of some units.
pub open spec fn rows_of_units(units: Seq<PlannedUnitModel>) -> Seq<PlannedTaskModel>
    decreases units.len(),
{
    if units.len() == 0 {
        Seq::empty()
    } else {
        rows_of_units(units.drop_last()) + units.last().tasks
    }
}

/// All units of some profiles.
pub open spec fn units_of(profiles: Seq<PlannedProfileModel>) -> Seq<PlannedUnitModel>
    decreases profiles.len(),
{
    if profiles.len() == 0 {
        Seq::empty()
    } else {
        units_of(profiles.drop_last()) + profiles.last().units
    }
}

/// The counts of some units.
pub open spec fn summary_of(units: Seq<PlannedUnitModel>) -> (nat, nat, nat, nat, nat) {
    let rows = rows_of_units(units);
    (
        units.len(),
        rows.len(),
        count_status(rows, TaskStatus::CacheHit),
        count_status(rows, TaskStatus::CacheMiss),
        count_status(rows, TaskStatus::SkippedDiffClean),
    )
}

proof fn lemma_count_bound(tasks: Seq<PlannedTaskModel>)
    ensures
        count_status(tasks, TaskStatus::CacheHit) + count_status(tasks, TaskStatus::CacheMiss) + count_status(
            tasks,
            TaskStatus::NoAdapter,
        ) + count_status(tasks, TaskStatus::SkippedDiffClean) == tasks.len(),
    decreases tasks.len(),
{
    if tasks.len() > 0 {
        lemma_count_bound(tasks.drop_last());
    }
}

proof fn lemma_rows_prefix(units: Seq<PlannedUnitModel>, i: int)
    requires
        0 <= i <= units.len(),
    ensures
        rows_of_units(units.take(i)).len() <= rows_of_units(units).len(),
    decreases units.len() - i,
{
    if i < units.len() {
        lemma_rows_prefix(units, i + 1);
        assert(units.take(i + 1).drop_last() =~= units.take(i));
    }
}

pub proof fn lemma_units_prefix(profiles: Seq<PlannedProfileModel>, i: int)
    requires
        0 <= i <= profiles.len(),
    ensures
        units_of(profiles.take(i)).is_prefix_of(units_of(profiles)),
    decreases profiles.len() - i,
{
    let a = units_of(profiles.take(i));
    if i < profiles.len() {
        lemma_units_prefix(profiles, i + 1);
        assert(profiles.take(i + 1).drop_last() =~= profiles.take(i));
        let b = units_of(profiles.take(i + 1));
        assert(a =~= b.subrange(0, a.len() as int));
        assert(a =~= units_of(profiles).subrange(0, a.len() as int));
    } else {
        assert(profiles.take(i) =~= profiles);
        assert(a =~= a.subrange(0, a.len() as int));
    }
}

fn add_unit(s: &mut PlanSummary, u: &PlannedUnit, Ghost(before): Ghost<Seq<PlannedUnitModel>>)
    requires
        summary_is(*old(s), before),
        before.len() + 1 <= usize::MAX,
        rows_of_units(before.push(u.deep_view())).len() <= usize::MAX,
    ensures
        summary_is(*final(s), before.push(u.deep_view())),
{
    let ghost rows = rows_of_units(before);
    let ghost more = deep(u.tasks@);
    proof {
        assert(before.push(u.deep_view()).drop_last() =~= before);
        assert(rows + more.take(0) =~= rows);
    }
    s.units += 1;
    let mut i: usize = 0;
    while i < u.tasks.len()
        invariant
            i <= u.tasks@.len(),
            more == deep(u.tasks@),
            (rows + more).len() <= usize::MAX,
            s.units == before.len() + 1,
            s.tasks == (rows + more.take(i as int)).len(),
            s.hits == count_status(rows + more.take(i as int), TaskStatus::CacheHit),
            s.misses == count_status(rows + more.take(i as int), TaskStatus::CacheMiss),
            s.skipped == count_status(rows + more.take(i as int), TaskStatus::SkippedDiffClean),
        decreases u.tasks.len() - i,
    {
        proof {
            let now = rows + more.take(i + 1);
            assert(now.drop_last() =~= rows + more.take(i as int));
            assert(now.last() == u.tasks@[i as int].deep_view());
            lemma_count_bound(now);
        }
        s.tasks += 1;
        match u.tasks[i].status {
            TaskStatus::CacheHit => {
                s.hits += 1;
            },
            TaskStatus::CacheMiss => {
                s.misses += 1;
            },
            TaskStatus::NoAdapter => {},
            TaskStatus::SkippedDiffClean => {
                s.skipped += 1;
            },
        }
        i += 1;
    }
}

/// Whether a summary counts some units.
pub open spec fn summary_is(s: PlanSummary, units: Seq<PlannedUnitModel>) -> bool {
    (s.units as nat, s.tasks as nat, s.hits as nat, s.misses as nat, s.skipped as nat) == summary_of(units)
}

/// A plan of profiles whose units are planned, with its counts.
#[verifier::spinoff_prover]
#[verifier::rlimit(50)]
pub fn assemble(profiles: Vec<PlannedProfile>, orphans: Vec<String>) -> (r: Plan)
    requires
        units_of(profiles.deep_view()).len() <= usize::MAX,
        rows_of_units(units_of(profiles.deep_view())).len() <= usize::MAX,
    ensures
        r.profiles == profiles,
        r.orphans == orphans,
        summary_is(r.summary, units_of(profiles.deep_view())),
{
    let mut summary = PlanSummary::default();
    let ghost ps = deep(profiles@);
    let ghost all = units_of(ps);
    let mut i: usize = 0;
    while i < profiles.len()
        invariant
            i <= profiles@.len(),
            ps == deep(profiles@),
            all == units_of(ps),
            all.len() <= usize::MAX,
            rows_of_units(all).len() <= usize::MAX,
            summary_is(summary, units_of(ps.take(i as int))),
        decreases profiles.len() - i,
    {
        let p = &profiles[i];
        let ghost done = units_of(ps.take(i as int));
        let ghost us = deep(p.units@);
        proof {
            assert(ps.take(i + 1).drop_last() =~= ps.take(i as int));
            lemma_units_prefix(ps, i + 1);
            assert(done + us.take(0) =~= done);
            assert(units_of(ps.take(i + 1)) == done + us);
        }
        let mut j: usize = 0;
        while j < p.units.len()
            invariant
                j <= p.units@.len(),
                us == deep(p.units@),
                all.len() <= usize::MAX,
                rows_of_units(all).len() <= usize::MAX,
                (done + us).is_prefix_of(all),
                summary_is(summary, done + us.take(j as int)),
            decreases p.units.len() - j,
        {
            let ghost before = done + us.take(j as int);
            proof {
                let next = before.push(us[j as int]);
                assert(next =~= done + us.take(j + 1));
                assert(next =~= all.take(next.len() as int)) by {
                    assert forall|k: int| 0 <= k < next.len() implies next[k] == all[k] by {
                        assert((done + us)[k] == all[k]);
                    }
                }
                lemma_rows_prefix(all, next.len() as int);
            }
            add_unit(&mut summary, &p.units[j], Ghost(before));
            j += 1;
        }
        i += 1;
    }
    Plan { profiles, summary, orphans }
}

/// In a plan each task is a hit, a miss, skipped, or the row of a unit without anything to run.
pub proof fn law_summary_accounts_for_all(units: Seq<PlannedUnitModel>)
    ensures
        ({
            let s = summary_of(units);
            s.2 + s.3 + s.4 + count_status(rows_of_units(units), TaskStatus::NoAdapter) == s.1
        }),
{
    lemma_count_bound(rows_of_units(units));
}

/// A reason for a miss is given where, and only where, a task is a miss.
pub proof fn law_reason_only_for_misses(
    u: UnitModel,
    has_adapter: bool,
    tasks: Seq<ResolvedTaskModel>,
    keys: Seq<Seq<char>>,
    cached: Seq<bool>,
    clean: bool,
    no_cache: bool,
    i: int,
)
    requires
        0 <= i < planned_tasks(u, has_adapter, tasks, keys, cached, clean, no_cache).len(),
    ensures
        ({
            let t = planned_tasks(u, has_adapter, tasks, keys, cached, clean, no_cache)[i];
            t.miss_reason is Some <==> t.status == TaskStatus::CacheMiss
        }),
{
}

/// A unit that has tasks has a row for each of them, in their order, with its name, its command and its
/// key.
pub proof fn law_each_task_has_a_row(
    u: UnitModel,
    has_adapter: bool,
    tasks: Seq<ResolvedTaskModel>,
    keys: Seq<Seq<char>>,
    cached: Seq<bool>,
    clean: bool,
    no_cache: bool,
)
    requires
        keys.len() == tasks.len(),
        cached.len() == tasks.len(),
    ensures
        ({
            let rows = planned_tasks(u, has_adapter, tasks, keys, cached, clean, no_cache);
            &&& tasks.len() > 0 ==> rows.len() == tasks.len()
            &&& forall|i: int|
                0 <= i < tasks.len() ==> (#[trigger] rows[i]).name == tasks[i].name && rows[i].run == tasks[i].run
                    && rows[i].key == keys[i] && rows[i].status != TaskStatus::NoAdapter
            &&& tasks.len() == 0 && (has_adapter || exists|n: Seq<char>| u.tasks.contains_key(n)) ==> rows.len() == 0
            &&& tasks.len() == 0 && !has_adapter && (forall|n: Seq<char>| !u.tasks.contains_key(n)) ==> rows.len()
                == 1 && rows[0].status == TaskStatus::NoAdapter
        }),
{
    if forall|n: Seq<char>| !u.tasks.contains_key(n) {
        assert(u.tasks.dom() =~= Set::<Seq<char>>::empty());
    }
    if exists|n: Seq<char>| u.tasks.contains_key(n) {
        let n = choose|n: Seq<char>| u.tasks.contains_key(n);
        assert(u.tasks.dom().contains(n));
    }
}

/// Where nothing changed in a unit since the base, each of its tasks is skipped, whatever the task, the
/// options and the cache say; where something changed, none is. A task of a unit with changes is a hit
/// where the cache has it and may be asked, and a miss otherwise; the reason for a miss is that the task
/// is never cached, or else that all are to run again, or else that the cache has nothing.
pub proof fn law_clean_units_are_skipped(
    u: UnitModel,
    has_adapter: bool,
    tasks: Seq<ResolvedTaskModel>,
    keys: Seq<Seq<char>>,
    cached: Seq<bool>,
    clean: bool,
    no_cache: bool,
    i: int,
)
    requires
        keys.len() == tasks.len(),
        cached.len() == tasks.len(),
        0 <= i < tasks.len(),
    ensures
        ({
            let row = planned_tasks(u, has_adapter, tasks, keys, cached, clean, no_cache)[i];
            let looked_up = !tasks[i].no_cache && !no_cache;
            &&& row.status == TaskStatus::SkippedDiffClean <==> clean
            &&& row.status == TaskStatus::CacheHit <==> !clean && looked_up && cached[i]
            &&& row.status == TaskStatus::CacheMiss <==> !clean && !(looked_up && cached[i])
            &&& row.miss_reason == Some(MissReason::Uncacheable) <==> !clean && tasks[i].no_cache
            &&& row.miss_reason == Some(MissReason::ForceRerun) <==> !clean && !tasks[i].no_cache && no_cache
            &&& row.miss_reason == Some(MissReason::NeverCached) <==> !clean && looked_up && !cached[i]
        }),
{
}

/// The summary counts every task of a unit without changes as skipped, and no task of a unit with
/// changes.
pub proof fn law_skipped_tasks_are_counted(
    u: UnitModel,
    has_adapter: bool,
    tasks: Seq<ResolvedTaskModel>,
    keys: Seq<Seq<char>>,
    cached: Seq<bool>,
    clean: bool,
    no_cache: bool,
)
    requires
        keys.len() == tasks.len(),
        cached.len() == tasks.len(),
        tasks.len() > 0,
    ensures
        count_status(
            planned_tasks(u, has_adapter, tasks, keys, cached, clean, no_cache),
            TaskStatus::SkippedDiffClean,
        ) == (if clean {
            tasks.len()
        } else {
            0
        }),
{
    let rows = planned_tasks(u, has_adapter, tasks, keys, cached, clean, no_cache);
    assert forall|i: int| 0 <= i < rows.len() implies ((#[trigger] rows[i]).status == TaskStatus::SkippedDiffClean)
        == clean by {
        law_clean_units_are_skipped(u, has_adapter, tasks, keys, cached, clean, no_cache, i);
    }
    lemma_count_uniform(rows, TaskStatus::SkippedDiffClean, clean);
}

proof fn lemma_count_uniform(rows: Seq<PlannedTaskModel>, s: TaskStatus, all: bool)
    requires
        forall|i: int| 0 <= i < rows.len() ==> ((#[trigger] rows[i]).status == s) == all,
    ensures
        count_status(rows, s) == (if all {
            rows.len()
        } else {
            0
        }),
    decreases rows.len(),
{
    if rows.len() > 0 {
        let rest = rows.drop_last();
        assert forall|i: int| 0 <= i < rest.len() implies ((#[trigger] rest[i]).status == s) == all by {
            assert(rest[i] == rows[i]);
        }
        lemma_count_uniform(rest, s, all);
        assert((rows[rows.len() - 1].status == s) == all);
    }
}

/// A directory of the list is clean if and only if it is not among the changed, and nothing else is; the
/// order stays.
pub proof fn law_clean_is_not_changed(dirs: Seq<Seq<char>>, dirty: Seq<Seq<char>>, d: Seq<char>)
    ensures
        clean_of(dirs, dirty).contains(d) <==> dirs.contains(d) && !has_path(dirty, d),
        clean_of(dirs, dirty).len() <= dirs.len(),
    decreases dirs.len(),
{
    if dirs.len() > 0 {
        let rest = dirs.drop_last();
        law_clean_is_not_changed(rest, dirty, d);
        let before = clean_of(rest, dirty);
        if dirs.contains(d) && d != dirs.last() {
            let k = choose|k: int| 0 <= k < dirs.len() && dirs[k] == d;
            assert(rest[k] == d);
        }
        if rest.contains(d) {
            let k = choose|k: int| 0 <= k < rest.len() && rest[k] == d;
            assert(dirs[k] == d);
        }
        assert(dirs[dirs.len() - 1] == dirs.last());
        let with = before.push(dirs.last());
        assert(with[before.len() as int] == dirs.last());
        if before.contains(d) {
            let k = choose|k: int| 0 <= k < before.len() && before[k] == d;
            assert(with[k] == d);
        }
        if with.contains(d) && d != dirs.last() {
            let k = choose|k: int| 0 <= k < with.len() && with[k] == d;
            assert(before[k] == d);
        }
    }
}

/// The directories of a list that are not among the changed.
pub open spec fn clean_of(dirs: Seq<Seq<char>>, dirty: Seq<Seq<char>>) -> Seq<Seq<char>>
    decreases dirs.len(),
{
    if dirs.len() == 0 {
        Seq::empty()
    } else if has_path(dirty, dirs.last()) {
        clean_of(dirs.drop_last(), dirty)
    } else {
        clean_of(dirs.drop_last(), dirty).push(dirs.last())
    }
}

/// The unit directories without changes.
pub fn clean_dirs(dirs: &Vec<String>, dirty: &Vec<String>) -> (r: Vec<String>)
    ensures
        r.deep_view() == clean_of(dirs.deep_view(), dirty.deep_view()),
{
    let ghost all = deep(dirs@);
    let mut r: Vec<String> = Vec::new();
    let mut i: usize = 0;
    while i < dirs.len()
        invariant
            i <= dirs@.len(),
            all == deep(dirs@),
            deep(r@) == clean_of(all.take(i as int), deep(dirty@)),
        decreases dirs.len() - i,
    {
        proof {
            assert(all.take(i + 1).drop_last() =~= all.take(i as int));
        }
        if !contains_path(dirty, dirs[i].as_str()) {
            r.push(copy(dirs[i].as_str()));
        }
        i += 1;
    }
    r
}

/// The image that goes into the keys of tasks.
pub fn container_image_for_plan(repo: &RepoConfig) -> (r: Option<String>)
    ensures
        r.deep_view() == key_image(repo.container, repo.image.deep_view()),
{
    match repo.container {
        ContainerMode::Never => None,
        ContainerMode::Always => copy_opt(&repo.image),
        ContainerMode::Auto => copy_opt(&repo.image),
    }
}

/// No directory from the start up to the root is a workspace.
#[derive(Debug)]
pub struct WorkspaceNotFound {
    pub start: String,
}

impl WorkspaceNotFound {
    /// What the error says.
    pub fn message(&self) -> (r: String)
        ensures
            r@ == "no monad workspace (monad.toml or profiles/) found at or above "@ + self.start@,
    {
        cat("no monad workspace (monad.toml or profiles/) found at or above ", self.start.as_str())
    }
}

/// Whether the directory at `i` is the nearest that is marked.
pub open spec fn nearest(marked: Seq<bool>, i: int) -> bool {
    &&& 0 <= i < marked.len()
    &&& marked[i]
    &&& forall|j: int| 0 <= j < i ==> !#[trigger] marked[j]
}

/// The nearest marked directory.
pub fn first_marked(dirs: &Vec<String>, marked: &Vec<bool>) -> (r: Option<String>)
    requires
        dirs@.len() == marked@.len(),
    ensures
        match r {
            Some(d) => exists|i: int| #[trigger] nearest(marked@, i) && deep(dirs@)[i] == d@,
            None => forall|i: int| 0 <= i < marked@.len() ==> !#[trigger] marked@[i],
        },
{
    let mut i: usize = 0;
    while i < dirs.len()
        invariant
            i <= dirs@.len() == marked@.len(),
            forall|j: int| 0 <= j < i ==> !#[trigger] marked@[j],
        decreases dirs.len() - i,
    {
        if marked[i] {
            assert(nearest(marked@, i as int));
            return Some(copy(dirs[i].as_str()));
        }
        i += 1;
    }
    None
}

/// The workspace root at or above a directory. `canonical` is the resolved form of `start`; `marked`
/// says of `canonical` and of each directory above it, nearest first, whether it holds a
/// `monad.toml` or a `profiles` directory.
pub fn find_workspace_root(start: &str, canonical: &str, marked: &Vec<bool>) -> (r: Result<
    String,
    WorkspaceNotFound,
>)
    requires
        marked@.len() == ancestors_of(canonical@).len(),
    ensures
        match r {
            Ok(root) => exists|i: int| #[trigger]
                nearest(marked@, i) && ancestors_of(canonical@)[i] == root@,
            Err(e) => e.start@ == start@ && forall|i: int|
                0 <= i < marked@.len() ==> !#[trigger] marked@[i],
        },
{
    let dirs = ancestors(canonical);
    match first_marked(&dirs, marked) {
        Some(d) => Ok(d),
        None => Err(WorkspaceNotFound { start: copy(start) }),
    }
}

/// The local cache's directory: the one that the environment gives, where it gives one that is not
/// empty, or else the usual one in the home directory; nothing where neither is known.
pub fn default_cache_root(custom: Option<&str>, home: Option<&str>) -> (r: Option<String>)
    ensures
        r.deep_view() == cache_root(custom.deep_view(), home.deep_view()),
{
    if let Some(c) = custom {
        if !c.is_empty() {
            return Some(copy(c));
        }
    }
    match home {
        Some(h) => {
            let dir = join_path(h, ".monad");
            Some(join_path(dir.as_str(), "cache"))
        },
        None => None,
    }
}

/// The profiles that are planned or run are those that the filter lets through, and no others.
pub proof fn law_profiles_are_admitted(names: Seq<Seq<char>>, filter: Option<Seq<char>>, n: Seq<char>)
    ensures
        admitted_profiles(names, filter).contains(n) <==> names.contains(n) && (filter is None || filter == Some(n)),
        filter is None ==> admitted_profiles(names, filter) == names,
    decreases names.len(),
{
    if names.len() > 0 {
        let rest = names.drop_last();
        law_profiles_are_admitted(rest, filter, n);
        crate::deep::lemma_last_contains(names, n);
        crate::deep::lemma_push_contains(admitted_profiles(rest, filter), names.last(), n);
        assert(rest.push(names.last()) =~= names);
    }
}

/// The units of a profile that are planned are those that are there and whose name the filter lets
/// through, and no others.
pub proof fn law_units_are_admitted(ws: Workspace, refs: Seq<Seq<char>>, filter: Option<Seq<char>>, p: Seq<char>)
    ensures
        admitted(ws, refs, filter).contains(p) <==> {
            &&& refs.contains(p)
            &&& ws.units_by_path@.contains_key(path_key(p))
            &&& filter matches Some(f) ==> ws.unit(p).config.name == f
        },
        filter is None && (forall|i: int|
            0 <= i < refs.len() ==> ws.units_by_path@.contains_key(path_key(#[trigger] refs[i]))) ==> admitted(
            ws,
            refs,
            filter,
        ) == refs,
    decreases refs.len(),
{
    if refs.len() > 0 {
        let rest = refs.drop_last();
        law_units_are_admitted(ws, rest, filter, p);
        crate::deep::lemma_last_contains(refs, p);
        crate::deep::lemma_push_contains(admitted(ws, rest, filter), refs.last(), p);
        assert(rest.push(refs.last()) =~= refs);
        assert(refs[refs.len() - 1] == refs.last());
        assert(forall|i: int| 0 <= i < rest.len() ==> #[trigger] rest[i] == refs[i]);
    }
}

/// The summary of a plan counts each row once, under its status: as many hits as there are rows that
/// are hits, and so on.
pub proof fn law_counts_are_of_rows(rows: Seq<PlannedTaskModel>, s: TaskStatus)
    ensures
        count_status(rows, s) == rows.filter(|r: PlannedTaskModel| r.status == s).len(),
    decreases rows.len(),
{
    reveal(Seq::filter);
    if rows.len() > 0 {
        law_counts_are_of_rows(rows.drop_last(), s);
    }
}

/// The rows of a plan are those of its units, one unit behind the other.
pub proof fn law_all_rows_are_counted(units: Seq<PlannedUnitModel>, i: int, j: int)
    requires
        0 <= i < units.len(),
        0 <= j < units[i].tasks.len(),
    ensures
        rows_of_units(units).contains(units[i].tasks[j]),
    decreases units.len(),
{
    let rest = units.drop_last();
    let before = rows_of_units(rest);
    let all = rows_of_units(units);
    if i < rest.len() {
        assert(rest[i] == units[i]);
        law_all_rows_are_counted(rest, i, j);
        let k = choose|k: int| 0 <= k < before.len() && before[k] == units[i].tasks[j];
        assert(all[k] == units[i].tasks[j]);
    } else {
        assert(all[before.len() + j] == units[i].tasks[j]);
    }
}

/// The image that goes into the keys of tasks.
pub open spec fn key_image(mode: ContainerMode, image: Option<Seq<char>>) -> Option<Seq<char>> {
    if mode == ContainerMode::Never {
        None
    } else {
        image
    }
}

/// The image that tasks run in is the one that goes into their keys; where containers are ruled out, none
/// does.
pub proof fn law_keys_hold_the_image_that_runs(mode: ContainerMode, image: Option<Seq<char>>, runtime: Option<Seq<char>>)
    ensures
        crate::command::planned_container(mode, image, runtime) matches Some(p) ==> key_image(mode, image) == Some(
            p.image,
        ),
        mode == ContainerMode::Never ==> key_image(mode, image) is None,
        mode != ContainerMode::Never ==> key_image(mode, image) == image,
{
}

/// Where the local cache lies.
pub open spec fn cache_root(custom: Option<Seq<char>>, home: Option<Seq<char>>) -> Option<Seq<char>> {
    match (custom, home) {
        (Some(c), _) if c.len() > 0 => Some(c),
        (_, Some(h)) => Some(path_joined(path_joined(h, ".monad"@), "cache"@)),
        (_, None) => None,
    }
}

/// The local cache lies where it is asked to; an empty place counts as none, and then it lies below the home
/// directory. It has no place only where neither is known.
pub proof fn law_where_the_cache_lies(custom: Option<Seq<char>>, home: Option<Seq<char>>)
    ensures
        custom matches Some(c) ==> (c.len() > 0 ==> cache_root(custom, home) == Some(c)),
        custom is None || custom->0.len() == 0 ==> (home matches Some(h) ==> cache_root(custom, home) == Some(
            path_joined(path_joined(h, ".monad"@), "cache"@),
        )),
        cache_root(custom, home) is None <==> (custom is None || custom->0.len() == 0) && home is None,
{
}

/// There is at most one nearest directory that is marked, and there is one where any is.
pub proof fn law_one_nearest(marked: Seq<bool>, i: int, j: int)
    ensures
        nearest(marked, i) && nearest(marked, j) ==> i == j,
        0 <= i < marked.len() && marked[i] ==> exists|k: int| k <= i && #[trigger] nearest(marked, k),
{
    if 0 <= i < marked.len() && marked[i] {
        lemma_some_nearest(marked, i);
    }
}

proof fn lemma_some_nearest(marked: Seq<bool>, i: int)
    requires
        0 <= i < marked.len(),
        marked[i],
    ensures
        exists|k: int| k <= i && #[trigger] nearest(marked, k),
    decreases i,
{
    if exists|j: int| 0 <= j < i && #[trigger] marked[j] {
        let j = choose|j: int| 0 <= j < i && #[trigger] marked[j];
        lemma_some_nearest(marked, j);
        let k = choose|k: int| k <= j && #[trigger] nearest(marked, k);
        assert(k <= i && nearest(marked, k));
    } else {
        assert(nearest(marked, i));
    }
}

/// A plan counts the units of all its profiles: each unit of each profile, and no other.
pub proof fn law_units_of_all_profiles(profiles: Seq<PlannedProfileModel>, u: PlannedUnitModel)
    ensures
        units_of(profiles).contains(u) <==> exists|i: int|
            0 <= i < profiles.len() && (#[trigger] profiles[i]).units.contains(u),
    decreases profiles.len(),
{
    if profiles.len() > 0 {
        let rest = profiles.drop_last();
        let last = profiles.last().units;
        let before = units_of(rest);
        let all = units_of(profiles);
        law_units_of_all_profiles(rest, u);
        if before.contains(u) {
            let k = choose|k: int| 0 <= k < before.len() && before[k] == u;
            assert(all[k] == u);
            let i = choose|i: int| 0 <= i < rest.len() && (#[trigger] rest[i]).units.contains(u);
            assert(profiles[i] == rest[i]);
        }
        if last.contains(u) {
            let k = choose|k: int| 0 <= k < last.len() && last[k] == u;
            assert(all[before.len() + k] == u);
            assert(profiles[profiles.len() - 1].units.contains(u));
        }
        if all.contains(u) {
            let k = choose|k: int| 0 <= k < all.len() && all[k] == u;
            if k < before.len() {
                assert(before[k] == u);
            } else {
                assert(last[k - before.len()] == u);
            }
        }
        if exists|i: int| 0 <= i < profiles.len() && (#[trigger] profiles[i]).units.contains(u) {
            let i = choose|i: int| 0 <= i < profiles.len() && (#[trigger] profiles[i]).units.contains(u);
            if i < rest.len() {
                assert(rest[i] == profiles[i]);
            }
        }
    }
}

} // verus!
