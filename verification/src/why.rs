//! The cache key of a task that a user names.
use vstd::prelude::*;

use crate::config::Workspace;
use crate::deep::{deep, filter_map, lemma_filter_map_next};
use crate::execute::names_of;
use crate::order::in_order;
use crate::plan::{units_of, Plan, PlannedTask, PlannedTaskModel, PlannedUnit, PlannedUnitModel, TaskStatus};
use crate::text::{cat3, cat5, cat7, copy, same, split_at_first, split_once};

verus! {

broadcast use {crate::deep::group_deep, crate::deep::lemma_take_next, crate::deep::lemma_take_all};

/// Why a target has no cache key.
#[derive(Debug)]
pub enum WhyTargetError {
    /// It is not `<unit>:<task>`.
    InvalidUnitTask { input: String },
    UnitNotFound { unit: String, available: Vec<String> },
    TaskNotFound { unit: String, task: String, available: Vec<String> },
    NoCacheEntry { unit: String, task: String, key: String },
}

#[verifier::ext_equal]
pub enum WhyTargetErrorModel {
    InvalidUnitTask { input: Seq<char> },
    UnitNotFound { unit: Seq<char>, available: Seq<Seq<char>> },
    TaskNotFound { unit: Seq<char>, task: Seq<char>, available: Seq<Seq<char>> },
    NoCacheEntry { unit: Seq<char>, task: Seq<char>, key: Seq<char> },
}

impl DeepView for WhyTargetError {
    type V = WhyTargetErrorModel;

    open spec fn deep_view(&self) -> WhyTargetErrorModel {
        match self {
            WhyTargetError::InvalidUnitTask { input } => WhyTargetErrorModel::InvalidUnitTask { input: input@ },
            WhyTargetError::UnitNotFound { unit, available } => WhyTargetErrorModel::UnitNotFound {
                unit: unit@,
                available: available.deep_view(),
            },
            WhyTargetError::TaskNotFound { unit, task, available } => WhyTargetErrorModel::TaskNotFound {
                unit: unit@,
                task: task@,
                available: available.deep_view(),
            },
            WhyTargetError::NoCacheEntry { unit, task, key } => WhyTargetErrorModel::NoCacheEntry {
                unit: unit@,
                task: task@,
                key: key@,
            },
        }
    }
}

impl WhyTargetError {
    /// What the error says.
    pub fn message(&self) -> (r: String)
        ensures
            match self {
                WhyTargetError::InvalidUnitTask { input } => r@ == "invalid target '"@ + input@
                    + "' — must be `<unit>:<task>` or a cache-key hex prefix"@,
                WhyTargetError::UnitNotFound { unit, .. } => r@ == "no unit named '"@ + unit@
                    + "' in this workspace"@,
                WhyTargetError::TaskNotFound { unit, task, .. } => r@ == "unit '"@ + unit@
                    + "' has no task named '"@ + task@ + "'"@,
                WhyTargetError::NoCacheEntry { unit, task, key } => r@ == "no cache entry for "@ + unit@
                    + ":"@ + task@ + " yet (key "@ + key@ + ")"@,
            },
    {
        match self {
            WhyTargetError::InvalidUnitTask { input } => cat3(
                "invalid target '",
                input.as_str(),
                "' — must be `<unit>:<task>` or a cache-key hex prefix",
            ),
            WhyTargetError::UnitNotFound { unit, .. } => cat3(
                "no unit named '",
                unit.as_str(),
                "' in this workspace",
            ),
            WhyTargetError::TaskNotFound { unit, task, .. } => cat5(
                "unit '",
                unit.as_str(),
                "' has no task named '",
                task.as_str(),
                "'",
            ),
            WhyTargetError::NoCacheEntry { unit, task, key } => cat7(
                "no cache entry for ",
                unit.as_str(),
                ":",
                task.as_str(),
                " yet (key ",
                key.as_str(),
                ")",
            ),
        }
    }
}

/// The place of the first task of a name; the number of tasks where there is none.
pub open spec fn task_place(tasks: Seq<PlannedTaskModel>, name: Seq<char>) -> nat
    decreases tasks.len(),
{
    if tasks.len() == 0 || tasks[0].name == name {
        0
    } else {
        1 + task_place(tasks.skip(1), name)
    }
}

/// The place of the first unit of a name; the number of units where there is none.
pub open spec fn unit_place(units: Seq<PlannedUnitModel>, name: Seq<char>) -> nat
    decreases units.len(),
{
    if units.len() == 0 || units[0].name == name {
        0
    } else {
        1 + unit_place(units.skip(1), name)
    }
}

/// The name of a task, where the task is real (or of any task, where all count).
pub open spec fn named(all: bool) -> spec_fn(PlannedTaskModel) -> Option<Seq<char>> {
    |t: PlannedTaskModel|
        if all || t.status != TaskStatus::NoAdapter {
            Some(t.name)
        } else {
            None
        }
}

/// The key of a task of a unit, or why it has none.
pub open spec fn key_in_unit(u: PlannedUnitModel, unit: Seq<char>, task: Seq<char>) -> Result<
    Seq<char>,
    WhyTargetErrorModel,
> {
    let i = task_place(u.tasks, task);
    if i >= u.tasks.len() {
        Err(
            WhyTargetErrorModel::TaskNotFound {
                unit,
                task,
                available: filter_map(u.tasks, named(true)),
            },
        )
    } else if u.tasks[i as int].status == TaskStatus::NoAdapter {
        Err(
            WhyTargetErrorModel::TaskNotFound {
                unit,
                task,
                available: filter_map(u.tasks, named(false)),
            },
        )
    } else {
        Ok(u.tasks[i as int].key)
    }
}

/// The key of the task that a target names, or why it has none. `names` holds the names of all units,
/// and `units` the units of a plan.
pub open spec fn key_of(names: Set<Seq<char>>, units: Seq<PlannedUnitModel>, target: Seq<char>) -> Result<
    Seq<char>,
    WhyTargetErrorModel,
> {
    match split_at_first(target, ':') {
        None => Err(WhyTargetErrorModel::InvalidUnitTask { input: target }),
        Some((unit, task)) => {
            let i = unit_place(units, unit);
            if !names.contains(unit) || i >= units.len() {
                Err(WhyTargetErrorModel::UnitNotFound { unit, available: in_order(names) })
            } else {
                key_in_unit(units[i as int], unit, task)
            }
        },
    }
}

fn names_in(tasks: &Vec<PlannedTask>, all: bool) -> (r: Vec<String>)
    ensures
        deep(r@) == filter_map(deep(tasks@), named(all)),
{
    let ghost every = deep(tasks@);
    let ghost f = named(all);
    let mut r: Vec<String> = Vec::new();
    let mut i: usize = 0;
    while i < tasks.len()
        invariant
            i <= tasks@.len(),
            every == deep(tasks@),
            f == named(all),
            deep(r@) == filter_map(every.take(i as int), f),
        decreases tasks.len() - i,
    {
        proof {
            lemma_filter_map_next(every, f, i as int);
        }
        let keyed = match tasks[i].status {
            TaskStatus::NoAdapter => false,
            _ => true,
        };
        if all || keyed {
            r.push(copy(tasks[i].name.as_str()));
        }
        i += 1;
    }
    r
}

proof fn lemma_task_place(tasks: Seq<PlannedTaskModel>, name: Seq<char>, i: int)
    requires
        0 <= i <= tasks.len(),
        forall|j: int| 0 <= j < i ==> (#[trigger] tasks[j]).name != name,
        i < tasks.len() ==> tasks[i].name == name,
    ensures
        task_place(tasks, name) == i,
    decreases tasks.len(),
{
    if i > 0 {
        assert(tasks[0].name != name);
        assert forall|j: int| 0 <= j < i - 1 implies (#[trigger] tasks.skip(1)[j]).name != name by {
            assert(tasks.skip(1)[j] == tasks[j + 1]);
        }
        lemma_task_place(tasks.skip(1), name, i - 1);
    }
}

proof fn lemma_unit_place(units: Seq<PlannedUnitModel>, name: Seq<char>, i: int)
    requires
        0 <= i <= units.len(),
        forall|j: int| 0 <= j < i ==> (#[trigger] units[j]).name != name,
        i < units.len() ==> units[i].name == name,
    ensures
        unit_place(units, name) == i,
    decreases units.len(),
{
    if i > 0 {
        assert(units[0].name != name);
        assert forall|j: int| 0 <= j < i - 1 implies (#[trigger] units.skip(1)[j]).name != name by {
            assert(units.skip(1)[j] == units[j + 1]);
        }
        lemma_unit_place(units.skip(1), name, i - 1);
    }
}

/// The key of a task of a unit, or why it has none.
pub fn unit_task_key(u: &PlannedUnit, unit: &str, task: &str) -> (r: Result<String, WhyTargetError>)
    ensures
        match r {
            Ok(k) => key_in_unit(u.deep_view(), unit@, task@) == Ok::<Seq<char>, WhyTargetErrorModel>(k@),
            Err(e) => key_in_unit(u.deep_view(), unit@, task@) == Err::<Seq<char>, WhyTargetErrorModel>(
                e.deep_view(),
            ),
        },
{
    let ghost all = deep(u.tasks@);
    let mut i: usize = 0;
    while i < u.tasks.len()
        invariant
            i <= u.tasks@.len(),
            all == deep(u.tasks@),
            forall|j: int| 0 <= j < i ==> (#[trigger] all[j]).name != task@,
        decreases u.tasks.len() - i,
    {
        let t = &u.tasks[i];
        assert(all[i as int] == t.deep_view());
        if same(t.name.as_str(), task) {
            proof {
                lemma_task_place(all, task@, i as int);
            }
            let keyed = match t.status {
                TaskStatus::NoAdapter => false,
                _ => true,
            };
            if keyed {
                return Ok(copy(t.key.as_str()));
            }
            return Err(
                WhyTargetError::TaskNotFound {
                    unit: copy(unit),
                    task: copy(task),
                    available: names_in(&u.tasks, false),
                },
            );
        }
        i += 1;
    }
    proof {
        lemma_task_place(all, task@, i as int);
    }
    Err(
        WhyTargetError::TaskNotFound {
            unit: copy(unit),
            task: copy(task),
            available: names_in(&u.tasks, true),
        },
    )
}

/// The key of the task that a target names, or why it has none. `plan` is a plan of the workspace, or
/// of the unit alone.
pub fn resolve_unit_task_key(workspace: &Workspace, plan: &Plan, target: &str) -> (r: Result<String, WhyTargetError>)
    ensures
        ({
            let want = key_of(
                workspace.units_by_name@.dom(),
                units_of(plan.profiles.deep_view()),
                target@,
            );
            match r {
                Ok(k) => want == Ok::<Seq<char>, WhyTargetErrorModel>(k@),
                Err(e) => want == Err::<Seq<char>, WhyTargetErrorModel>(e.deep_view()),
            }
        }),
{
    let (unit, task) = match split_once(target, ':') {
        Some(p) => p,
        None => {
            return Err(WhyTargetError::InvalidUnitTask { input: copy(target) });
        },
    };
    if !workspace.units_by_name.contains_key(unit.as_str()) {
        return Err(WhyTargetError::UnitNotFound { unit, available: names_of(&workspace.units_by_name) });
    }
    let ghost all = deep(plan.profiles@);
    let ghost every = units_of(all);
    let mut i: usize = 0;
    while i < plan.profiles.len()
        invariant
            i <= plan.profiles@.len(),
            all == deep(plan.profiles@),
            every == units_of(all),
            every == units_of(plan.profiles.deep_view()),
            split_at_first(target@, ':') == Some((unit@, task@)),
            workspace.units_by_name@.contains_key(unit@),
            forall|k: int| 0 <= k < units_of(all.take(i as int)).len() ==> (#[trigger] every[k]).name != unit@,
            units_of(all.take(i as int)).is_prefix_of(every),
        decreases plan.profiles.len() - i,
    {
        let units = &plan.profiles[i].units;
        let ghost base = units_of(all.take(i as int));
        proof {
            assert(all.take(i + 1).drop_last() =~= all.take(i as int));
            assert(units_of(all.take(i + 1)) == base + deep(units@));
            crate::plan::lemma_units_prefix(all, i + 1);
        }
        let mut j: usize = 0;
        while j < units.len()
            invariant
                j <= units@.len(),
                every == units_of(plan.profiles.deep_view()),
                split_at_first(target@, ':') == Some((unit@, task@)),
                workspace.units_by_name@.contains_key(unit@),
                (base + deep(units@)).is_prefix_of(every),
                forall|k: int| 0 <= k < base.len() + j ==> (#[trigger] every[k]).name != unit@,
            decreases units.len() - j,
        {
            proof {
                let at = base.len() + j;
                assert((base + deep(units@))[at as int] == units@[j as int].deep_view());
                assert(every[at as int] == units@[j as int].deep_view());
            }
            if same(units[j].name.as_str(), unit.as_str()) {
                proof {
                    lemma_unit_place(every, unit@, base.len() + j as int);
                }
                return unit_task_key(&units[j], unit.as_str(), task.as_str());
            }
            j += 1;
        }
        i += 1;
    }
    proof {
        lemma_unit_place(every, unit@, every.len() as int);
    }
    Err(WhyTargetError::UnitNotFound { unit, available: names_of(&workspace.units_by_name) })
}

/// A target `unit:task` names the key of the first task of that name in the first unit of that name of the
/// plan, where the unit is known and the task is real.
pub proof fn law_target_names_a_key(
    names: Set<Seq<char>>,
    units: Seq<PlannedUnitModel>,
    unit: Seq<char>,
    task: Seq<char>,
    i: int,
    j: int,
)
    requires
        !unit.contains(':'),
        names.contains(unit),
        0 <= i < units.len(),
        units[i].name == unit,
        forall|k: int| 0 <= k < i ==> (#[trigger] units[k]).name != unit,
        0 <= j < units[i].tasks.len(),
        units[i].tasks[j].name == task,
        forall|k: int| 0 <= k < j ==> (#[trigger] units[i].tasks[k]).name != task,
        units[i].tasks[j].status != TaskStatus::NoAdapter,
    ensures
        key_of(names, units, unit + ":"@ + task) == Ok::<Seq<char>, WhyTargetErrorModel>(units[i].tasks[j].key),
{
    reveal_strlit(":");
    let target = unit + ":"@ + task;
    crate::text::lemma_find_is(target, ':', unit.len() as int);
    assert(target.take(unit.len() as int) =~= unit);
    assert(target.skip(unit.len() as int + 1) =~= task);
    lemma_unit_place(units, unit, i);
    lemma_task_place(units[i].tasks, task, j);
}

/// A target without a colon, one whose unit is not known or not planned, and one whose unit has no such
/// task each name no key.
pub proof fn law_target_that_names_no_key(
    names: Set<Seq<char>>,
    units: Seq<PlannedUnitModel>,
    unit: Seq<char>,
    task: Seq<char>,
)
    requires
        !unit.contains(':'),
    ensures
        key_of(names, units, unit) is Err,
        !names.contains(unit) || (forall|k: int| 0 <= k < units.len() ==> (#[trigger] units[k]).name != unit) ==> (
        key_of(names, units, unit + ":"@ + task) matches Err(e) && e is UnitNotFound),
        forall|i: int|
            0 <= i < units.len() && (#[trigger] units[i]).name == unit && names.contains(unit) && (forall|k: int|
                0 <= k < i ==> (#[trigger] units[k]).name != unit) && (forall|k: int|
                0 <= k < units[i].tasks.len() ==> (#[trigger] units[i].tasks[k]).name != task) ==> (key_of(
                names,
                units,
                unit + ":"@ + task,
            ) matches Err(e) && e is TaskNotFound),
{
    reveal_strlit(":");
    let target = unit + ":"@ + task;
    crate::text::lemma_find_is(unit, ':', unit.len() as int);
    crate::text::lemma_find_is(target, ':', unit.len() as int);
    assert(target.take(unit.len() as int) =~= unit);
    assert(target.skip(unit.len() as int + 1) =~= task);
    if forall|k: int| 0 <= k < units.len() ==> (#[trigger] units[k]).name != unit {
        lemma_unit_place(units, unit, units.len() as int);
    }
    assert forall|i: int|
        0 <= i < units.len() && (#[trigger] units[i]).name == unit && names.contains(unit) && (forall|k: int|
            0 <= k < i ==> (#[trigger] units[k]).name != unit) && (forall|k: int|
            0 <= k < units[i].tasks.len() ==> (#[trigger] units[i].tasks[k]).name != task) implies (key_of(
        names,
        units,
        unit + ":"@ + task,
    ) matches Err(e) && e is TaskNotFound) by {
        lemma_unit_place(units, unit, i);
        lemma_task_place(units[i].tasks, task, units[i].tasks.len() as int);
    }
}

/// Where a unit has no such task, the names of those that it has are told; those that stand for nothing to run
/// are told only where that is all there is to say.
pub proof fn law_known_tasks_are_told(u: PlannedUnitModel, unit: Seq<char>, task: Seq<char>, n: Seq<char>)
    ensures
        key_in_unit(u, unit, task) matches Err(WhyTargetErrorModel::TaskNotFound { unit: x, task: y, available }) ==> {
            &&& x == unit && y == task
            &&& available.contains(n) ==> exists|i: int| 0 <= i < u.tasks.len() && (#[trigger] u.tasks[i]).name == n
            &&& forall|i: int|
                0 <= i < u.tasks.len() && (#[trigger] u.tasks[i]).status != TaskStatus::NoAdapter
                    ==> available.contains(u.tasks[i].name)
        },
{
    if let Err(WhyTargetErrorModel::TaskNotFound { available, .. }) = key_in_unit(u, unit, task) {
        let all = task_place(u.tasks, task) >= u.tasks.len();
        let f = named(all);
        assert(available == filter_map(u.tasks, f));
        crate::deep::lemma_filter_map_contains(u.tasks, f, n);
        assert forall|i: int| 0 <= i < u.tasks.len() && (#[trigger] u.tasks[i]).status
            != TaskStatus::NoAdapter implies available.contains(u.tasks[i].name) by {
            assert(f(u.tasks[i]) == Some(u.tasks[i].name));
            crate::deep::lemma_filter_map_contains(u.tasks, f, u.tasks[i].name);
        }
    }
}

} // verus!
