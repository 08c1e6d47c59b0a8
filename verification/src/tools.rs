//! What the tools of a server do with their arguments.
use vstd::prelude::*;

use crate::config::{IntegrationTaskKind, Workspace};
use crate::deep::deep;
use crate::execute::{names_of, resolve_target, target_fails, TargetRef, TargetRefError};
use crate::framing::{debug_form, debug_text};
use crate::order::in_order;
use crate::plan::{admits, PlanOptions};
use crate::run::{default_options, CiOptions, CiOptionsModel, ExecutedProfileModel, ExecutedTask, ExecutedTaskModel, ExecutedUnit, ExecutedUnitModel, ExecutionReport};
use crate::strmap::StrMap;
use crate::text::{cat3, cat6, cat7, chars_of, copy, copy_opt, has_char, join, joined, same, split_at_first, split_once};
use crate::why::{WhyTargetError, WhyTargetErrorModel};

verus! {

broadcast use {crate::deep::group_deep, crate::deep::lemma_take_next, crate::deep::lemma_take_all};

/// Whether a flag is set.
pub open spec fn is_set(flag: Option<bool>) -> bool {
    flag == Some(true)
}

fn set(flag: Option<bool>) -> (r: bool)
    ensures
        r == is_set(flag),
{
    match flag {
        Some(b) => b,
        None => false,
    }
}

/// The filters that a target stands for: of profiles, and of units. No target restricts nothing.
pub open spec fn filters_of(ws: Workspace, target: Option<Seq<char>>) -> (Option<Seq<char>>, Option<Seq<char>>) {
    match target {
        None => (None, None),
        Some(t) => if ws.profiles@.contains_key(t) {
            (Some(t), None)
        } else {
            (None, Some(t))
        },
    }
}

/// Whether a target names a profile or a unit, and not both.
pub open spec fn target_ok(ws: Workspace, target: Option<Seq<char>>) -> bool {
    target is Some ==> (ws.profiles@.contains_key(target->0) != ws.units_by_name@.contains_key(target->0))
}

/// The filters that a target stands for.
pub fn resolve_target_filters(workspace: &Workspace, target: Option<&str>) -> (r: Result<
    (Option<String>, Option<String>),
    TargetRefError,
>)
    ensures
        match r {
            Ok((monad, unit)) => {
                &&& target_ok(*workspace, target.deep_view())
                &&& (monad.deep_view(), unit.deep_view()) == filters_of(*workspace, target.deep_view())
            },
            Err(e) => {
                &&& !target_ok(*workspace, target.deep_view())
                &&& target_fails(*workspace, target->0@, e)
            },
        },
{
    match target {
        None => Ok((None, None)),
        Some(t) => match resolve_target(workspace, t) {
            Ok(TargetRef::Monad(name)) => Ok((Some(name), None)),
            Ok(TargetRef::Unit(name)) => Ok((None, Some(name))),
            Err(e) => Err(e),
        },
    }
}

/// The arguments of `plan`.
#[derive(Debug)]
pub struct PlanArgs {
    pub target: Option<String>,
    pub monad: Option<String>,
    pub no_cache: Option<bool>,
    pub since: Option<String>,
}

/// One filter that lets through what two let through; `None` where they let nothing through.
pub open spec fn joint_filter(a: Option<Seq<char>>, b: Option<Seq<char>>) -> Option<Option<Seq<char>>> {
    match (a, b) {
        (Some(x), Some(y)) if x != y => None,
        (Some(_), _) => Some(a),
        (None, _) => Some(b),
    }
}

/// The one filter lets through what both do, and where there is none, nothing passes both.
pub proof fn law_joint_filter(a: Option<Seq<char>>, b: Option<Seq<char>>, name: Seq<char>)
    ensures
        match joint_filter(a, b) {
            Some(f) => admits(f, name) <==> admits(a, name) && admits(b, name),
            None => !(admits(a, name) && admits(b, name)),
        },
{
}

/// What to plan: what both the target and the profile named beside it let through. `None` where the
/// target is another profile than the one that is named: then nothing is planned.
pub fn plan_options(workspace: &Workspace, input: &PlanArgs) -> (r: Result<Option<PlanOptions>, TargetRefError>)
    ensures
        ({
            let target = input.target.deep_view();
            let (monad, unit) = filters_of(*workspace, target);
            match r {
                Ok(None) => target_ok(*workspace, target) && joint_filter(monad, input.monad.deep_view()) is None,
                Ok(Some(o)) => {
                    &&& target_ok(*workspace, target)
                    &&& joint_filter(monad, input.monad.deep_view()) == Some(o.monad_filter.deep_view())
                    &&& o.unit_filter.deep_view() == unit
                    &&& o.no_cache == is_set(input.no_cache)
                    &&& o.since.deep_view() == input.since.deep_view()
                },
                Err(e) => !target_ok(*workspace, target) && target_fails(*workspace, target->0, e),
            }
        }),
{
    let target = match &input.target {
        Some(t) => Some(t.as_str()),
        None => None,
    };
    match resolve_target_filters(workspace, target) {
        Ok((monad, unit)) => {
            let monad_filter = match (monad, &input.monad) {
                (Some(m), Some(named)) => {
                    if !same(m.as_str(), named.as_str()) {
                        return Ok(None);
                    }
                    Some(m)
                },
                (Some(m), None) => Some(m),
                (None, named) => copy_opt(named),
            };
            Ok(
                Some(
                    PlanOptions {
                        monad_filter,
                        unit_filter: unit,
                        no_cache: set(input.no_cache),
                        since: copy_opt(&input.since),
                    },
                ),
            )
        },
        Err(e) => Err(e),
    }
}

/// The arguments of the tools that run tasks.
#[derive(Debug)]
pub struct ExecArgs {
    pub target: Option<String>,
    pub no_cache: Option<bool>,
    pub skip_install: Option<bool>,
    pub force_install: Option<bool>,
}

/// What `ci` runs, or `build`, `check`, `test` and `lint`, which run one task each.
pub open spec fn exec_options(ws: Workspace, input: ExecArgs, task: Option<Seq<char>>) -> CiOptionsModel {
    let (monad, unit) = filters_of(ws, input.target.deep_view());
    CiOptionsModel {
        monad_filter: monad,
        unit_filter: unit,
        task_filter: match task {
            Some(t) => Some(seq![t]),
            None => None,
        },
        no_cache: is_set(input.no_cache),
        skip_install: is_set(input.skip_install),
        force_install: is_set(input.force_install),
        ..default_options()
    }
}

/// What `ci` runs, or, where a task is named, that task.
pub fn task_options(workspace: &Workspace, input: &ExecArgs, task: Option<&str>) -> (r: Result<
    CiOptions,
    TargetRefError,
>)
    ensures
        match r {
            Ok(o) => {
                &&& target_ok(*workspace, input.target.deep_view())
                &&& o.deep_view() == exec_options(*workspace, *input, task.deep_view())
            },
            Err(e) => {
                &&& !target_ok(*workspace, input.target.deep_view())
                &&& target_fails(*workspace, input.target.deep_view()->0, e)
            },
        },
{
    let target = match &input.target {
        Some(t) => Some(t.as_str()),
        None => None,
    };
    match resolve_target_filters(workspace, target) {
        Ok((monad, unit)) => {
            let task_filter = match task {
                Some(t) => {
                    let mut v: Vec<String> = Vec::new();
                    v.push(copy(t));
                    assert(deep(v@) =~= seq![t@]);
                    Some(v)
                },
                None => None,
            };
            let mut o = CiOptions::default();
            o.monad_filter = monad;
            o.unit_filter = unit;
            o.task_filter = task_filter;
            o.no_cache = set(input.no_cache);
            o.skip_install = set(input.skip_install);
            o.force_install = set(input.force_install);
            Ok(o)
        },
        Err(e) => Err(e),
    }
}

/// The arguments of `install`.
#[derive(Debug)]
pub struct InstallArgs {
    pub target: Option<String>,
    pub force: Option<bool>,
}

/// What `install` runs: installs alone.
pub open spec fn installing(ws: Workspace, input: InstallArgs) -> CiOptionsModel {
    let (monad, unit) = filters_of(ws, input.target.deep_view());
    CiOptionsModel {
        monad_filter: monad,
        unit_filter: unit,
        force_install: is_set(input.force),
        install_only: true,
        ..default_options()
    }
}

/// What `install` runs.
pub fn install_options(workspace: &Workspace, input: &InstallArgs) -> (r: Result<CiOptions, TargetRefError>)
    ensures
        match r {
            Ok(o) => {
                &&& target_ok(*workspace, input.target.deep_view())
                &&& o.deep_view() == installing(*workspace, *input)
            },
            Err(e) => {
                &&& !target_ok(*workspace, input.target.deep_view())
                &&& target_fails(*workspace, input.target.deep_view()->0, e)
            },
        },
{
    let target = match &input.target {
        Some(t) => Some(t.as_str()),
        None => None,
    };
    match resolve_target_filters(workspace, target) {
        Ok((monad, unit)) => {
            let mut o = CiOptions::default();
            o.monad_filter = monad;
            o.unit_filter = unit;
            o.force_install = set(input.force);
            o.install_only = true;
            Ok(o)
        },
        Err(e) => Err(e),
    }
}

/// The debug form of a list of texts.
pub open spec fn debug_list(v: Seq<Seq<char>>) -> Seq<char> {
    "["@ + joined(v.map_values(|s: Seq<char>| debug_form(s)), ", "@) + "]"@
}

fn list_text(v: &Vec<String>) -> (r: String)
    ensures
        r@ == debug_list(deep(v@)),
{
    let ghost want = deep(v@).map_values(|s: Seq<char>| debug_form(s));
    let mut shown: Vec<String> = Vec::new();
    let mut i: usize = 0;
    while i < v.len()
        invariant
            i <= v@.len(),
            want == deep(v@).map_values(|s: Seq<char>| debug_form(s)),
            deep(shown@) == want.take(i as int),
        decreases v.len() - i,
    {
        let d = debug_text(v[i].as_str());
        assert(d@ == want[i as int]);
        shown.push(d);
        i += 1;
    }
    let list = join(&shown, ", ");
    cat3("[", list.as_str(), "]")
}

/// What is said of an environment that is not defined.
pub open spec fn unknown_environment(name: Seq<char>, known: Seq<Seq<char>>) -> Seq<char> {
    "environment `"@ + name + "` is not defined in monad.toml (known: "@ + debug_list(known)
        + "). Add an `[environments."@ + name
        + "]` block with `secrets.<VAR> = \"<SOURCE_VAR>\"` entries."@
}

/// The aliases of an environment, with others on top of them.
pub open spec fn aliases_of(
    environments: Map<Seq<char>, Map<Seq<char>, Seq<char>>>,
    env: Option<Seq<char>>,
    secret_from: Option<Map<Seq<char>, Seq<char>>>,
) -> Map<Seq<char>, Seq<char>> {
    let base = match env {
        Some(name) => environments[name],
        None => Map::empty(),
    };
    match secret_from {
        Some(more) => base.union_prefer_right(more),
        None => base,
    }
}

fn add_aliases(aliases: &mut StrMap<String>, more: &StrMap<String>)
    ensures
        final(aliases)@ == old(aliases)@.union_prefer_right(more@),
{
    let ghost base = aliases@;
    let n = more.len();
    let ghost keys = more.keys();
    let mut i: usize = 0;
    while i < n
        invariant
            i <= n == keys.len(),
            keys == more.keys(),
            keys.to_set() == more@.dom(),
            aliases@ == base.union_prefer_right(more@.restrict(keys.take(i as int).to_set())),
        decreases n - i,
    {
        let k = copy(more.key(i).as_str());
        let v = copy(more.value(i).as_str());
        proof {
            let before = more@.restrict(keys.take(i as int).to_set());
            let after = more@.restrict(keys.take(i + 1).to_set());
            assert(keys.take(i + 1).to_set() =~= keys.take(i as int).to_set().insert(k@)) by {
                let t = keys.take(i + 1);
                assert forall|x: Seq<char>| t.to_set().contains(x) <==> keys.take(i as int).to_set().insert(
                    k@,
                ).contains(x) by {
                    if t.to_set().contains(x) {
                        let j = choose|j: int| 0 <= j < t.len() && t[j] == x;
                        if j < i {
                            assert(keys.take(i as int)[j] == x);
                        }
                    }
                    if keys.take(i as int).to_set().contains(x) {
                        let j = choose|j: int| 0 <= j < i && keys.take(i as int)[j] == x;
                        assert(t[j] == x);
                    }
                    if x == k@ {
                        assert(t[i as int] == x);
                    }
                }
            }
            assert(after =~= before.insert(k@, v@));
            assert(base.union_prefer_right(after) =~= base.union_prefer_right(before).insert(k@, v@));
        }
        aliases.insert(k, v);
        i += 1;
    }
    proof {
        assert(keys.take(n as int) =~= keys);
        assert(more@.restrict(more@.dom()) =~= more@);
        assert(base.union_prefer_right(more@.restrict(Set::empty())) =~= base);
    }
}

/// The aliases that a deploy reads secrets through: those of its environment, with those of the
/// arguments on top of them.
pub fn resolve_secret_aliases(workspace: &Workspace, env: Option<&str>, secret_from: Option<&StrMap<String>>) -> (r: Result<
    StrMap<String>,
    String,
>)
    ensures
        ({
            let envs = workspace.repo.environments@;
            match r {
                Ok(m) => {
                    &&& env is None || envs.contains_key(env->0@)
                    &&& m@ == aliases_of(envs, env.deep_view(), secret_from.deep_view())
                },
                Err(e) => {
                    &&& env is Some && !envs.contains_key(env->0@)
                    &&& e@ == unknown_environment(env->0@, in_order(envs.dom()))
                },
            }
        }),
{
    let mut aliases: StrMap<String> = StrMap::new();
    if let Some(name) = env {
        match workspace.repo.environments.get(name) {
            Some(environment) => {
                add_aliases(&mut aliases, environment);
                assert(aliases@ =~= environment@);
            },
            None => {
                let known = names_of(&workspace.repo.environments);
                let list = list_text(&known);
                return Err(
                    cat7(
                        "environment `",
                        name,
                        "` is not defined in monad.toml (known: ",
                        list.as_str(),
                        "). Add an `[environments.",
                        name,
                        "]` block with `secrets.<VAR> = \"<SOURCE_VAR>\"` entries.",
                    ),
                );
            },
        }
    }
    if let Some(more) = secret_from {
        add_aliases(&mut aliases, more);
    }
    Ok(aliases)
}

/// The arguments of `deploy`.
pub struct DeployArgs {
    pub target: String,
    pub env: String,
    pub preview: Option<bool>,
    pub rollback: Option<bool>,
    pub force: Option<bool>,
    pub no_notify: Option<bool>,
    /// Declared variable to source variable.
    pub secret_from: Option<StrMap<String>>,
}

/// Why a tool refuses its arguments.
#[derive(Debug)]
pub enum ToolError {
    Target(TargetRefError),
    /// The environment is not defined; what to say.
    Environment(String),
}

/// What kind of deploy is asked for.
pub open spec fn deploy_kind_of(input: DeployArgs) -> IntegrationTaskKind {
    if is_set(input.rollback) {
        IntegrationTaskKind::Rollback
    } else if is_set(input.preview) {
        IntegrationTaskKind::DeployPreview
    } else {
        IntegrationTaskKind::Deploy
    }
}

/// What kind of deploy is asked for.
pub fn deploy_kind(input: &DeployArgs) -> (r: IntegrationTaskKind)
    ensures
        r == deploy_kind_of(*input),
{
    if set(input.rollback) {
        IntegrationTaskKind::Rollback
    } else if set(input.preview) {
        IntegrationTaskKind::DeployPreview
    } else {
        IntegrationTaskKind::Deploy
    }
}

/// What `deploy` runs: builds first, then the deploys of the kind that is asked for.
pub open spec fn deploying(ws: Workspace, input: DeployArgs) -> CiOptionsModel {
    let (monad, unit) = filters_of(ws, Some(input.target@));
    CiOptionsModel {
        monad_filter: monad,
        unit_filter: unit,
        task_filter: Some(seq!["build"@]),
        task_kind_filter: Some(deploy_kind_of(input)),
        secret_aliases: aliases_of(ws.repo.environments@, Some(input.env@), input.secret_from.deep_view()),
        run_notify_kinds: !is_set(input.no_notify),
        environment: Some(input.env@),
        force_deploy: is_set(input.force),
        ..default_options()
    }
}

/// What `deploy` runs.
pub fn deploy_options(workspace: &Workspace, input: &DeployArgs) -> (r: Result<CiOptions, ToolError>)
    ensures
        ({
            let envs = workspace.repo.environments@;
            match r {
                Ok(o) => {
                    &&& target_ok(*workspace, Some(input.target@))
                    &&& envs.contains_key(input.env@)
                    &&& o.deep_view() == deploying(*workspace, *input)
                },
                Err(ToolError::Target(e)) => {
                    &&& !target_ok(*workspace, Some(input.target@))
                    &&& target_fails(*workspace, input.target@, e)
                },
                Err(ToolError::Environment(e)) => {
                    &&& target_ok(*workspace, Some(input.target@))
                    &&& !envs.contains_key(input.env@)
                    &&& e@ == unknown_environment(input.env@, in_order(envs.dom()))
                },
            }
        }),
{
    let (monad, unit) = match resolve_target_filters(workspace, Some(input.target.as_str())) {
        Ok(f) => f,
        Err(e) => {
            return Err(ToolError::Target(e));
        },
    };
    let aliases = match resolve_secret_aliases(
        workspace,
        Some(input.env.as_str()),
        match &input.secret_from {
            Some(m) => Some(m),
            None => None,
        },
    ) {
        Ok(a) => a,
        Err(e) => {
            return Err(ToolError::Environment(e));
        },
    };
    let mut tasks: Vec<String> = Vec::new();
    tasks.push(copy("build"));
    assert(deep(tasks@) =~= seq!["build"@]);
    let mut o = CiOptions::default();
    o.monad_filter = monad;
    o.unit_filter = unit;
    o.task_filter = Some(tasks);
    o.task_kind_filter = Some(deploy_kind(input));
    o.secret_aliases = aliases;
    o.run_notify_kinds = !set(input.no_notify);
    o.environment = Some(copy(input.env.as_str()));
    o.force_deploy = set(input.force);
    Ok(o)
}

/// The arguments of `notify`.
pub struct NotifyArgs {
    pub target: Option<String>,
    pub env: String,
    /// Declared variable to source variable.
    pub secret_from: Option<StrMap<String>>,
}

/// What `notify` runs: notifications alone.
pub open spec fn notifying(ws: Workspace, input: NotifyArgs) -> CiOptionsModel {
    let (monad, unit) = filters_of(ws, input.target.deep_view());
    CiOptionsModel {
        monad_filter: monad,
        unit_filter: unit,
        skip_install: true,
        task_kind_filter: Some(IntegrationTaskKind::Notify),
        secret_aliases: aliases_of(ws.repo.environments@, Some(input.env@), input.secret_from.deep_view()),
        run_notify_kinds: true,
        environment: Some(input.env@),
        ..default_options()
    }
}

/// What `notify` runs.
pub fn notify_options(workspace: &Workspace, input: &NotifyArgs) -> (r: Result<CiOptions, ToolError>)
    ensures
        ({
            let envs = workspace.repo.environments@;
            let target = input.target.deep_view();
            match r {
                Ok(o) => {
                    &&& target_ok(*workspace, target)
                    &&& envs.contains_key(input.env@)
                    &&& o.deep_view() == notifying(*workspace, *input)
                },
                Err(ToolError::Target(e)) => {
                    &&& !target_ok(*workspace, target)
                    &&& target_fails(*workspace, target->0, e)
                },
                Err(ToolError::Environment(e)) => {
                    &&& target_ok(*workspace, target)
                    &&& !envs.contains_key(input.env@)
                    &&& e@ == unknown_environment(input.env@, in_order(envs.dom()))
                },
            }
        }),
{
    let target = match &input.target {
        Some(t) => Some(t.as_str()),
        None => None,
    };
    let (monad, unit) = match resolve_target_filters(workspace, target) {
        Ok(f) => f,
        Err(e) => {
            return Err(ToolError::Target(e));
        },
    };
    let aliases = match resolve_secret_aliases(
        workspace,
        Some(input.env.as_str()),
        match &input.secret_from {
            Some(m) => Some(m),
            None => None,
        },
    ) {
        Ok(a) => a,
        Err(e) => {
            return Err(ToolError::Environment(e));
        },
    };
    let mut o = CiOptions::default();
    o.monad_filter = monad;
    o.unit_filter = unit;
    o.skip_install = true;
    o.task_kind_filter = Some(IntegrationTaskKind::Notify);
    o.secret_aliases = aliases;
    o.run_notify_kinds = true;
    o.environment = Some(copy(input.env.as_str()));
    Ok(o)
}

/// An alias of the arguments takes the place of the environment's alias for the same variable; the
/// environment's other aliases stay.
pub proof fn law_arguments_override_the_environment(
    environments: Map<Seq<char>, Map<Seq<char>, Seq<char>>>,
    env: Seq<char>,
    secret_from: Map<Seq<char>, Seq<char>>,
    declared: Seq<char>,
)
    requires
        environments.contains_key(env),
    ensures
        ({
            let r = aliases_of(environments, Some(env), Some(secret_from));
            &&& secret_from.contains_key(declared) ==> r.contains_key(declared) && r[declared]
                == secret_from[declared]
            &&& !secret_from.contains_key(declared) ==> (r.contains_key(declared)
                <==> environments[env].contains_key(declared)) && (r.contains_key(declared) ==> r[declared]
                == environments[env][declared])
        }),
{
}

/// The units of a report, in order.
pub open spec fn executed_units(profiles: Seq<ExecutedProfileModel>) -> Seq<ExecutedUnitModel>
    decreases profiles.len(),
{
    if profiles.len() == 0 {
        Seq::empty()
    } else {
        executed_units(profiles.drop_last()) + profiles.last().units
    }
}

/// Whether `i` is the place of the first unit of a name.
pub open spec fn first_named(units: Seq<ExecutedUnitModel>, name: Seq<char>, i: int) -> bool {
    &&& 0 <= i < units.len()
    &&& units[i].name == name
    &&& forall|j: int| 0 <= j < i ==> (#[trigger] units[j]).name != name
}

proof fn lemma_executed_prefix(profiles: Seq<ExecutedProfileModel>, i: int)
    requires
        0 <= i <= profiles.len(),
    ensures
        executed_units(profiles.take(i)).is_prefix_of(executed_units(profiles)),
    decreases profiles.len() - i,
{
    if i < profiles.len() {
        lemma_executed_prefix(profiles, i + 1);
        assert(profiles.take(i + 1).drop_last() =~= profiles.take(i));
    }
}

/// The first unit of a name in a report.
fn find_unit<'a>(report: &'a ExecutionReport, name: &str) -> (r: Option<&'a ExecutedUnit>)
    ensures
        ({
            let units = executed_units(report.profiles.deep_view());
            match r {
                Some(u) => exists|i: int| #[trigger] first_named(units, name@, i) && units[i] == u.deep_view(),
                None => forall|i: int| !#[trigger] first_named(units, name@, i),
            }
        }),
{
    let ghost all = deep(report.profiles@);
    let ghost every = executed_units(all);
    let mut i: usize = 0;
    while i < report.profiles.len()
        invariant
            i <= report.profiles@.len(),
            all == deep(report.profiles@),
            every == executed_units(all),
            every == executed_units(report.profiles.deep_view()),
            forall|k: int| 0 <= k < executed_units(all.take(i as int)).len() ==> (#[trigger] every[k]).name
                != name@,
        decreases report.profiles.len() - i,
    {
        let units = &report.profiles[i].units;
        let ghost base = executed_units(all.take(i as int));
        proof {
            assert(all.take(i + 1).drop_last() =~= all.take(i as int));
            assert(executed_units(all.take(i + 1)) == base + deep(units@));
            lemma_executed_prefix(all, i + 1);
        }
        let mut j: usize = 0;
        while j < units.len()
            invariant
                j <= units@.len(),
                every == executed_units(report.profiles.deep_view()),
                (base + deep(units@)).is_prefix_of(every),
                forall|k: int| 0 <= k < base.len() + j ==> (#[trigger] every[k]).name != name@,
            decreases units.len() - j,
        {
            proof {
                let at = base.len() + j;
                assert((base + deep(units@))[at as int] == units@[j as int].deep_view());
                assert(every[at as int] == units@[j as int].deep_view());
            }
            if same(units[j].name.as_str(), name) {
                assert(first_named(every, name@, base.len() + j));
                return Some(&units[j]);
            }
            j += 1;
        }
        i += 1;
    }
    None
}

/// Whether all rows say that there is no task of a kind, and there is such a row.
pub open spec fn all_markers(rows: Seq<ExecutedTaskModel>, kind: IntegrationTaskKind) -> bool {
    &&& rows.len() > 0
    &&& forall|i: int| 0 <= i < rows.len() ==> (#[trigger] rows[i]).name == "<no-"@ + kind.name() + ">"@
}

fn only_markers(rows: &Vec<ExecutedTask>, kind: IntegrationTaskKind) -> (r: bool)
    ensures
        r == all_markers(deep(rows@), kind),
{
    let marker = cat3("<no-", kind.as_str(), ">");
    if rows.len() == 0 {
        return false;
    }
    let mut i: usize = 0;
    while i < rows.len()
        invariant
            i <= rows@.len(),
            marker@ == "<no-"@ + kind.name() + ">"@,
            forall|j: int| 0 <= j < i ==> (#[trigger] deep(rows@)[j]).name == marker@,
        decreases rows.len() - i,
    {
        assert(deep(rows@)[i as int] == rows@[i as int].deep_view());
        if !same(rows[i].name.as_str(), marker.as_str()) {
            return false;
        }
        i += 1;
    }
    true
}

/// Why the deploy of a single unit is refused: it ran, and all that is to be said of the unit is that
/// it has no task of the kind. `configured` holds the integrations of the unit.
pub fn missing_integration(report: &ExecutionReport, unit: &str, configured: &Vec<String>, kind: IntegrationTaskKind) -> (r: Option<
    String,
>)
    ensures
        ({
            let units = executed_units(report.profiles.deep_view());
            match r {
                Some(e) => {
                    &&& exists|i: int| #[trigger]
                        first_named(units, unit@, i) && all_markers(units[i].tasks, kind)
                    &&& e@ == "unit '"@ + unit@ + "' has no '"@ + kind.name()
                        + "' integration task — configured integrations: "@ + debug_list(
                        configured.deep_view(),
                    )
                },
                None => forall|i: int| #[trigger]
                    first_named(units, unit@, i) ==> !all_markers(units[i].tasks, kind),
            }
        }),
{
    match find_unit(report, unit) {
        Some(u) => {
            if only_markers(&u.tasks, kind) {
                let list = list_text(configured);
                Some(
                    cat6(
                        "unit '",
                        unit,
                        "' has no '",
                        kind.as_str(),
                        "' integration task — configured integrations: ",
                        list.as_str(),
                    ),
                )
            } else {
                None
            }
        },
        None => None,
    }
}

/// What the target of `why` is.
#[derive(Debug, Clone, Copy, PartialEq, Eq, Structural)]
pub enum WhyTarget {
    /// `<unit>:<task>`.
    UnitTask,
    /// The beginning of a cache key.
    KeyPrefix,
}

/// Whether a character is a hexadecimal digit, in either case.
pub open spec fn hexadecimal(c: char) -> bool {
    ('0' <= c <= '9') || ('a' <= c <= 'f') || ('A' <= c <= 'F')
}

/// Whether a text is the beginning of a cache key: hexadecimal digits, and at least one.
pub open spec fn key_prefix(s: Seq<char>) -> bool {
    s.len() > 0 && forall|i: int| 0 <= i < s.len() ==> hexadecimal(#[trigger] s[i])
}

/// What the target of `why` is, or why it is nothing.
pub fn why_target(target: &str) -> (r: Result<WhyTarget, WhyTargetError>)
    ensures
        match r {
            Ok(WhyTarget::UnitTask) => target@.contains(':'),
            Ok(WhyTarget::KeyPrefix) => !target@.contains(':') && key_prefix(target@),
            Err(e) => !target@.contains(':') && !key_prefix(target@) && e.deep_view() == (
            WhyTargetErrorModel::InvalidUnitTask { input: target@ }),
        },
{
    if has_char(target, ':') {
        return Ok(WhyTarget::UnitTask);
    }
    let v = chars_of(target);
    let mut hex = v.len() > 0;
    let mut i: usize = 0;
    while i < v.len()
        invariant
            v@ == target@,
            i <= v@.len(),
            hex == (v@.len() > 0 && forall|j: int| 0 <= j < i ==> hexadecimal(#[trigger] v@[j])),
        decreases v.len() - i,
    {
        let c = v[i];
        if !(('0' <= c && c <= '9') || ('a' <= c && c <= 'f') || ('A' <= c && c <= 'F')) {
            assert(!hexadecimal(v@[i as int]));
            hex = false;
        }
        i += 1;
    }
    if hex {
        Ok(WhyTarget::KeyPrefix)
    } else {
        Err(WhyTargetError::InvalidUnitTask { input: copy(target) })
    }
}

/// Why `why` fails although its target has a key: the cache holds nothing under the key of a unit's
/// task. That nothing has a key with some beginning is no error.
pub fn nothing_cached(target: &str, key: &str, found: usize) -> (r: Option<WhyTargetError>)
    ensures
        match r {
            Some(e) => found == 0 && (match split_at_first(target@, ':') {
                Some((unit, task)) => e.deep_view() == (WhyTargetErrorModel::NoCacheEntry {
                    unit,
                    task,
                    key: key@,
                }),
                None => false,
            }),
            None => found > 0 || split_at_first(target@, ':') is None,
        },
{
    if found > 0 {
        return None;
    }
    match split_once(target, ':') {
        Some((unit, task)) => Some(WhyTargetError::NoCacheEntry { unit, task, key: copy(key) }),
        None => None,
    }
}

/// The outputs that have a schema.
#[derive(Debug, Clone, Copy, PartialEq, Eq, Structural)]
pub enum SchemaTarget {
    Plan,
    Report,
    Manifest,
    Doctor,
    Diagnostics,
    NotificationPayload,
    Prime,
}

impl SchemaTarget {
    /// What it is called.
    pub open spec fn name(self) -> Seq<char> {
        match self {
            SchemaTarget::Plan => "plan"@,
            SchemaTarget::Report => "report"@,
            SchemaTarget::Manifest => "manifest"@,
            SchemaTarget::Doctor => "doctor"@,
            SchemaTarget::Diagnostics => "diagnostics"@,
            SchemaTarget::NotificationPayload => "notification-payload"@,
            SchemaTarget::Prime => "prime"@,
        }
    }
}

/// The output that a schema is asked for, or what to say where there is none.
pub fn schema_target(target: &str) -> (r: Result<SchemaTarget, String>)
    ensures
        match r {
            Ok(t) => t.name() == target@,
            Err(e) => (forall|t: SchemaTarget| #[trigger] t.name() != target@) && e@ == "unknown schema target '"@
                + target@
                + "' — expected one of: plan, report, manifest, doctor, diagnostics, notification-payload, prime"@,
        },
{
    if same(target, "plan") {
        Ok(SchemaTarget::Plan)
    } else if same(target, "report") {
        Ok(SchemaTarget::Report)
    } else if same(target, "manifest") {
        Ok(SchemaTarget::Manifest)
    } else if same(target, "doctor") {
        Ok(SchemaTarget::Doctor)
    } else if same(target, "diagnostics") {
        Ok(SchemaTarget::Diagnostics)
    } else if same(target, "notification-payload") {
        Ok(SchemaTarget::NotificationPayload)
    } else if same(target, "prime") {
        Ok(SchemaTarget::Prime)
    } else {
        Err(
            cat3(
                "unknown schema target '",
                target,
                "' — expected one of: plan, report, manifest, doctor, diagnostics, notification-payload, prime",
            ),
        )
    }
}

/// A target restricts a run to the profile, or else to the unit, that it names; no target restricts
/// nothing.
pub proof fn law_targets_restrict(ws: Workspace, target: Option<Seq<char>>)
    ensures
        target is None ==> filters_of(ws, target) == (None::<Seq<char>>, None::<Seq<char>>),
        target matches Some(t) ==> {
            &&& ws.profiles@.contains_key(t) ==> filters_of(ws, target) == (Some(t), None::<Seq<char>>)
            &&& !ws.profiles@.contains_key(t) ==> filters_of(ws, target) == (None::<Seq<char>>, Some(t))
        },
        target matches Some(t) ==> (target_ok(ws, target) <==> !(ws.profiles@.contains_key(t)
            && ws.units_by_name@.contains_key(t)) && (ws.profiles@.contains_key(t) || ws.units_by_name@.contains_key(
            t,
        ))),
{
}

/// `ci` runs every task, and the named commands one; neither runs what acts on the outside world, nor an
/// install alone.
pub proof fn law_what_ci_runs(ws: Workspace, input: ExecArgs, task: Option<Seq<char>>)
    ensures
        ({
            let o = exec_options(ws, input, task);
            &&& (o.monad_filter, o.unit_filter) == filters_of(ws, input.target.deep_view())
            &&& task is None ==> o.task_filter is None
            &&& task matches Some(t) ==> o.task_filter == Some(seq![t])
            &&& o.task_kind_filter is None && !o.install_only && !o.run_notify_kinds
            &&& o.no_cache <==> input.no_cache == Some(true)
            &&& o.skip_install <==> input.skip_install == Some(true)
            &&& o.force_install <==> input.force_install == Some(true)
        }),
{
}

/// `install` installs and runs nothing; it installs even what is there only where that is forced.
pub proof fn law_what_install_runs(ws: Workspace, input: InstallArgs)
    ensures
        ({
            let o = installing(ws, input);
            &&& o.install_only && !o.skip_install
            &&& o.force_install <==> input.force == Some(true)
            &&& (o.monad_filter, o.unit_filter) == filters_of(ws, input.target.deep_view())
        }),
{
}

/// `deploy` builds and runs the deploys of one kind: rollbacks where they are asked for, or else previews
/// where they are, or else deploys. It announces them unless it is told not to, in the environment that is
/// named, and only a forced one runs again what is unchanged.
pub proof fn law_what_deploy_runs(ws: Workspace, input: DeployArgs)
    ensures
        ({
            let o = deploying(ws, input);
            &&& (o.monad_filter, o.unit_filter) == filters_of(ws, Some(input.target@))
            &&& o.task_filter == Some(seq!["build"@])
            &&& input.rollback == Some(true) ==> o.task_kind_filter == Some(IntegrationTaskKind::Rollback)
            &&& input.rollback != Some(true) && input.preview == Some(true) ==> o.task_kind_filter == Some(
                IntegrationTaskKind::DeployPreview,
            )
            &&& input.rollback != Some(true) && input.preview != Some(true) ==> o.task_kind_filter == Some(
                IntegrationTaskKind::Deploy,
            )
            &&& o.run_notify_kinds <==> input.no_notify != Some(true)
            &&& o.environment == Some(input.env@)
            &&& o.force_deploy <==> input.force == Some(true)
            &&& !o.no_cache && !o.skip_install && !o.install_only
        }),
{
}

/// `notify` runs notifications alone, without an install, in the environment that is named.
pub proof fn law_what_notify_runs(ws: Workspace, input: NotifyArgs)
    ensures
        ({
            let o = notifying(ws, input);
            &&& (o.monad_filter, o.unit_filter) == filters_of(ws, input.target.deep_view())
            &&& o.task_kind_filter == Some(IntegrationTaskKind::Notify)
            &&& o.run_notify_kinds && o.skip_install
            &&& o.environment == Some(input.env@)
        }),
{
}

/// A text is the beginning of a key if and only if it is not empty and all of it is hexadecimal digits;
/// such a text is never a unit's task.
pub proof fn law_key_prefixes(s: Seq<char>)
    ensures
        key_prefix(s) ==> s.len() > 0 && !s.contains(':') && !s.contains('-'),
        key_prefix(s) <==> s.len() > 0 && forall|i: int|
            0 <= i < s.len() ==> ('0' <= #[trigger] s[i] <= '9' || 'a' <= s[i] <= 'f' || 'A' <= s[i] <= 'F'),
{
}

/// Of a unit that has tasks, none of them of the kind that is asked for, all that is told is that it has no
/// such task.
pub proof fn law_units_without_the_kind_are_told(
    name: Seq<char>,
    path: Seq<char>,
    language: Option<Seq<char>>,
    tasks: Seq<crate::tasks::ResolvedTaskModel>,
    o: crate::run::CiOptionsModel,
    fail_fast: bool,
    kind: IntegrationTaskKind,
)
    requires
        o.task_kind_filter == Some(kind),
        crate::run::out_of_scope(o, tasks),
        tasks.len() > 0,
    ensures
        all_markers(crate::unit_run::started(name, path, language, tasks, o, fail_fast).rows, kind),
{
}

/// The units of a report are those of all its profiles: each unit of each profile, and no other.
pub proof fn law_units_of_a_report(profiles: Seq<ExecutedProfileModel>, u: ExecutedUnitModel)
    ensures
        executed_units(profiles).contains(u) <==> exists|i: int|
            0 <= i < profiles.len() && (#[trigger] profiles[i]).units.contains(u),
    decreases profiles.len(),
{
    if profiles.len() > 0 {
        let rest = profiles.drop_last();
        let last = profiles.last().units;
        let before = executed_units(rest);
        let all = executed_units(profiles);
        law_units_of_a_report(rest, u);
        if before.contains(u) {
            let k = choose|k: int| 0 <= k < before.len() && before[k] == u;
            assert(all[k] == u);
            let i = choose|i: int| 0 <= i < rest.len() && (#[trigger] rest[i]).units.contains(u);
            assert(profiles[i] == rest[i]);
        }
        if last.contains(u) {
            let k = choose|k: int| 0 <= k < last.len() && last[k] == u;
            assert(all[before.len() + k] == u);
            assert(profiles[profiles.len() - 1].units.contains(u));
        }
        if all.contains(u) {
            let k = choose|k: int| 0 <= k < all.len() && all[k] == u;
            if k < before.len() {
                assert(before[k] == u);
            } else {
                assert(last[k - before.len()] == u);
            }
        }
        if exists|i: int| 0 <= i < profiles.len() && (#[trigger] profiles[i]).units.contains(u) {
            let i = choose|i: int| 0 <= i < profiles.len() && (#[trigger] profiles[i]).units.contains(u);
            if i < rest.len() {
                assert(rest[i] == profiles[i]);
            }
        }
    }
}

} // verus!
