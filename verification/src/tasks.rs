//! The tasks of a unit: what its adapter, its integrations and its own file declare, laid over one
//! another.
use vstd::prelude::*;

use crate::config::{AdapterFacts, AdapterFactsModel, CliRequirement, CliRequirementModel, DefaultTask, DefaultTaskModel, IntegrationFacts, IntegrationFactsModel, IntegrationTask, IntegrationTaskKind, IntegrationTaskModel, NotificationBlock, NotificationBlockModel, Task, TaskModel, UnitConfig, UnitModel};
use crate::deep::deep;
use crate::order::in_order;
use crate::strmap::{values_in_order, StrMap};
use crate::text::{cat3, contains, copy, copy_all, split_at_first, split_once, trim, trim_of};

verus! {

broadcast use {crate::deep::group_deep, crate::deep::lemma_take_next, crate::deep::lemma_take_all};

/// A task as it will be planned and run.
#[derive(Debug)]
pub struct ResolvedTask {
    pub name: String,
    pub run: String,
    pub inputs: Vec<String>,
    pub outputs: Vec<String>,
    /// Output globs anchored at the workspace root.
    pub workspace_outputs: Vec<String>,
    pub env: Vec<String>,
    /// Attempts after the first.
    pub retry: u32,
    /// Neither served from a cache nor put into one.
    pub no_cache: bool,
    /// Variables without which the task cannot run.
    pub required_env: Vec<String>,
    /// Programs without which the task cannot run.
    pub required_cli: Vec<CliRequirement>,
    /// The role of a task that comes from an integration.
    pub integration_kind: Option<IntegrationTaskKind>,
    /// Other tasks of the unit: their keys go into the key of this one.
    pub depends_on: Vec<String>,
}

#[verifier::ext_equal]
pub struct ResolvedTaskModel {
    pub name: Seq<char>,
    pub run: Seq<char>,
    pub inputs: Seq<Seq<char>>,
    pub outputs: Seq<Seq<char>>,
    pub workspace_outputs: Seq<Seq<char>>,
    pub env: Seq<Seq<char>>,
    pub retry: u32,
    pub no_cache: bool,
    pub required_env: Seq<Seq<char>>,
    pub required_cli: Seq<CliRequirementModel>,
    pub integration_kind: Option<IntegrationTaskKind>,
    pub depends_on: Seq<Seq<char>>,
}

impl DeepView for ResolvedTask {
    type V = ResolvedTaskModel;

    open spec fn deep_view(&self) -> ResolvedTaskModel {
        ResolvedTaskModel {
            name: self.name@,
            run: self.run@,
            inputs: self.inputs.deep_view(),
            outputs: self.outputs.deep_view(),
            workspace_outputs: self.workspace_outputs.deep_view(),
            env: self.env.deep_view(),
            retry: self.retry,
            no_cache: self.no_cache,
            required_env: self.required_env.deep_view(),
            required_cli: self.required_cli.deep_view(),
            integration_kind: self.integration_kind,
            depends_on: self.depends_on.deep_view(),
        }
    }
}

/// A task block without a command, and nothing to take one from.
#[derive(Debug)]
pub struct ResolveError {
    pub task: String,
}

impl ResolveError {
    /// What the error says.
    pub fn message(&self) -> (r: String)
        ensures
            r@ == "task '"@ + self.task@
                + "' has no 'run' and no adapter default, integration, or notification to inherit from"@,
    {
        cat3(
            "task '",
            self.task.as_str(),
            "' has no 'run' and no adapter default, integration, or notification to inherit from",
        )
    }
}

/// An adapter's task; the unit's own inputs and outputs stand in for those it leaves open.
pub open spec fn from_default(d: DefaultTaskModel, u: UnitModel) -> ResolvedTaskModel {
    ResolvedTaskModel {
        name: d.name,
        run: d.run,
        inputs: d.inputs.unwrap_or(u.inputs),
        outputs: d.outputs.unwrap_or(u.outputs),
        workspace_outputs: Seq::empty(),
        env: Seq::empty(),
        retry: 0,
        no_cache: false,
        required_env: Seq::empty(),
        required_cli: Seq::empty(),
        integration_kind: None,
        depends_on: Seq::empty(),
    }
}

/// An integration's task; one that acts on the outside world is never cached, whatever it says.
pub open spec fn from_integration(
    t: IntegrationTaskModel,
    required_env: Seq<Seq<char>>,
    required_cli: Seq<CliRequirementModel>,
    u: UnitModel,
) -> ResolvedTaskModel {
    ResolvedTaskModel {
        name: t.name,
        run: t.run,
        inputs: u.inputs,
        outputs: t.outputs,
        workspace_outputs: Seq::empty(),
        env: t.env_vars,
        retry: 0,
        no_cache: t.no_cache || t.kind.side_effectful(),
        required_env,
        required_cli,
        integration_kind: Some(t.kind),
        depends_on: t.depends_on,
    }
}

/// `binary` or `binary: install hint`.
pub open spec fn requirement(s: Seq<char>) -> CliRequirementModel {
    match split_at_first(s, ':') {
        Some(p) => CliRequirementModel { binary: trim_of(p.0), install_hint: trim_of(p.1) },
        None => CliRequirementModel { binary: trim_of(s), install_hint: Seq::empty() },
    }
}

/// A notification as a task of kind `Notify`.
pub open spec fn from_notification(g: NotificationBlockModel, u: UnitModel) -> ResolvedTaskModel {
    ResolvedTaskModel {
        name: g.name,
        run: g.run,
        inputs: u.inputs,
        outputs: Seq::empty(),
        workspace_outputs: Seq::empty(),
        env: g.env,
        retry: 0,
        no_cache: true,
        required_env: g.required_env,
        required_cli: g.required_cli.map_values(|s: Seq<char>| requirement(s)),
        integration_kind: Some(IntegrationTaskKind::Notify),
        depends_on: Seq::empty(),
    }
}

/// The tasks so far, with an adapter's tasks over them.
pub open spec fn with_defaults(
    m: Map<Seq<char>, ResolvedTaskModel>,
    ds: Seq<DefaultTaskModel>,
    u: UnitModel,
) -> Map<Seq<char>, ResolvedTaskModel>
    decreases ds.len(),
{
    if ds.len() == 0 {
        m
    } else {
        with_defaults(m, ds.drop_last(), u).insert(ds.last().name, from_default(ds.last(), u))
    }
}

/// The tasks so far, with an integration's tasks over them.
pub open spec fn with_integration(
    m: Map<Seq<char>, ResolvedTaskModel>,
    i: IntegrationFactsModel,
    ts: Seq<IntegrationTaskModel>,
    u: UnitModel,
) -> Map<Seq<char>, ResolvedTaskModel>
    decreases ts.len(),
{
    if ts.len() == 0 {
        m
    } else {
        with_integration(m, i, ts.drop_last(), u).insert(
            ts.last().name,
            from_integration(ts.last(), i.required_env, i.required_cli, u),
        )
    }
}

/// The tasks so far, with the tasks of each integration over them in turn.
pub open spec fn with_integrations(
    m: Map<Seq<char>, ResolvedTaskModel>,
    is: Seq<IntegrationFactsModel>,
    u: UnitModel,
) -> Map<Seq<char>, ResolvedTaskModel>
    decreases is.len(),
{
    if is.len() == 0 {
        m
    } else {
        with_integration(with_integrations(m, is.drop_last(), u), is.last(), is.last().tasks, u)
    }
}

/// The tasks so far, with the notifications over them.
pub open spec fn with_notifications(
    m: Map<Seq<char>, ResolvedTaskModel>,
    gs: Seq<NotificationBlockModel>,
    u: UnitModel,
) -> Map<Seq<char>, ResolvedTaskModel>
    decreases gs.len(),
{
    if gs.len() == 0 {
        m
    } else {
        with_notifications(m, gs.drop_last(), u).insert(gs.last().name, from_notification(gs.last(), u))
    }
}

/// The tasks that are there before the unit's own `[tasks]`: the adapter's, over them the
/// integrations', over them the notifications.
pub open spec fn offered(
    u: UnitModel,
    adapter: Option<AdapterFactsModel>,
    integrations: Seq<IntegrationFactsModel>,
) -> Map<Seq<char>, ResolvedTaskModel> {
    let defaults = match adapter {
        Some(a) => a.default_tasks,
        None => Seq::empty(),
    };
    with_notifications(
        with_integrations(with_defaults(Map::empty(), defaults, u), integrations, u),
        u.notifications,
        u,
    )
}

/// A unit's own task block over the task of the same name, if one was offered. What the block
/// leaves open comes from that task, or else from the unit; what kind of task it is, what it
/// requires and whether it is cached stay as they were.
pub open spec fn overridden(
    name: Seq<char>,
    t: TaskModel,
    under: Option<ResolvedTaskModel>,
    u: UnitModel,
) -> ResolvedTaskModel {
    ResolvedTaskModel {
        name,
        run: match (t.run, under) {
            (Some(r), _) => r,
            (None, Some(e)) => e.run,
            (None, None) => Seq::empty(),
        },
        inputs: match (t.inputs, under) {
            (Some(l), _) => l,
            (None, Some(e)) => e.inputs,
            (None, None) => u.inputs,
        },
        outputs: match (t.outputs, under) {
            (Some(l), _) => l,
            (None, Some(e)) => e.outputs,
            (None, None) => u.outputs,
        },
        workspace_outputs: match (t.workspace_outputs, under) {
            (Some(l), _) => l,
            (None, Some(e)) => e.workspace_outputs,
            (None, None) => Seq::empty(),
        },
        env: t.env,
        retry: t.retry,
        no_cache: match under {
            Some(e) => e.no_cache,
            None => false,
        },
        required_env: match under {
            Some(e) => e.required_env,
            None => Seq::empty(),
        },
        required_cli: match under {
            Some(e) => e.required_cli,
            None => Seq::empty(),
        },
        integration_kind: match under {
            Some(e) => e.integration_kind,
            None => None,
        },
        depends_on: match under {
            Some(e) => e.depends_on,
            None => Seq::empty(),
        },
    }
}

/// The offered task of a name.
pub open spec fn task_under(m: Map<Seq<char>, ResolvedTaskModel>, n: Seq<char>) -> Option<ResolvedTaskModel> {
    if m.contains_key(n) {
        Some(m[n])
    } else {
        None
    }
}

/// The tasks of `base`, with the unit's own tasks of the given names over them.
pub open spec fn with_own(
    base: Map<Seq<char>, ResolvedTaskModel>,
    own: Set<Seq<char>>,
    u: UnitModel,
) -> Map<Seq<char>, ResolvedTaskModel> {
    Map::new(
        |n: Seq<char>| base.contains_key(n) || own.contains(n),
        |n: Seq<char>|
            if own.contains(n) {
                overridden(n, u.tasks[n], task_under(base, n), u)
            } else {
                base[n]
            },
    )
}

/// Whether a unit's own task block has a command, or a task to take one from.
pub open spec fn has_run(base: Map<Seq<char>, ResolvedTaskModel>, u: UnitModel, n: Seq<char>) -> bool {
    u.tasks[n].run is Some || base.contains_key(n)
}

/// All tasks of a unit, by name.
pub open spec fn task_map(
    u: UnitModel,
    adapter: Option<AdapterFactsModel>,
    integrations: Seq<IntegrationFactsModel>,
) -> Map<Seq<char>, ResolvedTaskModel> {
    with_own(offered(u, adapter, integrations), u.tasks.dom(), u)
}

/// What resolving the tasks of a unit gives: the tasks in the order of their names, or the first
/// task block that has no command.
pub open spec fn resolved(
    u: UnitModel,
    adapter: Option<AdapterFactsModel>,
    integrations: Seq<IntegrationFactsModel>,
    r: Result<Vec<ResolvedTask>, ResolveError>,
) -> bool {
    let base = offered(u, adapter, integrations);
    let names = in_order(u.tasks.dom());
    match r {
        Ok(v) => {
            &&& forall|n: Seq<char>| u.tasks.contains_key(n) ==> #[trigger] has_run(base, u, n)
            &&& v.deep_view() == values_in_order(task_map(u, adapter, integrations))
        },
        Err(e) => exists|i: int|
            0 <= i < names.len() && #[trigger] names[i] == e.task@ && !has_run(base, u, names[i])
                && forall|j: int| 0 <= j < i ==> has_run(base, u, #[trigger] names[j]),
    }
}

/// A copy of some requirements.
pub fn copy_cli(v: &Vec<CliRequirement>) -> (r: Vec<CliRequirement>)
    ensures
        r.deep_view() == v.deep_view(),
{
    let mut r: Vec<CliRequirement> = Vec::new();
    let mut i: usize = 0;
    while i < v.len()
        invariant
            i <= v@.len(),
            deep(r@) == deep(v@).take(i as int),
        decreases v.len() - i,
    {
        let c = CliRequirement { binary: copy(v[i].binary.as_str()), install_hint: copy(v[i].install_hint.as_str()) };
        proof {
            assert(c.deep_view() == deep(v@)[i as int]);
        }
        r.push(c);
        i += 1;
    }
    r
}

/// A copy of a task.
pub fn copy_task(t: &ResolvedTask) -> (r: ResolvedTask)
    ensures
        r.deep_view() == t.deep_view(),
{
    ResolvedTask {
        name: copy(t.name.as_str()),
        run: copy(t.run.as_str()),
        inputs: copy_all(&t.inputs),
        outputs: copy_all(&t.outputs),
        workspace_outputs: copy_all(&t.workspace_outputs),
        env: copy_all(&t.env),
        retry: t.retry,
        no_cache: t.no_cache,
        required_env: copy_all(&t.required_env),
        required_cli: copy_cli(&t.required_cli),
        integration_kind: t.integration_kind,
        depends_on: copy_all(&t.depends_on),
    }
}

fn pick(own: &Option<Vec<String>>, other: &Vec<String>) -> (r: Vec<String>)
    ensures
        r.deep_view() == own.deep_view().unwrap_or(other.deep_view()),
{
    match own {
        Some(l) => copy_all(l),
        None => copy_all(other),
    }
}

fn resolved_from_default(d: &DefaultTask, unit: &UnitConfig) -> (r: ResolvedTask)
    ensures
        r.deep_view() == from_default(d.deep_view(), unit.deep_view()),
{
    let r = ResolvedTask {
        name: copy(d.name.as_str()),
        run: copy(d.run.as_str()),
        inputs: pick(&d.inputs, &unit.inputs),
        outputs: pick(&d.outputs, &unit.outputs),
        workspace_outputs: Vec::new(),
        env: Vec::new(),
        retry: 0,
        no_cache: false,
        required_env: Vec::new(),
        required_cli: Vec::new(),
        integration_kind: None,
        depends_on: Vec::new(),
    };
    assert(r.deep_view() =~= from_default(d.deep_view(), unit.deep_view()));
    r
}

fn resolved_from_integration(
    t: &IntegrationTask,
    required_env: &Vec<String>,
    required_cli: &Vec<CliRequirement>,
    unit: &UnitConfig,
) -> (r: ResolvedTask)
    ensures
        r.deep_view() == from_integration(
            t.deep_view(),
            required_env.deep_view(),
            required_cli.deep_view(),
            unit.deep_view(),
        ),
{
    ResolvedTask {
        name: copy(t.name.as_str()),
        run: copy(t.run.as_str()),
        inputs: copy_all(&unit.inputs),
        outputs: copy_all(&t.outputs),
        workspace_outputs: Vec::new(),
        env: copy_all(&t.env_vars),
        retry: 0,
        no_cache: t.no_cache || t.kind.defaults_no_cache(),
        required_env: copy_all(required_env),
        required_cli: copy_cli(required_cli),
        integration_kind: Some(t.kind),
        depends_on: copy_all(&t.depends_on),
    }
}

/// Reads `binary` or `binary: install hint`.
pub fn parse_requirement(s: &str) -> (r: CliRequirement)
    ensures
        r.deep_view() == requirement(s@),
{
    match split_once(s, ':') {
        Some((b, h)) => CliRequirement { binary: trim(b.as_str()), install_hint: trim(h.as_str()) },
        None => CliRequirement { binary: trim(s), install_hint: String::new() },
    }
}

fn resolved_from_notification(g: &NotificationBlock, unit: &UnitConfig) -> (r: ResolvedTask)
    ensures
        r.deep_view() == from_notification(g.deep_view(), unit.deep_view()),
{
    let mut required_cli: Vec<CliRequirement> = Vec::new();
    let ghost want = deep(g.required_cli@).map_values(|s: Seq<char>| requirement(s));
    let mut i: usize = 0;
    while i < g.required_cli.len()
        invariant
            i <= g.required_cli@.len(),
            want == deep(g.required_cli@).map_values(|s: Seq<char>| requirement(s)),
            deep(required_cli@) == want.take(i as int),
        decreases g.required_cli.len() - i,
    {
        let c = parse_requirement(g.required_cli[i].as_str());
        proof {
            assert(want[i as int] == c.deep_view());
        }
        required_cli.push(c);
        i += 1;
    }
    ResolvedTask {
        name: copy(g.name.as_str()),
        run: copy(g.run.as_str()),
        inputs: copy_all(&unit.inputs),
        outputs: Vec::new(),
        workspace_outputs: Vec::new(),
        env: copy_all(&g.env),
        retry: 0,
        no_cache: true,
        required_env: copy_all(&g.required_env),
        required_cli,
        integration_kind: Some(IntegrationTaskKind::Notify),
        depends_on: Vec::new(),
    }
}

fn inherit(own: &Option<Vec<String>>, under: Option<&Vec<String>>, other: &Vec<String>) -> (r: Vec<String>)
    ensures
        r.deep_view() == (match (own.deep_view(), under.deep_view()) {
            (Some(l), _) => l,
            (None, Some(l)) => l,
            (None, None) => other.deep_view(),
        }),
{
    match own {
        Some(l) => copy_all(l),
        None => match under {
            Some(l) => copy_all(l),
            None => copy_all(other),
        },
    }
}

fn overriding(name: &str, t: &Task, under: Option<&ResolvedTask>, unit: &UnitConfig) -> (r: Option<ResolvedTask>)
    ensures
        r is Some == (t.run is Some || under is Some),
        r matches Some(x) ==> x.deep_view() == overridden(
            name@,
            t.deep_view(),
            under.deep_view(),
            unit.deep_view(),
        ),
{
    let none: Vec<String> = Vec::new();
    let run = match &t.run {
        Some(r) => copy(r.as_str()),
        None => match under {
            Some(e) => copy(e.run.as_str()),
            None => {
                return None;
            },
        },
    };
    let r = match under {
        Some(e) => ResolvedTask {
            name: copy(name),
            run,
            inputs: inherit(&t.inputs, Some(&e.inputs), &unit.inputs),
            outputs: inherit(&t.outputs, Some(&e.outputs), &unit.outputs),
            workspace_outputs: inherit(&t.workspace_outputs, Some(&e.workspace_outputs), &none),
            env: copy_all(&t.env),
            retry: t.retry,
            no_cache: e.no_cache,
            required_env: copy_all(&e.required_env),
            required_cli: copy_cli(&e.required_cli),
            integration_kind: e.integration_kind,
            depends_on: copy_all(&e.depends_on),
        },
        None => ResolvedTask {
            name: copy(name),
            run,
            inputs: inherit(&t.inputs, None, &unit.inputs),
            outputs: inherit(&t.outputs, None, &unit.outputs),
            workspace_outputs: inherit(&t.workspace_outputs, None, &none),
            env: copy_all(&t.env),
            retry: t.retry,
            no_cache: false,
            required_env: Vec::new(),
            required_cli: Vec::new(),
            integration_kind: None,
            depends_on: Vec::new(),
        },
    };
    assert(r.deep_view() =~= overridden(name@, t.deep_view(), under.deep_view(), unit.deep_view()));
    Some(r)
}

/// The tasks of a unit, in the order of their names.
pub fn resolve_tasks(
    unit: &UnitConfig,
    adapter: Option<&AdapterFacts>,
    integrations: &Vec<IntegrationFacts>,
) -> (r: Result<Vec<ResolvedTask>, ResolveError>)
    ensures
        resolved(unit.deep_view(), adapter.deep_view(), integrations.deep_view(), r),
{
    let ghost u = unit.deep_view();
    let mut out: StrMap<ResolvedTask> = StrMap::new();
    if let Some(a) = adapter {
        let ghost ds = deep(a.default_tasks@);
        let mut i: usize = 0;
        while i < a.default_tasks.len()
            invariant
                i <= a.default_tasks@.len(),
                ds == deep(a.default_tasks@),
                u == unit.deep_view(),
                out@ == with_defaults(Map::empty(), ds.take(i as int), u),
            decreases a.default_tasks.len() - i,
        {
            let d = &a.default_tasks[i];
            proof {
                assert(ds.take(i + 1).drop_last() =~= ds.take(i as int));
            }
            out.insert(copy(d.name.as_str()), resolved_from_default(d, unit));
            i += 1;
        }
    }
    let ghost after_defaults = out@;
    let ghost is = deep(integrations@);
    let mut i: usize = 0;
    while i < integrations.len()
        invariant
            i <= integrations@.len(),
            is == deep(integrations@),
            u == unit.deep_view(),
            out@ == with_integrations(after_defaults, is.take(i as int), u),
        decreases integrations.len() - i,
    {
        let facts = &integrations[i];
        let ghost before = out@;
        let ghost ts = deep(facts.tasks@);
        let ghost f = facts.deep_view();
        let mut j: usize = 0;
        while j < facts.tasks.len()
            invariant
                j <= facts.tasks@.len(),
                ts == deep(facts.tasks@),
                f == facts.deep_view(),
                u == unit.deep_view(),
                out@ == with_integration(before, f, ts.take(j as int), u),
            decreases facts.tasks.len() - j,
        {
            let t = &facts.tasks[j];
            proof {
                assert(ts.take(j + 1).drop_last() =~= ts.take(j as int));
            }
            out.insert(
                copy(t.name.as_str()),
                resolved_from_integration(t, &facts.required_env, &facts.required_cli, unit),
            );
            j += 1;
        }
        proof {
            assert(is.take(i + 1).drop_last() =~= is.take(i as int));
        }
        i += 1;
    }
    let ghost after_integrations = out@;
    let ghost gs = deep(unit.notifications@);
    let mut i: usize = 0;
    while i < unit.notifications.len()
        invariant
            i <= unit.notifications@.len(),
            gs == deep(unit.notifications@),
            u == unit.deep_view(),
            out@ == with_notifications(after_integrations, gs.take(i as int), u),
        decreases unit.notifications.len() - i,
    {
        let g = &unit.notifications[i];
        proof {
            assert(gs.take(i + 1).drop_last() =~= gs.take(i as int));
        }
        out.insert(copy(g.name.as_str()), resolved_from_notification(g, unit));
        i += 1;
    }
    let ghost base = offered(u, adapter.deep_view(), is);
    assert(out@ == base);
    let n = unit.tasks.len();
    let ghost names = unit.tasks.keys();
    let mut i: usize = 0;
    proof {
        assert(names.take(0).to_set() =~= Set::empty());
        assert(with_own(base, Set::empty(), u) =~= base);
    }
    while i < n
        invariant
            i <= n == names.len(),
            names == unit.tasks.keys(),
            names == in_order(u.tasks.dom()),
            crate::order::ascending(names),
            names.to_set() == u.tasks.dom(),
            u == unit.deep_view(),
            base == offered(u, adapter.deep_view(), is),
            is == deep(integrations@),
            out@ == with_own(base, names.take(i as int).to_set(), u),
            forall|j: int| 0 <= j < i ==> has_run(base, u, #[trigger] names[j]),
        decreases n - i,
    {
        let name = unit.tasks.key(i);
        let task = unit.tasks.value(i);
        proof {
            crate::order::lemma_ascending_distinct(names);
            assert(!names.take(i as int).to_set().contains(name@)) by {
                if names.take(i as int).contains(name@) {
                    let k = choose|k: int| 0 <= k < i && names.take(i as int)[k] == name@;
                    assert(names[k] == names[i as int]);
                }
            }
        }
        let under = out.get(name.as_str());
        assert(under.deep_view() == task_under(base, name@));
        match overriding(name.as_str(), task, under, unit) {
            Some(t) => {
                out.insert(copy(name.as_str()), t);
                proof {
                    let was = names.take(i as int);
                    let now = names.take(i + 1);
                    assert forall|s: Seq<char>| #[trigger] now.to_set().contains(s) <==> was.to_set().contains(s)
                        || s == name@ by {
                        if was.contains(s) {
                            let k = choose|k: int| 0 <= k < was.len() && was[k] == s;
                            assert(now[k] == s);
                        }
                        assert(now[i as int] == name@);
                    }
                    assert(out@ =~= with_own(base, now.to_set(), u));
                }
            },
            None => {
                return Err(ResolveError { task: copy(name.as_str()) });
            },
        }
        i += 1;
    }
    proof {
        assert(names.take(n as int) =~= names);
        assert forall|s: Seq<char>| u.tasks.contains_key(s) implies #[trigger] has_run(base, u, s) by {
            assert(names.to_set().contains(s));
            let k = choose|k: int| 0 <= k < names.len() && names[k] == s;
            assert(has_run(base, u, names[k]));
        }
    }
    Ok(out.into_values())
}

/// The names of the tasks that bring inputs of their own.
pub open spec fn with_inputs(ds: Seq<DefaultTaskModel>) -> Seq<Seq<char>>
    decreases ds.len(),
{
    if ds.len() == 0 {
        Seq::empty()
    } else if ds.last().inputs is Some {
        with_inputs(ds.drop_last()).push(ds.last().name)
    } else {
        with_inputs(ds.drop_last())
    }
}

/// The adapter tasks for which the unit's own `inputs` have no effect.
pub fn shadowed_unit_inputs(unit: &UnitConfig, adapter: Option<&AdapterFacts>) -> (r: Vec<String>)
    ensures
        r.deep_view() == shadowed(unit.deep_view(), adapter.deep_view()),
{
    let mut r: Vec<String> = Vec::new();
    if unit.inputs.len() == 0 {
        return r;
    }
    if let Some(a) = adapter {
        let ghost ds = deep(a.default_tasks@);
        let mut i: usize = 0;
        while i < a.default_tasks.len()
            invariant
                i <= a.default_tasks@.len(),
                ds == deep(a.default_tasks@),
                deep(r@) == with_inputs(ds.take(i as int)),
            decreases a.default_tasks.len() - i,
        {
            let d = &a.default_tasks[i];
            proof {
                assert(ds.take(i + 1).drop_last() =~= ds.take(i as int));
            }
            if d.inputs.is_some() {
                r.push(copy(d.name.as_str()));
            }
            i += 1;
        }
    }
    r
}

/// The integrations of a unit: those detected, then those that its file names and that are known
/// and not yet there.
pub open spec fn integrations_of(
    detected: Seq<Seq<char>>,
    declared: Seq<Seq<char>>,
    known: Seq<Seq<char>>,
) -> Seq<Seq<char>>
    decreases declared.len(),
{
    if declared.len() == 0 {
        detected
    } else {
        let before = integrations_of(detected, declared.drop_last(), known);
        if !before.contains(declared.last()) && known.contains(declared.last()) {
            before.push(declared.last())
        } else {
            before
        }
    }
}

/// The ids of the integrations of a unit, each once.
pub fn resolve_integrations(detected: &Vec<String>, declared: &Vec<String>, known: &Vec<String>) -> (r: Vec<
    String,
>)
    ensures
        r.deep_view() == integrations_of(detected.deep_view(), declared.deep_view(), known.deep_view()),
{
    let mut r = copy_all(detected);
    let ghost ids = deep(declared@);
    let mut i: usize = 0;
    while i < declared.len()
        invariant
            i <= declared@.len(),
            ids == deep(declared@),
            deep(r@) == integrations_of(deep(detected@), ids.take(i as int), deep(known@)),
        decreases declared.len() - i,
    {
        let id = declared[i].as_str();
        proof {
            assert(ids.take(i + 1).drop_last() =~= ids.take(i as int));
        }
        if !contains(&r, id) && contains(known, id) {
            r.push(copy(id));
        }
        i += 1;
    }
    r
}

/// How a unit's adapter is found.
#[derive(Debug)]
pub enum AdapterChoice {
    /// By the id that its file gives.
    ById(String),
    /// By what lies in its directory.
    Detect,
}

/// How a unit's adapter is found: the language that its file gives, where it gives one.
pub fn resolve_adapter(unit: &UnitConfig) -> (r: AdapterChoice)
    ensures
        match unit.deep_view().language {
            Some(id) => r matches AdapterChoice::ById(s) && s@ == id,
            None => r is Detect,
        },
{
    match &unit.language {
        Some(id) => AdapterChoice::ById(copy(id.as_str())),
        None => AdapterChoice::Detect,
    }
}

/// Each task stands under its own name, and one that acts on the outside world is not cached.
pub open spec fn orderly(m: Map<Seq<char>, ResolvedTaskModel>) -> bool {
    forall|n: Seq<char>| #[trigger]
        m.contains_key(n) ==> m[n].name == n && (m[n].integration_kind matches Some(k) ==> (
        k.side_effectful() ==> m[n].no_cache))
}

proof fn lemma_defaults_orderly(m: Map<Seq<char>, ResolvedTaskModel>, ds: Seq<DefaultTaskModel>, u: UnitModel)
    requires
        orderly(m),
    ensures
        orderly(with_defaults(m, ds, u)),
    decreases ds.len(),
{
    if ds.len() > 0 {
        lemma_defaults_orderly(m, ds.drop_last(), u);
    }
}

proof fn lemma_integration_orderly(
    m: Map<Seq<char>, ResolvedTaskModel>,
    i: IntegrationFactsModel,
    ts: Seq<IntegrationTaskModel>,
    u: UnitModel,
)
    requires
        orderly(m),
    ensures
        orderly(with_integration(m, i, ts, u)),
    decreases ts.len(),
{
    if ts.len() > 0 {
        lemma_integration_orderly(m, i, ts.drop_last(), u);
    }
}

proof fn lemma_integrations_orderly(
    m: Map<Seq<char>, ResolvedTaskModel>,
    is: Seq<IntegrationFactsModel>,
    u: UnitModel,
)
    requires
        orderly(m),
    ensures
        orderly(with_integrations(m, is, u)),
    decreases is.len(),
{
    if is.len() > 0 {
        lemma_integrations_orderly(m, is.drop_last(), u);
        lemma_integration_orderly(
            with_integrations(m, is.drop_last(), u),
            is.last(),
            is.last().tasks,
            u,
        );
    }
}

proof fn lemma_notifications_orderly(
    m: Map<Seq<char>, ResolvedTaskModel>,
    gs: Seq<NotificationBlockModel>,
    u: UnitModel,
)
    requires
        orderly(m),
    ensures
        orderly(with_notifications(m, gs, u)),
    decreases gs.len(),
{
    if gs.len() > 0 {
        lemma_notifications_orderly(m, gs.drop_last(), u);
    }
}

/// Each task of a unit stands under its own name, so that no two have the same; and a task that
/// acts on the outside world is never cached, even where the unit overrides it.
pub proof fn law_tasks_orderly(
    u: UnitModel,
    adapter: Option<AdapterFactsModel>,
    integrations: Seq<IntegrationFactsModel>,
)
    ensures
        orderly(offered(u, adapter, integrations)),
        orderly(task_map(u, adapter, integrations)),
{
    let defaults = match adapter {
        Some(a) => a.default_tasks,
        None => Seq::empty(),
    };
    let empty = Map::<Seq<char>, ResolvedTaskModel>::empty();
    lemma_defaults_orderly(empty, defaults, u);
    let a = with_defaults(empty, defaults, u);
    lemma_integrations_orderly(a, integrations, u);
    let b = with_integrations(a, integrations, u);
    lemma_notifications_orderly(b, u.notifications, u);
    let base = offered(u, adapter, integrations);
    let all = task_map(u, adapter, integrations);
    assert forall|n: Seq<char>| #[trigger] all.contains_key(n) implies all[n].name == n && (
    all[n].integration_kind matches Some(k) ==> (k.side_effectful() ==> all[n].no_cache)) by {
        if base.contains_key(n) {
            assert(base[n].name == n);
        }
    }
}

/// A unit's own task block changes neither the kind of the task it overrides, nor what the task
/// requires, nor whether it is cached, nor what its key takes in.
pub proof fn law_override_keeps_kind(
    u: UnitModel,
    adapter: Option<AdapterFactsModel>,
    integrations: Seq<IntegrationFactsModel>,
    n: Seq<char>,
)
    requires
        u.tasks.contains_key(n),
        offered(u, adapter, integrations).contains_key(n),
    ensures
        ({
            let before = offered(u, adapter, integrations)[n];
            let after = task_map(u, adapter, integrations)[n];
            &&& after.integration_kind == before.integration_kind
            &&& after.no_cache == before.no_cache
            &&& after.required_env == before.required_env
            &&& after.required_cli == before.required_cli
            &&& after.depends_on == before.depends_on
        }),
{
}

/// What a unit's own task block declares stands in the resolved task, whether or not a task of the name
/// was offered: its command, its inputs, its outputs and its workspace outputs, and always its variables
/// and its retries. What the block leaves open is that of the offered task; where none was offered, the
/// inputs and the outputs are the unit's, and there are no workspace outputs.
pub proof fn law_own_block_wins(
    u: UnitModel,
    adapter: Option<AdapterFactsModel>,
    integrations: Seq<IntegrationFactsModel>,
    n: Seq<char>,
)
    requires
        u.tasks.contains_key(n),
    ensures
        ({
            let own = u.tasks[n];
            let base = offered(u, adapter, integrations);
            let all = task_map(u, adapter, integrations);
            let r = all[n];
            &&& all.contains_key(n)
            &&& r.name == n
            &&& r.env == own.env
            &&& r.retry == own.retry
            &&& own.run matches Some(run) ==> r.run == run
            &&& own.inputs matches Some(l) ==> r.inputs == l
            &&& own.outputs matches Some(l) ==> r.outputs == l
            &&& own.workspace_outputs matches Some(l) ==> r.workspace_outputs == l
            &&& base.contains_key(n) ==> {
                &&& own.run is None ==> r.run == base[n].run
                &&& own.inputs is None ==> r.inputs == base[n].inputs
                &&& own.outputs is None ==> r.outputs == base[n].outputs
                &&& own.workspace_outputs is None ==> r.workspace_outputs == base[n].workspace_outputs
            }
            &&& !base.contains_key(n) ==> {
                &&& own.inputs is None ==> r.inputs == u.inputs
                &&& own.outputs is None ==> r.outputs == u.outputs
                &&& own.workspace_outputs is None ==> r.workspace_outputs.len() == 0
                &&& !r.no_cache && r.integration_kind is None
                &&& r.required_env.len() == 0 && r.required_cli.len() == 0 && r.depends_on.len() == 0
            }
        }),
{
}

/// A unit has exactly the tasks that are offered and those that its file has a block for; a task without
/// a block is as it was offered.
pub proof fn law_no_task_is_lost(
    u: UnitModel,
    adapter: Option<AdapterFactsModel>,
    integrations: Seq<IntegrationFactsModel>,
    n: Seq<char>,
)
    ensures
        ({
            let base = offered(u, adapter, integrations);
            let all = task_map(u, adapter, integrations);
            &&& all.contains_key(n) <==> base.contains_key(n) || u.tasks.contains_key(n)
            &&& base.contains_key(n) && !u.tasks.contains_key(n) ==> all[n] == base[n]
        }),
{
}

/// Whether the element at an index is the last of its name among the default tasks.
pub open spec fn last_default(ds: Seq<DefaultTaskModel>, i: int) -> bool {
    0 <= i < ds.len() && forall|j: int| i < j < ds.len() ==> (#[trigger] ds[j]).name != ds[i].name
}

/// Whether the element at an index is the last of its name among the notifications.
pub open spec fn last_notification(gs: Seq<NotificationBlockModel>, i: int) -> bool {
    0 <= i < gs.len() && forall|j: int| i < j < gs.len() ==> (#[trigger] gs[j]).name != gs[i].name
}

/// Whether an integration has a task of a name.
pub open spec fn brings(i: IntegrationFactsModel, n: Seq<char>) -> bool {
    exists|j: int| 0 <= j < i.tasks.len() && (#[trigger] i.tasks[j]).name == n
}

/// Whether a task of an integration is the last of its name among all tasks of the integrations.
pub open spec fn last_brought(is: Seq<IntegrationFactsModel>, i: int, j: int) -> bool {
    &&& 0 <= i < is.len()
    &&& 0 <= j < is[i].tasks.len()
    &&& forall|k: int| j < k < is[i].tasks.len() ==> (#[trigger] is[i].tasks[k]).name != is[i].tasks[j].name
    &&& forall|k: int| i < k < is.len() ==> !brings(#[trigger] is[k], is[i].tasks[j].name)
}

proof fn lemma_notifications_over(
    m: Map<Seq<char>, ResolvedTaskModel>,
    gs: Seq<NotificationBlockModel>,
    u: UnitModel,
    n: Seq<char>,
)
    ensures
        (forall|j: int| 0 <= j < gs.len() ==> (#[trigger] gs[j]).name != n) ==> {
            &&& with_notifications(m, gs, u).contains_key(n) == m.contains_key(n)
            &&& m.contains_key(n) ==> with_notifications(m, gs, u)[n] == m[n]
        },
        forall|i: int|
            #[trigger] last_notification(gs, i) && gs[i].name == n ==> with_notifications(m, gs, u).contains_key(n)
                && with_notifications(m, gs, u)[n] == from_notification(gs[i], u),
    decreases gs.len(),
{
    if gs.len() > 0 {
        let rest = gs.drop_last();
        lemma_notifications_over(m, rest, u, n);
        assert(gs[gs.len() - 1] == gs.last());
        if forall|j: int| 0 <= j < gs.len() ==> (#[trigger] gs[j]).name != n {
            assert forall|j: int| 0 <= j < rest.len() implies (#[trigger] rest[j]).name != n by {
                assert(rest[j] == gs[j]);
            }
        }
        assert forall|i: int| #[trigger] last_notification(gs, i) && gs[i].name == n implies with_notifications(
            m,
            gs,
            u,
        ).contains_key(n) && with_notifications(m, gs, u)[n] == from_notification(gs[i], u) by {
            if i < gs.len() - 1 {
                assert(gs[gs.len() - 1].name != gs[i].name);
                assert forall|j: int| i < j < rest.len() implies (#[trigger] rest[j]).name != rest[i].name by {
                    assert(rest[j] == gs[j]);
                }
                assert(rest[i] == gs[i]);
                assert(last_notification(rest, i));
            }
        }
    }
}

proof fn lemma_defaults_over(
    m: Map<Seq<char>, ResolvedTaskModel>,
    ds: Seq<DefaultTaskModel>,
    u: UnitModel,
    n: Seq<char>,
)
    ensures
        (forall|j: int| 0 <= j < ds.len() ==> (#[trigger] ds[j]).name != n) ==> {
            &&& with_defaults(m, ds, u).contains_key(n) == m.contains_key(n)
            &&& m.contains_key(n) ==> with_defaults(m, ds, u)[n] == m[n]
        },
        forall|i: int|
            #[trigger] last_default(ds, i) && ds[i].name == n ==> with_defaults(m, ds, u).contains_key(n)
                && with_defaults(m, ds, u)[n] == from_default(ds[i], u),
    decreases ds.len(),
{
    if ds.len() > 0 {
        let rest = ds.drop_last();
        lemma_defaults_over(m, rest, u, n);
        assert(ds[ds.len() - 1] == ds.last());
        if forall|j: int| 0 <= j < ds.len() ==> (#[trigger] ds[j]).name != n {
            assert forall|j: int| 0 <= j < rest.len() implies (#[trigger] rest[j]).name != n by {
                assert(rest[j] == ds[j]);
            }
        }
        assert forall|i: int| #[trigger] last_default(ds, i) && ds[i].name == n implies with_defaults(
            m,
            ds,
            u,
        ).contains_key(n) && with_defaults(m, ds, u)[n] == from_default(ds[i], u) by {
            if i < ds.len() - 1 {
                assert(ds[ds.len() - 1].name != ds[i].name);
                assert forall|j: int| i < j < rest.len() implies (#[trigger] rest[j]).name != rest[i].name by {
                    assert(rest[j] == ds[j]);
                }
                assert(rest[i] == ds[i]);
                assert(last_default(rest, i));
            }
        }
    }
}

proof fn lemma_integration_over(
    m: Map<Seq<char>, ResolvedTaskModel>,
    f: IntegrationFactsModel,
    ts: Seq<IntegrationTaskModel>,
    u: UnitModel,
    n: Seq<char>,
)
    ensures
        (forall|j: int| 0 <= j < ts.len() ==> (#[trigger] ts[j]).name != n) ==> {
            &&& with_integration(m, f, ts, u).contains_key(n) == m.contains_key(n)
            &&& m.contains_key(n) ==> with_integration(m, f, ts, u)[n] == m[n]
        },
        forall|i: int|
            0 <= i < ts.len() && (#[trigger] ts[i]).name == n && (forall|j: int|
                i < j < ts.len() ==> (#[trigger] ts[j]).name != n) ==> with_integration(m, f, ts, u).contains_key(n)
                && with_integration(m, f, ts, u)[n] == from_integration(ts[i], f.required_env, f.required_cli, u),
    decreases ts.len(),
{
    if ts.len() > 0 {
        let rest = ts.drop_last();
        lemma_integration_over(m, f, rest, u, n);
        assert(ts[ts.len() - 1] == ts.last());
        if forall|j: int| 0 <= j < ts.len() ==> (#[trigger] ts[j]).name != n {
            assert forall|j: int| 0 <= j < rest.len() implies (#[trigger] rest[j]).name != n by {
                assert(rest[j] == ts[j]);
            }
        }
        assert forall|i: int|
            0 <= i < ts.len() && (#[trigger] ts[i]).name == n && (forall|j: int|
                i < j < ts.len() ==> (#[trigger] ts[j]).name != n) implies with_integration(m, f, ts, u).contains_key(
            n,
        ) && with_integration(m, f, ts, u)[n] == from_integration(ts[i], f.required_env, f.required_cli, u) by {
            if i < ts.len() - 1 {
                assert(ts[ts.len() - 1].name != n);
                assert forall|j: int| i < j < rest.len() implies (#[trigger] rest[j]).name != n by {
                    assert(rest[j] == ts[j]);
                }
                assert(rest[i] == ts[i]);
            }
        }
    }
}

proof fn lemma_integrations_over(
    m: Map<Seq<char>, ResolvedTaskModel>,
    is: Seq<IntegrationFactsModel>,
    u: UnitModel,
    n: Seq<char>,
)
    ensures
        (forall|j: int| 0 <= j < is.len() ==> !brings(#[trigger] is[j], n)) ==> {
            &&& with_integrations(m, is, u).contains_key(n) == m.contains_key(n)
            &&& m.contains_key(n) ==> with_integrations(m, is, u)[n] == m[n]
        },
        forall|i: int, j: int|
            #[trigger] last_brought(is, i, j) && is[i].tasks[j].name == n ==> with_integrations(
                m,
                is,
                u,
            ).contains_key(n) && with_integrations(m, is, u)[n] == from_integration(
                is[i].tasks[j],
                is[i].required_env,
                is[i].required_cli,
                u,
            ),
    decreases is.len(),
{
    if is.len() > 0 {
        let rest = is.drop_last();
        let before = with_integrations(m, rest, u);
        lemma_integrations_over(m, rest, u, n);
        lemma_integration_over(before, is.last(), is.last().tasks, u, n);
        assert(is[is.len() - 1] == is.last());
        if forall|j: int| 0 <= j < is.len() ==> !brings(#[trigger] is[j], n) {
            assert forall|j: int| 0 <= j < rest.len() implies !brings(#[trigger] rest[j], n) by {
                assert(rest[j] == is[j]);
            }
            assert(!brings(is[is.len() - 1], n));
        }
        assert forall|i: int, j: int| #[trigger] last_brought(is, i, j) && is[i].tasks[j].name
            == n implies with_integrations(m, is, u).contains_key(n) && with_integrations(m, is, u)[n]
            == from_integration(is[i].tasks[j], is[i].required_env, is[i].required_cli, u) by {
            if i < is.len() - 1 {
                assert(!brings(is[is.len() - 1], n));
                assert(rest[i] == is[i]);
                assert forall|k: int| i < k < rest.len() implies !brings(
                    #[trigger] rest[k],
                    rest[i].tasks[j].name,
                ) by {
                    assert(rest[k] == is[k]);
                }
                assert(last_brought(rest, i, j));
            } else {
                let ts = is.last().tasks;
                assert(ts[j].name == n);
                assert forall|k: int| j < k < ts.len() implies (#[trigger] ts[k]).name != n by {
                    assert(is[i].tasks[k].name != is[i].tasks[j].name);
                }
            }
        }
    }
}

/// The default tasks of an adapter, where there is one.
pub open spec fn defaults_of(adapter: Option<AdapterFactsModel>) -> Seq<DefaultTaskModel> {
    match adapter {
        Some(a) => a.default_tasks,
        None => Seq::empty(),
    }
}

/// Whether a unit has a notification of a name.
pub open spec fn notifies(u: UnitModel, n: Seq<char>) -> bool {
    exists|j: int| 0 <= j < u.notifications.len() && (#[trigger] u.notifications[j]).name == n
}

/// A notification is offered under its name before anything else: a task that runs its command, needs
/// what it needs, sees the unit's inputs, and is never cached. Of two of one name the last counts.
pub proof fn law_notifications_are_offered(
    u: UnitModel,
    adapter: Option<AdapterFactsModel>,
    integrations: Seq<IntegrationFactsModel>,
    i: int,
)
    requires
        last_notification(u.notifications, i),
    ensures
        ({
            let g = u.notifications[i];
            let base = offered(u, adapter, integrations);
            let r = base[g.name];
            &&& base.contains_key(g.name)
            &&& r.run == g.run
            &&& r.inputs == u.inputs
            &&& r.outputs.len() == 0
            &&& r.env == g.env
            &&& r.retry == 0
            &&& r.no_cache
            &&& r.required_env == g.required_env
            &&& r.required_cli.len() == g.required_cli.len()
            &&& forall|k: int|
                0 <= k < g.required_cli.len() ==> #[trigger] r.required_cli[k] == requirement(g.required_cli[k])
            &&& r.integration_kind == Some(IntegrationTaskKind::Notify)
            &&& r.depends_on.len() == 0
        }),
{
    let a = with_integrations(with_defaults(Map::empty(), defaults_of(adapter), u), integrations, u);
    lemma_notifications_over(a, u.notifications, u, u.notifications[i].name);
}

/// A task of an integration is offered under its name unless a notification has the name: with its
/// command, its outputs, its variables and its kind, with what the integration needs, and with the
/// unit's inputs. It is cached only where it says so and does not act on the outside world. Of two of
/// one name the last counts.
pub proof fn law_integration_tasks_are_offered(
    u: UnitModel,
    adapter: Option<AdapterFactsModel>,
    integrations: Seq<IntegrationFactsModel>,
    i: int,
    j: int,
)
    requires
        last_brought(integrations, i, j),
        !notifies(u, integrations[i].tasks[j].name),
    ensures
        ({
            let f = integrations[i];
            let t = f.tasks[j];
            let base = offered(u, adapter, integrations);
            let r = base[t.name];
            &&& base.contains_key(t.name)
            &&& r.run == t.run
            &&& r.inputs == u.inputs
            &&& r.outputs == t.outputs
            &&& r.env == t.env_vars
            &&& r.retry == 0
            &&& r.no_cache <==> t.no_cache || t.kind.side_effectful()
            &&& r.required_env == f.required_env
            &&& r.required_cli == f.required_cli
            &&& r.integration_kind == Some(t.kind)
            &&& r.depends_on == t.depends_on
        }),
{
    let n = integrations[i].tasks[j].name;
    let m = with_defaults(Map::empty(), defaults_of(adapter), u);
    lemma_integrations_over(m, integrations, u, n);
    lemma_notifications_over(with_integrations(m, integrations, u), u.notifications, u, n);
}

/// A default task of the adapter is offered under its name unless an integration or a notification has
/// the name: with its command, and with its own inputs and outputs, or the unit's where it leaves them
/// open; it may be cached and needs nothing. Of two of one name the last counts.
pub proof fn law_default_tasks_are_offered(
    u: UnitModel,
    adapter: Option<AdapterFactsModel>,
    integrations: Seq<IntegrationFactsModel>,
    i: int,
)
    requires
        last_default(defaults_of(adapter), i),
        !notifies(u, defaults_of(adapter)[i].name),
        forall|k: int| 0 <= k < integrations.len() ==> !brings(#[trigger] integrations[k], defaults_of(adapter)[i].name),
    ensures
        ({
            let d = defaults_of(adapter)[i];
            let base = offered(u, adapter, integrations);
            let r = base[d.name];
            &&& base.contains_key(d.name)
            &&& r.run == d.run
            &&& d.inputs matches Some(l) ==> r.inputs == l
            &&& d.inputs is None ==> r.inputs == u.inputs
            &&& d.outputs matches Some(l) ==> r.outputs == l
            &&& d.outputs is None ==> r.outputs == u.outputs
            &&& r.env.len() == 0
            &&& r.retry == 0
            &&& !r.no_cache
            &&& r.required_env.len() == 0 && r.required_cli.len() == 0
            &&& r.integration_kind is None
            &&& r.depends_on.len() == 0
        }),
{
    let n = defaults_of(adapter)[i].name;
    let empty = Map::<Seq<char>, ResolvedTaskModel>::empty();
    lemma_defaults_over(empty, defaults_of(adapter), u, n);
    let m = with_defaults(empty, defaults_of(adapter), u);
    lemma_integrations_over(m, integrations, u, n);
    lemma_notifications_over(with_integrations(m, integrations, u), u.notifications, u, n);
}

/// Nothing is offered but default tasks of the adapter, tasks of the integrations and notifications.
pub proof fn law_nothing_else_is_offered(
    u: UnitModel,
    adapter: Option<AdapterFactsModel>,
    integrations: Seq<IntegrationFactsModel>,
    n: Seq<char>,
)
    requires
        forall|k: int| 0 <= k < defaults_of(adapter).len() ==> (#[trigger] defaults_of(adapter)[k]).name != n,
        forall|k: int| 0 <= k < integrations.len() ==> !brings(#[trigger] integrations[k], n),
        !notifies(u, n),
    ensures
        !offered(u, adapter, integrations).contains_key(n),
{
    let empty = Map::<Seq<char>, ResolvedTaskModel>::empty();
    lemma_defaults_over(empty, defaults_of(adapter), u, n);
    let m = with_defaults(empty, defaults_of(adapter), u);
    lemma_integrations_over(m, integrations, u, n);
    lemma_notifications_over(with_integrations(m, integrations, u), u.notifications, u, n);
}

/// The integrations of a unit: all that are detected come first, in their order; then those that its
/// file names and that are known; none of those comes a second time, and no other is there.
pub proof fn law_integrations_are_the_union(
    detected: Seq<Seq<char>>,
    declared: Seq<Seq<char>>,
    known: Seq<Seq<char>>,
    id: Seq<char>,
)
    ensures
        ({
            let r = integrations_of(detected, declared, known);
            &&& r.contains(id) <==> detected.contains(id) || (declared.contains(id) && known.contains(id))
            &&& r.len() >= detected.len()
            &&& r.take(detected.len() as int) == detected
            &&& detected.no_duplicates() ==> r.no_duplicates()
        }),
    decreases declared.len(),
{
    let r = integrations_of(detected, declared, known);
    if declared.len() == 0 {
        assert(r.take(detected.len() as int) =~= detected);
    } else {
        let rest = declared.drop_last();
        let last = declared.last();
        let before = integrations_of(detected, rest, known);
        law_integrations_are_the_union(detected, rest, known, id);
        law_integrations_are_the_union(detected, rest, known, last);
        assert(declared[declared.len() - 1] == last);
        if rest.contains(id) {
            let k = choose|k: int| 0 <= k < rest.len() && rest[k] == id;
            assert(declared[k] == id);
        }
        if declared.contains(id) && id != last {
            let k = choose|k: int| 0 <= k < declared.len() && declared[k] == id;
            assert(rest[k] == id);
        }
        assert(r.take(detected.len() as int) =~= before.take(detected.len() as int));
        let with = before.push(last);
        assert(with[before.len() as int] == last);
        if before.contains(id) {
            let k = choose|k: int| 0 <= k < before.len() && before[k] == id;
            assert(with[k] == id);
        }
        if with.contains(id) && id != last {
            let k = choose|k: int| 0 <= k < with.len() && with[k] == id;
            assert(before[k] == id);
        }
    }
}

/// The adapter tasks for which the unit's own `inputs` have no effect.
pub open spec fn shadowed(u: UnitModel, adapter: Option<AdapterFactsModel>) -> Seq<Seq<char>> {
    match adapter {
        Some(a) if u.inputs.len() > 0 => with_inputs(a.default_tasks),
        _ => Seq::empty(),
    }
}

/// A unit's own inputs have no effect on a default task if and only if it has any and the task brings its
/// own.
pub proof fn law_which_inputs_are_shadowed(u: UnitModel, adapter: Option<AdapterFactsModel>, n: Seq<char>)
    ensures
        shadowed(u, adapter).contains(n) <==> u.inputs.len() > 0 && exists|i: int|
            0 <= i < defaults_of(adapter).len() && (#[trigger] defaults_of(adapter)[i]).name == n
                && defaults_of(adapter)[i].inputs is Some,
{
    lemma_with_inputs(defaults_of(adapter), n);
}

proof fn lemma_with_inputs(ds: Seq<DefaultTaskModel>, n: Seq<char>)
    ensures
        with_inputs(ds).contains(n) <==> exists|i: int|
            0 <= i < ds.len() && (#[trigger] ds[i]).name == n && ds[i].inputs is Some,
    decreases ds.len(),
{
    if ds.len() > 0 {
        let rest = ds.drop_last();
        lemma_with_inputs(rest, n);
        assert(ds[ds.len() - 1] == ds.last());
        crate::deep::lemma_push_contains(with_inputs(rest), ds.last().name, n);
        if with_inputs(rest).contains(n) {
            let i = choose|i: int| 0 <= i < rest.len() && (#[trigger] rest[i]).name == n && rest[i].inputs is Some;
            assert(ds[i] == rest[i]);
        }
        if exists|i: int| 0 <= i < ds.len() && (#[trigger] ds[i]).name == n && ds[i].inputs is Some {
            let i = choose|i: int| 0 <= i < ds.len() && (#[trigger] ds[i]).name == n && ds[i].inputs is Some;
            if i < rest.len() {
                assert(rest[i] == ds[i]);
            }
        }
    }
}

/// A requirement names a program, and behind the first colon how to install it; without white space around
/// either.
pub proof fn law_requirements(binary: Seq<char>, hint: Seq<char>)
    requires
        !binary.contains(':'),
    ensures
        requirement(binary).binary == trim_of(binary),
        requirement(binary).install_hint.len() == 0,
        requirement(binary + seq![':'] + hint).binary == trim_of(binary),
        requirement(binary + seq![':'] + hint).install_hint == trim_of(hint),
{
    let s = binary + seq![':'] + hint;
    crate::text::lemma_find_is(binary, ':', binary.len() as int);
    crate::text::lemma_find_is(s, ':', binary.len() as int);
    assert(s.take(binary.len() as int) =~= binary);
    assert(s.skip(binary.len() as int + 1) =~= hint);
}

/// The tasks of a unit come in the order of their names, each once, and none is missing.
pub proof fn law_tasks_come_by_name(
    u: UnitModel,
    adapter: Option<AdapterFactsModel>,
    integrations: Seq<IntegrationFactsModel>,
    n: Seq<char>,
)
    requires
        in_order(task_map(u, adapter, integrations).dom()).to_set() == task_map(u, adapter, integrations).dom(),
        crate::order::ascending(in_order(task_map(u, adapter, integrations).dom())),
    ensures
        ({
            let all = task_map(u, adapter, integrations);
            let v = values_in_order(all);
            &&& all.contains_key(n) ==> v.contains(all[n])
            &&& forall|i: int, j: int|
                0 <= i < j < v.len() ==> crate::order::less((#[trigger] v[i]).name, (#[trigger] v[j]).name)
            &&& forall|i: int| 0 <= i < v.len() ==> all.contains_key((#[trigger] v[i]).name) && all[v[i].name] == v[i]
        }),
{
    let all = task_map(u, adapter, integrations);
    let names = in_order(all.dom());
    let v = values_in_order(all);
    law_tasks_orderly(u, adapter, integrations);
    assert forall|i: int| 0 <= i < v.len() implies all.contains_key((#[trigger] v[i]).name) && all[v[i].name] == v[i]
        && v[i].name == names[i] by {
        assert(names.to_set().contains(names[i]));
        assert(all.contains_key(names[i]));
        assert(v[i] == all[names[i]]);
    }
    if all.contains_key(n) {
        assert(names.to_set().contains(n));
        let i = choose|i: int| 0 <= i < names.len() && names[i] == n;
        assert(v[i] == all[n]);
    }
    assert forall|i: int, j: int| 0 <= i < j < v.len() implies crate::order::less(
        (#[trigger] v[i]).name,
        (#[trigger] v[j]).name,
    ) by {
        assert(v[i].name == names[i] && v[j].name == names[j]);
    }
}

} // verus!
