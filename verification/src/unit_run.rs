//! Running one unit: which step comes next, and the rows and counts of the report.
use vstd::prelude::*;

use crate::config::IntegrationTaskKind;
use crate::deep::deep;
use crate::deploy_state::{unchanged_of, DeployRecordModel, DeployState, DeployStateModel};
use crate::diagnostic_parsers::{Diagnostic, DiagnosticModel};
use crate::keys::{known_keys, task_dep_keys};
use crate::run::{allowed, out_of_scope, zero_stats, CiOptions, CiOptionsModel, ExecutedTask, ExecutedTaskModel, ExecutedUnit, ExecutedUnitModel, InstallRecord, InstallRecordModel, TaskAttempt, TaskAttemptModel, TaskOutcome, TaskOutcomeModel, UnitStats};
use crate::strmap::StrMap;
use crate::tasks::{ResolvedTask, ResolvedTaskModel};
use crate::text::{cat3, copy, copy_opt};

verus! {

broadcast use {crate::deep::group_deep, crate::deep::lemma_take_next, crate::deep::lemma_take_all};

/// The next step of running a unit.
#[derive(Debug, Clone, Copy, PartialEq, Eq, Structural)]
pub enum UnitStep {
    /// See to the toolchain and to the dependencies.
    Prepare,
    /// Run the task at a position.
    Task { index: usize },
    /// Its tasks are done.
    Finished,
}

/// A unit that is being run.
pub struct UnitRun {
    pub name: String,
    pub path: String,
    pub language: Option<String>,
    pub tasks: Vec<ResolvedTask>,
    pub fail_fast: bool,
    pub install: Option<InstallRecord>,
    /// A row for each task that is done.
    pub rows: Vec<ExecutedTask>,
    pub stats: UnitStats,
    /// The keys of the tasks that are done.
    pub keys: StrMap<String>,
    pub step: UnitStep,
}

#[verifier::ext_equal]
pub struct UnitRunModel {
    pub name: Seq<char>,
    pub path: Seq<char>,
    pub language: Option<Seq<char>>,
    pub tasks: Seq<ResolvedTaskModel>,
    pub fail_fast: bool,
    pub install: Option<InstallRecordModel>,
    pub rows: Seq<ExecutedTaskModel>,
    pub stats: UnitStats,
    pub keys: Map<Seq<char>, Seq<char>>,
    pub step: UnitStep,
}

impl DeepView for UnitRun {
    type V = UnitRunModel;

    open spec fn deep_view(&self) -> UnitRunModel {
        UnitRunModel {
            name: self.name@,
            path: self.path@,
            language: self.language.deep_view(),
            tasks: self.tasks.deep_view(),
            fail_fast: self.fail_fast,
            install: self.install.deep_view(),
            rows: self.rows.deep_view(),
            stats: self.stats,
            keys: self.keys@,
            step: self.step,
        }
    }
}

impl UnitRunModel {
    /// What holds of every unit that is being run: a task to run is there and is allowed; each count
    /// stays within the number of rows.
    pub open spec fn well_formed(self, o: CiOptionsModel) -> bool {
        &&& self.tasks.len() <= usize::MAX
        &&& self.rows.len() <= usize::MAX
        &&& self.step matches UnitStep::Task { index } ==> index < self.tasks.len() && allowed(
            o,
            self.tasks[index as int],
        )
        &&& self.stats.tasks <= self.rows.len()
        &&& self.stats.hits + self.stats.built + self.stats.failed + self.stats.deploy_unchanged
            <= self.stats.tasks
        &&& self.stats.flaky <= self.stats.built
        &&& self.stats.installs <= 1
        &&& self.stats.install_failures <= self.stats.installs
        &&& self.stats.notify_failures == 0
        &&& self.step is Prepare ==> self.rows.len() == 0 && self.stats == zero_stats()
    }
}

/// A row that says why nothing ran.
pub open spec fn marker(name: Seq<char>, reason: Seq<char>) -> ExecutedTaskModel {
    ExecutedTaskModel {
        name,
        run: Seq::empty(),
        key: Seq::empty(),
        duration_ms: 0,
        outcome: TaskOutcomeModel::Skipped { reason },
        attempts: 0,
        flaky: false,
        output_excerpt: None,
        diagnostics: Seq::empty(),
    }
}

/// A row that says why nothing ran.
pub fn marker_row(name: String, reason: String) -> (r: ExecutedTask)
    ensures
        r.deep_view() == marker(name@, reason@),
{
    let r = ExecutedTask {
        name,
        run: String::new(),
        key: String::new(),
        duration_ms: 0,
        outcome: TaskOutcome::Skipped { reason },
        attempts: 0,
        flaky: false,
        output_excerpt: None,
        diagnostics: Vec::new(),
    };
    assert(r.deep_view() =~= marker(name@, reason@));
    r
}

/// The position of the next task that is allowed, from a position on; the number of tasks where
/// there is none.
pub open spec fn next_allowed(o: CiOptionsModel, tasks: Seq<ResolvedTaskModel>, from: int) -> int
    decreases tasks.len() - from,
{
    if from >= tasks.len() {
        tasks.len() as int
    } else if allowed(o, tasks[from]) {
        from
    } else {
        next_allowed(o, tasks, from + 1)
    }
}

/// The step of running the tasks from a position on.
pub open spec fn step_from(o: CiOptionsModel, tasks: Seq<ResolvedTaskModel>, from: int) -> UnitStep {
    let i = next_allowed(o, tasks, from);
    if i < tasks.len() {
        UnitStep::Task { index: i as usize }
    } else {
        UnitStep::Finished
    }
}

fn step_at(opts: &CiOptions, tasks: &Vec<ResolvedTask>, from: usize) -> (r: UnitStep)
    requires
        from <= tasks@.len(),
    ensures
        r == step_from(opts.deep_view(), tasks.deep_view(), from as int),
        r matches UnitStep::Task { index } ==> index < tasks@.len() && allowed(
            opts.deep_view(),
            tasks.deep_view()[index as int],
        ),
{
    let mut i: usize = from;
    while i < tasks.len() && !opts.task_allowed(&tasks[i])
        invariant
            from <= i <= tasks@.len(),
            next_allowed(opts.deep_view(), deep(tasks@), from as int) == next_allowed(
                opts.deep_view(),
                deep(tasks@),
                i as int,
            ),
        decreases tasks.len() - i,
    {
        i += 1;
    }
    if i < tasks.len() {
        UnitStep::Task { index: i }
    } else {
        UnitStep::Finished
    }
}

/// A unit before anything ran: done at once where it has no tasks, or none of the kind that is asked
/// for.
pub open spec fn started(
    name: Seq<char>,
    path: Seq<char>,
    language: Option<Seq<char>>,
    tasks: Seq<ResolvedTaskModel>,
    o: CiOptionsModel,
    default_fail_fast: bool,
) -> UnitRunModel {
    UnitRunModel {
        name,
        path,
        language,
        tasks,
        fail_fast: match o.fail_fast {
            Some(b) => b,
            None => default_fail_fast,
        },
        install: None,
        rows: if tasks.len() == 0 {
            seq![marker("<none>"@, "no adapter detected and no tasks declared"@)]
        } else if out_of_scope(o, tasks) {
            let kind = o.task_kind_filter->0.name();
            seq![
                marker(
                    "<no-"@ + kind + ">"@,
                    "unit has no integration task of kind '"@ + kind + "'"@,
                ),
            ]
        } else {
            Seq::empty()
        },
        stats: zero_stats(),
        keys: Map::empty(),
        step: if tasks.len() == 0 || out_of_scope(o, tasks) {
            UnitStep::Finished
        } else {
            UnitStep::Prepare
        },
    }
}

/// The unit once its dependencies were seen to. A failed install ends it: without its dependencies
/// no task could succeed.
pub open spec fn prepared(u: UnitRunModel, o: CiOptionsModel, record: Option<InstallRecordModel>) -> UnitRunModel {
    let failed = record matches Some(r) && r.error is Some;
    UnitRunModel {
        install: record,
        stats: UnitStats {
            installs: if record is Some {
                1
            } else {
                0
            },
            install_failures: if failed {
                1
            } else {
                0
            },
            ..u.stats
        },
        step: if failed || o.install_only {
            UnitStep::Finished
        } else {
            step_from(o, u.tasks, 0)
        },
        ..u
    }
}

/// The step behind a task.
pub open spec fn step_after(u: UnitRunModel, o: CiOptionsModel, failed: bool) -> UnitStep {
    match u.step {
        UnitStep::Task { index } => if failed && u.fail_fast {
            UnitStep::Finished
        } else {
            step_from(o, u.tasks, index + 1)
        },
        _ => u.step,
    }
}

/// The row of a task that could not run.
pub open spec fn refused_row(t: ResolvedTaskModel, message: Seq<char>, duration_ms: u64) -> ExecutedTaskModel {
    ExecutedTaskModel {
        name: t.name,
        run: t.run,
        key: Seq::empty(),
        duration_ms,
        outcome: TaskOutcomeModel::Failed { exit_code: (-1) as i32, stderr_excerpt: message },
        attempts: 0,
        flaky: false,
        output_excerpt: None,
        diagnostics: Seq::empty(),
    }
}

/// The unit once the task at hand turned out to lack what it needs.
pub open spec fn refused(u: UnitRunModel, o: CiOptionsModel, message: Seq<char>, duration_ms: u64) -> UnitRunModel {
    let t = u.tasks[u.step->index as int];
    UnitRunModel {
        rows: u.rows.push(refused_row(t, message, duration_ms)),
        stats: UnitStats {
            tasks: (u.stats.tasks + 1) as usize,
            failed: (u.stats.failed + 1) as usize,
            ..u.stats
        },
        step: step_after(u, o, true),
        ..u
    }
}

/// The counts with one more task.
pub open spec fn counted(s: UnitStats, a: TaskAttemptModel) -> UnitStats {
    let t = UnitStats { tasks: (s.tasks + 1) as usize, ..s };
    match a.outcome {
        TaskOutcomeModel::CacheHit => UnitStats { hits: (s.hits + 1) as usize, ..t },
        TaskOutcomeModel::Built { .. } => UnitStats {
            built: (s.built + 1) as usize,
            flaky: if a.flaky {
                (s.flaky + 1) as usize
            } else {
                s.flaky
            },
            ..t
        },
        TaskOutcomeModel::Failed { .. } => UnitStats { failed: (s.failed + 1) as usize, ..t },
        TaskOutcomeModel::Skipped { .. } => t,
        TaskOutcomeModel::DeployUnchanged { .. } => UnitStats {
            deploy_unchanged: (s.deploy_unchanged + 1) as usize,
            ..t
        },
    }
}

/// Whether what a task printed is its result: it comes from an integration and ran.
pub open spec fn prints_result(t: ResolvedTaskModel, outcome: TaskOutcomeModel) -> bool {
    t.integration_kind is Some && (outcome is Built || outcome is Failed)
}

/// The row of a task that is done. What it printed is kept where that is its result; diagnostics are
/// kept where it failed.
pub open spec fn done_row(
    t: ResolvedTaskModel,
    key: Seq<char>,
    a: TaskAttemptModel,
    diagnostics: Seq<DiagnosticModel>,
    duration_ms: u64,
) -> ExecutedTaskModel {
    ExecutedTaskModel {
        name: t.name,
        run: t.run,
        key,
        duration_ms,
        outcome: a.outcome,
        attempts: a.attempts,
        flaky: a.flaky,
        output_excerpt: if prints_result(t, a.outcome) {
            a.output_excerpt
        } else {
            None
        },
        diagnostics: if a.outcome is Failed {
            diagnostics
        } else {
            Seq::empty()
        },
    }
}

/// The unit once the task at hand is done.
pub open spec fn completed(
    u: UnitRunModel,
    o: CiOptionsModel,
    key: Seq<char>,
    a: TaskAttemptModel,
    diagnostics: Seq<DiagnosticModel>,
    duration_ms: u64,
) -> UnitRunModel {
    let t = u.tasks[u.step->index as int];
    UnitRunModel {
        rows: u.rows.push(done_row(t, key, a, diagnostics, duration_ms)),
        stats: counted(u.stats, a),
        keys: u.keys.insert(t.name, key),
        step: step_after(u, o, a.outcome is Failed),
        ..u
    }
}

/// Whether a task is a deploy of which a record is kept.
pub open spec fn is_recorded(t: ResolvedTaskModel) -> bool {
    t.integration_kind == Some(IntegrationTaskKind::Deploy) || t.integration_kind == Some(
        IntegrationTaskKind::DeployPreview,
    )
}

/// What comes of a deploy that has nothing to do: one whose inputs are those of the last deploy that
/// succeeded, unless it is forced. Any other task has to run.
pub open spec fn deploy_skip(
    t: ResolvedTaskModel,
    o: CiOptionsModel,
    s: DeployStateModel,
    unit: Seq<char>,
    key: Seq<char>,
) -> Option<TaskAttemptModel> {
    if is_recorded(t) && !o.force_deploy {
        match unchanged_of(s, o.environment, unit, t.name, key) {
            Some(record) => Some(
                TaskAttemptModel {
                    outcome: TaskOutcomeModel::DeployUnchanged {
                        last_deployed_at: record.deployed_at,
                        deploy_url: record.deploy_url,
                    },
                    attempts: 0,
                    flaky: false,
                    output_excerpt: None,
                },
            ),
            None => None,
        }
    } else {
        None
    }
}

fn is_deploy(t: &ResolvedTask) -> (r: bool)
    ensures
        r == is_recorded(t.deep_view()),
{
    match t.integration_kind {
        Some(IntegrationTaskKind::Deploy) => true,
        Some(IntegrationTaskKind::DeployPreview) => true,
        _ => false,
    }
}

/// What comes of a deploy that has nothing to do; `None` where the task has to run.
pub fn deploy_state_hit(
    task: &ResolvedTask,
    opts: &CiOptions,
    state: &DeployState,
    unit: &str,
    key: &str,
) -> (r: Option<TaskAttempt>)
    ensures
        r.deep_view() == deploy_skip(task.deep_view(), opts.deep_view(), state@, unit@, key@),
{
    if !is_deploy(task) || opts.force_deploy {
        return None;
    }
    let env = match &opts.environment {
        Some(e) => Some(e.as_str()),
        None => None,
    };
    match state.unchanged(env, unit, task.name.as_str(), key) {
        Some(record) => Some(
            TaskAttempt {
                outcome: TaskOutcome::DeployUnchanged {
                    last_deployed_at: record.deployed_at,
                    deploy_url: record.deploy_url,
                },
                attempts: 0,
                flaky: false,
                output_excerpt: None,
            },
        ),
        None => None,
    }
}

/// A deploy that is to be kept as the last that succeeded.
#[derive(Debug)]
pub struct DeployToRecord {
    pub task: String,
    pub input_hash: String,
    pub deploy_url: Option<String>,
}

#[verifier::ext_equal]
pub struct DeployToRecordModel {
    pub task: Seq<char>,
    pub input_hash: Seq<char>,
    pub deploy_url: Option<Seq<char>>,
}

impl DeepView for DeployToRecord {
    type V = DeployToRecordModel;

    open spec fn deep_view(&self) -> DeployToRecordModel {
        DeployToRecordModel {
            task: self.task@,
            input_hash: self.input_hash@,
            deploy_url: self.deploy_url.deep_view(),
        }
    }
}

/// The deploy that is to be kept once a task is done: a deploy that ran and succeeded.
pub open spec fn deploy_record(t: ResolvedTaskModel, key: Seq<char>, a: TaskAttemptModel) -> Option<
    DeployToRecordModel,
> {
    if is_recorded(t) && a.outcome is Built {
        Some(DeployToRecordModel { task: t.name, input_hash: key, deploy_url: a.output_excerpt })
    } else {
        None
    }
}

impl UnitRun {
    /// A unit before anything ran.
    pub fn start(
        name: &str,
        path: &str,
        language: Option<&str>,
        tasks: Vec<ResolvedTask>,
        opts: &CiOptions,
        default_fail_fast: bool,
    ) -> (r: UnitRun)
        ensures
            r.deep_view() == started(
                name@,
                path@,
                language.deep_view(),
                tasks.deep_view(),
                opts.deep_view(),
                default_fail_fast,
            ),
            r.deep_view().well_formed(opts.deep_view()),
    {
        let mut rows: Vec<ExecutedTask> = Vec::new();
        let mut step = UnitStep::Prepare;
        let count = tasks.len();
        if count == 0 {
            let row = marker_row(copy("<none>"), copy("no adapter detected and no tasks declared"));
            let ghost m = row.deep_view();
            rows.push(row);
            assert(deep(rows@) =~= seq![m]);
            step = UnitStep::Finished;
        } else if opts.unit_skipped_by_kind(&tasks) {
            if let Some(kind) = opts.task_kind_filter {
                let row = marker_row(
                    cat3("<no-", kind.as_str(), ">"),
                    cat3("unit has no integration task of kind '", kind.as_str(), "'"),
                );
                let ghost m = row.deep_view();
                rows.push(row);
                assert(deep(rows@) =~= seq![m]);
            }
            step = UnitStep::Finished;
        }
        UnitRun {
            name: copy(name),
            path: copy(path),
            language: match language {
                Some(l) => Some(copy(l)),
                None => None,
            },
            tasks,
            fail_fast: match opts.fail_fast {
                Some(b) => b,
                None => default_fail_fast,
            },
            install: None,
            rows,
            stats: UnitStats::default(),
            keys: StrMap::new(),
            step,
        }
    }

    /// Goes on once the dependencies were seen to. `record` is the install that was made.
    pub fn installed(&mut self, opts: &CiOptions, record: Option<InstallRecord>)
        requires
            old(self).step is Prepare,
            old(self).deep_view().well_formed(opts.deep_view()),
        ensures
            final(self).deep_view() == prepared(old(self).deep_view(), opts.deep_view(), record.deep_view()),
            final(self).deep_view().well_formed(opts.deep_view()),
    {
        let made = record.is_some();
        let failed = match &record {
            Some(r) => r.error.is_some(),
            None => false,
        };
        if made {
            self.stats.installs = 1;
        }
        if failed {
            self.stats.install_failures = 1;
        }
        self.install = record;
        self.step = if failed || opts.install_only {
            UnitStep::Finished
        } else {
            step_at(opts, &self.tasks, 0)
        };
    }

    /// The unit as it stands in the report, and its counts.
    pub fn finish(self) -> (r: (ExecutedUnit, UnitStats))
        ensures
            r.0.deep_view() == (ExecutedUnitModel {
                name: self.name@,
                path: self.path@,
                language: self.language.deep_view(),
                install: self.install.deep_view(),
                tasks: self.rows.deep_view(),
            }),
            r.1 == self.stats,
    {
        (
            ExecutedUnit {
                name: self.name,
                path: self.path,
                language: self.language,
                install: self.install,
                tasks: self.rows,
            },
            self.stats,
        )
    }

    /// The keys that the task at hand takes in from the tasks before it.
    pub fn dep_keys(&self) -> (r: Vec<(String, String)>)
        requires
            self.step is Task,
            self.step->index < self.tasks@.len(),
        ensures
            r.deep_view() == known_keys(
                self.deep_view().tasks[self.step->index as int].depends_on,
                self.keys@,
            ),
    {
        match self.step {
            UnitStep::Task { index } => task_dep_keys(&self.tasks[index], &self.keys),
            _ => Vec::new(),
        }
    }

    /// Goes on where the task at hand lacks what it needs.
    pub fn refuse(&mut self, opts: &CiOptions, message: String, duration_ms: u64)
        requires
            old(self).step is Task,
            old(self).deep_view().well_formed(opts.deep_view()),
        ensures
            final(self).deep_view() == refused(old(self).deep_view(), opts.deep_view(), message@, duration_ms),
            final(self).deep_view().well_formed(opts.deep_view()),
    {
        if let UnitStep::Task { index } = self.step {
            let ghost before = self.deep_view();
            let row = ExecutedTask {
                name: copy(self.tasks[index].name.as_str()),
                run: copy(self.tasks[index].run.as_str()),
                key: String::new(),
                duration_ms,
                outcome: TaskOutcome::Failed { exit_code: -1, stderr_excerpt: message },
                attempts: 0,
                flaky: false,
                output_excerpt: None,
                diagnostics: Vec::new(),
            };
            assert(row.deep_view() =~= refused_row(before.tasks[index as int], message@, duration_ms));
            self.rows.push(row);
            assert(self.rows.len() == before.rows.len() + 1);
            self.stats.tasks += 1;
            self.stats.failed += 1;
            self.step = if self.fail_fast {
                UnitStep::Finished
            } else {
                step_at(opts, &self.tasks, index + 1)
            };
            assert(self.deep_view() =~= refused(before, opts.deep_view(), message@, duration_ms));
        }
    }

    /// Goes on once the task at hand is done. What comes back is the deploy to keep.
    pub fn complete(
        &mut self,
        opts: &CiOptions,
        key: &str,
        attempt: TaskAttempt,
        diagnostics: Vec<Diagnostic>,
        duration_ms: u64,
    ) -> (r: Option<DeployToRecord>)
        requires
            old(self).step is Task,
            old(self).deep_view().well_formed(opts.deep_view()),
        ensures
            final(self).deep_view() == completed(
                old(self).deep_view(),
                opts.deep_view(),
                key@,
                attempt.deep_view(),
                diagnostics.deep_view(),
                duration_ms,
            ),
            final(self).deep_view().well_formed(opts.deep_view()),
            r.deep_view() == deploy_record(
                old(self).deep_view().tasks[old(self).step->index as int],
                key@,
                attempt.deep_view(),
            ),
    {
        let index = match self.step {
            UnitStep::Task { index } => index,
            _ => {
                return None;
            },
        };
        let ghost before = self.deep_view();
        let ghost t = before.tasks[index as int];
        let ghost a = attempt.deep_view();
        let ghost ds = diagnostics.deep_view();
        let deploy = is_deploy(&self.tasks[index]);
        let from_integration = self.tasks[index].integration_kind.is_some();
        let name = copy(self.tasks[index].name.as_str());
        let (failed, built) = match &attempt.outcome {
            TaskOutcome::Failed { .. } => (true, false),
            TaskOutcome::Built { .. } => (false, true),
            _ => (false, false),
        };
        let record = if deploy && built {
            Some(
                DeployToRecord {
                    task: copy(name.as_str()),
                    input_hash: copy(key),
                    deploy_url: copy_opt(&attempt.output_excerpt),
                },
            )
        } else {
            None
        };
        let mut stats = self.stats;
        let ghost counts = counted(self.stats, a);
        assert(stats.tasks <= self.rows.len());
        let flaky = attempt.flaky;
        let row = ExecutedTask {
            name: copy(name.as_str()),
            run: copy(self.tasks[index].run.as_str()),
            key: copy(key),
            duration_ms,
            outcome: attempt.outcome,
            attempts: attempt.attempts,
            flaky: attempt.flaky,
            output_excerpt: if from_integration && (built || failed) {
                attempt.output_excerpt
            } else {
                None
            },
            diagnostics: if failed {
                diagnostics
            } else {
                Vec::new()
            },
        };
        assert(row.deep_view() =~= done_row(t, key@, a, ds, duration_ms));
        self.rows.push(row);
        let count = self.rows.len();
        stats.tasks += 1;
        match &self.rows[count - 1].outcome {
            TaskOutcome::CacheHit => {
                stats.hits += 1;
            },
            TaskOutcome::Built { .. } => {
                stats.built += 1;
                if flaky {
                    stats.flaky += 1;
                }
            },
            TaskOutcome::Failed { .. } => {
                stats.failed += 1;
            },
            TaskOutcome::Skipped { .. } => {},
            TaskOutcome::DeployUnchanged { .. } => {
                stats.deploy_unchanged += 1;
            },
        }
        assert(stats == counts);
        self.stats = stats;
        self.keys.insert(name, copy(key));
        self.step = if failed && self.fail_fast {
            UnitStep::Finished
        } else {
            step_at(opts, &self.tasks, index + 1)
        };
        assert(self.deep_view() =~= completed(before, opts.deep_view(), key@, a, ds, duration_ms));
        record
    }
}

/// How many rows have an outcome of some kind.
pub open spec fn count_rows(rows: Seq<ExecutedTaskModel>, p: spec_fn(ExecutedTaskModel) -> bool) -> nat
    decreases rows.len(),
{
    if rows.len() == 0 {
        0
    } else {
        count_rows(rows.drop_last(), p) + (if p(rows.last()) {
            1nat
        } else {
            0
        })
    }
}

pub open spec fn is_hit() -> spec_fn(ExecutedTaskModel) -> bool {
    |r: ExecutedTaskModel| r.outcome is CacheHit
}

pub open spec fn is_built() -> spec_fn(ExecutedTaskModel) -> bool {
    |r: ExecutedTaskModel| r.outcome is Built
}

pub open spec fn is_failed() -> spec_fn(ExecutedTaskModel) -> bool {
    |r: ExecutedTaskModel| r.outcome is Failed
}

pub open spec fn is_flaky() -> spec_fn(ExecutedTaskModel) -> bool {
    |r: ExecutedTaskModel| r.outcome is Built && r.flaky
}

pub open spec fn is_unchanged() -> spec_fn(ExecutedTaskModel) -> bool {
    |r: ExecutedTaskModel| r.outcome is DeployUnchanged
}

/// The counts of a unit say how many of its rows there are of each kind.
pub open spec fn counts_match(u: UnitRunModel) -> bool {
    &&& u.stats.hits == count_rows(u.rows, is_hit())
    &&& u.stats.built == count_rows(u.rows, is_built())
    &&& u.stats.failed == count_rows(u.rows, is_failed())
    &&& u.stats.flaky == count_rows(u.rows, is_flaky())
    &&& u.stats.deploy_unchanged == count_rows(u.rows, is_unchanged())
}

proof fn lemma_count_push(rows: Seq<ExecutedTaskModel>, row: ExecutedTaskModel, p: spec_fn(ExecutedTaskModel) -> bool)
    ensures
        count_rows(rows.push(row), p) == count_rows(rows, p) + (if p(row) {
            1nat
        } else {
            0
        }),
{
    assert(rows.push(row).drop_last() =~= rows);
}

proof fn lemma_count_one(row: ExecutedTaskModel, p: spec_fn(ExecutedTaskModel) -> bool)
    ensures
        count_rows(seq![row], p) == (if p(row) {
            1nat
        } else {
            0
        }),
{
    assert(seq![row].drop_last() =~= Seq::<ExecutedTaskModel>::empty());
    assert(count_rows(Seq::<ExecutedTaskModel>::empty(), p) == 0);
}

/// At every moment of a unit's run its counts say how many of its rows there are of each kind.
pub proof fn law_counts_match_rows(
    u: UnitRunModel,
    o: CiOptionsModel,
    name: Seq<char>,
    path: Seq<char>,
    language: Option<Seq<char>>,
    tasks: Seq<ResolvedTaskModel>,
    default_fail_fast: bool,
    record: Option<InstallRecordModel>,
    message: Seq<char>,
    key: Seq<char>,
    a: TaskAttemptModel,
    diagnostics: Seq<DiagnosticModel>,
    duration_ms: u64,
)
    ensures
        counts_match(started(name, path, language, tasks, o, default_fail_fast)),
        counts_match(u) && u.well_formed(o) && u.step is Prepare ==> counts_match(prepared(u, o, record)),
        counts_match(u) && u.well_formed(o) && u.step is Task && u.rows.len() < usize::MAX ==> counts_match(
            refused(u, o, message, duration_ms),
        ),
        counts_match(u) && u.well_formed(o) && u.step is Task && u.rows.len() < usize::MAX ==> counts_match(
            completed(u, o, key, a, diagnostics, duration_ms),
        ),
{
    let s = started(name, path, language, tasks, o, default_fail_fast);
    if s.rows.len() > 0 {
        lemma_count_one(s.rows[0], is_hit());
        lemma_count_one(s.rows[0], is_built());
        lemma_count_one(s.rows[0], is_failed());
        lemma_count_one(s.rows[0], is_flaky());
        lemma_count_one(s.rows[0], is_unchanged());
        assert(s.rows =~= seq![s.rows[0]]);
    }
    let t = u.tasks[u.step->index as int];
    let row = refused_row(t, message, duration_ms);
    lemma_count_push(u.rows, row, is_hit());
    lemma_count_push(u.rows, row, is_built());
    lemma_count_push(u.rows, row, is_failed());
    lemma_count_push(u.rows, row, is_flaky());
    lemma_count_push(u.rows, row, is_unchanged());
    let row = done_row(t, key, a, diagnostics, duration_ms);
    lemma_count_push(u.rows, row, is_hit());
    lemma_count_push(u.rows, row, is_built());
    lemma_count_push(u.rows, row, is_failed());
    lemma_count_push(u.rows, row, is_flaky());
    lemma_count_push(u.rows, row, is_unchanged());
}

/// Whether a row is about a task whose result is what it prints.
pub open spec fn is_of_result(tasks: Seq<ResolvedTaskModel>, row: ExecutedTaskModel) -> bool {
    exists|j: int|
        0 <= j < tasks.len() && (#[trigger] tasks[j]).name == row.name && prints_result(tasks[j], row.outcome)
}

/// Only rows of tasks that come from integrations, and that ran, hold what the task printed.
pub open spec fn only_results_are_kept(u: UnitRunModel) -> bool {
    forall|i: int|
        0 <= i < u.rows.len() && (#[trigger] u.rows[i]).output_excerpt is Some ==> is_of_result(u.tasks, u.rows[i])
}

/// In every state of a unit, only rows of tasks that come from integrations, and that succeeded or
/// failed, hold what the task printed; the rows of adapters' tasks and of the unit's own never do.
pub proof fn law_only_results_are_kept(
    u: UnitRunModel,
    o: CiOptionsModel,
    name: Seq<char>,
    path: Seq<char>,
    language: Option<Seq<char>>,
    tasks: Seq<ResolvedTaskModel>,
    default_fail_fast: bool,
    record: Option<InstallRecordModel>,
    message: Seq<char>,
    key: Seq<char>,
    a: TaskAttemptModel,
    diagnostics: Seq<DiagnosticModel>,
    duration_ms: u64,
)
    ensures
        only_results_are_kept(started(name, path, language, tasks, o, default_fail_fast)),
        only_results_are_kept(u) && u.step is Prepare ==> only_results_are_kept(prepared(u, o, record)),
        only_results_are_kept(u) && u.well_formed(o) && u.step is Task ==> only_results_are_kept(
            refused(u, o, message, duration_ms),
        ),
        only_results_are_kept(u) && u.well_formed(o) && u.step is Task ==> only_results_are_kept(
            completed(u, o, key, a, diagnostics, duration_ms),
        ),
{
    if only_results_are_kept(u) && u.well_formed(o) && u.step is Task {
        let t = u.tasks[u.step->index as int];
        let v = refused(u, o, message, duration_ms);
        assert forall|i: int| 0 <= i < v.rows.len() && (#[trigger] v.rows[i]).output_excerpt is Some implies is_of_result(
            v.tasks,
            v.rows[i],
        ) by {
            assert(u.rows[i] == v.rows[i]);
        }
        let v = completed(u, o, key, a, diagnostics, duration_ms);
        assert forall|i: int| 0 <= i < v.rows.len() && (#[trigger] v.rows[i]).output_excerpt is Some implies is_of_result(
            v.tasks,
            v.rows[i],
        ) by {
            if i < u.rows.len() {
                assert(u.rows[i] == v.rows[i]);
            } else {
                assert(v.tasks[u.step->index as int] == t);
            }
        }
    }
}

/// Where a unit is to stop at a failure, only its last row can be one of a task that failed, and
/// then it is done.
pub open spec fn stops_at_failure(u: UnitRunModel) -> bool {
    u.fail_fast ==> (forall|i: int|
        0 <= i < u.rows.len() && (#[trigger] u.rows[i]).outcome is Failed ==> i == u.rows.len() - 1
            && u.step is Finished)
}

/// A unit that is to stop at a failure does.
pub proof fn law_fail_fast_stops(
    u: UnitRunModel,
    o: CiOptionsModel,
    name: Seq<char>,
    path: Seq<char>,
    language: Option<Seq<char>>,
    tasks: Seq<ResolvedTaskModel>,
    default_fail_fast: bool,
    record: Option<InstallRecordModel>,
    message: Seq<char>,
    key: Seq<char>,
    a: TaskAttemptModel,
    diagnostics: Seq<DiagnosticModel>,
    duration_ms: u64,
)
    ensures
        stops_at_failure(started(name, path, language, tasks, o, default_fail_fast)),
        u.well_formed(o) && u.step is Prepare ==> stops_at_failure(prepared(u, o, record)),
        stops_at_failure(u) && u.step is Task ==> stops_at_failure(refused(u, o, message, duration_ms)),
        stops_at_failure(u) && u.step is Task ==> stops_at_failure(
            completed(u, o, key, a, diagnostics, duration_ms),
        ),
{
    if stops_at_failure(u) && u.step is Task {
        let v = refused(u, o, message, duration_ms);
        assert forall|i: int| v.fail_fast && 0 <= i < v.rows.len() && (#[trigger] v.rows[i]).outcome is Failed implies i
            == v.rows.len() - 1 && v.step is Finished by {
            if i < u.rows.len() {
                assert(u.rows[i] == v.rows[i]);
            }
        }
        let v = completed(u, o, key, a, diagnostics, duration_ms);
        assert forall|i: int| v.fail_fast && 0 <= i < v.rows.len() && (#[trigger] v.rows[i]).outcome is Failed implies i
            == v.rows.len() - 1 && v.step is Finished by {
            if i < u.rows.len() {
                assert(u.rows[i] == v.rows[i]);
            }
        }
    }
}

/// A notification never runs in the main sequence; and where no kind is asked for, nothing runs that
/// acts on the outside world.
pub proof fn law_main_sequence_is_safe(o: CiOptionsModel, t: ResolvedTaskModel)
    requires
        allowed(o, t),
    ensures
        t.integration_kind != Some(IntegrationTaskKind::Notify),
        o.task_kind_filter is None && t.integration_kind is Some ==> !t.integration_kind->0.side_effectful(),
{
}

/// The names of the tasks that are allowed.
pub open spec fn allowed_names(o: CiOptionsModel, tasks: Seq<ResolvedTaskModel>) -> Seq<Seq<char>>
    decreases tasks.len(),
{
    if tasks.len() == 0 {
        Seq::empty()
    } else if allowed(o, tasks.last()) {
        allowed_names(o, tasks.drop_last()).push(tasks.last().name)
    } else {
        allowed_names(o, tasks.drop_last())
    }
}

/// The names of some rows.
pub open spec fn row_names(rows: Seq<ExecutedTaskModel>) -> Seq<Seq<char>> {
    rows.map_values(|r: ExecutedTaskModel| r.name)
}

/// Up to the task at hand, the rows are those of the allowed tasks, in order and each once.
pub open spec fn rows_so_far(u: UnitRunModel, o: CiOptionsModel) -> bool {
    u.step matches UnitStep::Task { index } ==> row_names(u.rows) == allowed_names(o, u.tasks.take(index as int))
}

proof fn lemma_next_allowed(o: CiOptionsModel, tasks: Seq<ResolvedTaskModel>, from: int)
    requires
        0 <= from <= tasks.len(),
    ensures
        from <= next_allowed(o, tasks, from) <= tasks.len(),
        allowed_names(o, tasks.take(next_allowed(o, tasks, from))) == allowed_names(o, tasks.take(from)),
    decreases tasks.len() - from,
{
    if from < tasks.len() && !allowed(o, tasks[from]) {
        lemma_next_allowed(o, tasks, from + 1);
        assert(tasks.take(from + 1).drop_last() =~= tasks.take(from));
    }
}

/// The tasks of a unit run in order, each allowed one once: when the last is done, unless the unit
/// stopped at a failure, the rows are those of all allowed tasks.
pub proof fn law_allowed_tasks_run_in_order(
    u: UnitRunModel,
    o: CiOptionsModel,
    record: Option<InstallRecordModel>,
    message: Seq<char>,
    key: Seq<char>,
    a: TaskAttemptModel,
    diagnostics: Seq<DiagnosticModel>,
    duration_ms: u64,
)
    ensures
        u.well_formed(o) && u.step is Prepare ==> rows_so_far(prepared(u, o, record), o),
        u.well_formed(o) && u.step is Task && rows_so_far(u, o) ==> ({
            let v = refused(u, o, message, duration_ms);
            &&& rows_so_far(v, o)
            &&& v.step is Finished && !u.fail_fast ==> row_names(v.rows) == allowed_names(o, u.tasks)
        }),
        u.well_formed(o) && u.step is Task && rows_so_far(u, o) ==> ({
            let v = completed(u, o, key, a, diagnostics, duration_ms);
            &&& rows_so_far(v, o)
            &&& v.step is Finished && !(u.fail_fast && a.outcome is Failed) ==> row_names(v.rows)
                == allowed_names(o, u.tasks)
        }),
{
    if u.well_formed(o) && u.step is Prepare {
        lemma_next_allowed(o, u.tasks, 0);
        assert(u.tasks.take(0) =~= Seq::<ResolvedTaskModel>::empty());
        assert(row_names(u.rows) =~= Seq::<Seq<char>>::empty());
    }
    if u.well_formed(o) && u.step is Task && rows_so_far(u, o) {
        let i = u.step->index as int;
        let t = u.tasks[i];
        lemma_next_allowed(o, u.tasks, i + 1);
        assert(u.tasks.take(i + 1).drop_last() =~= u.tasks.take(i));
        assert(u.tasks.take(u.tasks.len() as int) =~= u.tasks);
        let v = refused(u, o, message, duration_ms);
        assert(row_names(v.rows) =~= row_names(u.rows).push(t.name));
        let w = completed(u, o, key, a, diagnostics, duration_ms);
        assert(row_names(w.rows) =~= row_names(u.rows).push(t.name));
    }
}

/// A deploy is skipped only where a record of the same environment, unit and task holds the present
/// key, and never where it is forced; a rollback is never skipped.
pub proof fn law_deploy_skip_needs_same_key(
    t: ResolvedTaskModel,
    o: CiOptionsModel,
    s: DeployStateModel,
    unit: Seq<char>,
    key: Seq<char>,
)
    requires
        deploy_skip(t, o, s, unit, key) is Some,
    ensures
        !o.force_deploy,
        t.integration_kind != Some(IntegrationTaskKind::Rollback),
        crate::deploy_state::record_of(s, o.environment, unit, t.name) matches Some(r) && r.input_hash == key,
{
}

/// A deploy that ran and succeeded, forced or not, is recorded; runs in the same environment that do
/// not force it then skip it while its key stays the same.
pub proof fn law_recorded_deploy_is_skipped(
    t: ResolvedTaskModel,
    o: CiOptionsModel,
    s: DeployStateModel,
    unit: Seq<char>,
    key: Seq<char>,
    a: TaskAttemptModel,
    deployed_at: Seq<char>,
)
    requires
        is_recorded(t),
        a.outcome is Built,
        !o.force_deploy,
    ensures
        ({
            let d = deploy_record(t, key, a)->0;
            let after = crate::deploy_state::with_record(
                s,
                o.environment,
                unit,
                d.task,
                DeployRecordModel { input_hash: d.input_hash, deployed_at, deploy_url: d.deploy_url },
            );
            &&& deploy_record(t, key, a) is Some
            &&& deploy_skip(t, o, after, unit, key) matches Some(r)
            &&& r.outcome == (TaskOutcomeModel::DeployUnchanged {
                last_deployed_at: deployed_at,
                deploy_url: a.output_excerpt,
            })
        }),
{
}

/// A unit begins without rows; but where it has no tasks, or none of the kind that is asked for, it is done
/// at once, with one row that says so and counts for nothing.
pub proof fn law_how_a_unit_begins(
    name: Seq<char>,
    path: Seq<char>,
    language: Option<Seq<char>>,
    tasks: Seq<ResolvedTaskModel>,
    o: CiOptionsModel,
    default_fail_fast: bool,
)
    ensures
        ({
            let u = started(name, path, language, tasks, o, default_fail_fast);
            let idle = tasks.len() == 0 || (o.task_kind_filter matches Some(k) && forall|i: int|
                0 <= i < tasks.len() ==> (#[trigger] tasks[i]).integration_kind != Some(k));
            &&& u.step is Finished <==> idle
            &&& u.step is Prepare <==> !idle
            &&& !idle ==> u.rows.len() == 0
            &&& idle ==> u.rows.len() == 1 && u.rows[0].outcome is Skipped
            &&& u.stats.tasks == 0 && u.stats.failed == 0 && u.stats.hits == 0 && u.stats.built == 0
            &&& u.tasks == tasks && u.name == name && u.path == path && u.language == language
            &&& o.fail_fast matches Some(b) ==> u.fail_fast == b
            &&& o.fail_fast is None ==> u.fail_fast == default_fail_fast
            &&& u.install is None
        }),
{
}

/// A failed install ends a unit before any task, and so does a run that only installs; otherwise the first
/// task that is allowed comes next. The install is kept, and counted where there was one.
pub proof fn law_installs_come_first(u: UnitRunModel, o: CiOptionsModel, record: Option<InstallRecordModel>)
    requires
        u.tasks.len() <= usize::MAX,
    ensures
        ({
            let v = prepared(u, o, record);
            let failed = record matches Some(r) && r.error is Some;
            &&& v.install == record
            &&& v.rows == u.rows
            &&& v.stats.installs == (if record is Some { 1int } else { 0 })
            &&& v.stats.install_failures == (if failed { 1int } else { 0 })
            &&& failed || o.install_only ==> v.step is Finished
            &&& !failed && !o.install_only ==> match v.step {
                UnitStep::Task { index } => index < u.tasks.len() && allowed(o, u.tasks[index as int]) && forall|
                    j: int,
                | 0 <= j < index ==> !allowed(o, #[trigger] u.tasks[j]),
                UnitStep::Finished => forall|j: int| 0 <= j < u.tasks.len() ==> !allowed(o, #[trigger] u.tasks[j]),
                _ => false,
            }
        }),
{
    lemma_next_allowed_first(o, u.tasks, 0);
}

proof fn lemma_next_allowed_first(o: CiOptionsModel, tasks: Seq<ResolvedTaskModel>, from: int)
    requires
        0 <= from <= tasks.len(),
    ensures
        from <= next_allowed(o, tasks, from) <= tasks.len(),
        next_allowed(o, tasks, from) < tasks.len() ==> allowed(o, tasks[next_allowed(o, tasks, from)]),
        forall|j: int| from <= j < next_allowed(o, tasks, from) ==> !allowed(o, #[trigger] tasks[j]),
    decreases tasks.len() - from,
{
    if from < tasks.len() && !allowed(o, tasks[from]) {
        lemma_next_allowed_first(o, tasks, from + 1);
    }
}

/// A task that is done adds one row, with its name, its command, its key and what came of it, and its key
/// is known to those behind it; a task that was refused adds a row that failed and was not started.
pub proof fn law_each_task_adds_a_row(
    u: UnitRunModel,
    o: CiOptionsModel,
    key: Seq<char>,
    a: TaskAttemptModel,
    diagnostics: Seq<DiagnosticModel>,
    message: Seq<char>,
    duration_ms: u64,
)
    requires
        u.step is Task,
        u.step->index < u.tasks.len(),
    ensures
        ({
            let t = u.tasks[u.step->index as int];
            let v = completed(u, o, key, a, diagnostics, duration_ms);
            let w = refused(u, o, message, duration_ms);
            &&& v.rows.len() == u.rows.len() + 1
            &&& v.rows.drop_last() == u.rows
            &&& v.rows.last().name == t.name
            &&& v.rows.last().run == t.run
            &&& v.rows.last().key == key
            &&& v.rows.last().outcome == a.outcome
            &&& v.rows.last().attempts == a.attempts
            &&& v.rows.last().flaky == a.flaky
            &&& v.rows.last().duration_ms == duration_ms
            &&& a.outcome is Failed ==> v.rows.last().diagnostics == diagnostics
            &&& v.keys.contains_key(t.name) && v.keys[t.name] == key
            &&& forall|n: Seq<char>|
                n != t.name ==> v.keys.contains_key(n) == #[trigger] u.keys.contains_key(n) && (u.keys.contains_key(n)
                    ==> v.keys[n] == u.keys[n])
            &&& w.rows.len() == u.rows.len() + 1
            &&& w.rows.drop_last() == u.rows
            &&& w.rows.last().name == t.name
            &&& w.rows.last().attempts == 0
            &&& w.rows.last().outcome matches TaskOutcomeModel::Failed { stderr_excerpt, .. } && stderr_excerpt
                == message
            &&& w.keys == u.keys
        }),
{
    let v = completed(u, o, key, a, diagnostics, duration_ms);
    let w = refused(u, o, message, duration_ms);
    assert(v.rows.drop_last() =~= u.rows);
    assert(w.rows.drop_last() =~= u.rows);
}

/// Only a deploy that ran and succeeded is kept, under its task and with the key that it ran with; a deploy
/// is skipped only where one was kept with the same key, and then never where it is forced.
pub proof fn law_which_deploys_are_kept(t: ResolvedTaskModel, key: Seq<char>, a: TaskAttemptModel)
    ensures
        deploy_record(t, key, a) is Some <==> a.outcome is Built && (t.integration_kind == Some(
            IntegrationTaskKind::Deploy,
        ) || t.integration_kind == Some(IntegrationTaskKind::DeployPreview)),
        deploy_record(t, key, a) matches Some(d) ==> d.task == t.name && d.input_hash == key && d.deploy_url
            == a.output_excerpt,
{
}

/// A deploy is skipped if and only if it is not forced and the last deploy of its task that succeeded in
/// the environment had the same key; a task of another kind never is.
pub proof fn law_when_deploys_are_skipped(
    t: ResolvedTaskModel,
    o: CiOptionsModel,
    s: DeployStateModel,
    unit: Seq<char>,
    key: Seq<char>,
)
    ensures
        deploy_skip(t, o, s, unit, key) is Some <==> {
            &&& t.integration_kind == Some(IntegrationTaskKind::Deploy) || t.integration_kind == Some(
                IntegrationTaskKind::DeployPreview,
            )
            &&& !o.force_deploy
            &&& crate::deploy_state::record_of(s, o.environment, unit, t.name) matches Some(r) && r.input_hash == key
        },
        deploy_skip(t, o, s, unit, key) matches Some(a) ==> {
            &&& a.attempts == 0
            &&& a.outcome matches TaskOutcomeModel::DeployUnchanged { last_deployed_at, deploy_url }
                && crate::deploy_state::record_of(s, o.environment, unit, t.name) matches Some(r) && last_deployed_at
                == r.deployed_at && deploy_url == r.deploy_url
        },
{
}

/// The row of a task tells the outcome of its last attempt, and diagnostics if and only if it failed.
pub proof fn law_diagnostics_tell_failures(
    t: ResolvedTaskModel,
    key: Seq<char>,
    a: TaskAttemptModel,
    found: Seq<DiagnosticModel>,
    duration_ms: u64,
)
    ensures
        ({
            let row = done_row(t, key, a, found, duration_ms);
            &&& row.name == t.name && row.key == key && row.outcome == a.outcome
            &&& row.attempts == a.attempts && row.flaky == a.flaky && row.duration_ms == duration_ms
            &&& row.diagnostics.len() > 0 <==> a.outcome is Failed && found.len() > 0
            &&& a.outcome is Failed ==> row.diagnostics == found
        }),
{
}

/// Each task counts once among the tasks and once under its outcome: a hit, a build, a failure or an unchanged
/// deploy; one that was skipped counts among the tasks alone, and only a build counts as flaky. A task that
/// lacks what it needs counts as a failure.
pub proof fn law_each_outcome_counts_once(
    u: UnitRunModel,
    o: CiOptionsModel,
    a: TaskAttemptModel,
    message: Seq<char>,
    duration_ms: u64,
)
    requires
        u.stats.tasks < usize::MAX,
        u.stats.hits < usize::MAX,
        u.stats.built < usize::MAX,
        u.stats.failed < usize::MAX,
        u.stats.flaky < usize::MAX,
        u.stats.deploy_unchanged < usize::MAX,
    ensures
        ({
            let s = u.stats;
            let one = |b: bool| if b { 1int } else { 0int };
            let c = counted(s, a);
            let f = refused(u, o, message, duration_ms).stats;
            &&& c.tasks == s.tasks + 1
            &&& c.hits == s.hits + one(a.outcome is CacheHit)
            &&& c.built == s.built + one(a.outcome is Built)
            &&& c.failed == s.failed + one(a.outcome is Failed)
            &&& c.flaky == s.flaky + one(a.outcome is Built && a.flaky)
            &&& c.deploy_unchanged == s.deploy_unchanged + one(a.outcome is DeployUnchanged)
            &&& c.installs == s.installs && c.install_failures == s.install_failures && c.notify_failures
                == s.notify_failures
            &&& f.tasks == s.tasks + 1 && f.failed == s.failed + 1
            &&& f.hits == s.hits && f.built == s.built && f.flaky == s.flaky && f.deploy_unchanged == s.deploy_unchanged
            &&& f.installs == s.installs && f.install_failures == s.install_failures && f.notify_failures
                == s.notify_failures
        }),
{
}

} // verus!
