//! Running the tasks of a workspace: what to do next, and what to report.
//!
//! Nothing here runs anything. [`UnitRun`] and [`next_step`] say which step comes next; whoever
//! performs the step hands back what came of it.
use vstd::prelude::*;

use crate::command::{source_name, source_of};
use crate::config::IntegrationTaskKind;
use crate::deep::deep;

use crate::diagnostic_parsers::{Diagnostic, DiagnosticModel};
use crate::excerpt::{build_output_excerpt, excerpt_of, head_truncated, shown_as_is, truncated_stderr, utf8_lossy};

use crate::strmap::StrMap;
use crate::tasks::{ResolvedTask, ResolvedTaskModel};
use crate::text::{cat, contains};

verus! {

broadcast use {crate::deep::group_deep, crate::deep::lemma_take_next, crate::deep::lemma_take_all};

/// What came of a task.
#[derive(Debug, PartialEq, Eq)]
pub enum TaskOutcome {
    /// Its outputs were restored from a cache.
    CacheHit,
    /// It ran and succeeded.
    Built { exit_code: i32 },
    /// It ran and failed, or could not run.
    Failed { exit_code: i32, stderr_excerpt: String },
    /// There was nothing to run.
    Skipped { reason: String },
    /// A deploy whose inputs are those of the last deploy that succeeded.
    DeployUnchanged { last_deployed_at: String, deploy_url: Option<String> },
}

#[verifier::ext_equal]
pub enum TaskOutcomeModel {
    CacheHit,
    Built { exit_code: i32 },
    Failed { exit_code: i32, stderr_excerpt: Seq<char> },
    Skipped { reason: Seq<char> },
    DeployUnchanged { last_deployed_at: Seq<char>, deploy_url: Option<Seq<char>> },
}

impl DeepView for TaskOutcome {
    type V = TaskOutcomeModel;

    open spec fn deep_view(&self) -> TaskOutcomeModel {
        match self {
            TaskOutcome::CacheHit => TaskOutcomeModel::CacheHit,
            TaskOutcome::Built { exit_code } => TaskOutcomeModel::Built { exit_code: *exit_code },
            TaskOutcome::Failed { exit_code, stderr_excerpt } => TaskOutcomeModel::Failed {
                exit_code: *exit_code,
                stderr_excerpt: stderr_excerpt@,
            },
            TaskOutcome::Skipped { reason } => TaskOutcomeModel::Skipped { reason: reason@ },
            TaskOutcome::DeployUnchanged { last_deployed_at, deploy_url } =>
                TaskOutcomeModel::DeployUnchanged {
                last_deployed_at: last_deployed_at@,
                deploy_url: deploy_url.deep_view(),
            },
        }
    }
}

/// A row of a report: a task and what came of it.
#[derive(Debug)]
pub struct ExecutedTask {
    pub name: String,
    pub run: String,
    pub key: String,
    pub duration_ms: u64,
    pub outcome: TaskOutcome,
    /// How often the task was started.
    pub attempts: u32,
    /// It succeeded, but not at the first attempt.
    pub flaky: bool,
    /// The end of what it printed: of a task that comes from an integration, where it ran, to success or
    /// to failure, and printed something. Of any other task what it printed is not its result.
    pub output_excerpt: Option<String>,
    pub diagnostics: Vec<Diagnostic>,
}

#[verifier::ext_equal]
pub struct ExecutedTaskModel {
    pub name: Seq<char>,
    pub run: Seq<char>,
    pub key: Seq<char>,
    pub duration_ms: u64,
    pub outcome: TaskOutcomeModel,
    pub attempts: u32,
    pub flaky: bool,
    pub output_excerpt: Option<Seq<char>>,
    pub diagnostics: Seq<DiagnosticModel>,
}

impl DeepView for ExecutedTask {
    type V = ExecutedTaskModel;

    open spec fn deep_view(&self) -> ExecutedTaskModel {
        ExecutedTaskModel {
            name: self.name@,
            run: self.run@,
            key: self.key@,
            duration_ms: self.duration_ms,
            outcome: self.outcome.deep_view(),
            attempts: self.attempts,
            flaky: self.flaky,
            output_excerpt: self.output_excerpt.deep_view(),
            diagnostics: self.diagnostics.deep_view(),
        }
    }
}

/// An install of a unit's dependencies.
#[derive(Debug)]
pub struct InstallRecord {
    /// Why it was made.
    pub reason: String,
    pub duration_ms: u64,
    /// Why it failed.
    pub error: Option<String>,
}

#[verifier::ext_equal]
pub struct InstallRecordModel {
    pub reason: Seq<char>,
    pub duration_ms: u64,
    pub error: Option<Seq<char>>,
}

impl DeepView for InstallRecord {
    type V = InstallRecordModel;

    open spec fn deep_view(&self) -> InstallRecordModel {
        InstallRecordModel {
            reason: self.reason@,
            duration_ms: self.duration_ms,
            error: self.error.deep_view(),
        }
    }
}

/// A unit and what came of its tasks.
#[derive(Debug)]
pub struct ExecutedUnit {
    pub name: String,
    pub path: String,
    pub language: Option<String>,
    pub install: Option<InstallRecord>,
    pub tasks: Vec<ExecutedTask>,
}

#[verifier::ext_equal]
pub struct ExecutedUnitModel {
    pub name: Seq<char>,
    pub path: Seq<char>,
    pub language: Option<Seq<char>>,
    pub install: Option<InstallRecordModel>,
    pub tasks: Seq<ExecutedTaskModel>,
}

impl DeepView for ExecutedUnit {
    type V = ExecutedUnitModel;

    open spec fn deep_view(&self) -> ExecutedUnitModel {
        ExecutedUnitModel {
            name: self.name@,
            path: self.path@,
            language: self.language.deep_view(),
            install: self.install.deep_view(),
            tasks: self.tasks.deep_view(),
        }
    }
}

/// A profile and what came of its units.
#[derive(Debug)]
pub struct ExecutedProfile {
    pub name: String,
    pub units: Vec<ExecutedUnit>,
}

#[verifier::ext_equal]
pub struct ExecutedProfileModel {
    pub name: Seq<char>,
    pub units: Seq<ExecutedUnitModel>,
}

impl DeepView for ExecutedProfile {
    type V = ExecutedProfileModel;

    open spec fn deep_view(&self) -> ExecutedProfileModel {
        ExecutedProfileModel { name: self.name@, units: self.units.deep_view() }
    }
}

/// The counts of a report.
#[derive(Debug, Clone, Copy, PartialEq, Eq, Structural)]
pub struct ExecutionSummary {
    pub units: usize,
    pub tasks: usize,
    pub hits: usize,
    pub built: usize,
    pub failed: usize,
    /// Tasks that succeeded, but not at the first attempt.
    pub flaky: usize,
    /// Units whose dependencies were installed.
    pub installs: usize,
    /// Units whose install failed.
    pub install_failures: usize,
    /// Notifications that failed; they do not count as failed tasks.
    pub notify_failures: usize,
    /// Deploys that had nothing to do.
    pub deploy_unchanged: usize,
    pub duration_ms: u64,
}

impl Default for ExecutionSummary {
    fn default() -> (r: Self)
        ensures
            r == zero_summary(),
    {
        ExecutionSummary {
            units: 0,
            tasks: 0,
            hits: 0,
            built: 0,
            failed: 0,
            flaky: 0,
            installs: 0,
            install_failures: 0,
            notify_failures: 0,
            deploy_unchanged: 0,
            duration_ms: 0,
        }
    }
}

/// No counts.
pub open spec fn zero_summary() -> ExecutionSummary {
    ExecutionSummary {
        units: 0,
        tasks: 0,
        hits: 0,
        built: 0,
        failed: 0,
        flaky: 0,
        installs: 0,
        install_failures: 0,
        notify_failures: 0,
        deploy_unchanged: 0,
        duration_ms: 0,
    }
}

/// What came of a run.
#[derive(Debug)]
pub struct ExecutionReport {
    pub profiles: Vec<ExecutedProfile>,
    pub summary: ExecutionSummary,
}

/// The counts of a unit.
#[derive(Debug, Clone, Copy, PartialEq, Eq, Structural)]
pub struct UnitStats {
    pub tasks: usize,
    pub hits: usize,
    pub built: usize,
    pub failed: usize,
    pub flaky: usize,
    pub installs: usize,
    pub install_failures: usize,
    pub notify_failures: usize,
    pub deploy_unchanged: usize,
}

/// No counts.
pub open spec fn zero_stats() -> UnitStats {
    UnitStats {
        tasks: 0,
        hits: 0,
        built: 0,
        failed: 0,
        flaky: 0,
        installs: 0,
        install_failures: 0,
        notify_failures: 0,
        deploy_unchanged: 0,
    }
}

impl Default for UnitStats {
    fn default() -> (r: Self)
        ensures
            r == zero_stats(),
    {
        UnitStats {
            tasks: 0,
            hits: 0,
            built: 0,
            failed: 0,
            flaky: 0,
            installs: 0,
            install_failures: 0,
            notify_failures: 0,
            deploy_unchanged: 0,
        }
    }
}

/// What to run, and how.
pub struct CiOptions {
    /// This profile alone.
    pub monad_filter: Option<String>,
    /// This unit alone.
    pub unit_filter: Option<String>,
    /// Of the tasks that come from no integration, these alone; an empty list is no restriction.
    pub task_filter: Option<Vec<String>>,
    /// Look nothing up in a cache.
    pub no_cache: bool,
    /// Stop at the first failure; where it is not said, the workspace says.
    pub fail_fast: Option<bool>,
    /// Install no dependencies.
    pub skip_install: bool,
    /// Install dependencies even where they seem to be there.
    pub force_install: bool,
    /// Of the tasks that come from an integration, this kind alone.
    pub task_kind_filter: Option<IntegrationTaskKind>,
    /// Install dependencies and run nothing.
    pub install_only: bool,
    /// Declared variable to source variable.
    pub secret_aliases: StrMap<String>,
    /// Send notifications about deploys.
    pub run_notify_kinds: bool,
    /// The environment to deploy to.
    pub environment: Option<String>,
    /// Deploy even what has not changed.
    pub force_deploy: bool,
}

#[verifier::ext_equal]
pub struct CiOptionsModel {
    pub monad_filter: Option<Seq<char>>,
    pub unit_filter: Option<Seq<char>>,
    pub task_filter: Option<Seq<Seq<char>>>,
    pub no_cache: bool,
    pub fail_fast: Option<bool>,
    pub skip_install: bool,
    pub force_install: bool,
    pub task_kind_filter: Option<IntegrationTaskKind>,
    pub install_only: bool,
    pub secret_aliases: Map<Seq<char>, Seq<char>>,
    pub run_notify_kinds: bool,
    pub environment: Option<Seq<char>>,
    pub force_deploy: bool,
}

impl DeepView for CiOptions {
    type V = CiOptionsModel;

    open spec fn deep_view(&self) -> CiOptionsModel {
        CiOptionsModel {
            monad_filter: self.monad_filter.deep_view(),
            unit_filter: self.unit_filter.deep_view(),
            task_filter: self.task_filter.deep_view(),
            no_cache: self.no_cache,
            fail_fast: self.fail_fast,
            skip_install: self.skip_install,
            force_install: self.force_install,
            task_kind_filter: self.task_kind_filter,
            install_only: self.install_only,
            secret_aliases: self.secret_aliases@,
            run_notify_kinds: self.run_notify_kinds,
            environment: self.environment.deep_view(),
            force_deploy: self.force_deploy,
        }
    }
}

/// Nothing restricted, nothing forced.
pub open spec fn default_options() -> CiOptionsModel {
    CiOptionsModel {
        monad_filter: None,
        unit_filter: None,
        task_filter: None,
        no_cache: false,
        fail_fast: None,
        skip_install: false,
        force_install: false,
        task_kind_filter: None,
        install_only: false,
        secret_aliases: Map::empty(),
        run_notify_kinds: false,
        environment: None,
        force_deploy: false,
    }
}

impl Default for CiOptions {
    fn default() -> (r: Self)
        ensures
            r.deep_view() == default_options(),
    {
        CiOptions {
            monad_filter: None,
            unit_filter: None,
            task_filter: None,
            no_cache: false,
            fail_fast: None,
            skip_install: false,
            force_install: false,
            task_kind_filter: None,
            install_only: false,
            secret_aliases: StrMap::new(),
            run_notify_kinds: false,
            environment: None,
            force_deploy: false,
        }
    }
}

/// Whether a task runs in the main sequence. A notification never does. Of the integrations' tasks
/// the kind filter selects; where there is none, those that act on the outside world are left out.
/// Of the others the name filter selects.
pub open spec fn allowed(o: CiOptionsModel, t: ResolvedTaskModel) -> bool {
    match t.integration_kind {
        Some(kind) => kind != IntegrationTaskKind::Notify && (match o.task_kind_filter {
            Some(wanted) => kind == wanted,
            None => !kind.side_effectful(),
        }),
        None => match o.task_filter {
            Some(list) => list.len() == 0 || list.contains(t.name),
            None => true,
        },
    }
}

/// Whether a unit has no task of the kind that is asked for.
pub open spec fn out_of_scope(o: CiOptionsModel, tasks: Seq<ResolvedTaskModel>) -> bool {
    match o.task_kind_filter {
        Some(wanted) => forall|i: int|
            0 <= i < tasks.len() ==> (#[trigger] tasks[i]).integration_kind != Some(wanted),
        None => false,
    }
}

impl CiOptions {
    /// The variable that a declared variable is read from.
    pub fn source_env_name<'a>(&'a self, declared: &'a str) -> (r: &'a str)
        ensures
            r@ == source_of(self.secret_aliases@, declared@),
    {
        source_name(&self.secret_aliases, declared)
    }

    /// Whether a task runs in the main sequence.
    pub fn task_allowed(&self, task: &ResolvedTask) -> (r: bool)
        ensures
            r == allowed(self.deep_view(), task.deep_view()),
    {
        match task.integration_kind {
            Some(kind) => {
                if kind == IntegrationTaskKind::Notify {
                    return false;
                }
                match self.task_kind_filter {
                    Some(wanted) => kind == wanted,
                    None => !kind.defaults_no_cache(),
                }
            },
            None => match &self.task_filter {
                Some(list) => list.len() == 0 || contains(list, task.name.as_str()),
                None => true,
            },
        }
    }

    /// Whether a unit has no task of the kind that is asked for.
    pub fn unit_skipped_by_kind(&self, resolved: &Vec<ResolvedTask>) -> (r: bool)
        ensures
            r == out_of_scope(self.deep_view(), resolved.deep_view()),
    {
        let wanted = match self.task_kind_filter {
            Some(k) => k,
            None => {
                return false;
            },
        };
        let mut i: usize = 0;
        while i < resolved.len()
            invariant
                i <= resolved@.len(),
                self.task_kind_filter == Some(wanted),
                forall|j: int|
                    0 <= j < i ==> (#[trigger] deep(resolved@)[j]).integration_kind != Some(wanted),
            decreases resolved.len() - i,
        {
            if let Some(k) = resolved[i].integration_kind {
                if k == wanted {
                    assert(deep(resolved@)[i as int].integration_kind == Some(wanted));
                    return false;
                }
            }
            i += 1;
        }
        true
    }
}

/// What came of running a task, or of restoring it.
#[derive(Debug)]
pub struct TaskAttempt {
    pub outcome: TaskOutcome,
    pub attempts: u32,
    pub flaky: bool,
    pub output_excerpt: Option<String>,
}

#[verifier::ext_equal]
pub struct TaskAttemptModel {
    pub outcome: TaskOutcomeModel,
    pub attempts: u32,
    pub flaky: bool,
    pub output_excerpt: Option<Seq<char>>,
}

impl DeepView for TaskAttempt {
    type V = TaskAttemptModel;

    open spec fn deep_view(&self) -> TaskAttemptModel {
        TaskAttemptModel {
            outcome: self.outcome.deep_view(),
            attempts: self.attempts,
            flaky: self.flaky,
            output_excerpt: self.output_excerpt.deep_view(),
        }
    }
}

/// A task whose outputs were restored.
pub open spec fn restored() -> TaskAttemptModel {
    TaskAttemptModel {
        outcome: TaskOutcomeModel::CacheHit,
        attempts: 0,
        flaky: false,
        output_excerpt: None,
    }
}

/// The next step of running a task, or of restoring it.
#[derive(Debug)]
pub enum RunStep {
    /// Restore the outputs from the local cache, where it has them.
    CheckLocal,
    /// Restore the outputs from the remote cache, where there is one and it has them.
    CheckRemote,
    /// Start the task; how many starts that makes.
    Run { attempt: u32 },
    /// It is done. Where `store` says so, the outputs go to the caches; where `write_through` says
    /// so, the remote cache is told of what the local cache has.
    Done { result: TaskAttempt, store: bool, write_through: bool },
}

#[verifier::ext_equal]
pub enum RunStepModel {
    CheckLocal,
    CheckRemote,
    Run { attempt: u32 },
    Done { result: TaskAttemptModel, store: bool, write_through: bool },
}

impl DeepView for RunStep {
    type V = RunStepModel;

    open spec fn deep_view(&self) -> RunStepModel {
        match self {
            RunStep::CheckLocal => RunStepModel::CheckLocal,
            RunStep::CheckRemote => RunStepModel::CheckRemote,
            RunStep::Run { attempt } => RunStepModel::Run { attempt: *attempt },
            RunStep::Done { result, store, write_through } => RunStepModel::Done {
                result: result.deep_view(),
                store: *store,
                write_through: *write_through,
            },
        }
    }
}

/// What came of a step.
#[derive(Debug)]
pub enum RunEvent {
    /// The outputs were restored.
    Restored,
    /// The cache does not have them, or they are of no use.
    Absent,
    /// The local cache failed.
    RestoreFailed { message: String },
    /// The task ran.
    Exited { exit_code: i32, stdout: Vec<u8>, stderr: Vec<u8> },
    /// The task could not be started.
    ExecFailed { message: String },
}

#[verifier::ext_equal]
pub enum RunEventModel {
    Restored,
    Absent,
    RestoreFailed { message: Seq<char> },
    Exited { exit_code: i32, stdout: Seq<u8>, stderr: Seq<u8> },
    ExecFailed { message: Seq<char> },
}

impl DeepView for RunEvent {
    type V = RunEventModel;

    open spec fn deep_view(&self) -> RunEventModel {
        match self {
            RunEvent::Restored => RunEventModel::Restored,
            RunEvent::Absent => RunEventModel::Absent,
            RunEvent::RestoreFailed { message } => RunEventModel::RestoreFailed { message: message@ },
            RunEvent::Exited { exit_code, stdout, stderr } => RunEventModel::Exited {
                exit_code: *exit_code,
                stdout: stdout@,
                stderr: stderr@,
            },
            RunEvent::ExecFailed { message } => RunEventModel::ExecFailed { message: message@ },
        }
    }
}

/// How often a task is started at most.
pub open spec fn max_attempts(t: ResolvedTaskModel) -> u32 {
    if t.retry == u32::MAX {
        u32::MAX
    } else {
        (t.retry + 1) as u32
    }
}

/// The first step of a task: a task that is not looked up in a cache runs at once.
pub open spec fn first(t: ResolvedTaskModel, o: CiOptionsModel) -> RunStepModel {
    if o.no_cache || t.no_cache {
        RunStepModel::Run { attempt: 1 }
    } else {
        RunStepModel::CheckLocal
    }
}

/// What came of a start of a task that did not succeed.
pub open spec fn failure(event: RunEventModel, attempts: u32) -> TaskAttemptModel {
    match event {
        RunEventModel::Exited { exit_code, stdout, stderr } => TaskAttemptModel {
            outcome: TaskOutcomeModel::Failed {
                exit_code,
                stderr_excerpt: head_truncated(utf8_lossy(stderr)),
            },
            attempts,
            flaky: false,
            output_excerpt: excerpt_of(utf8_lossy(stdout), utf8_lossy(stderr)),
        },
        RunEventModel::ExecFailed { message } => TaskAttemptModel {
            outcome: TaskOutcomeModel::Failed { exit_code: (-1) as i32, stderr_excerpt: "exec error: "@ + message },
            attempts,
            flaky: false,
            output_excerpt: None,
        },
        _ => restored(),
    }
}

/// Whether what came can have come of a step.
pub open spec fn answers(step: RunStepModel, event: RunEventModel) -> bool {
    match step {
        RunStepModel::CheckLocal => event is Restored || event is Absent || event is RestoreFailed,
        RunStepModel::CheckRemote => event is Restored || event is Absent,
        RunStepModel::Run { attempt } => event is Exited || event is ExecFailed,
        RunStepModel::Done { .. } => false,
    }
}

/// The step that follows.
pub open spec fn stepped(t: ResolvedTaskModel, step: RunStepModel, event: RunEventModel) -> RunStepModel {
    match (step, event) {
        (RunStepModel::CheckLocal, RunEventModel::Restored) => RunStepModel::Done {
            result: restored(),
            store: false,
            write_through: true,
        },
        (RunStepModel::CheckLocal, RunEventModel::RestoreFailed { message }) => RunStepModel::Done {
            result: TaskAttemptModel {
                outcome: TaskOutcomeModel::Failed {
                    exit_code: (-1) as i32,
                    stderr_excerpt: "cache restore failed: "@ + message,
                },
                attempts: 1,
                flaky: false,
                output_excerpt: None,
            },
            store: false,
            write_through: false,
        },
        (RunStepModel::CheckLocal, _) => RunStepModel::CheckRemote,
        (RunStepModel::CheckRemote, RunEventModel::Restored) => RunStepModel::Done {
            result: restored(),
            store: false,
            write_through: false,
        },
        (RunStepModel::CheckRemote, _) => RunStepModel::Run { attempt: 1 },
        (RunStepModel::Run { attempt }, RunEventModel::Exited { exit_code: 0, stdout, stderr }) =>
            RunStepModel::Done {
            result: TaskAttemptModel {
                outcome: TaskOutcomeModel::Built { exit_code: 0 },
                attempts: attempt,
                flaky: attempt > 1,
                output_excerpt: excerpt_of(utf8_lossy(stdout), utf8_lossy(stderr)),
            },
            store: !t.no_cache,
            write_through: false,
        },
        (RunStepModel::Run { attempt }, _) => if attempt < max_attempts(t) {
            RunStepModel::Run { attempt: (attempt + 1) as u32 }
        } else {
            RunStepModel::Done {
                result: failure(event, max_attempts(t)),
                store: false,
                write_through: false,
            }
        },
        (RunStepModel::Done { .. }, _) => step,
    }
}

/// The first step of a task.
pub fn first_step(task: &ResolvedTask, opts: &CiOptions) -> (r: RunStep)
    ensures
        r.deep_view() == first(task.deep_view(), opts.deep_view()),
{
    if opts.no_cache || task.no_cache {
        RunStep::Run { attempt: 1 }
    } else {
        RunStep::CheckLocal
    }
}

fn attempts_allowed(task: &ResolvedTask) -> (r: u32)
    ensures
        r == max_attempts(task.deep_view()),
{
    if task.retry == u32::MAX {
        u32::MAX
    } else {
        task.retry + 1
    }
}

fn hit() -> (r: TaskAttempt)
    ensures
        r.deep_view() == restored(),
{
    TaskAttempt { outcome: TaskOutcome::CacheHit, attempts: 0, flaky: false, output_excerpt: None }
}

/// The step that follows, once it is known what came of the present one. Only a task that ran is
/// tried again.
pub fn next_step(task: &ResolvedTask, step: RunStep, event: RunEvent) -> (r: RunStep)
    requires
        answers(step.deep_view(), event.deep_view()),
    ensures
        r.deep_view() == stepped(task.deep_view(), step.deep_view(), event.deep_view()),
        event matches RunEvent::Exited { stdout, stderr, .. } ==> (r is Done ==> shown_as_is(stdout@)
            && shown_as_is(stderr@)),
{
    match step {
        RunStep::CheckLocal => match event {
            RunEvent::Restored => RunStep::Done { result: hit(), store: false, write_through: true },
            RunEvent::RestoreFailed { message } => RunStep::Done {
                result: TaskAttempt {
                    outcome: TaskOutcome::Failed {
                        exit_code: -1,
                        stderr_excerpt: cat("cache restore failed: ", message.as_str()),
                    },
                    attempts: 1,
                    flaky: false,
                    output_excerpt: None,
                },
                store: false,
                write_through: false,
            },
            _ => RunStep::CheckRemote,
        },
        RunStep::CheckRemote => match event {
            RunEvent::Restored => RunStep::Done { result: hit(), store: false, write_through: false },
            _ => RunStep::Run { attempt: 1 },
        },
        RunStep::Run { attempt } => {
            let most = attempts_allowed(task);
            match event {
                RunEvent::Exited { exit_code, stdout, stderr } => {
                    if exit_code == 0 {
                        return RunStep::Done {
                            result: TaskAttempt {
                                outcome: TaskOutcome::Built { exit_code: 0 },
                                attempts: attempt,
                                flaky: attempt > 1,
                                output_excerpt: build_output_excerpt(&stdout, &stderr),
                            },
                            store: !task.no_cache,
                            write_through: false,
                        };
                    }
                    if attempt < most {
                        return RunStep::Run { attempt: attempt + 1 };
                    }
                    RunStep::Done {
                        result: TaskAttempt {
                            outcome: TaskOutcome::Failed {
                                exit_code,
                                stderr_excerpt: truncated_stderr(&stderr),
                            },
                            attempts: most,
                            flaky: false,
                            output_excerpt: build_output_excerpt(&stdout, &stderr),
                        },
                        store: false,
                        write_through: false,
                    }
                },
                RunEvent::ExecFailed { message } => {
                    if attempt < most {
                        return RunStep::Run { attempt: attempt + 1 };
                    }
                    RunStep::Done {
                        result: TaskAttempt {
                            outcome: TaskOutcome::Failed {
                                exit_code: -1,
                                stderr_excerpt: cat("exec error: ", message.as_str()),
                            },
                            attempts: most,
                            flaky: false,
                            output_excerpt: None,
                        },
                        store: false,
                        write_through: false,
                    }
                },
                _ => RunStep::Run { attempt },
            }
        },
        RunStep::Done { result, store, write_through } => RunStep::Done { result, store, write_through },
    }
}

/// Where a sequence of steps leads.
pub open spec fn driven(t: ResolvedTaskModel, step: RunStepModel, events: Seq<RunEventModel>) -> RunStepModel
    decreases events.len(),
{
    if events.len() == 0 {
        step
    } else {
        driven(t, stepped(t, step, events[0]), events.skip(1))
    }
}

/// Whether each of the events comes of the step before it, and none comes behind the end.
pub open spec fn feasible(t: ResolvedTaskModel, step: RunStepModel, events: Seq<RunEventModel>) -> bool
    decreases events.len(),
{
    events.len() == 0 || (answers(step, events[0]) && feasible(t, stepped(t, step, events[0]), events.skip(1)))
}

/// Whether an event says that a task succeeded.
pub open spec fn succeeded(e: RunEventModel) -> bool {
    e matches RunEventModel::Exited { exit_code, .. } && exit_code == 0
}

/// A task is started again only while it fails, and at most `retry` times more: after as many
/// starts as came back, it has succeeded with the last, or has failed with all of them, or goes on.
/// It is flaky where it succeeded behind the first start.
pub proof fn law_retries(t: ResolvedTaskModel, k: u32, events: Seq<RunEventModel>)
    requires
        1 <= k <= max_attempts(t),
        feasible(t, RunStepModel::Run { attempt: k }, events),
        events.len() > 0,
    ensures
        k - 1 + events.len() <= max_attempts(t),
        forall|i: int| 0 <= i < events.len() - 1 ==> !succeeded(#[trigger] events[i]),
        match driven(t, RunStepModel::Run { attempt: k }, events) {
            RunStepModel::Done { result, store, write_through } => {
                &&& result.attempts == k - 1 + events.len()
                &&& result.flaky == (result.outcome is Built && result.attempts > 1)
                &&& (result.outcome is Built) == succeeded(events.last())
                &&& result.outcome is Failed ==> result.attempts == max_attempts(t)
                &&& result.outcome is Built || result.outcome is Failed
                &&& store == (result.outcome is Built && !t.no_cache)
                &&& !write_through
            },
            RunStepModel::Run { attempt } => attempt == k + events.len() && !succeeded(events.last()),
            _ => false,
        },
    decreases events.len(),
{
    let step = RunStepModel::Run { attempt: k };
    let next = stepped(t, step, events[0]);
    let rest = events.skip(1);
    assert(driven(t, step, events) == driven(t, next, rest));
    if rest.len() == 0 {
        assert(events.last() == events[0]);
    } else {
        assert(feasible(t, next, rest));
        assert(answers(next, rest[0]));
        assert(next is Run);
        law_retries(t, (k + 1) as u32, rest);
        assert(events.last() == rest.last());
        assert forall|i: int| 0 <= i < events.len() - 1 implies !succeeded(#[trigger] events[i]) by {
            if i > 0 {
                assert(events[i] == rest[i - 1]);
            }
        }
    }
}

/// Where lookups are switched off, a task runs, and what it made is still stored.
pub proof fn law_no_cache_still_stores(t: ResolvedTaskModel, o: CiOptionsModel, events: Seq<RunEventModel>)
    requires
        o.no_cache,
        !t.no_cache,
        feasible(t, first(t, o), events),
        events.len() > 0,
    ensures
        driven(t, first(t, o), events) matches RunStepModel::Done { result, store, write_through } ==> !(
        result.outcome is CacheHit) && store == (result.outcome is Built) && !write_through,
{
    law_retries(t, 1, events);
}

/// A task that is never cached is neither restored nor stored.
pub proof fn law_uncached_always_runs(t: ResolvedTaskModel, o: CiOptionsModel, events: Seq<RunEventModel>)
    requires
        t.no_cache,
        feasible(t, first(t, o), events),
        events.len() > 0,
    ensures
        driven(t, first(t, o), events) matches RunStepModel::Done { result, store, write_through } ==> !(
        result.outcome is CacheHit) && !store && !write_through,
{
    law_retries(t, 1, events);
}

/// A task that may be restored is looked up before it is started: the local cache is asked first, then
/// the remote one, and the task is started only behind the answer of both that they do not have it.
/// What either of them restores ends the run as a hit, without a start; where the local cache fails,
/// the run ends as a failure, without a start.
pub proof fn law_caches_are_asked_first(t: ResolvedTaskModel, o: CiOptionsModel, events: Seq<RunEventModel>)
    requires
        !o.no_cache,
        !t.no_cache,
        feasible(t, first(t, o), events),
    ensures
        events.len() == 0 ==> driven(t, first(t, o), events) == RunStepModel::CheckLocal,
        events.len() == 1 && events[0] is Absent ==> driven(t, first(t, o), events) == RunStepModel::CheckRemote,
        driven(t, first(t, o), events) matches RunStepModel::Run { attempt } ==> events.len() >= 2 && events[0] is
            Absent && events[1] is Absent && attempt == events.len() - 1,
        forall|i: int|
            0 <= i < events.len() ==> ((#[trigger] events[i]) is Exited || events[i] is ExecFailed ==> i >= 2
                && events[0] is Absent && events[1] is Absent),
        events.len() > 0 && events[0] is Restored ==> events.len() == 1 && (driven(
            t,
            first(t, o),
            events,
        ) matches RunStepModel::Done { result, store, write_through } && result.outcome is CacheHit
            && result.attempts == 0 && !store && write_through),
        events.len() > 1 && events[1] is Restored ==> events.len() == 2 && (driven(
            t,
            first(t, o),
            events,
        ) matches RunStepModel::Done { result, store, write_through } && result.outcome is CacheHit
            && result.attempts == 0 && !store && !write_through),
        events.len() > 0 && events[0] is RestoreFailed ==> events.len() == 1 && (driven(
            t,
            first(t, o),
            events,
        ) matches RunStepModel::Done { result, store, write_through } && result.outcome is Failed && !store
            && !write_through),
{
    reveal_with_fuel(driven, 4);
    reveal_with_fuel(feasible, 4);
    let one = events.skip(1);
    let two = one.skip(1);
    if events.len() > 1 {
        assert(one[0] == events[1]);
        if events.len() > 2 && events[0] is Absent && events[1] is Absent {
            law_retries(t, 1, two);
            assert forall|i: int| 0 <= i < two.len() implies #[trigger] two[i] == events[i + 2] by {}
        }
        if events[0] is Absent && events[1] is Restored && events.len() > 2 {
            assert(two[0] == events[2]);
        }
    }
}

/// Once the caches said that they do not have a task, it is started until it succeeds, and at most
/// `retry` times more: it ends as built with the first start that succeeds, and is then stored; it ends
/// as failed where none does.
pub proof fn law_a_missing_task_is_built(t: ResolvedTaskModel, o: CiOptionsModel, events: Seq<RunEventModel>)
    requires
        !o.no_cache,
        !t.no_cache,
        feasible(t, first(t, o), events),
        events.len() > 2,
    ensures
        forall|i: int| 2 <= i < events.len() - 1 ==> !succeeded(#[trigger] events[i]),
        succeeded(events.last()) ==> (driven(t, first(t, o), events) matches RunStepModel::Done {
            result,
            store,
            write_through,
        } && result.outcome is Built && result.attempts == events.len() - 2 && result.flaky == (events.len() > 3)
            && store),
        !succeeded(events.last()) && events.len() - 2 == max_attempts(t) ==> (driven(
            t,
            first(t, o),
            events,
        ) matches RunStepModel::Done { result, store, write_through } && result.outcome is Failed
            && result.attempts == max_attempts(t) && !result.flaky && !store),
        !succeeded(events.last()) && events.len() - 2 < max_attempts(t) ==> driven(t, first(t, o), events)
            == (RunStepModel::Run { attempt: (events.len() - 1) as u32 }),
        events.len() - 2 <= max_attempts(t),
        max_attempts(t) == t.retry + 1 || max_attempts(t) == u32::MAX,
{
    law_caches_are_asked_first(t, o, events);
    reveal_with_fuel(driven, 4);
    reveal_with_fuel(feasible, 4);
    let one = events.skip(1);
    let two = one.skip(1);
    assert(one[0] == events[1]);
    assert(two[0] == events[2]);
    assert(events[0] is Absent && events[1] is Absent);
    law_retries(t, 1, two);
    assert(two.last() == events.last());
    assert forall|i: int| 2 <= i < events.len() - 1 implies !succeeded(#[trigger] events[i]) by {
        assert(two[i - 2] == events[i]);
    }
    lemma_ends_after(t, 1, two);
}

proof fn lemma_ends_after(t: ResolvedTaskModel, k: u32, events: Seq<RunEventModel>)
    requires
        1 <= k <= max_attempts(t),
        feasible(t, RunStepModel::Run { attempt: k }, events),
        events.len() > 0,
    ensures
        driven(t, RunStepModel::Run { attempt: k }, events) is Done <==> succeeded(events.last()) || k - 1
            + events.len() == max_attempts(t),
    decreases events.len(),
{
    let step = RunStepModel::Run { attempt: k };
    let next = stepped(t, step, events[0]);
    let rest = events.skip(1);
    assert(driven(t, step, events) == driven(t, next, rest));
    if rest.len() == 0 {
        assert(events.last() == events[0]);
    } else {
        assert(feasible(t, next, rest));
        assert(answers(next, rest[0]));
        assert(next is Run);
        lemma_ends_after(t, (k + 1) as u32, rest);
        assert(events.last() == rest.last());
    }
}

/// A run that ends behind a start reports what that start gave: its exit code, what it printed to its
/// error output, or why it could not be started.
pub proof fn law_the_last_start_is_reported(t: ResolvedTaskModel, k: u32, events: Seq<RunEventModel>)
    requires
        1 <= k <= max_attempts(t),
        feasible(t, RunStepModel::Run { attempt: k }, events),
        events.len() > 0,
    ensures
        driven(t, RunStepModel::Run { attempt: k }, events) matches RunStepModel::Done { result, .. } ==> {
            &&& events.last() matches RunEventModel::Exited { exit_code, stdout, stderr } ==> {
                &&& result.output_excerpt == excerpt_of(utf8_lossy(stdout), utf8_lossy(stderr))
                &&& match result.outcome {
                    TaskOutcomeModel::Built { exit_code: c } => c == exit_code && exit_code == 0,
                    TaskOutcomeModel::Failed { exit_code: c, stderr_excerpt } => c == exit_code && exit_code != 0
                        && stderr_excerpt == head_truncated(utf8_lossy(stderr)),
                    _ => false,
                }
            }
            &&& events.last() matches RunEventModel::ExecFailed { message } ==> (result.outcome matches
                TaskOutcomeModel::Failed { exit_code, stderr_excerpt } && exit_code == -1 && stderr_excerpt
                == "exec error: "@ + message) && result.output_excerpt is None
        },
    decreases events.len(),
{
    let step = RunStepModel::Run { attempt: k };
    let next = stepped(t, step, events[0]);
    let rest = events.skip(1);
    assert(driven(t, step, events) == driven(t, next, rest));
    if rest.len() == 0 {
        assert(events.last() == events[0]);
    } else {
        assert(feasible(t, next, rest));
        assert(answers(next, rest[0]));
        assert(next is Run);
        law_the_last_start_is_reported(t, (k + 1) as u32, rest);
        assert(events.last() == rest.last());
    }
}

/// A task that is not looked up is started at once, whichever of the task and the run says so.
pub proof fn law_unlooked_tasks_start_at_once(t: ResolvedTaskModel, o: CiOptionsModel)
    ensures
        first(t, o) == (RunStepModel::Run { attempt: 1 }) <==> o.no_cache || t.no_cache,
{
}

/// Which tasks run: a task of the unit runs unless names are asked for and its name is not among them;
/// a task of an integration runs where its kind is asked for, or where none is asked for and it does
/// not act on the outside world; a notification never runs among them.
pub proof fn law_which_tasks_run(o: CiOptionsModel, t: ResolvedTaskModel)
    ensures
        t.integration_kind is None && o.task_filter is None ==> allowed(o, t),
        t.integration_kind is None ==> (o.task_filter matches Some(names) ==> (allowed(o, t) <==> names.len() == 0
            || names.contains(t.name))),
        t.integration_kind == Some(IntegrationTaskKind::Notify) ==> !allowed(o, t),
        t.integration_kind matches Some(k) ==> (k != IntegrationTaskKind::Notify ==> {
            &&& o.task_kind_filter matches Some(wanted) ==> (allowed(o, t) <==> k == wanted)
            &&& o.task_kind_filter is None ==> (allowed(o, t) <==> k == IntegrationTaskKind::Release || k
                == IntegrationTaskKind::Other)
        }),
{
}

/// A unit is out of scope if and only if a kind is asked for and none of its tasks is of that kind.
pub proof fn law_out_of_scope(o: CiOptionsModel, tasks: Seq<ResolvedTaskModel>)
    ensures
        o.task_kind_filter is None ==> !out_of_scope(o, tasks),
        o.task_kind_filter matches Some(k) ==> (out_of_scope(o, tasks) <==> !(exists|i: int|
            0 <= i < tasks.len() && (#[trigger] tasks[i]).integration_kind == Some(k))),
{
}

/// Whatever a cache or a command can answer is an answer of the step that asks it, and nothing answers a task
/// that is done.
pub proof fn law_what_is_answered(event: RunEventModel, attempt: u32, done: RunStepModel)
    requires
        done is Done,
    ensures
        answers(RunStepModel::CheckLocal, RunEventModel::Restored),
        answers(RunStepModel::CheckLocal, RunEventModel::Absent),
        answers(RunStepModel::CheckRemote, RunEventModel::Restored),
        answers(RunStepModel::CheckRemote, RunEventModel::Absent),
        event is RestoreFailed ==> answers(RunStepModel::CheckLocal, event) && !answers(RunStepModel::CheckRemote, event),
        event is Exited || event is ExecFailed <==> answers(RunStepModel::Run { attempt }, event),
        !answers(done, event),
{
}

} // verus!
