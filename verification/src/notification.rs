//! Notifications about deploys: what they say, where they are kept, and what is reported of them.
use vstd::prelude::*;

use crate::config::IntegrationTaskKind;
use crate::deep::deep;
use crate::excerpt::{build_output_excerpt, excerpt_of, head_truncated, shown_as_is, truncated_stderr, utf8_lossy};
use crate::path::{join_path, path_joined};
use crate::run::{zero_stats, CiOptions, CiOptionsModel, ExecutedTask, ExecutedTaskModel, ExecutedUnit, ExecutedUnitModel, TaskOutcome, TaskOutcomeModel, UnitStats};
use crate::sort::{key_before, lemma_sort_map, sort_by, sort_keyed, Keyed};
use crate::tasks::{copy_task, ResolvedTask, ResolvedTaskModel};
use crate::text::{cat, cat3, chars_of, copy, same};
use crate::unit_run::{marker, marker_row, refused_row};

verus! {

broadcast use {crate::deep::group_deep, crate::deep::lemma_take_next, crate::deep::lemma_take_all};

/// The version of the payload's shape.
pub const NOTIFICATION_PAYLOAD_SCHEMA_VERSION: u32 = 1;

/// The task that a notification is about, and what came of it.
#[derive(Debug, PartialEq, Eq)]
pub struct NotificationPayloadTrigger {
    pub task_name: String,
    pub unit_name: String,
    pub monad_name: String,
    pub outcome: String,
    pub exit_code: i32,
    pub duration_ms: u64,
    pub cache_key: String,
    pub integration_kind: String,
    pub output_excerpt: String,
    pub stderr_excerpt: Option<String>,
}

#[verifier::ext_equal]
pub struct NotificationTriggerModel {
    pub task_name: Seq<char>,
    pub unit_name: Seq<char>,
    pub monad_name: Seq<char>,
    pub outcome: Seq<char>,
    pub exit_code: i32,
    pub duration_ms: u64,
    pub cache_key: Seq<char>,
    pub integration_kind: Seq<char>,
    pub output_excerpt: Seq<char>,
    pub stderr_excerpt: Option<Seq<char>>,
}

impl DeepView for NotificationPayloadTrigger {
    type V = NotificationTriggerModel;

    open spec fn deep_view(&self) -> NotificationTriggerModel {
        NotificationTriggerModel {
            task_name: self.task_name@,
            unit_name: self.unit_name@,
            monad_name: self.monad_name@,
            outcome: self.outcome@,
            exit_code: self.exit_code,
            duration_ms: self.duration_ms,
            cache_key: self.cache_key@,
            integration_kind: self.integration_kind@,
            output_excerpt: self.output_excerpt@,
            stderr_excerpt: self.stderr_excerpt.deep_view(),
        }
    }
}

/// What a notification task gets to read.
#[derive(Debug, PartialEq, Eq)]
pub struct NotificationPayload {
    pub schema_version: u32,
    pub monad_version: String,
    pub environment: Option<String>,
    pub trigger: NotificationPayloadTrigger,
}

#[verifier::ext_equal]
pub struct NotificationPayloadModel {
    pub schema_version: u32,
    pub monad_version: Seq<char>,
    pub environment: Option<Seq<char>>,
    pub trigger: NotificationTriggerModel,
}

impl DeepView for NotificationPayload {
    type V = NotificationPayloadModel;

    open spec fn deep_view(&self) -> NotificationPayloadModel {
        NotificationPayloadModel {
            schema_version: self.schema_version,
            monad_version: self.monad_version@,
            environment: self.environment.deep_view(),
            trigger: self.trigger.deep_view(),
        }
    }
}

/// The line that a notification task reads: a payload as JSON, and a line feed.
pub fn ndjson_line(json: &str) -> (r: String)
    ensures
        r@ == json@.push('\n'),
{
    let mut r = copy(json);
    r.push('\n');
    r
}

/// What a payload says came of a task.
pub open spec fn outcome_name(o: TaskOutcomeModel) -> Seq<char> {
    match o {
        TaskOutcomeModel::Built { .. } => "built"@,
        TaskOutcomeModel::CacheHit => "cache_hit"@,
        TaskOutcomeModel::Failed { .. } => "failed"@,
        TaskOutcomeModel::Skipped { .. } => "skipped"@,
        TaskOutcomeModel::DeployUnchanged { .. } => "deploy_unchanged"@,
    }
}

/// The exit code that a payload gives.
pub open spec fn outcome_code(o: TaskOutcomeModel) -> i32 {
    match o {
        TaskOutcomeModel::Built { exit_code } => exit_code,
        TaskOutcomeModel::CacheHit => 0,
        TaskOutcomeModel::Failed { exit_code, .. } => exit_code,
        TaskOutcomeModel::Skipped { .. } => (-1) as i32,
        TaskOutcomeModel::DeployUnchanged { .. } => 0,
    }
}

/// What a payload tells of the error stream: of a task that failed, where it wrote something.
pub open spec fn outcome_stderr(o: TaskOutcomeModel) -> Option<Seq<char>> {
    match o {
        TaskOutcomeModel::Failed { stderr_excerpt, .. } if stderr_excerpt.len() > 0 => Some(stderr_excerpt),
        _ => None,
    }
}

/// The payload about a deploy.
pub open spec fn payload_of(
    deploy: ExecutedTaskModel,
    unit_name: Seq<char>,
    monad_name: Seq<char>,
    environment: Option<Seq<char>>,
    version: Seq<char>,
) -> NotificationPayloadModel {
    NotificationPayloadModel {
        schema_version: NOTIFICATION_PAYLOAD_SCHEMA_VERSION,
        monad_version: version,
        environment,
        trigger: NotificationTriggerModel {
            task_name: deploy.name,
            unit_name,
            monad_name,
            outcome: outcome_name(deploy.outcome),
            exit_code: outcome_code(deploy.outcome),
            duration_ms: deploy.duration_ms,
            cache_key: deploy.key,
            integration_kind: "deploy"@,
            output_excerpt: match deploy.output_excerpt {
                Some(s) => s,
                None => Seq::empty(),
            },
            stderr_excerpt: outcome_stderr(deploy.outcome),
        },
    }
}

/// The payload about a deploy.
pub fn build_notification_payload(
    deploy: &ExecutedTask,
    unit_name: &str,
    monad_name: &str,
    environment: Option<&str>,
    version: &str,
) -> (r: NotificationPayload)
    ensures
        r.deep_view() == payload_of(
            deploy.deep_view(),
            unit_name@,
            monad_name@,
            environment.deep_view(),
            version@,
        ),
{
    let (outcome, exit_code, stderr_excerpt) = match &deploy.outcome {
        TaskOutcome::Built { exit_code } => ("built", *exit_code, None),
        TaskOutcome::CacheHit => ("cache_hit", 0i32, None),
        TaskOutcome::Failed { exit_code, stderr_excerpt } => (
            "failed",
            *exit_code,
            if stderr_excerpt.as_str().is_empty() {
                None
            } else {
                Some(copy(stderr_excerpt.as_str()))
            },
        ),
        TaskOutcome::Skipped { .. } => ("skipped", -1i32, None),
        TaskOutcome::DeployUnchanged { .. } => ("deploy_unchanged", 0i32, None),
    };
    let r = NotificationPayload {
        schema_version: NOTIFICATION_PAYLOAD_SCHEMA_VERSION,
        monad_version: copy(version),
        environment: match environment {
            Some(e) => Some(copy(e)),
            None => None,
        },
        trigger: NotificationPayloadTrigger {
            task_name: copy(deploy.name.as_str()),
            unit_name: copy(unit_name),
            monad_name: copy(monad_name),
            outcome: copy(outcome),
            exit_code,
            duration_ms: deploy.duration_ms,
            cache_key: copy(deploy.key.as_str()),
            integration_kind: copy(IntegrationTaskKind::Deploy.as_str()),
            output_excerpt: match &deploy.output_excerpt {
                Some(s) => copy(s.as_str()),
                None => String::new(),
            },
            stderr_excerpt,
        },
    };
    assert(r.trigger.output_excerpt@ =~= (match deploy.deep_view().output_excerpt {
        Some(s) => s,
        None => Seq::empty(),
    }));
    r
}

/// A character of a file name: letters, digits, `-` and `_` as they are, `_` for any other.
pub open spec fn safe_char(c: char) -> char {
    if ('a' <= c <= 'z') || ('A' <= c <= 'Z') || ('0' <= c <= '9') || c == '-' || c == '_' {
        c
    } else {
        '_'
    }
}

/// A text as a file name.
pub open spec fn safe(s: Seq<char>) -> Seq<char> {
    s.map_values(|c: char| safe_char(c))
}

/// A text as a file name.
pub fn sanitize_component(s: &str) -> (r: String)
    ensures
        r@ == safe(s@),
{
    let v = chars_of(s);
    let mut r = String::new();
    let mut i: usize = 0;
    assert(r@ =~= safe(v@.take(0)));
    while i < v.len()
        invariant
            i <= v@.len(),
            r@ == safe(v@.take(i as int)),
        decreases v.len() - i,
    {
        let c = v[i];
        let keep = ('a' <= c && c <= 'z') || ('A' <= c && c <= 'Z') || ('0' <= c && c <= '9') || c == '-' || c
            == '_';
        r.push(if keep { c } else { '_' });
        i += 1;
        assert(r@ =~= safe(v@.take(i as int)));
    }
    r
}

/// The directory of the payloads about a unit's deploys.
pub open spec fn sidecar_dir(root: Seq<char>, monad: Seq<char>, unit: Seq<char>) -> Seq<char> {
    path_joined(
        path_joined(path_joined(path_joined(root, ".monad"@), "notification"@), safe(monad)),
        safe(unit),
    )
}

/// The directory of the payloads about a unit's deploys.
pub fn notification_sidecar_dir(workspace_root: &str, monad_name: &str, unit_name: &str) -> (r: String)
    ensures
        r@ == sidecar_dir(workspace_root@, monad_name@, unit_name@),
{
    let dir = join_path(workspace_root, ".monad");
    let dir = join_path(dir.as_str(), "notification");
    let dir = join_path(dir.as_str(), sanitize_component(monad_name).as_str());
    join_path(dir.as_str(), sanitize_component(unit_name).as_str())
}

/// The file of the payload about a deploy.
pub fn notification_sidecar_path(workspace_root: &str, monad_name: &str, unit_name: &str, task_name: &str) -> (r: String)
    ensures
        r@ == path_joined(
            sidecar_dir(workspace_root@, monad_name@, unit_name@),
            safe(task_name@) + ".json"@,
        ),
{
    let file = cat(sanitize_component(task_name).as_str(), ".json");
    join_path(
        notification_sidecar_dir(workspace_root, monad_name, unit_name).as_str(),
        file.as_str(),
    )
}

/// Whether a file of such a directory holds a payload: its name ends in `.json`, behind something.
pub open spec fn names_sidecar(file: Seq<char>) -> bool {
    file.len() > 5 && file.skip(file.len() - 5) == ".json"@
}

/// Whether a file of such a directory holds a payload.
pub fn is_sidecar(file: &str) -> (r: bool)
    ensures
        r == names_sidecar(file@),
{
    let v = chars_of(file);
    let n: usize = v.len();
    proof {
        reveal_strlit(".json");
        if n > 5 {
            assert(v@.skip(n - 5) =~= seq![v@[n - 5], v@[n - 4], v@[n - 3], v@[n - 2], v@[n - 1]]);
            assert(".json"@ =~= seq!['.', 'j', 's', 'o', 'n']);
        }
    }
    n > 5 && v[n - 5] == '.' && v[n - 4] == 'j' && v[n - 3] == 's' && v[n - 2] == 'o' && v[n - 1] == 'n'
}

/// A payload that is kept is found again: the file of a deploy has the name of a payload's file.
pub proof fn law_kept_payloads_are_found(task: Seq<char>)
    requires
        task.len() > 0,
    ensures
        names_sidecar(safe(task) + ".json"@),
{
    reveal_strlit(".json");
    let file = safe(task) + ".json"@;
    assert(file.skip(file.len() - 5) =~= ".json"@);
}

impl Keyed for NotificationPayload {
    open spec fn key_text(&self) -> Seq<char> {
        self.trigger.task_name@
    }

    fn key(&self) -> (r: &str) {
        self.trigger.task_name.as_str()
    }
}

/// The order of payloads: by the names of their tasks.
pub open spec fn payload_before() -> spec_fn(NotificationPayloadModel, NotificationPayloadModel) -> bool {
    |a: NotificationPayloadModel, b: NotificationPayloadModel|
        crate::order::less(a.trigger.task_name, b.trigger.task_name)
}

/// The payloads in the order of their tasks' names.
pub fn order_sidecars(payloads: Vec<NotificationPayload>) -> (r: Vec<NotificationPayload>)
    ensures
        r.deep_view() == sort_by(payloads.deep_view(), payload_before()),
{
    let ghost all = payloads@;
    let r = sort_keyed(payloads);
    proof {
        lemma_sort_map(
            all,
            |x: NotificationPayload| x.deep_view(),
            key_before::<NotificationPayload>(),
            payload_before(),
        );
    }
    r
}

/// Whether a task of some name is a deploy.
pub open spec fn deploys(tasks: Seq<ResolvedTaskModel>, name: Seq<char>) -> bool {
    exists|i: int|
        0 <= i < tasks.len() && (#[trigger] tasks[i]).name == name && tasks[i].integration_kind == Some(
            IntegrationTaskKind::Deploy,
        )
}

/// The positions of the rows that are about deploys.
pub open spec fn deploy_rows(tasks: Seq<ResolvedTaskModel>, rows: Seq<ExecutedTaskModel>) -> Seq<usize>
    decreases rows.len(),
{
    if rows.len() == 0 {
        Seq::empty()
    } else {
        let before = deploy_rows(tasks, rows.drop_last());
        if deploys(tasks, rows.last().name) {
            before.push((rows.len() - 1) as usize)
        } else {
            before
        }
    }
}

fn names_deploy(tasks: &Vec<ResolvedTask>, name: &str) -> (r: bool)
    ensures
        r == deploys(tasks.deep_view(), name@),
{
    let ghost all = deep(tasks@);
    let mut i: usize = 0;
    while i < tasks.len()
        invariant
            i <= tasks@.len(),
            all == deep(tasks@),
            forall|j: int|
                0 <= j < i ==> !((#[trigger] all[j]).name == name@ && all[j].integration_kind == Some(
                    IntegrationTaskKind::Deploy,
                )),
        decreases tasks.len() - i,
    {
        let deploy = match tasks[i].integration_kind {
            Some(IntegrationTaskKind::Deploy) => true,
            _ => false,
        };
        if deploy && same(tasks[i].name.as_str(), name) {
            assert(all[i as int].name == name@);
            return true;
        }
        i += 1;
    }
    false
}

/// The positions of the rows that are about deploys.
pub fn exec_tasks_index_deploys(resolved: &Vec<ResolvedTask>, exec_tasks: &Vec<ExecutedTask>) -> (r: Vec<usize>)
    ensures
        r@ == deploy_rows(resolved.deep_view(), exec_tasks.deep_view()),
        forall|i: int| 0 <= i < r@.len() ==> #[trigger] r@[i] < exec_tasks@.len(),
{
    let ghost all = deep(exec_tasks@);
    let mut r: Vec<usize> = Vec::new();
    let mut i: usize = 0;
    while i < exec_tasks.len()
        invariant
            i <= exec_tasks@.len(),
            all == deep(exec_tasks@),
            r@ == deploy_rows(deep(resolved@), all.take(i as int)),
            forall|j: int| 0 <= j < r@.len() ==> #[trigger] r@[j] < exec_tasks@.len(),
        decreases exec_tasks.len() - i,
    {
        proof {
            assert(all.take(i + 1).drop_last() =~= all.take(i as int));
        }
        if names_deploy(resolved, exec_tasks[i].name.as_str()) {
            r.push(i);
        }
        i += 1;
    }
    r
}

/// The notification tasks among some tasks.
pub open spec fn notifiers(tasks: Seq<ResolvedTaskModel>) -> Seq<ResolvedTaskModel>
    decreases tasks.len(),
{
    if tasks.len() == 0 {
        Seq::empty()
    } else if tasks.last().integration_kind == Some(IntegrationTaskKind::Notify) {
        notifiers(tasks.drop_last()).push(tasks.last())
    } else {
        notifiers(tasks.drop_last())
    }
}

/// The notification tasks among some tasks.
pub fn notify_tasks(resolved: &Vec<ResolvedTask>) -> (r: Vec<ResolvedTask>)
    ensures
        r.deep_view() == notifiers(resolved.deep_view()),
{
    let ghost all = deep(resolved@);
    let mut r: Vec<ResolvedTask> = Vec::new();
    let mut i: usize = 0;
    while i < resolved.len()
        invariant
            i <= resolved@.len(),
            all == deep(resolved@),
            deep(r@) == notifiers(all.take(i as int)),
        decreases resolved.len() - i,
    {
        proof {
            assert(all.take(i + 1).drop_last() =~= all.take(i as int));
        }
        if let Some(IntegrationTaskKind::Notify) = resolved[i].integration_kind {
            r.push(copy_task(&resolved[i]));
        }
        i += 1;
    }
    r
}

/// The positions of the rows that are announced: the deploys, where notifications are asked for and
/// there is a notification task.
pub open spec fn announced(o: CiOptionsModel, tasks: Seq<ResolvedTaskModel>, rows: Seq<ExecutedTaskModel>) -> Seq<usize> {
    if o.run_notify_kinds && notifiers(tasks).len() > 0 {
        deploy_rows(tasks, rows)
    } else {
        Seq::empty()
    }
}

/// The positions of the rows that are announced, in order. Each is told to every notification task.
pub fn rows_to_announce(opts: &CiOptions, resolved: &Vec<ResolvedTask>, exec_tasks: &Vec<ExecutedTask>) -> (r: Vec<usize>)
    ensures
        r@ == announced(opts.deep_view(), resolved.deep_view(), exec_tasks.deep_view()),
        forall|i: int| 0 <= i < r@.len() ==> #[trigger] r@[i] < exec_tasks@.len(),
{
    if !opts.run_notify_kinds {
        return Vec::new();
    }
    let notify = notify_tasks(resolved);
    if notify.len() == 0 {
        return Vec::new();
    }
    exec_tasks_index_deploys(resolved, exec_tasks)
}

/// Where notifications are not asked for, nothing is announced; and what is announced is a deploy.
pub proof fn law_only_deploys_are_announced(
    o: CiOptionsModel,
    tasks: Seq<ResolvedTaskModel>,
    rows: Seq<ExecutedTaskModel>,
    at: usize,
)
    requires
        rows.len() <= usize::MAX,
        announced(o, tasks, rows).contains(at),
    ensures
        o.run_notify_kinds,
        at < rows.len(),
        deploys(tasks, rows[at as int].name),
    decreases rows.len(),
{
    let all = deploy_rows(tasks, rows);
    if rows.len() > 0 {
        let before = deploy_rows(tasks, rows.drop_last());
        if before.contains(at) {
            law_only_deploys_are_announced(o, tasks, rows.drop_last(), at);
        } else {
            let i = choose|i: int| 0 <= i < all.len() && all[i] == at;
            assert(i == before.len());
        }
    }
}

/// What came of a notification task.
#[derive(Debug)]
pub enum NotifyEvent {
    /// It lacks what it needs.
    Refused { message: String },
    /// It could not be started.
    SpawnFailed { message: String },
    /// Its end could not be awaited.
    WaitFailed { message: String },
    /// It ran. A process that was ended by a signal has no exit code.
    Exited { code: Option<i32>, stdout: Vec<u8>, stderr: Vec<u8> },
}

#[verifier::ext_equal]
pub enum NotifyEventModel {
    Refused { message: Seq<char> },
    SpawnFailed { message: Seq<char> },
    WaitFailed { message: Seq<char> },
    Exited { code: Option<i32>, stdout: Seq<u8>, stderr: Seq<u8> },
}

impl DeepView for NotifyEvent {
    type V = NotifyEventModel;

    open spec fn deep_view(&self) -> NotifyEventModel {
        match self {
            NotifyEvent::Refused { message } => NotifyEventModel::Refused { message: message@ },
            NotifyEvent::SpawnFailed { message } => NotifyEventModel::SpawnFailed { message: message@ },
            NotifyEvent::WaitFailed { message } => NotifyEventModel::WaitFailed { message: message@ },
            NotifyEvent::Exited { code, stdout, stderr } => NotifyEventModel::Exited {
                code: *code,
                stdout: stdout@,
                stderr: stderr@,
            },
        }
    }
}

/// The row of a notification task that was started.
pub open spec fn notify_row_with(
    t: ResolvedTaskModel,
    outcome: TaskOutcomeModel,
    output_excerpt: Option<Seq<char>>,
    duration_ms: u64,
) -> ExecutedTaskModel {
    ExecutedTaskModel {
        name: t.name,
        run: t.run,
        key: Seq::empty(),
        duration_ms,
        outcome,
        attempts: 1,
        flaky: false,
        output_excerpt,
        diagnostics: Seq::empty(),
    }
}

/// The row of a notification task. None is looked up in a cache.
pub open spec fn notify_row(t: ResolvedTaskModel, event: NotifyEventModel, duration_ms: u64) -> ExecutedTaskModel {
    match event {
        NotifyEventModel::Refused { message } => refused_row(t, message, duration_ms),
        NotifyEventModel::SpawnFailed { message } => notify_row_with(
            t,
            TaskOutcomeModel::Failed {
                exit_code: (-1) as i32,
                stderr_excerpt: "failed to spawn notify task: "@ + message,
            },
            None,
            duration_ms,
        ),
        NotifyEventModel::WaitFailed { message } => notify_row_with(
            t,
            TaskOutcomeModel::Failed {
                exit_code: (-1) as i32,
                stderr_excerpt: "notify task wait failed: "@ + message,
            },
            None,
            duration_ms,
        ),
        NotifyEventModel::Exited { code, stdout, stderr } => notify_row_with(
            t,
            match code {
                Some(0) => TaskOutcomeModel::Built { exit_code: 0 },
                Some(c) => TaskOutcomeModel::Failed {
                    exit_code: c,
                    stderr_excerpt: head_truncated(utf8_lossy(stderr)),
                },
                None => TaskOutcomeModel::Failed {
                    exit_code: (-1) as i32,
                    stderr_excerpt: head_truncated(utf8_lossy(stderr)),
                },
            },
            excerpt_of(utf8_lossy(stdout), utf8_lossy(stderr)),
            duration_ms,
        ),
    }
}

/// The row of a notification task.
pub fn notify_task_row(task: &ResolvedTask, event: &NotifyEvent, duration_ms: u64) -> (r: ExecutedTask)
    ensures
        r.deep_view() == notify_row(task.deep_view(), event.deep_view(), duration_ms),
        *event matches NotifyEvent::Exited { stdout, stderr, .. } ==> shown_as_is(stdout@) && shown_as_is(
            stderr@,
        ),
{
    let (outcome, attempts, output_excerpt) = match event {
        NotifyEvent::Refused { message } => (
            TaskOutcome::Failed { exit_code: -1, stderr_excerpt: copy(message.as_str()) },
            0u32,
            None,
        ),
        NotifyEvent::SpawnFailed { message } => (
            TaskOutcome::Failed {
                exit_code: -1,
                stderr_excerpt: cat("failed to spawn notify task: ", message.as_str()),
            },
            1u32,
            None,
        ),
        NotifyEvent::WaitFailed { message } => (
            TaskOutcome::Failed {
                exit_code: -1,
                stderr_excerpt: cat("notify task wait failed: ", message.as_str()),
            },
            1u32,
            None,
        ),
        NotifyEvent::Exited { code, stdout, stderr } => {
            let excerpt = build_output_excerpt(stdout, stderr);
            let outcome = match code {
                Some(c) => if *c == 0 {
                    TaskOutcome::Built { exit_code: 0 }
                } else {
                    TaskOutcome::Failed { exit_code: *c, stderr_excerpt: truncated_stderr(stderr) }
                },
                None => TaskOutcome::Failed { exit_code: -1, stderr_excerpt: truncated_stderr(stderr) },
            };
            (outcome, 1u32, excerpt)
        },
    };
    let r = ExecutedTask {
        name: copy(task.name.as_str()),
        run: copy(task.run.as_str()),
        key: String::new(),
        duration_ms,
        outcome,
        attempts,
        flaky: false,
        output_excerpt,
        diagnostics: Vec::new(),
    };
    assert(r.deep_view() =~= notify_row(task.deep_view(), event.deep_view(), duration_ms));
    r
}

/// What came of one notification task that was told of a payload, and how long it took.
#[derive(Debug)]
pub struct NotifyResult {
    pub event: NotifyEvent,
    pub duration_ms: u64,
}

#[verifier::ext_equal]
pub struct NotifyResultModel {
    pub event: NotifyEventModel,
    pub duration_ms: u64,
}

impl DeepView for NotifyResult {
    type V = NotifyResultModel;

    open spec fn deep_view(&self) -> NotifyResultModel {
        NotifyResultModel { event: self.event.deep_view(), duration_ms: self.duration_ms }
    }
}

/// Whether there is a result for each payload and each notification task.
pub open spec fn all_told(notify: Seq<ResolvedTaskModel>, sent: Seq<Seq<NotifyResultModel>>) -> bool {
    forall|i: int| 0 <= i < sent.len() ==> (#[trigger] sent[i]).len() == notify.len()
}

/// Whether what a notification task wrote is shown as it is, as far as it is UTF-8.
pub open spec fn told_as_is(r: NotifyResultModel) -> bool {
    match r.event {
        NotifyEventModel::Exited { stdout, stderr, .. } => shown_as_is(stdout) && shown_as_is(stderr),
        _ => true,
    }
}

/// Whether what the notification tasks wrote is shown as it is, as far as it is UTF-8.
pub open spec fn sent_as_is(sent: Seq<Seq<NotifyResultModel>>) -> bool {
    forall|i: int, j: int| 0 <= i < sent.len() && 0 <= j < sent[i].len() ==> told_as_is(#[trigger] sent[i][j])
}

/// The rows of one payload: each notification task once, in order.
pub open spec fn payload_rows(notify: Seq<ResolvedTaskModel>, told: Seq<NotifyResultModel>) -> Seq<
    ExecutedTaskModel,
> {
    Seq::new(notify.len(), |j: int| notify_row(notify[j], told[j].event, told[j].duration_ms))
}

/// The rows of some payloads, one after the other.
pub open spec fn sent_rows(notify: Seq<ResolvedTaskModel>, sent: Seq<Seq<NotifyResultModel>>) -> Seq<
    ExecutedTaskModel,
>
    decreases sent.len(),
{
    if sent.len() == 0 {
        Seq::empty()
    } else {
        sent_rows(notify, sent.drop_last()) + payload_rows(notify, sent.last())
    }
}

/// Each payload is told to each notification task once: there is one row for each pair of them, those
/// of a payload together and in the order of the tasks.
pub proof fn law_every_pair_is_told_once(
    notify: Seq<ResolvedTaskModel>,
    sent: Seq<Seq<NotifyResultModel>>,
    i: int,
    j: int,
)
    requires
        0 <= i < sent.len(),
        0 <= j < notify.len(),
    ensures
        sent_rows(notify, sent).len() == sent.len() * notify.len(),
        0 <= i * notify.len() + j < sent_rows(notify, sent).len(),
        sent_rows(notify, sent)[i * notify.len() + j] == notify_row(
            notify[j],
            sent[i][j].event,
            sent[i][j].duration_ms,
        ),
    decreases sent.len(),
{
    let before = sent.drop_last();
    let (n, m) = (sent.len() as int, notify.len() as int);
    lemma_sent_len(notify, sent);
    lemma_sent_len(notify, before);
    if i < n - 1 {
        law_every_pair_is_told_once(notify, before, i, j);
        assert((n - 1) * m <= n * m) by (nonlinear_arith)
            requires
                m >= 0,
        ;
    } else {
        assert(i * m + m == n * m) by (nonlinear_arith)
            requires
                i == n - 1,
        ;
        assert(0 <= i * m) by (nonlinear_arith)
            requires
                i >= 0,
                m >= 0,
        ;
    }
}

/// The rows of notifications hold what a task printed only where the task ran, and all of them are rows
/// of notification tasks.
pub proof fn law_notification_rows(tasks: Seq<ResolvedTaskModel>, sent: Seq<Seq<NotifyResultModel>>, k: int)
    requires
        0 <= k < sent_rows(notifiers(tasks), sent).len(),
    ensures
        ({
            let row = sent_rows(notifiers(tasks), sent)[k];
            &&& row.outcome is Built || row.outcome is Failed
            &&& exists|j: int|
                0 <= j < tasks.len() && (#[trigger] tasks[j]).name == row.name && tasks[j].integration_kind == Some(
                    IntegrationTaskKind::Notify,
                )
        }),
    decreases sent.len(),
{
    let notify = notifiers(tasks);
    let before = sent_rows(notify, sent.drop_last());
    if k < before.len() {
        law_notification_rows(tasks, sent.drop_last(), k);
    } else {
        lemma_notifier(tasks, k - before.len());
    }
}

proof fn lemma_notifier(tasks: Seq<ResolvedTaskModel>, i: int)
    requires
        0 <= i < notifiers(tasks).len(),
    ensures
        exists|j: int|
            0 <= j < tasks.len() && (#[trigger] tasks[j]) == notifiers(tasks)[i] && tasks[j].integration_kind == Some(
                IntegrationTaskKind::Notify,
            ),
    decreases tasks.len(),
{
    let rest = tasks.drop_last();
    if i < notifiers(rest).len() {
        lemma_notifier(rest, i);
        let j = choose|j: int|
            0 <= j < rest.len() && (#[trigger] rest[j]) == notifiers(rest)[i] && rest[j].integration_kind == Some(
                IntegrationTaskKind::Notify,
            );
        assert(tasks[j] == notifiers(tasks)[i]);
    } else {
        assert(tasks[tasks.len() - 1] == notifiers(tasks)[i]);
    }
}

proof fn lemma_sent_len(notify: Seq<ResolvedTaskModel>, sent: Seq<Seq<NotifyResultModel>>)
    ensures
        sent_rows(notify, sent).len() == sent.len() * notify.len(),
    decreases sent.len(),
{
    let (n, m) = (sent.len() as int, notify.len() as int);
    if n > 0 {
        lemma_sent_len(notify, sent.drop_last());
        assert((n - 1) * m + m == n * m) by (nonlinear_arith);
    } else {
        assert(n * m == 0) by (nonlinear_arith)
            requires
                n == 0,
        ;
    }
}

fn rows_of_sent(notify: &Vec<ResolvedTask>, sent: &Vec<Vec<NotifyResult>>) -> (r: Vec<ExecutedTask>)
    requires
        all_told(notify.deep_view(), sent.deep_view()),
    ensures
        r.deep_view() == sent_rows(notify.deep_view(), sent.deep_view()),
        sent_as_is(sent.deep_view()),
{
    let ghost ns = deep(notify@);
    let ghost all = deep(sent@);
    let mut r: Vec<ExecutedTask> = Vec::new();
    let mut i: usize = 0;
    while i < sent.len()
        invariant
            i <= sent@.len(),
            ns == deep(notify@),
            all == deep(sent@),
            all_told(ns, all),
            deep(r@) == sent_rows(ns, all.take(i as int)),
            sent_as_is(all.take(i as int)),
        decreases sent.len() - i,
    {
        let told = &sent[i];
        let ghost before = deep(r@);
        let ghost want = payload_rows(ns, deep(told@));
        proof {
            assert(all[i as int] == deep(told@));
            assert(all.take(i + 1).drop_last() =~= all.take(i as int));
            assert(all.take(i + 1).last() == deep(told@));
            assert(before + want.take(0) =~= before);
        }
        let mut j: usize = 0;
        while j < notify.len()
            invariant
                j <= notify@.len(),
                ns == deep(notify@),
                told@.len() == notify@.len(),
                want == payload_rows(ns, deep(told@)),
                deep(r@) == before + want.take(j as int),
                forall|k: int| 0 <= k < j ==> told_as_is(#[trigger] deep(told@)[k]),
            decreases notify.len() - j,
        {
            let row = notify_task_row(&notify[j], &told[j].event, told[j].duration_ms);
            proof {
                assert(deep(told@)[j as int] == told@[j as int].deep_view());
                assert(want[j as int] == row.deep_view());
                assert((before + want.take(j as int)).push(want[j as int]) =~= before + want.take(j + 1));
            }
            r.push(row);
            j += 1;
        }
        proof {
            assert(want.take(notify@.len() as int) =~= want);
            let next = all.take(i + 1);
            assert forall|a: int, b: int| 0 <= a < next.len() && 0 <= b < next[a].len() implies told_as_is(
                #[trigger] next[a][b],
            ) by {
                if a < i {
                    assert(next[a] == all.take(i as int)[a]);
                    assert(told_as_is(all.take(i as int)[a][b]));
                }
            }
        }
        i += 1;
    }
    r
}

/// The counts with some notifications more. One that failed is no failed task.
pub open spec fn notified(s: UnitStats, rows: Seq<ExecutedTaskModel>) -> UnitStats
    decreases rows.len(),
{
    if rows.len() == 0 {
        s
    } else {
        let before = notified(s, rows.drop_last());
        let t = UnitStats { tasks: (before.tasks + 1) as usize, ..before };
        match rows.last().outcome {
            TaskOutcomeModel::Built { .. } => UnitStats { built: (before.built + 1) as usize, ..t },
            TaskOutcomeModel::Failed { .. } => UnitStats {
                notify_failures: (before.notify_failures + 1) as usize,
                ..t
            },
            _ => t,
        }
    }
}

/// The counts stay within the number of rows.
pub open spec fn within_rows(s: UnitStats, rows: Seq<ExecutedTaskModel>) -> bool {
    s.tasks <= rows.len() && s.built + s.notify_failures <= s.tasks
}

proof fn lemma_notified(s: UnitStats, before: Seq<ExecutedTaskModel>, rows: Seq<ExecutedTaskModel>)
    requires
        within_rows(s, before),
        before.len() + rows.len() <= usize::MAX,
    ensures
        within_rows(notified(s, rows), before + rows),
    decreases rows.len(),
{
    if rows.len() > 0 {
        lemma_notified(s, before, rows.drop_last());
    }
}

/// Appends the rows of notifications to a unit's rows, and counts them.
fn add_notifications(rows: &mut Vec<ExecutedTask>, stats: &mut UnitStats, results: Vec<ExecutedTask>)
    requires
        within_rows(*old(stats), old(rows).deep_view()),
    ensures
        final(rows).deep_view() == old(rows).deep_view() + results.deep_view(),
        *final(stats) == notified(*old(stats), results.deep_view()),
        final(stats).tasks == old(stats).tasks + results@.len(),
        final(stats).notify_failures == old(stats).notify_failures + failed_rows(results.deep_view()),
        within_rows(*final(stats), final(rows).deep_view()),
{
    let ghost before = deep(rows@);
    let ghost first = *stats;
    let ghost all = deep(results@);
    let mut results = results;
    let n: usize = results.len();
    let start: usize = rows.len();
    rows.append(&mut results);
    let total: usize = rows.len();
    let ghost after = deep(rows@);
    assert(after == before + all);
    let mut i: usize = 0;
    while i < n
        invariant
            i <= n == all.len(),
            start == before.len(),
            total == rows@.len(),
            total == start + n,
            after == deep(rows@),
            after == before + all,
            within_rows(first, before),
            *stats == notified(first, all.take(i as int)),
        decreases n - i,
    {
        proof {
            lemma_notified(first, before, all.take(i as int));
            assert(all.take(i + 1).drop_last() =~= all.take(i as int));
            assert(all.take(i + 1).last() == all[i as int]);
            assert(after[start + i] == all[i as int]);
        }
        stats.tasks += 1;
        match &rows[start + i].outcome {
            TaskOutcome::Built { .. } => {
                stats.built += 1;
            },
            TaskOutcome::Failed { .. } => {
                stats.notify_failures += 1;
            },
            _ => {},
        }
        i += 1;
    }
    proof {
        lemma_notified(first, before, all);
        law_each_notification_counts(first, all);
    }
}

/// A notification that failed does not count as a failed task.
pub proof fn law_notify_failures_do_not_fail(s: UnitStats, rows: Seq<ExecutedTaskModel>)
    ensures
        notified(s, rows).failed == s.failed,
        notified(s, rows).hits == s.hits,
        notified(s, rows).install_failures == s.install_failures,
    decreases rows.len(),
{
    if rows.len() > 0 {
        law_notify_failures_do_not_fail(s, rows.drop_last());
    }
}

/// How many rows failed.
pub open spec fn failed_rows(rows: Seq<ExecutedTaskModel>) -> nat
    decreases rows.len(),
{
    if rows.len() == 0 {
        0
    } else {
        failed_rows(rows.drop_last()) + (if rows.last().outcome is Failed {
            1nat
        } else {
            0
        })
    }
}

/// Each notification counts as a task, and each that failed as a notification that failed.
pub proof fn law_each_notification_counts(s: UnitStats, rows: Seq<ExecutedTaskModel>)
    requires
        s.tasks + rows.len() <= usize::MAX,
        s.built + s.notify_failures <= s.tasks,
    ensures
        notified(s, rows).tasks == s.tasks + rows.len(),
        notified(s, rows).notify_failures == s.notify_failures + failed_rows(rows),
        notified(s, rows).built + notified(s, rows).notify_failures <= notified(s, rows).tasks,
    decreases rows.len(),
{
    if rows.len() > 0 {
        law_each_notification_counts(s, rows.drop_last());
    }
}

/// The payloads to send: one for each deploy that is announced, in order.
pub fn payloads_to_send(
    opts: &CiOptions,
    resolved: &Vec<ResolvedTask>,
    exec_tasks: &Vec<ExecutedTask>,
    unit_name: &str,
    monad_name: &str,
    version: &str,
) -> (r: Vec<NotificationPayload>)
    ensures
        r.deep_view() == announced(opts.deep_view(), resolved.deep_view(), exec_tasks.deep_view()).map_values(
            |at: usize|
                payload_of(
                    exec_tasks.deep_view()[at as int],
                    unit_name@,
                    monad_name@,
                    opts.environment.deep_view(),
                    version@,
                ),
        ),
{
    let places = rows_to_announce(opts, resolved, exec_tasks);
    let environment = match &opts.environment {
        Some(e) => Some(e.as_str()),
        None => None,
    };
    let ghost rows = deep(exec_tasks@);
    let ghost env = opts.environment.deep_view();
    let ghost want = places@.map_values(
        |at: usize| payload_of(rows[at as int], unit_name@, monad_name@, env, version@),
    );
    let mut r: Vec<NotificationPayload> = Vec::new();
    let mut i: usize = 0;
    while i < places.len()
        invariant
            i <= places@.len(),
            rows == deep(exec_tasks@),
            env == environment.deep_view(),
            forall|k: int| 0 <= k < places@.len() ==> #[trigger] places@[k] < exec_tasks@.len(),
            want == places@.map_values(
                |at: usize| payload_of(rows[at as int], unit_name@, monad_name@, env, version@),
            ),
            deep(r@) == want.take(i as int),
        decreases places.len() - i,
    {
        let p = build_notification_payload(
            &exec_tasks[places[i]],
            unit_name,
            monad_name,
            environment,
            version,
        );
        proof {
            assert(want[i as int] == p.deep_view());
        }
        r.push(p);
        i += 1;
    }
    r
}

/// Adds the rows of a unit's notifications to its rows, and counts them. `sent` holds, for each
/// payload that [`payloads_to_send`] gives, what came of each notification task.
pub fn fan_out_notifications(
    opts: &CiOptions,
    resolved: &Vec<ResolvedTask>,
    rows: &mut Vec<ExecutedTask>,
    stats: &mut UnitStats,
    sent: &Vec<Vec<NotifyResult>>,
)
    requires
        within_rows(*old(stats), old(rows).deep_view()),
        sent@.len() == announced(opts.deep_view(), resolved.deep_view(), old(rows).deep_view()).len(),
        all_told(notifiers(resolved.deep_view()), sent.deep_view()),
    ensures
        final(rows).deep_view() == old(rows).deep_view() + sent_rows(
            notifiers(resolved.deep_view()),
            sent.deep_view(),
        ),
        *final(stats) == notified(
            *old(stats),
            sent_rows(notifiers(resolved.deep_view()), sent.deep_view()),
        ),
        final(rows)@.len() == old(rows)@.len() + announced(
            opts.deep_view(),
            resolved.deep_view(),
            old(rows).deep_view(),
        ).len() * notifiers(resolved.deep_view()).len(),
        final(stats).tasks - old(stats).tasks == final(rows)@.len() - old(rows)@.len(),
        final(stats).notify_failures == old(stats).notify_failures + failed_rows(
            sent_rows(notifiers(resolved.deep_view()), sent.deep_view()),
        ),
        final(stats).failed == old(stats).failed,
        sent_as_is(sent.deep_view()),
        within_rows(*final(stats), final(rows).deep_view()),
{
    let notify = notify_tasks(resolved);
    let results = rows_of_sent(&notify, sent);
    proof {
        let ns = notifiers(resolved.deep_view());
        lemma_sent_len(ns, sent.deep_view());
        law_notify_failures_do_not_fail(*stats, sent_rows(ns, sent.deep_view()));
    }
    add_notifications(rows, stats, results);
}

/// The unit of a replay in which nothing is sent: there is no notification task, or nothing to tell.
pub open spec fn replay_skipped(
    name: Seq<char>,
    path: Seq<char>,
    language: Option<Seq<char>>,
    tasks: Seq<ResolvedTaskModel>,
    payloads: nat,
) -> Option<ExecutedUnitModel> {
    if notifiers(tasks).len() == 0 {
        Some(
            ExecutedUnitModel {
                name,
                path,
                language,
                install: None,
                tasks: seq![marker("<no-notify>"@, "unit has no Notify-kind integration task"@)],
            },
        )
    } else if payloads == 0 {
        Some(
            ExecutedUnitModel {
                name,
                path,
                language,
                install: None,
                tasks: seq![
                    marker(
                        "<no-prior-deploy>"@,
                        "no prior deploy cached for unit '"@ + name + "' — run `monad deploy` first"@,
                    ),
                ],
            },
        )
    } else {
        None
    }
}

/// The unit of a replay in which nothing is sent; `None` where there is something to send to each
/// notification task of the unit.
fn notify_only_skip(
    name: &str,
    path: &str,
    language: Option<&str>,
    resolved: &Vec<ResolvedTask>,
    payloads: usize,
) -> (r: Option<ExecutedUnit>)
    ensures
        r.deep_view() == replay_skipped(
            name@,
            path@,
            language.deep_view(),
            resolved.deep_view(),
            payloads as nat,
        ),
{
    let notify = notify_tasks(resolved);
    let none_to_notify = notify.len() == 0;
    if !none_to_notify && payloads != 0 {
        return None;
    }
    let row = if none_to_notify {
        marker_row(copy("<no-notify>"), copy("unit has no Notify-kind integration task"))
    } else {
        marker_row(
            copy("<no-prior-deploy>"),
            cat3("no prior deploy cached for unit '", name, "' — run `monad deploy` first"),
        )
    };
    let ghost m = row.deep_view();
    let mut tasks: Vec<ExecutedTask> = Vec::new();
    tasks.push(row);
    assert(deep(tasks@) =~= seq![m]);
    Some(
        ExecutedUnit {
            name: copy(name),
            path: copy(path),
            language: match language {
                Some(l) => Some(copy(l)),
                None => None,
            },
            install: None,
            tasks,
        },
    )
}

/// The unit of a replay, and its counts. `sent` holds, for each payload that is kept, what came of each
/// notification task.
pub fn notify_only_unit(
    name: &str,
    path: &str,
    language: Option<&str>,
    resolved: &Vec<ResolvedTask>,
    sent: &Vec<Vec<NotifyResult>>,
) -> (r: (ExecutedUnit, UnitStats))
    requires
        all_told(notifiers(resolved.deep_view()), sent.deep_view()),
    ensures
        ({
            let notify = notifiers(resolved.deep_view());
            match replay_skipped(name@, path@, language.deep_view(), resolved.deep_view(), sent@.len()) {
                Some(u) => r.0.deep_view() == u && r.1 == zero_stats(),
                None => {
                    let rows = sent_rows(notify, sent.deep_view());
                    &&& r.0.deep_view() == (ExecutedUnitModel {
                        name: name@,
                        path: path@,
                        language: language.deep_view(),
                        install: None,
                        tasks: rows,
                    })
                    &&& r.0.tasks@.len() == sent@.len() * notify.len()
                    &&& r.1 == notified(zero_stats(), rows)
                    &&& r.1.notify_failures == failed_rows(rows)
                    &&& sent_as_is(sent.deep_view())
                },
            }
        }),
        r.1.tasks == sent@.len() * notifiers(resolved.deep_view()).len(),
        r.1.failed == 0,
        r.0.install is None,
{
    let notify = notify_tasks(resolved);
    let ghost ns = notifiers(resolved.deep_view());
    let ghost all = sent.deep_view();
    proof {
        lemma_sent_len(ns, all);
    }
    if let Some(done) = notify_only_skip(name, path, language, resolved, sent.len()) {
        proof {
            assert(sent@.len() * ns.len() == 0) by (nonlinear_arith)
                requires
                    sent@.len() == 0 || ns.len() == 0,
            ;
        }
        return (done, UnitStats::default());
    }
    let results = rows_of_sent(&notify, sent);
    let mut rows: Vec<ExecutedTask> = Vec::new();
    let mut stats = UnitStats::default();
    let ghost want = results.deep_view();
    add_notifications(&mut rows, &mut stats, results);
    proof {
        assert(deep(rows@) =~= want);
        law_notify_failures_do_not_fail(zero_stats(), want);
    }
    (
        ExecutedUnit {
            name: copy(name),
            path: copy(path),
            language: match language {
                Some(l) => Some(copy(l)),
                None => None,
            },
            install: None,
            tasks: rows,
        },
        stats,
    )
}

/// Where notifications are asked for and there is a notification task, every row about a deploy is
/// announced, and they are announced in their order, each once.
pub proof fn law_every_deploy_is_announced(o: CiOptionsModel, tasks: Seq<ResolvedTaskModel>, rows: Seq<ExecutedTaskModel>)
    requires
        rows.len() <= usize::MAX,
    ensures
        o.run_notify_kinds && notifiers(tasks).len() > 0 ==> forall|i: int|
            0 <= i < rows.len() && deploys(tasks, (#[trigger] rows[i]).name) ==> announced(o, tasks, rows).contains(
                i as usize,
            ),
        forall|i: int, j: int|
            0 <= i < j < announced(o, tasks, rows).len() ==> (#[trigger] announced(o, tasks, rows)[i]) < (
            #[trigger] announced(o, tasks, rows)[j]),
{
    lemma_deploy_rows(tasks, rows);
}

proof fn lemma_deploy_rows(tasks: Seq<ResolvedTaskModel>, rows: Seq<ExecutedTaskModel>)
    requires
        rows.len() <= usize::MAX,
    ensures
        forall|i: int|
            0 <= i < rows.len() && deploys(tasks, (#[trigger] rows[i]).name) ==> deploy_rows(tasks, rows).contains(
                i as usize,
            ),
        forall|i: int| 0 <= i < deploy_rows(tasks, rows).len() ==> (#[trigger] deploy_rows(tasks, rows)[i]) < rows.len(),
        forall|i: int, j: int|
            0 <= i < j < deploy_rows(tasks, rows).len() ==> (#[trigger] deploy_rows(tasks, rows)[i]) < (
            #[trigger] deploy_rows(tasks, rows)[j]),
    decreases rows.len(),
{
    if rows.len() > 0 {
        let rest = rows.drop_last();
        let before = deploy_rows(tasks, rest);
        lemma_deploy_rows(tasks, rest);
        assert forall|i: int| 0 <= i < rows.len() && deploys(tasks, (#[trigger] rows[i]).name) implies deploy_rows(
            tasks,
            rows,
        ).contains(i as usize) by {
            if i < rest.len() {
                assert(rest[i] == rows[i]);
                assert(before.contains(i as usize));
            }
            crate::deep::lemma_push_contains(before, (rows.len() - 1) as usize, i as usize);
        }
    }
}

/// The notification tasks of a unit are those of its tasks that are notifications, and no others.
pub proof fn law_notifiers(tasks: Seq<ResolvedTaskModel>, t: ResolvedTaskModel)
    ensures
        notifiers(tasks).contains(t) <==> tasks.contains(t) && t.integration_kind == Some(
            IntegrationTaskKind::Notify,
        ),
    decreases tasks.len(),
{
    if tasks.len() > 0 {
        let rest = tasks.drop_last();
        law_notifiers(rest, t);
        crate::deep::lemma_last_contains(tasks, t);
        crate::deep::lemma_push_contains(notifiers(rest), tasks.last(), t);
    }
}

/// A payload tells of a deploy which it was, where and in which environment, what came of it, and what it
/// printed.
pub proof fn law_what_a_payload_tells(
    deploy: ExecutedTaskModel,
    unit_name: Seq<char>,
    monad_name: Seq<char>,
    environment: Option<Seq<char>>,
    version: Seq<char>,
)
    ensures
        ({
            let p = payload_of(deploy, unit_name, monad_name, environment, version);
            &&& p.environment == environment
            &&& p.monad_version == version
            &&& p.trigger.task_name == deploy.name
            &&& p.trigger.unit_name == unit_name
            &&& p.trigger.monad_name == monad_name
            &&& p.trigger.duration_ms == deploy.duration_ms
            &&& p.trigger.cache_key == deploy.key
            &&& deploy.output_excerpt matches Some(t) ==> p.trigger.output_excerpt == t
            &&& deploy.output_excerpt is None ==> p.trigger.output_excerpt.len() == 0
            &&& deploy.outcome matches TaskOutcomeModel::Built { exit_code } ==> p.trigger.outcome == "built"@
                && p.trigger.exit_code == exit_code && p.trigger.stderr_excerpt is None
            &&& deploy.outcome matches TaskOutcomeModel::Failed { exit_code, stderr_excerpt } ==> p.trigger.outcome
                == "failed"@ && p.trigger.exit_code == exit_code && (stderr_excerpt.len() > 0
                ==> p.trigger.stderr_excerpt == Some(stderr_excerpt)) && (stderr_excerpt.len() == 0
                ==> p.trigger.stderr_excerpt is None)
            &&& !(deploy.outcome is Failed) ==> p.trigger.stderr_excerpt is None
            &&& deploy.outcome is CacheHit ==> p.trigger.outcome == "cache_hit"@ && p.trigger.exit_code == 0
            &&& deploy.outcome is Skipped ==> p.trigger.outcome == "skipped"@ && p.trigger.exit_code == -1
            &&& deploy.outcome is DeployUnchanged ==> p.trigger.outcome == "deploy_unchanged"@
                && p.trigger.exit_code == 0
        }),
{
}

/// A notification succeeded if and only if it ran and ended with 0; its row says so, under its name and
/// with its command.
pub proof fn law_when_a_notification_succeeded(t: ResolvedTaskModel, event: NotifyEventModel, duration_ms: u64)
    ensures
        ({
            let row = notify_row(t, event, duration_ms);
            &&& row.name == t.name && row.run == t.run && row.duration_ms == duration_ms
            &&& row.outcome is Built <==> (event matches NotifyEventModel::Exited { code, .. } && code == Some(0i32))
            &&& row.outcome is Failed <==> !(event matches NotifyEventModel::Exited { code, .. } && code == Some(0i32))
            &&& event is Refused ==> row.attempts == 0
            &&& !(event is Refused) ==> row.attempts == 1
            &&& event matches NotifyEventModel::Exited { code: Some(c), .. } ==> (c != 0 ==> (row.outcome matches
                TaskOutcomeModel::Failed { exit_code, .. } && exit_code == c))
        }),
{
}

/// A text as a file name is as long as the text and holds nothing but letters, digits, `-` and `_`; a text
/// that already is one stays as it is.
pub proof fn law_file_names_are_safe(s: Seq<char>)
    ensures
        safe(s).len() == s.len(),
        forall|i: int|
            0 <= i < s.len() ==> {
                let c = #[trigger] safe(s)[i];
                ('a' <= c <= 'z') || ('A' <= c <= 'Z') || ('0' <= c <= '9') || c == '-' || c == '_'
            },
        forall|i: int|
            0 <= i < s.len() && (('a' <= s[i] <= 'z') || ('A' <= s[i] <= 'Z') || ('0' <= s[i] <= '9') || s[i] == '-'
                || s[i] == '_') ==> #[trigger] safe(s)[i] == s[i],
        safe(safe(s)) == safe(s),
{
    assert(safe(safe(s)) =~= safe(s));
}

/// In a replay nothing is sent if and only if there is no notification task or no payload; then one row
/// says why.
pub proof fn law_when_nothing_is_replayed(
    name: Seq<char>,
    path: Seq<char>,
    language: Option<Seq<char>>,
    tasks: Seq<ResolvedTaskModel>,
    payloads: nat,
)
    ensures
        replay_skipped(name, path, language, tasks, payloads) is Some <==> payloads == 0 || !(exists|i: int|
            0 <= i < tasks.len() && (#[trigger] tasks[i]).integration_kind == Some(IntegrationTaskKind::Notify)),
        replay_skipped(name, path, language, tasks, payloads) matches Some(u) ==> u.name == name && u.tasks.len() == 1
            && u.tasks[0].outcome is Skipped,
{
    let notify = notifiers(tasks);
    if notify.len() > 0 {
        law_notifiers(tasks, notify[0]);
        assert(notify.contains(notify[0]));
        let i = choose|i: int| 0 <= i < tasks.len() && tasks[i] == notify[0];
        assert(tasks[i].integration_kind == Some(IntegrationTaskKind::Notify));
    }
    if exists|i: int| 0 <= i < tasks.len() && (#[trigger] tasks[i]).integration_kind == Some(
        IntegrationTaskKind::Notify,
    ) {
        let i = choose|i: int|
            0 <= i < tasks.len() && (#[trigger] tasks[i]).integration_kind == Some(IntegrationTaskKind::Notify);
        law_notifiers(tasks, tasks[i]);
        assert(tasks.contains(tasks[i]));
    }
}

/// Payloads that were kept are told in the order of their tasks' names, and none is lost or told twice.
pub proof fn law_payloads_come_by_task(payloads: Seq<NotificationPayloadModel>, p: NotificationPayloadModel)
    ensures
        ({
            let all = sort_by(payloads, payload_before());
            &&& all.len() == payloads.len()
            &&& all.contains(p) <==> payloads.contains(p)
            &&& forall|i: int, j: int|
                0 <= i < j < all.len() ==> !crate::order::less(
                    (#[trigger] all[j]).trigger.task_name,
                    (#[trigger] all[i]).trigger.task_name,
                )
        }),
{
    let text = |x: NotificationPayloadModel| x.trigger.task_name;
    crate::sort::law_sorted_by_text(payloads, payload_before(), text, p);
    let all = sort_by(payloads, payload_before());
    assert forall|i: int, j: int| 0 <= i < j < all.len() implies !crate::order::less(
        (#[trigger] all[j]).trigger.task_name,
        (#[trigger] all[i]).trigger.task_name,
    ) by {
        assert(!crate::order::less(text(sort_by(payloads, payload_before())[j]), text(sort_by(payloads, payload_before())[i])));
    }
}

proof fn lemma_safe_is_relative(s: Seq<char>)
    ensures
        !crate::path::is_absolute(safe(s)),
{
    law_file_names_are_safe(s);
}

/// The payloads about a unit's deploys lie in the workspace, whatever the names of the monad and the unit hold.
pub proof fn law_payloads_lie_in_the_workspace(root: Seq<char>, monad: Seq<char>, unit: Seq<char>)
    requires
        root.len() > 0,
    ensures
        crate::path::within(sidecar_dir(root, monad, unit), path_joined(path_joined(root, ".monad"@), "notification"@)),
        crate::path::within(sidecar_dir(root, monad, unit), root),
{
    reveal_strlit(".monad");
    reveal_strlit("notification");
    let a = path_joined(root, ".monad"@);
    let b = path_joined(a, "notification"@);
    let c = path_joined(b, safe(monad));
    let d = path_joined(c, safe(unit));
    lemma_safe_is_relative(monad);
    lemma_safe_is_relative(unit);
    crate::path::law_components_below(root, ".monad"@);
    crate::path::law_components_below(a, "notification"@);
    crate::path::law_components_below(b, safe(monad));
    crate::path::law_components_below(c, safe(unit));
    crate::path::law_inside_is_passed_on(d, c, b);
    crate::path::law_inside_is_passed_on(d, b, a);
    crate::path::law_inside_is_passed_on(d, a, root);
}

} // verus!
