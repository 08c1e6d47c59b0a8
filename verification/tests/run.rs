use std::collections::BTreeMap;

use monad::cascade::{compute, content_files, content_hash, deps_for_key, SourceFile, UnitSig};
use monad::command::{container_plan, forwarded_env, preflight_error};
use monad::config::{
    AdapterFacts, CacheConfig, CliRequirement, ContainerMode, IntegrationFacts, IntegrationTask,
    IntegrationTaskKind, LoadedUnit, Profile, RepoConfig, Task, UnitConfig, Workspace,
};
use monad::deploy_state::{rfc3339, DeployState};
use monad::diagnostic_parsers::{Diagnostic, ParserId, Severity};
use monad::digest::{digest, to_hex};
use monad::excerpt::{build_output_excerpt, tail_truncate};
use monad::execute::{
    batches, capture_diagnostics, diagnostic_task, ensure_installed, level_targets,
    profile_batches, record_deploy, resolve_target, writes_through, Batch, DiagnosticRerun, ExecutionRun, ExecutionStep,
    InstallDecision, InstallLedger, InstallProbe, InstallTurn, TargetRef, TargetRefError,
};
use monad::graph::build;
use monad::keys::{cache_key, compute_key, key_files, key_material, KeyMaterial};
use monad::notification::{
    build_notification_payload, exec_tasks_index_deploys, fan_out_notifications, notification_sidecar_path,
    notify_only_unit, notify_task_row, notify_tasks, order_sidecars, payloads_to_send, rows_to_announce,
    NotificationPayload, NotifyEvent, NotifyResult, NOTIFICATION_PAYLOAD_SCHEMA_VERSION,
};
use monad::plan::{container_image_for_plan, profile_targets, unit_targets};
use monad::run::{
    first_step, next_step, CiOptions, ExecutedTask, ExecutedUnit, ExecutionReport, InstallRecord,
    RunEvent, RunStep, TaskAttempt, TaskOutcome, UnitStats,
};
use monad::strmap::StrMap;
use monad::tasks::{resolve_tasks, ResolvedTask};
use monad::unit_run::{deploy_state_hit, UnitRun, UnitStep};

fn texts(v: &[&str]) -> Vec<String> {
    v.iter().map(|s| s.to_string()).collect()
}

fn unit(name: &str, tasks: &[(&str, &str)]) -> UnitConfig {
    let mut map = StrMap::new();
    for (task, run) in tasks {
        map.insert(task.to_string(), shell_task(run));
    }
    UnitConfig {
        name: name.into(),
        language: None,
        depends_on: vec![],
        inputs: vec![],
        outputs: vec![],
        force_independent: false,
        integrations: vec![],
        notifications: vec![],
        tasks: map,
    }
}

fn shell_task(run: &str) -> Task {
    Task {
        run: Some(run.into()),
        inputs: None,
        outputs: None,
        workspace_outputs: None,
        env: vec![],
        retry: 0,
    }
}

fn repo(fail_fast: bool) -> RepoConfig {
    RepoConfig {
        parallelism: 4,
        fail_fast,
        container: ContainerMode::Never,
        image: None,
        cache: CacheConfig {
            remote: None,
            remote_region: None,
            remote_endpoint: None,
            remote_token_env: None,
            remote_write_through: false,
        },
        pins: StrMap::new(),
        telemetry_enabled: true,
        environments: StrMap::new(),
    }
}

fn loaded(rel: &str, config: UnitConfig) -> LoadedUnit {
    LoadedUnit { rel: rel.into(), dir: format!("/ws/{rel}"), config }
}

fn workspace_with(
    fail_fast: bool,
    profiles: &[(&str, &[&str])],
    units: &dyn Fn() -> Vec<(&'static str, UnitConfig)>,
) -> Workspace {
    let mut by_profile = StrMap::new();
    for (name, paths) in profiles {
        by_profile.insert(
            name.to_string(),
            Profile {
                name: name.to_string(),
                source: format!("/ws/profiles/{name}.toml"),
                units: texts(paths),
            },
        );
    }
    let mut by_path = StrMap::new();
    for (rel, config) in units() {
        by_path.insert(rel.to_string(), loaded(rel, config));
    }
    let mut by_name = StrMap::new();
    for (rel, config) in units() {
        by_name.insert(config.name.clone(), loaded(rel, config));
    }
    Workspace {
        root: "/ws".into(),
        repo: repo(fail_fast),
        profiles: by_profile,
        units_by_path: by_path,
        units_by_name: by_name,
    }
}

struct Adapter {
    id: &'static str,
    missing: Option<&'static str>,
    install_fails: bool,
    scope: Option<&'static str>,
    lint_rerun: Option<String>,
}

fn adapter(id: &'static str) -> Adapter {
    Adapter { id, missing: None, install_fails: false, scope: None, lint_rerun: None }
}

/// A machine with a disk, a cache and a shell, all in memory.
struct Host {
    ws: Workspace,
    adapter: Option<Adapter>,
    integrations: Vec<IntegrationFacts>,
    env: StrMap<String>,
    on_path: Vec<String>,
    disk: BTreeMap<String, Vec<u8>>,
    cache: BTreeMap<String, Vec<(String, Vec<u8>)>>,
    /// What the units of a batch put into the cache: they run at the same time, so none finds it there.
    stored: BTreeMap<String, Vec<(String, Vec<u8>)>>,
    state: DeployState,
    sidecars: BTreeMap<String, NotificationPayload>,
    sent: Vec<(String, NotificationPayload)>,
    started: Vec<String>,
    counts: BTreeMap<String, u32>,
    installs: usize,
    remote_has: usize,
    remote_put: usize,
}

fn host(ws: Workspace) -> Host {
    let mut env = StrMap::new();
    env.insert("PATH".into(), "/usr/bin".into());
    Host {
        ws,
        adapter: None,
        integrations: vec![],
        env,
        on_path: vec![],
        disk: BTreeMap::new(),
        cache: BTreeMap::new(),
        stored: BTreeMap::new(),
        state: DeployState::default(),
        sidecars: BTreeMap::new(),
        sent: vec![],
        started: vec![],
        counts: BTreeMap::new(),
        installs: 0,
        remote_has: 0,
        remote_put: 0,
    }
}

fn copy_payload(p: &NotificationPayload) -> NotificationPayload {
    let t = &p.trigger;
    NotificationPayload {
        schema_version: p.schema_version,
        monad_version: p.monad_version.clone(),
        environment: p.environment.clone(),
        trigger: monad::notification::NotificationPayloadTrigger {
            task_name: t.task_name.clone(),
            unit_name: t.unit_name.clone(),
            monad_name: t.monad_name.clone(),
            outcome: t.outcome.clone(),
            exit_code: t.exit_code,
            duration_ms: t.duration_ms,
            cache_key: t.cache_key.clone(),
            integration_kind: t.integration_kind.clone(),
            output_excerpt: t.output_excerpt.clone(),
            stderr_excerpt: t.stderr_excerpt.clone(),
        },
    }
}

impl Host {
    fn put(&mut self, path: &str, content: &str) {
        self.disk.insert(path.into(), content.as_bytes().to_vec());
    }

    fn files_in(&self, rel: &str) -> Vec<SourceFile> {
        let prefix = format!("{rel}/");
        self.disk
            .iter()
            .filter(|(p, _)| p.starts_with(&prefix))
            .map(|(p, c)| SourceFile { rel: p[prefix.len()..].to_string(), content: c.clone() })
            .collect()
    }

    fn chosen(&self, rel: &str, names: &[String]) -> Vec<SourceFile> {
        let all = self.files_in(rel);
        names
            .iter()
            .map(|n| SourceFile {
                rel: n.clone(),
                content: all.iter().find(|f| &f.rel == n).unwrap().content.clone(),
            })
            .collect()
    }

    /// Runs a command line in a unit's directory: the exit code and what it printed.
    fn shell(&mut self, rel: &str, run: &str, env: &[(String, String)]) -> (i32, Vec<u8>, Vec<u8>) {
        self.started.push(format!("{rel}: {run}"));
        let n = self.counts.entry(run.to_string()).or_insert(0);
        *n += 1;
        let count = *n;
        if let Some(code) = run.strip_prefix("exit ") {
            return (code.parse().unwrap(), vec![], vec![]);
        }
        if let Some(from) = run.strip_prefix("succeed-from ") {
            let from: u32 = from.parse().unwrap();
            return (if count >= from { 0 } else { 1 }, vec![], vec![]);
        }
        if let Some(text) = run.strip_prefix("print ") {
            return (0, text.as_bytes().to_vec(), vec![]);
        }
        if let Some(text) = run.strip_prefix("complain ") {
            return (9, vec![], text.as_bytes().to_vec());
        }
        if let Some(text) = run.strip_prefix("garble ") {
            return (99, text.as_bytes().to_vec(), vec![]);
        }
        if let Some(name) = run.strip_prefix("save-env ") {
            let value = env.iter().find(|(k, _)| k == name).map(|(_, v)| v.clone()).unwrap_or_default();
            self.put(&format!("{rel}/out.txt"), &value);
            return (0, vec![], vec![]);
        }
        if let Some((from, to)) = run.strip_prefix("cp ").and_then(|r| r.split_once(' ')) {
            let content = self.disk.get(&format!("{rel}/{from}")).unwrap().clone();
            self.disk.insert(format!("{rel}/{to}"), content);
            return (0, vec![], vec![]);
        }
        if let Some(path) = run.strip_prefix("need ") {
            return (if self.disk.contains_key(path) { 0 } else { 1 }, vec![], vec![]);
        }
        if let Some(path) = run.strip_prefix("touch ") {
            self.put(path, "done");
            return (0, vec![], vec![]);
        }
        assert!(run == "true", "unknown command {run}");
        (0, vec![], vec![])
    }

    fn run_task(&mut self, rel: &str, task: &ResolvedTask, key: &str, opts: &CiOptions) -> TaskAttempt {
        let mut step = first_step(task, opts);
        loop {
            let event = match &step {
                RunStep::CheckLocal => match self.cache.get(key) {
                    Some(outputs) => {
                        for (path, content) in outputs.clone() {
                            self.disk.insert(path, content);
                        }
                        RunEvent::Restored
                    }
                    None => RunEvent::Absent,
                },
                RunStep::CheckRemote => {
                    self.remote_has += 1;
                    RunEvent::Absent
                }
                RunStep::Run { .. } => {
                    let env = forwarded_env(&task.env, &opts.secret_aliases, &self.env);
                    let (exit_code, stdout, stderr) = self.shell(rel, &task.run, &env);
                    RunEvent::Exited { exit_code, stdout, stderr }
                }
                RunStep::Done { .. } => unreachable!(),
            };
            step = next_step(task, step, event);
            if let RunStep::Done { result, store, write_through } = step {
                if store {
                    let outputs = task
                        .outputs
                        .iter()
                        .filter_map(|o| {
                            let path = format!("{rel}/{o}");
                            self.disk.get(&path).map(|c| (path.clone(), c.clone()))
                        })
                        .collect();
                    self.stored.insert(key.to_string(), outputs);
                    self.remote_put += 1;
                }
                if write_through && writes_through(&self.ws.repo.cache, true, true) {
                    self.remote_has += 1;
                    self.remote_put += 1;
                }
                return result;
            }
        }
    }

    fn diagnostics(&mut self, rel: &str, task: &ResolvedTask, attempt: &TaskAttempt) -> Vec<Diagnostic> {
        let failed = matches!(attempt.outcome, TaskOutcome::Failed { .. });
        let hook = self.adapter.as_ref().and_then(|a| a.lint_rerun.clone());
        match hook {
            Some(command) if failed && task.name == "lint" => {
                let again = diagnostic_task(task, &DiagnosticRerun::Replace(command));
                let (_, out, err) = self.shell(rel, &again.run, &[]);
                capture_diagnostics(ParserId::CargoMessage, &out, &err, &format!("/ws/{rel}"), "/ws")
            }
            _ => vec![],
        }
    }

    fn install(
        &mut self,
        rel: &str,
        opts: &CiOptions,
        ledger: &mut InstallLedger,
    ) -> Option<InstallRecord> {
        let (missing, fails, scope) = match &self.adapter {
            Some(a) => (a.missing, a.install_fails, a.scope),
            None => (None, false, None),
        };
        let has = self.adapter.is_some();
        let mut decision = ensure_installed(opts, has, None);
        if let InstallDecision::Probe = decision {
            let probe = match missing {
                Some(reason) => InstallProbe::Missing { reason: reason.into() },
                None => InstallProbe::Ready,
            };
            decision = ensure_installed(opts, has, Some(probe));
        }
        match decision {
            InstallDecision::Install { reason } => {
                let scope = scope.map(String::from).unwrap_or_else(|| format!("/ws/{rel}"));
                match ledger.turn(&scope) {
                    InstallTurn::Run => {
                        self.installs += 1;
                        let error = if fails { Some("boom".to_string()) } else { None };
                        ledger.made(reason, &scope, 3, error)
                    }
                    InstallTurn::Reuse { record } => record,
                }
            }
            _ => None,
        }
    }

    fn tasks_of(&self, u: &UnitConfig) -> Vec<ResolvedTask> {
        match resolve_tasks(u, self.facts().as_ref(), &self.integrations) {
            Ok(t) => t,
            Err(e) => panic!("{}", e.message()),
        }
    }

    fn facts(&self) -> Option<AdapterFacts> {
        self.adapter.as_ref().map(|a| AdapterFacts {
            id: a.id.into(),
            default_tasks: vec![],
            fingerprint_files: vec![],
            derived_paths: vec![],
            required_toolchain: None,
            resolved_toolchain: None,
        })
    }

    fn notify(&mut self, rel: &str, task: &ResolvedTask, payload: &NotificationPayload) -> NotifyResult {
        let event = match preflight_error(task, &StrMap::new(), &self.env, &self.on_path) {
            Some(message) => NotifyEvent::Refused { message },
            None => {
                self.sent.push((task.name.clone(), copy_payload(payload)));
                let (code, stdout, stderr) = self.shell(rel, &task.run, &[]);
                NotifyEvent::Exited { code: Some(code), stdout, stderr }
            }
        };
        NotifyResult { event, duration_ms: 1 }
    }

    /// Builds the graph of a profile: the batches of its units, and their signatures.
    fn prepare(&self, profile: &str, opts: &CiOptions) -> Result<(Vec<Batch>, StrMap<UnitSig>), String> {
        let graph = build(&self.ws, profile).map_err(|e| e.message())?;
        let facts = self.facts();
        let mut contents = StrMap::new();
        for name in graph.flattened() {
            let u = self.ws.units_by_name.get(name).unwrap();
            let walked: Vec<String> = self.files_in(&u.rel).into_iter().map(|f| f.rel).collect();
            let names = match content_files(&u.config, facts.as_ref(), Some(&walked)) {
                Ok(v) => v,
                Err(e) => panic!("{e:?}"),
            };
            contents.insert(name.to_string(), content_hash(name, &self.chosen(&u.rel, &names)));
        }
        let sigs = compute(&self.ws, &graph, &contents).map_err(|e| e.message())?;
        let queue = profile_batches(&self.ws, &graph.levels, &opts.unit_filter, self.ws.repo.parallelism);
        Ok((queue, sigs))
    }

    fn run_unit(
        &mut self,
        profile: &str,
        name: &str,
        opts: &CiOptions,
        sigs: &StrMap<UnitSig>,
        ledger: &mut InstallLedger,
    ) -> (ExecutedUnit, UnitStats) {
        let facts = self.facts();
        let u = self.ws.units_by_name.get(name).unwrap();
        let rel = u.rel.clone();
        let tasks = self.tasks_of(&u.config);
        let resolved = self.tasks_of(&u.config);
        let deps = deps_for_key(&u.config, sigs);
        let language = facts.as_ref().map(|a| a.id.clone());
        let mut run = UnitRun::start(name, &rel, language.as_deref(), tasks, opts, self.ws.repo.fail_fast);
        if run.step == UnitStep::Prepare {
            let record = self.install(&rel, opts, ledger);
            run.installed(opts, record);
        }
        while let UnitStep::Task { index } = run.step {
            let task = &resolved[index];
            if let Some(message) = preflight_error(task, &opts.secret_aliases, &self.env, &self.on_path) {
                run.refuse(opts, message, 0);
                continue;
            }
            let walked: Vec<String> = self.files_in(&rel).into_iter().map(|f| f.rel).collect();
            let names = match key_files(task, facts.as_ref(), Some(&walked)) {
                Ok(v) => v,
                Err(e) => panic!("{e:?}"),
            };
            let files = self.chosen(&rel, &names);
            let (key, _) = compute_key(
                name,
                facts.as_ref(),
                task,
                &deps,
                container_image_for_plan(&self.ws.repo).as_deref(),
                &run.dep_keys(),
                &self.env,
                "0.3.7",
                "x86_64-linux",
                &files,
            );
            let attempt = match deploy_state_hit(task, opts, &self.state, name, &key) {
                Some(a) => a,
                None => self.run_task(&rel, task, &key, opts),
            };
            let found = self.diagnostics(&rel, task, &attempt);
            if let Some(d) = run.complete(opts, &key, attempt, found, 5) {
                let at = rfc3339(1_700_000_000);
                record_deploy(&mut self.state, opts.environment.as_deref(), name, d, at);
            }
        }
        let (mut done, mut stats) = run.finish();
        let env = opts.environment.as_deref();
        for i in exec_tasks_index_deploys(&resolved, &done.tasks) {
            let p = build_notification_payload(&done.tasks[i], name, profile, env, "0.3.7");
            let path = notification_sidecar_path("/ws", profile, name, &done.tasks[i].name);
            self.sidecars.insert(path, p);
        }
        let notify = notify_tasks(&resolved);
        let sent: Vec<Vec<NotifyResult>> =
            payloads_to_send(opts, &resolved, &done.tasks, name, profile, "0.3.7")
                .iter()
                .map(|p| notify.iter().map(|t| self.notify(&rel, t, p)).collect())
                .collect();
        fan_out_notifications(opts, &resolved, &mut done.tasks, &mut stats, &sent);
        (done, stats)
    }

    fn execute(&mut self, opts: &CiOptions) -> Result<ExecutionReport, String> {
        let mut run = ExecutionRun::start(&self.ws, opts);
        let mut ledger = InstallLedger::default();
        let mut sigs: StrMap<UnitSig> = StrMap::new();
        let mut profile = String::new();
        loop {
            match run.next() {
                ExecutionStep::Profile { name } => {
                    let (queue, found) = self.prepare(&name, opts)?;
                    sigs = found;
                    profile = name;
                    run.profile_ready(queue);
                }
                ExecutionStep::Units { names } => {
                    for name in &names {
                        let (unit, stats) = self.run_unit(&profile, name, opts, &sigs, &mut ledger);
                        run.unit_done(unit, stats);
                    }
                    self.cache.append(&mut self.stored);
                }
                ExecutionStep::Finished => return Ok(run.report(7)),
            }
        }
    }

    fn notify_only(&mut self, opts: &CiOptions) -> ExecutionReport {
        let mut run = ExecutionRun::start(&self.ws, opts);
        for profile in profile_targets(&self.ws, &opts.monad_filter) {
            for path in unit_targets(&self.ws, &profile, &opts.unit_filter) {
                let u = self.ws.units_by_path.get(&path).unwrap();
                let (rel, name) = (u.rel.clone(), u.config.name.clone());
                let resolved = self.tasks_of(&u.config);
                let dir = format!("/ws/.monad/notification/{profile}/{name}/");
                let found = self
                    .sidecars
                    .iter()
                    .filter(|(p, _)| p.starts_with(&dir))
                    .map(|(_, p)| copy_payload(p))
                    .collect();
                let payloads = order_sidecars(found);
                let notify = notify_tasks(&resolved);
                let sent: Vec<Vec<NotifyResult>> = payloads
                    .iter()
                    .map(|p| notify.iter().map(|t| self.notify(&rel, t, p)).collect())
                    .collect();
                let (done, stats) = notify_only_unit(&name, &rel, None, &resolved, &sent);
                run.unit_done(done, stats);
            }
            run.profile_done(&profile);
        }
        run.report(1)
    }
}

fn shell_unit() -> UnitConfig {
    let mut u = unit("d", &[("build", "cp input.txt out.txt")]);
    u.inputs = texts(&["input.txt"]);
    u.outputs = texts(&["out.txt"]);
    u
}

fn shell_host() -> Host {
    let mut h = host(workspace_with(true, &[("prod", &["unit"])], &|| vec![("unit", shell_unit())]));
    h.put("unit/input.txt", "hello");
    h
}

fn ci() -> CiOptions {
    CiOptions::default()
}

fn outcome_of<'a>(r: &'a ExecutionReport, task: &str) -> &'a ExecutedTask {
    r.profiles[0].units[0].tasks.iter().find(|t| t.name == task).unwrap()
}

fn names(r: &ExecutionReport) -> Vec<&str> {
    r.profiles[0].units[0].tasks.iter().map(|t| t.name.as_str()).collect()
}

#[test]
fn first_run_executes_and_caches() {
    let mut h = shell_host();
    let report = h.execute(&ci()).unwrap();
    assert_eq!(report.profiles.len(), 1);
    assert_eq!(report.summary.built, 1);
    assert_eq!(report.summary.hits, 0);
    assert_eq!(report.summary.failed, 0);
    assert_eq!(h.disk["unit/out.txt"], b"hello");
}

#[test]
fn second_run_hits_cache() {
    let mut h = shell_host();
    h.execute(&ci()).unwrap();
    h.disk.remove("unit/out.txt");
    let report = h.execute(&ci()).unwrap();
    assert_eq!(report.summary.hits, 1);
    assert_eq!(report.summary.built, 0);
    assert_eq!(h.disk["unit/out.txt"], b"hello");
}

#[test]
fn execute_drains_write_through_uploads_before_returning() {
    let mut h = shell_host();
    h.ws.repo.cache.remote_write_through = true;
    h.execute(&ci()).unwrap();
    let baseline = h.remote_put;
    h.execute(&ci()).unwrap();
    assert!(h.remote_put > baseline);
}

#[test]
fn local_hit_short_circuits_without_remote_touch_by_default() {
    let mut h = shell_host();
    h.execute(&ci()).unwrap();
    let (has, put) = (h.remote_has, h.remote_put);
    h.execute(&ci()).unwrap();
    assert_eq!(h.remote_has, has);
    assert_eq!(h.remote_put, put);
}

#[test]
fn no_cache_flag_bypasses_hit() {
    let mut h = shell_host();
    h.execute(&ci()).unwrap();
    let report = h.execute(&CiOptions { no_cache: true, ..ci() }).unwrap();
    assert_eq!(report.summary.hits, 0);
    assert_eq!(report.summary.built, 1);
}

#[test]
fn input_change_invalidates_cache() {
    let mut h = shell_host();
    h.execute(&ci()).unwrap();
    h.put("unit/input.txt", "goodbye");
    let report = h.execute(&ci()).unwrap();
    assert_eq!(report.summary.hits, 0);
    assert_eq!(report.summary.built, 1);
    assert_eq!(h.disk["unit/out.txt"], b"goodbye");
}

#[test]
fn failed_task_is_not_cached() {
    let mut h = host(workspace_with(false, &[("prod", &["unit"])], &|| {
        vec![("unit", unit("d", &[("build", "exit 7")]))]
    }));
    let report = h.execute(&ci()).unwrap();
    assert_eq!(report.summary.failed, 1);
    match &report.profiles[0].units[0].tasks[0].outcome {
        TaskOutcome::Failed { exit_code, .. } => assert_eq!(*exit_code, 7),
        other => panic!("expected Failed, got {other:?}"),
    }
    assert_eq!(h.cache.len(), 0);
}

#[test]
fn fail_fast_stops_at_next_level_after_failure() {
    let mut h = host(workspace_with(true, &[("prod", &["a", "b"])], &|| {
        let mut b = unit("b", &[("build", "true")]);
        b.depends_on = texts(&["a"]);
        vec![("a", unit("a", &[("build", "exit 1")])), ("b", b)]
    }));
    let report = h.execute(&ci()).unwrap();
    assert_eq!(report.summary.failed, 1);
    assert_eq!(report.summary.built, 0);
    assert_eq!(report.profiles[0].units.len(), 1);
    assert_eq!(report.profiles[0].units[0].name, "a");
}

#[test]
fn a_failure_keeps_further_profiles_from_starting() {
    let profiles: &[(&str, &[&str])] = &[("first", &["a", "b"]), ("second", &["b"])];
    let units = || {
        vec![("a", unit("a", &[("build", "exit 1")])), ("b", unit("b", &[("build", "true")]))]
    };
    let report = host(workspace_with(true, profiles, &units)).execute(&ci()).unwrap();
    assert_eq!(report.profiles.len(), 1);
    assert_eq!(report.profiles[0].units.len(), 2);
    let report = host(workspace_with(false, profiles, &units)).execute(&ci()).unwrap();
    assert_eq!(report.profiles.len(), 2);
}

#[test]
fn batches_follow_the_levels_of_the_graph() {
    let h = host(workspace_with(true, &[("prod", &["a", "b", "c", "d"])], &|| {
        let mut d = unit("d", &[]);
        d.depends_on = texts(&["a"]);
        vec![("a", unit("a", &[])), ("b", unit("b", &[])), ("c", unit("c", &[])), ("d", d)]
    }));
    let graph = build(&h.ws, "prod").ok().unwrap();
    let found: Vec<(usize, Vec<String>)> =
        profile_batches(&h.ws, &graph.levels, &None, 2).into_iter().map(|b| (b.level, b.names)).collect();
    assert_eq!(found, vec![(0, texts(&["a", "b"])), (0, texts(&["c"])), (1, texts(&["d"]))]);
    let one = profile_batches(&h.ws, &graph.levels, &Some("d".into()), 0);
    assert_eq!(one.len(), 1);
    assert_eq!(one[0].names, texts(&["d"]));
}

fn two_independent(fail_fast: bool) -> Host {
    host(workspace_with(fail_fast, &[("prod", &["a", "b"])], &|| {
        vec![("a", unit("a", &[("build", "exit 1")])), ("b", unit("b", &[("build", "true")]))]
    }))
}

#[test]
fn independent_unites_run_in_same_level_despite_fail_fast() {
    let report = two_independent(true).execute(&ci()).unwrap();
    assert_eq!(report.summary.failed, 1);
    assert_eq!(report.summary.built, 1);
    assert_eq!(report.profiles[0].units.len(), 2);
}

#[test]
fn fail_fast_false_continues_past_failure() {
    let report = two_independent(false).execute(&ci()).unwrap();
    assert_eq!(report.summary.failed, 1);
    assert_eq!(report.summary.built, 1);
    assert_eq!(report.profiles[0].units.len(), 2);
}

#[test]
fn task_filter_restricts_to_named_tasks() {
    let mut h = host(workspace_with(true, &[("prod", &["unit"])], &|| {
        let mut u = shell_unit();
        u.tasks.insert("other".into(), shell_task("true"));
        vec![("unit", u)]
    }));
    h.put("unit/input.txt", "hello");
    let report = h.execute(&CiOptions { task_filter: Some(texts(&["build"])), ..ci() }).unwrap();
    let tasks = &report.profiles[0].units[0].tasks;
    assert_eq!(tasks.len(), 1);
    assert_eq!(tasks[0].name, "build");
}

#[test]
fn unit_filter_skips_non_matching_unites() {
    let mut h = host(workspace_with(true, &[("prod", &["a", "b"])], &|| {
        vec![("a", unit("first", &[("build", "true")])), ("b", unit("second", &[("build", "true")]))]
    }));
    let report = h.execute(&CiOptions { unit_filter: Some("first".into()), ..ci() }).unwrap();
    assert_eq!(report.profiles[0].units.len(), 1);
    assert_eq!(report.profiles[0].units[0].name, "first");
}

#[test]
fn resolve_target_disambiguates_monad_vs_unit() {
    let h = shell_host();
    assert_eq!(resolve_target(&h.ws, "prod"), Ok(TargetRef::Monad("prod".into())));
    assert_eq!(resolve_target(&h.ws, "d"), Ok(TargetRef::Unit("d".into())));
    let err = resolve_target(&h.ws, "nothing").unwrap_err();
    assert!(err.message().contains("not a known monad or unit"));
    match err {
        TargetRefError::NotFound { target, available_profiles, available_unites } => {
            assert_eq!(target, "nothing");
            assert!(available_profiles.contains(&"prod".to_string()));
            assert!(available_unites.contains(&"d".to_string()));
        }
        other => panic!("expected TargetRefError::NotFound, got {other:?}"),
    }
}

#[test]
fn a_name_of_a_profile_and_a_unit_is_ambiguous() {
    let h = host(workspace_with(true, &[("api", &["api"])], &|| vec![("api", unit("api", &[]))]));
    let err = resolve_target(&h.ws, "api").unwrap_err();
    assert!(matches!(err, TargetRefError::Ambiguous { .. }), "{err:?}");
    assert!(err.message().contains("api"));
}

#[test]
fn env_allowlist_is_passed_through() {
    let mut h = host(workspace_with(true, &[("prod", &["unit"])], &|| {
        let mut u = unit("d", &[]);
        u.outputs = texts(&["out.txt"]);
        let mut t = shell_task("save-env MY_VAR");
        t.env = texts(&["MY_VAR"]);
        u.tasks.insert("build".into(), t);
        vec![("unit", u)]
    }));
    h.env.insert("MY_VAR".into(), "hello-env".into());
    let report = h.execute(&ci()).unwrap();
    assert_eq!(report.summary.built, 1);
    assert_eq!(h.disk["unit/out.txt"], b"hello-env");
}

fn flaky(succeed_on_attempt: u32, retry: u32) -> ExecutionReport {
    let mut h = host(workspace_with(false, &[("prod", &["unit"])], &|| {
        let mut u = unit("d", &[]);
        let mut t = shell_task(&format!("succeed-from {succeed_on_attempt}"));
        t.retry = retry;
        u.tasks.insert("build".into(), t);
        vec![("unit", u)]
    }));
    h.execute(&ci()).unwrap()
}

#[test]
fn retry_lets_flaky_task_succeed_and_marks_flaky() {
    let report = flaky(3, 2);
    assert_eq!(report.summary.built, 1);
    assert_eq!(report.summary.failed, 0);
    assert_eq!(report.summary.flaky, 1);
    let task = &report.profiles[0].units[0].tasks[0];
    assert_eq!(task.attempts, 3);
    assert!(task.flaky);
    assert!(matches!(task.outcome, TaskOutcome::Built { .. }));
}

#[test]
fn retry_zero_means_one_attempt_only() {
    let report = flaky(2, 0);
    assert_eq!(report.summary.failed, 1);
    assert_eq!(report.summary.flaky, 0);
    let task = &report.profiles[0].units[0].tasks[0];
    assert_eq!(task.attempts, 1);
    assert!(!task.flaky);
}

#[test]
fn retry_exhausted_reports_failure_with_correct_attempts() {
    let report = flaky(5, 2);
    assert_eq!(report.summary.failed, 1);
    let task = &report.profiles[0].units[0].tasks[0];
    assert_eq!(task.attempts, 3);
    assert!(!task.flaky);
    assert!(matches!(task.outcome, TaskOutcome::Failed { .. }));
}

#[test]
fn first_attempt_success_is_not_flaky() {
    let report = flaky(1, 3);
    let task = &report.profiles[0].units[0].tasks[0];
    assert_eq!(task.attempts, 1);
    assert!(!task.flaky);
    assert_eq!(report.summary.flaky, 0);
}

#[test]
fn depends_on_enforces_sequential_order() {
    let mut h = host(workspace_with(true, &[("prod", &["a", "b"])], &|| {
        let mut b = unit("b", &[("build", "need shared.txt")]);
        b.depends_on = texts(&["a"]);
        vec![("a", unit("a", &[("build", "touch shared.txt")])), ("b", b)]
    }));
    let report = h.execute(&ci()).unwrap();
    assert_eq!(report.summary.failed, 0, "{report:?}");
    assert_eq!(report.summary.built, 2);
}

#[test]
fn independent_unites_execute_in_parallel() {
    let mut h = host(workspace_with(true, &[("prod", &["a", "b"])], &|| {
        vec![("a", unit("a", &[("build", "true")])), ("b", unit("b", &[("build", "true")]))]
    }));
    let graph = build(&h.ws, "prod").ok().unwrap();
    assert_eq!(graph.levels.len(), 1);
    let targets = level_targets(&h.ws, &graph.levels[0], &None);
    assert_eq!(batches(targets.len(), 2), vec![(0, 2)]);
    assert_eq!(h.execute(&ci()).unwrap().summary.built, 2);
}

#[test]
fn batches_are_at_most_as_wide_as_asked_for() {
    assert_eq!(batches(5, 2), vec![(0, 2), (2, 4), (4, 5)]);
    assert_eq!(batches(2, 0), vec![(0, 1), (1, 2)]);
    assert_eq!(batches(0, 3), vec![]);
}

fn lib_app(force_independent: bool) -> Host {
    let mut h = host(workspace_with(true, &[("prod", &["lib", "app"])], &|| {
        let mut lib = unit("lib", &[("build", "true")]);
        lib.inputs = texts(&["src.txt"]);
        let mut app = unit("app", &[("build", "true")]);
        app.depends_on = texts(&["lib"]);
        app.inputs = texts(&["src.txt"]);
        app.force_independent = force_independent;
        vec![("lib", lib), ("app", app)]
    }));
    h.put("lib/src.txt", "v1");
    h.put("app/src.txt", "app-v1");
    h
}

#[test]
fn dep_source_change_invalidates_dependent_cache() {
    let mut h = lib_app(false);
    h.execute(&ci()).unwrap();
    let warm = h.execute(&ci()).unwrap();
    assert_eq!(warm.summary.hits, 2, "{warm:?}");
    assert_eq!(warm.summary.built, 0);
    h.put("lib/src.txt", "v2");
    let cascade = h.execute(&ci()).unwrap();
    assert_eq!(cascade.summary.built, 2, "{cascade:?}");
    assert_eq!(cascade.summary.hits, 0);
}

#[test]
fn force_independent_blocks_cache_invalidation_through_that_unit() {
    let mut h = lib_app(true);
    h.execute(&ci()).unwrap();
    let warm = h.execute(&ci()).unwrap();
    assert_eq!(warm.summary.hits, 2);
    h.put("lib/src.txt", "v2");
    let after = h.execute(&ci()).unwrap();
    assert_eq!(after.summary.built, 1, "only lib rebuilds: {after:?}");
    assert_eq!(after.summary.hits, 1, "app still hits: {after:?}");
}

#[test]
fn container_plan_returns_none_by_default() {
    assert!(container_plan(&repo(true), Some("docker")).is_none());
}

#[test]
fn container_plan_never_even_with_image() {
    let mut r = repo(true);
    r.image = Some("debian:12".into());
    assert!(container_plan(&r, Some("docker")).is_none());
}

#[test]
fn a_container_needs_a_runtime_and_an_image() {
    let mut r = repo(true);
    r.container = ContainerMode::Always;
    assert!(container_plan(&r, Some("podman")).is_none());
    r.image = Some("debian:12".into());
    assert!(container_plan(&r, None).is_none());
    let plan = container_plan(&r, Some("podman")).unwrap();
    assert_eq!((plan.runtime.as_str(), plan.image.as_str()), ("podman", "debian:12"));
}

fn plain_task(name: &str, run: &str, depends_on: &[&str]) -> ResolvedTask {
    ResolvedTask {
        name: name.into(),
        run: run.into(),
        inputs: vec![],
        outputs: vec![],
        workspace_outputs: vec![],
        env: vec![],
        retry: 0,
        no_cache: false,
        required_env: vec![],
        required_cli: vec![],
        integration_kind: None,
        depends_on: texts(depends_on),
    }
}

fn key_with(task: &ResolvedTask, image: Option<&str>, deps: &[(&str, &str)]) -> String {
    let deps: Vec<(String, String)> = deps.iter().map(|(a, b)| (a.to_string(), b.to_string())).collect();
    let (key, _) = compute_key(
        "d",
        None,
        task,
        &vec![],
        image,
        &deps,
        &StrMap::new(),
        "0.3.7",
        "x86_64-linux",
        &vec![],
    );
    key
}

#[test]
fn a_key_is_the_digest_of_what_it_is_made_of() {
    let material = KeyMaterial {
        extras: vec![("host".into(), "é".into())],
        ..key_material(
            "d",
            None,
            &plain_task("build", "make", &[]),
            &vec![],
            None,
            &vec![],
            &StrMap::new(),
            "0.3.7",
            "x86_64-linux",
            &vec![],
        )
    };
    let file = |rel: &str, content: &[u8]| SourceFile { rel: rel.into(), content: content.to_vec() };
    let mut message: Vec<u8> = vec![1, 0, 0, 0, 0, 0, 0, 0];
    message.extend([4, 0, 0, 0, 0, 0, 0, 0]);
    message.extend(b"host");
    message.extend([2, 0, 0, 0, 0, 0, 0, 0]);
    message.extend("é".as_bytes());
    message.extend([3, 0, 0, 0, 0, 0, 0, 0]);
    message.extend(b"a.c");
    message.extend([2, 0, 0, 0, 0, 0, 0, 0]);
    message.extend([255, 0]);
    let key = cache_key(&material, &vec![file("a.c", &[255, 0])]);
    assert_eq!(key, to_hex(&digest(&message)));
    assert_eq!(key.len(), 64);
    assert_ne!(key, cache_key(&material, &vec![file("a.c", &[255, 1])]));
    assert_ne!(key, cache_key(&material, &vec![file("b.c", &[255, 0])]));
    assert_ne!(key, cache_key(&material, &vec![]));
}

#[test]
fn cache_image_ref_changes_key() {
    let image = |name: &str| {
        let mut r = repo(true);
        r.container = ContainerMode::Always;
        r.image = Some(name.into());
        container_image_for_plan(&r)
    };
    let task = plain_task("build", "true", &[]);
    let k1 = key_with(&task, image("debian:12").as_deref(), &[]);
    let k2 = key_with(&task, image("debian:13").as_deref(), &[]);
    assert_ne!(k1, k2, "changing the container image must change the cache key");
}

#[test]
fn task_dep_key_cascades_into_dependent_task_hash() {
    let mut task = plain_task("railway:deploy", "railway up --ci", &["build"]);
    task.no_cache = true;
    let without = key_with(&task, None, &[]);
    let with_a = key_with(&task, None, &[("build", "aaaaaaaa")]);
    let with_b = key_with(&task, None, &[("build", "bbbbbbbb")]);
    assert_ne!(without, with_a);
    assert_ne!(with_a, with_b);
}

#[test]
fn a_key_changes_with_each_thing_it_depends_on() {
    let mut task = plain_task("build", "make", &[]);
    task.env = texts(&["MODE"]);
    let env = |mode: &str| {
        let mut m = StrMap::new();
        m.insert("MODE".to_string(), mode.to_string());
        m
    };
    let key = |sig: u8, image: Option<&str>, dep: &str, mode: &str, host: &str, file: (&str, &[u8])| {
        let files = vec![SourceFile { rel: file.0.into(), content: file.1.to_vec() }];
        let sigs = vec![("lib".to_string(), [sig; 32])];
        let deps = vec![("gen".to_string(), dep.to_string())];
        compute_key("d", None, &task, &sigs, image, &deps, &env(mode), "0.3.7", host, &files).0
    };
    let base = || key(1, Some("debian:12"), "aa", "fast", "x86_64-linux", ("a.c", &[255, 0]));
    assert_eq!(base(), base());
    assert_ne!(base(), key(2, Some("debian:12"), "aa", "fast", "x86_64-linux", ("a.c", &[255, 0])));
    assert_ne!(base(), key(1, Some("debian:13"), "aa", "fast", "x86_64-linux", ("a.c", &[255, 0])));
    assert_ne!(base(), key(1, None, "aa", "fast", "x86_64-linux", ("a.c", &[255, 0])));
    assert_ne!(base(), key(1, Some("debian:12"), "ab", "fast", "x86_64-linux", ("a.c", &[255, 0])));
    assert_ne!(base(), key(1, Some("debian:12"), "aa", "slow", "x86_64-linux", ("a.c", &[255, 0])));
    assert_ne!(base(), key(1, Some("debian:12"), "aa", "fast", "aarch64-linux", ("a.c", &[255, 0])));
    assert_ne!(base(), key(1, Some("debian:12"), "aa", "fast", "x86_64-linux", ("b.c", &[255, 0])));
    assert_ne!(base(), key(1, Some("debian:12"), "aa", "fast", "x86_64-linux", ("a.c", &[255, 1])));
}

#[test]
fn shared_unit_across_profiles_shares_cache() {
    let mut h = host(workspace_with(true, &[("prod", &["shared"]), ("staging", &["shared"])], &|| {
        let mut u = unit("shared", &[("build", "true")]);
        u.inputs = texts(&["src.txt"]);
        vec![("shared", u)]
    }));
    h.put("shared/src.txt", "v1");
    let report = h.execute(&ci()).unwrap();
    assert_eq!(report.profiles.len(), 2);
    assert_eq!(report.summary.built, 1);
    assert_eq!(report.summary.hits, 1);
    let key_prod = &report.profiles[0].units[0].tasks[0].key;
    let key_staging = &report.profiles[1].units[0].tasks[0].key;
    assert_eq!(key_prod, key_staging);
}

#[test]
fn cycle_in_depends_on_is_reported() {
    let mut h = host(workspace_with(true, &[("prod", &["a", "b"])], &|| {
        let mut a = unit("a", &[]);
        a.depends_on = texts(&["b"]);
        let mut b = unit("b", &[]);
        b.depends_on = texts(&["a"]);
        vec![("a", a), ("b", b)]
    }));
    let err = h.execute(&ci()).unwrap_err();
    assert!(err.contains("cycle"), "got: {err}");
}

#[test]
fn cache_hit_reports_zero_attempts() {
    let mut h = shell_host();
    h.execute(&ci()).unwrap();
    let report = h.execute(&ci()).unwrap();
    assert_eq!(report.summary.hits, 1);
    let task = &report.profiles[0].units[0].tasks[0];
    assert_eq!(task.attempts, 0);
    assert!(!task.flaky);
}

fn lint_host(run: &'static str, rerun: Option<&str>) -> Host {
    let mut h = host(workspace_with(true, &[("prod", &["unit"])], &|| {
        let mut u = unit("d", &[("lint", run)]);
        u.language = Some("stub".into());
        vec![("unit", u)]
    }));
    let mut a = adapter("stub");
    a.lint_rerun = rerun.map(String::from);
    h.adapter = Some(a);
    h
}

#[test]
fn failed_task_with_hook_populates_diagnostics() {
    let cargo_json = r#"{"reason":"compiler-message","message":{"level":"error","message":"undefined symbol Foo","code":{"code":"E0425","explanation":"x"},"spans":[{"file_name":"main.rs","is_primary":true,"line_start":7,"line_end":7,"column_start":3,"column_end":6}]}}"#;
    let report = lint_host("exit 1", Some(&format!("print {cargo_json}"))).execute(&ci()).unwrap();
    let task = &report.profiles[0].units[0].tasks[0];
    assert!(matches!(task.outcome, TaskOutcome::Failed { .. }));
    assert_eq!(task.diagnostics.len(), 1, "got: {:?}", task.diagnostics);
    let d = &task.diagnostics[0];
    assert_eq!(d.file, "unit/main.rs");
    assert_eq!(d.line, 7);
    assert_eq!(d.col, Some(3));
    assert_eq!(d.severity, Severity::Error);
    assert_eq!(d.message, "undefined symbol Foo");
    assert_eq!(d.rule.as_deref(), Some("E0425"));
    assert_eq!(d.source, "cargo");
}

#[test]
fn failed_task_with_no_hook_leaves_diagnostics_empty() {
    let report = lint_host("exit 1", None).execute(&ci()).unwrap();
    let task = &report.profiles[0].units[0].tasks[0];
    assert!(matches!(task.outcome, TaskOutcome::Failed { .. }));
    assert!(task.diagnostics.is_empty());
}

#[test]
fn successful_task_never_re_runs_for_diagnostics() {
    let mut h = lint_host("true", Some("exit 1"));
    let report = h.execute(&ci()).unwrap();
    let task = &report.profiles[0].units[0].tasks[0];
    assert!(matches!(task.outcome, TaskOutcome::Built { .. }));
    assert!(task.diagnostics.is_empty());
    assert_eq!(h.started, vec!["unit: true"]);
}

#[test]
fn diagnostic_rerun_failure_is_strictly_additive() {
    let report = lint_host("exit 1", Some("garble not-json")).execute(&ci()).unwrap();
    let task = &report.profiles[0].units[0].tasks[0];
    assert!(matches!(task.outcome, TaskOutcome::Failed { .. }));
    assert!(task.diagnostics.is_empty());
    assert_eq!(report.summary.failed, 1);
}

fn install_host(missing: Option<&'static str>, install_fails: bool) -> Host {
    let mut h = host(workspace_with(true, &[("prod", &["unit"])], &|| {
        let mut u = unit("d", &[("build", "true")]);
        u.language = Some("install-mock".into());
        vec![("unit", u)]
    }));
    let mut a = adapter("install-mock");
    a.missing = missing;
    a.install_fails = install_fails;
    h.adapter = Some(a);
    h
}

#[test]
fn probe_ready_does_not_run_install() {
    let mut h = install_host(None, false);
    let report = h.execute(&ci()).unwrap();
    assert_eq!(report.summary.installs, 0);
    assert_eq!(h.installs, 0);
    assert_eq!(report.summary.built, 1);
    assert!(report.profiles[0].units[0].install.is_none());
}

#[test]
fn probe_missing_runs_install_then_proceeds_to_tasks() {
    let mut h = install_host(Some("deps absent"), false);
    let report = h.execute(&ci()).unwrap();
    assert_eq!(report.summary.installs, 1);
    assert_eq!(report.summary.install_failures, 0);
    assert_eq!(h.installs, 1);
    assert_eq!(report.summary.built, 1);
    let install = report.profiles[0].units[0].install.as_ref().unwrap();
    assert_eq!(install.reason, "deps absent");
    assert!(install.error.is_none());
}

#[test]
fn install_failure_skips_tasks() {
    let report = install_host(Some("deps absent"), true).execute(&ci()).unwrap();
    assert_eq!(report.summary.installs, 1);
    assert_eq!(report.summary.install_failures, 1);
    assert_eq!(report.summary.tasks, 0);
    assert_eq!(report.summary.built, 0);
    let install = report.profiles[0].units[0].install.as_ref().unwrap();
    assert!(install.error.is_some());
    assert!(report.profiles[0].units[0].tasks.is_empty());
}

#[test]
fn skip_install_option_bypasses_probe() {
    let mut h = install_host(Some("deps absent"), false);
    let report = h.execute(&CiOptions { skip_install: true, ..ci() }).unwrap();
    assert_eq!(report.summary.installs, 0);
    assert_eq!(h.installs, 0);
    assert_eq!(report.summary.built, 1);
}

#[test]
fn install_only_mode_skips_task_loop() {
    let mut h = install_host(Some("deps absent"), false);
    let report = h.execute(&CiOptions { install_only: true, ..ci() }).unwrap();
    assert_eq!(h.installs, 1);
    assert_eq!(report.summary.installs, 1);
    assert_eq!(report.summary.tasks, 0);
    assert_eq!(report.summary.built, 0);
    assert_eq!(report.summary.hits, 0);
    assert!(report.profiles[0].units[0].install.is_some());
    assert!(report.profiles[0].units[0].tasks.is_empty());
}

#[test]
fn force_install_runs_even_when_probe_ready() {
    let mut h = install_host(None, false);
    let report = h.execute(&CiOptions { force_install: true, ..ci() }).unwrap();
    assert_eq!(report.summary.installs, 1);
    assert_eq!(h.installs, 1);
    let install = report.profiles[0].units[0].install.as_ref().unwrap();
    assert_eq!(install.reason, "--force-install");
}

fn shared_scope_host(install_fails: bool) -> Host {
    let mut h = host(workspace_with(true, &[("prod", &["packages/a", "packages/b"])], &|| {
        let mut a = unit("a", &[("build", "true")]);
        a.language = Some("shared-scope-mock".into());
        let mut b = unit("b", &[("build", "true")]);
        b.language = Some("shared-scope-mock".into());
        vec![("packages/a", a), ("packages/b", b)]
    }));
    let mut a = adapter("shared-scope-mock");
    a.missing = Some("deps absent");
    a.install_fails = install_fails;
    a.scope = Some("/ws");
    h.adapter = Some(a);
    h
}

#[test]
fn install_dedupes_across_unites_in_shared_scope() {
    let mut h = shared_scope_host(false);
    let report = h.execute(&ci()).unwrap();
    assert_eq!(h.installs, 1);
    let units = &report.profiles[0].units;
    let with_record = units.iter().filter(|d| d.install.is_some()).count();
    assert_eq!(with_record, 1);
    assert_eq!(report.summary.built, 2);
}

#[test]
fn shared_scope_install_failure_propagates_to_siblings() {
    let mut h = shared_scope_host(true);
    let report = h.execute(&ci()).unwrap();
    assert_eq!(h.installs, 1);
    let units = &report.profiles[0].units;
    assert_eq!(units.len(), 2);
    for d in units {
        let rec = d.install.as_ref().unwrap_or_else(|| panic!("unit {} missing install record", d.name));
        assert!(rec.error.is_some(), "unit {} should reflect the failed install", d.name);
    }
    assert_eq!(
        units[1].install.as_ref().unwrap().reason,
        "shared install scope /ws (handled by sibling)"
    );
    assert_eq!(report.summary.built, 0);
    assert_eq!(report.summary.tasks, 0);
}

#[test]
fn a_scope_is_installed_once() {
    let mut ledger = InstallLedger::default();
    assert!(matches!(ledger.turn("/ws"), InstallTurn::Run));
    let record = ledger.made("deps absent".into(), "/ws", 9, None).unwrap();
    assert_eq!((record.reason.as_str(), record.duration_ms, record.error), ("deps absent", 9, None));
    assert!(matches!(ledger.turn("/ws"), InstallTurn::Reuse { record: None }));
    assert!(matches!(ledger.turn("/ws/"), InstallTurn::Reuse { record: None }));
    assert!(matches!(ledger.turn("/ws/a"), InstallTurn::Run));
    ledger.made("deps absent".into(), "/ws/a", 9, Some("boom".into()));
    match ledger.turn("/ws/a") {
        InstallTurn::Reuse { record: Some(r) } => {
            assert_eq!(r.reason, "shared install scope /ws/a (handled by sibling)");
            assert_eq!((r.duration_ms, r.error.as_deref()), (0, Some("boom")));
        }
        other => panic!("{other:?}"),
    }
}

fn notify_results(codes: &[i32]) -> Vec<NotifyResult> {
    codes
        .iter()
        .map(|c| NotifyResult {
            event: NotifyEvent::Exited { code: Some(*c), stdout: b"sent".to_vec(), stderr: vec![] },
            duration_ms: 2,
        })
        .collect()
}

fn two_notifiers() -> Vec<ResolvedTask> {
    let mut tasks = vec![plain_task("build", "true", &[])];
    for (name, kind) in [
        ("mock:deploy", IntegrationTaskKind::Deploy),
        ("mock:linear", IntegrationTaskKind::Notify),
        ("mock:slack", IntegrationTaskKind::Notify),
    ] {
        let mut t = plain_task(name, "true", &[]);
        t.integration_kind = Some(kind);
        tasks.push(t);
    }
    tasks
}

#[test]
fn a_replay_tells_each_payload_to_each_notification_task() {
    let sent = vec![notify_results(&[0, 1]), notify_results(&[0, 0]), notify_results(&[3, 0])];
    let (done, stats) = notify_only_unit("api", "apps/api", Some("go"), &two_notifiers(), &sent);
    let names: Vec<&str> = done.tasks.iter().map(|t| t.name.as_str()).collect();
    assert_eq!(
        names,
        ["mock:linear", "mock:slack", "mock:linear", "mock:slack", "mock:linear", "mock:slack"]
    );
    assert_eq!((stats.tasks, stats.built, stats.notify_failures, stats.failed), (6, 4, 2, 0));
    assert!(done.install.is_none());
    assert!(matches!(done.tasks[4].outcome, TaskOutcome::Failed { exit_code: 3, .. }));
}

#[test]
fn a_replay_that_sends_nothing_counts_nothing() {
    let (done, stats) = notify_only_unit("api", "apps/api", None, &two_notifiers(), &vec![]);
    assert_eq!((done.tasks.len(), done.tasks[0].name.as_str()), (1, "<no-prior-deploy>"));
    assert_eq!((stats.tasks, stats.built, stats.notify_failures), (0, 0, 0));
    let none = vec![plain_task("build", "true", &[])];
    let (done, stats) = notify_only_unit("api", "apps/api", None, &none, &vec![vec![], vec![]]);
    assert_eq!((done.tasks.len(), done.tasks[0].name.as_str()), (1, "<no-notify>"));
    assert_eq!((stats.tasks, stats.built, stats.notify_failures), (0, 0, 0));
}

#[test]
fn each_announced_deploy_is_told_to_each_notification_task() {
    let resolved = two_notifiers();
    let deploy = NotifyEvent::Exited { code: Some(0), stdout: vec![], stderr: vec![] };
    let mut rows = vec![notify_task_row(&resolved[0], &deploy, 1), notify_task_row(&resolved[1], &deploy, 1)];
    let mut stats = UnitStats { tasks: 2, built: 2, ..UnitStats::default() };
    assert!(rows_to_announce(&deploying(), &resolved, &rows).is_empty());
    let opts = notifying();
    let payloads = payloads_to_send(&opts, &resolved, &rows, "api", "prod", "0.3.7");
    assert_eq!(payloads.len(), 1);
    assert_eq!(
        payloads[0],
        build_notification_payload(&rows[1], "api", "prod", opts.environment.as_deref(), "0.3.7")
    );
    fan_out_notifications(&opts, &resolved, &mut rows, &mut stats, &vec![notify_results(&[0, 7])]);
    let names: Vec<&str> = rows.iter().map(|t| t.name.as_str()).collect();
    assert_eq!(names, ["build", "mock:deploy", "mock:linear", "mock:slack"]);
    assert_eq!((stats.tasks, stats.built, stats.notify_failures, stats.failed), (4, 3, 1, 0));
}

#[test]
fn tail_truncate_respects_char_boundaries() {
    let s = "aé".repeat(10);
    let out = tail_truncate(&s, 10);
    assert!(out.starts_with("…"), "got: {out}");
    assert!(out.ends_with("aé"), "tail preserved; got: {out}");
}

#[test]
fn tail_truncate_passes_through_when_under_limit() {
    assert_eq!(tail_truncate("short", 100), "short");
}

#[test]
fn build_output_excerpt_combines_stdout_and_stderr() {
    let ex = build_output_excerpt(&b"deploy URL: https://x".to_vec(), &b"warn: slow".to_vec()).unwrap();
    assert!(ex.contains("deploy URL"));
    assert!(ex.contains("[stderr]"));
    assert!(ex.contains("warn: slow"));
}

#[test]
fn build_output_excerpt_none_when_both_empty() {
    assert!(build_output_excerpt(&b"".to_vec(), &b"".to_vec()).is_none());
}

#[test]
fn broken_text_in_output_is_replaced() {
    let ex = build_output_excerpt(&vec![b'o', b'k', 0xff], &vec![]).unwrap();
    assert_eq!(ex, "ok\u{fffd}");
}

fn kind_task(name: &str, run: &str, kind: IntegrationTaskKind, no_cache: bool) -> IntegrationTask {
    IntegrationTask {
        name: name.into(),
        run: run.into(),
        outputs: vec![],
        env_vars: vec![],
        no_cache,
        kind,
        depends_on: vec![],
    }
}

fn deploy_task(name: &str, run: &str) -> IntegrationTask {
    kind_task(name, run, IntegrationTaskKind::Deploy, true)
}

fn notify_task(name: &str, run: &str) -> IntegrationTask {
    kind_task(name, run, IntegrationTaskKind::Notify, true)
}

fn integration_host(required_env: &[&str], tasks: Vec<IntegrationTask>) -> Host {
    let mut h = host(workspace_with(true, &[("prod", &["unit"])], &|| {
        vec![("unit", unit("d", &[("build", "true")]))]
    }));
    h.integrations = vec![IntegrationFacts {
        id: "mock-deploy".into(),
        required_env: texts(required_env),
        required_cli: vec![],
        tasks,
    }];
    h
}

fn deploying() -> CiOptions {
    CiOptions { task_kind_filter: Some(IntegrationTaskKind::Deploy), ..ci() }
}

#[test]
fn integration_task_output_excerpt_populated_on_success() {
    let mut h = integration_host(
        &[],
        vec![deploy_task("mock:deploy", "print Deploy URL: https://example.com/deploy/abc123")],
    );
    let report = h.execute(&deploying()).unwrap();
    let output = outcome_of(&report, "mock:deploy").output_excerpt.as_deref().unwrap();
    assert!(output.contains("Deploy URL"), "got: {output}");
    assert!(output.contains("abc123"), "got: {output}");
}

#[test]
fn non_integration_task_has_no_output_excerpt() {
    let mut h = host(workspace_with(true, &[("prod", &["unit"])], &|| {
        vec![("unit", unit("d", &[("build", "print hello from build")]))]
    }));
    let report = h.execute(&ci()).unwrap();
    assert!(outcome_of(&report, "build").output_excerpt.is_none());
}

#[test]
fn only_results_of_integrations_keep_what_was_printed() {
    let row = |kind: Option<IntegrationTaskKind>, outcome: TaskOutcome| {
        let opts = if kind.is_some() { deploying() } else { ci() };
        let mut task = plain_task("mock:deploy", "up", &[]);
        task.integration_kind = kind;
        let mut run = UnitRun::start("d", "unit", None, vec![task], &opts, true);
        if run.step == UnitStep::Prepare {
            run.installed(&opts, None);
        }
        assert_eq!(run.step, UnitStep::Task { index: 0 });
        let attempt = TaskAttempt { outcome, attempts: 1, flaky: false, output_excerpt: Some("printed".into()) };
        run.complete(&opts, "k", attempt, vec![], 5);
        let (done, _) = run.finish();
        done.tasks[0].output_excerpt.clone()
    };
    let failed = || TaskOutcome::Failed { exit_code: 1, stderr_excerpt: "boom".into() };
    let deploy = || Some(IntegrationTaskKind::Deploy);
    assert_eq!(row(deploy(), TaskOutcome::Built { exit_code: 0 }).as_deref(), Some("printed"));
    assert_eq!(row(deploy(), failed()).as_deref(), Some("printed"));
    assert_eq!(row(deploy(), TaskOutcome::CacheHit), None);
    assert_eq!(row(None, TaskOutcome::Built { exit_code: 0 }), None);
    assert_eq!(row(None, failed()), None);
}

#[test]
fn integration_task_runs_alongside_build() {
    let mut h = integration_host(&[], vec![deploy_task("mock:deploy", "true")]);
    let report = h.execute(&deploying()).unwrap();
    assert!(names(&report).contains(&"build"));
    assert!(names(&report).contains(&"mock:deploy"));
}

fn deploy_and_release() -> Vec<IntegrationTask> {
    vec![
        deploy_task("mock:deploy", "true"),
        kind_task("mock:release", "true", IntegrationTaskKind::Release, false),
    ]
}

#[test]
fn default_ci_excludes_side_effectful_integration_tasks() {
    let report = integration_host(&[], deploy_and_release()).execute(&ci()).unwrap();
    assert!(names(&report).contains(&"build"));
    assert!(!names(&report).contains(&"mock:deploy"));
    assert!(names(&report).contains(&"mock:release"));
}

#[test]
fn deploy_kind_filter_skips_unites_without_matching_task() {
    let mut h = integration_host(&[], vec![]);
    h.integrations.clear();
    let report = h.execute(&deploying()).unwrap();
    let task = &report.profiles[0].units[0].tasks[0];
    assert!(matches!(task.outcome, TaskOutcome::Skipped { .. }));
    assert_eq!(task.name, "<no-deploy>");
    assert_eq!(report.summary.built, 0);
}

#[test]
fn deploy_kind_filter_runs_build_and_deploy_for_matching_unit() {
    let opts = CiOptions { task_filter: Some(texts(&["build"])), ..deploying() };
    let report = integration_host(&[], deploy_and_release()).execute(&opts).unwrap();
    assert!(names(&report).contains(&"build"));
    assert!(names(&report).contains(&"mock:deploy"));
    assert!(!names(&report).contains(&"mock:release"));
}

#[test]
fn no_cache_task_never_cache_hits() {
    let mut h = integration_host(&[], vec![deploy_task("mock:deploy", "true")]);
    let first = h.execute(&deploying()).unwrap();
    assert!(matches!(outcome_of(&first, "mock:deploy").outcome, TaskOutcome::Built { .. }));
    let second = h.execute(&deploying()).unwrap();
    assert!(!matches!(outcome_of(&second, "mock:deploy").outcome, TaskOutcome::CacheHit));
}

#[test]
fn deploy_unchanged_short_circuits_second_run() {
    let mut h = integration_host(&[], vec![deploy_task("mock:deploy", "true")]);
    let first = h.execute(&deploying()).unwrap();
    assert!(matches!(outcome_of(&first, "mock:deploy").outcome, TaskOutcome::Built { .. }));
    let second = h.execute(&deploying()).unwrap();
    match &outcome_of(&second, "mock:deploy").outcome {
        TaskOutcome::DeployUnchanged { last_deployed_at, deploy_url: _ } => {
            assert!(last_deployed_at.ends_with('Z'), "got {last_deployed_at}");
        }
        other => panic!("expected DeployUnchanged on second run, got {other:?}"),
    }
    assert_eq!(second.summary.deploy_unchanged, 1);
    let third = h.execute(&CiOptions { force_deploy: true, ..deploying() }).unwrap();
    assert!(matches!(outcome_of(&third, "mock:deploy").outcome, TaskOutcome::Built { .. }));
    assert!(h.state.get(None, "d", "mock:deploy").is_some());
}

fn failure_of(report: &ExecutionReport) -> &str {
    match &outcome_of(report, "mock:deploy").outcome {
        TaskOutcome::Failed { stderr_excerpt, .. } => stderr_excerpt,
        other => panic!("expected Failed, got {other:?}"),
    }
}

#[test]
fn required_env_missing_fails_task_fast() {
    let never_set = "MONAD_TEST_ABSOLUTELY_NOT_SET_ZQX9K2";
    let mut h = integration_host(&[never_set], vec![deploy_task("mock:deploy", "true")]);
    let report = h.execute(&deploying()).unwrap();
    let stderr = failure_of(&report);
    assert!(stderr.contains("missing required env"), "stderr: {stderr}");
    assert!(stderr.contains(never_set));
}

#[test]
fn required_cli_missing_fails_task_with_install_hint() {
    let missing_bin = "monad_test_no_such_binary_9fk2x";
    let mut h = integration_host(&[], vec![deploy_task("mock:deploy", "true")]);
    h.integrations[0].required_cli = vec![CliRequirement {
        binary: missing_bin.into(),
        install_hint: "brew install no-such-thing".into(),
    }];
    let report = h.execute(&deploying()).unwrap();
    let stderr = failure_of(&report);
    assert!(stderr.contains("CLI binary not found"), "stderr: {stderr}");
    assert!(stderr.contains(missing_bin));
    assert!(stderr.contains("brew install no-such-thing"), "stderr: {stderr}");
}

#[test]
fn secret_alias_satisfies_missing_declared_var() {
    let declared = "MONAD_TEST_ALIAS_ONLY_XQK2L";
    let mut h = integration_host(&[declared], vec![deploy_task("mock:deploy", "true")]);
    let mut aliases = StrMap::new();
    aliases.insert(declared.to_string(), "PATH".to_string());
    let report = h.execute(&CiOptions { secret_aliases: aliases, ..deploying() }).unwrap();
    let deploy = outcome_of(&report, "mock:deploy");
    assert!(matches!(deploy.outcome, TaskOutcome::Built { .. }), "got {:?}", deploy.outcome);
}

#[test]
fn alias_error_surfaces_both_declared_and_source_names() {
    let declared = "MONAD_TEST_DECLARED_ZZZ9";
    let source = "MONAD_TEST_SOURCE_ZZZ9";
    let mut h = integration_host(&[declared], vec![deploy_task("mock:deploy", "true")]);
    let mut aliases = StrMap::new();
    aliases.insert(declared.to_string(), source.to_string());
    let report = h.execute(&CiOptions { secret_aliases: aliases, ..deploying() }).unwrap();
    let stderr = failure_of(&report);
    assert!(stderr.contains(declared), "stderr: {stderr}");
    assert!(stderr.contains(source), "stderr: {stderr}");
    assert!(stderr.contains("via $"), "stderr: {stderr}");
}

#[test]
fn required_env_present_allows_task_to_run() {
    let mut h = integration_host(&["PATH"], vec![deploy_task("mock:deploy", "true")]);
    let report = h.execute(&deploying()).unwrap();
    let deploy = outcome_of(&report, "mock:deploy");
    assert!(matches!(deploy.outcome, TaskOutcome::Built { .. }), "got {:?}", deploy.outcome);
}

fn deploy_and_notify(deploy: &str, notify: &[(&str, &str)]) -> Host {
    let mut tasks = vec![deploy_task("mock:deploy", deploy)];
    for (name, run) in notify {
        tasks.push(notify_task(name, run));
    }
    integration_host(&[], tasks)
}

fn notifying() -> CiOptions {
    CiOptions { run_notify_kinds: true, ..deploying() }
}

#[test]
fn monad_ci_does_not_run_notify_tasks() {
    let report = deploy_and_notify("true", &[("mock:notify", "true")]).execute(&ci()).unwrap();
    assert!(!names(&report).contains(&"mock:notify"));
    assert!(!names(&report).contains(&"mock:deploy"));
}

#[test]
fn monad_deploy_fires_notify_after_each_deploy() {
    let mut h = deploy_and_notify("print Build Logs: https://x/abc", &[("mock:notify", "true")]);
    let opts = CiOptions { environment: Some("staging".into()), ..notifying() };
    let report = h.execute(&opts).unwrap();
    assert!(names(&report).contains(&"mock:deploy"));
    assert!(names(&report).contains(&"mock:notify"));
    let payload = &h.sent[0].1;
    assert_eq!(payload.schema_version, NOTIFICATION_PAYLOAD_SCHEMA_VERSION);
    assert_eq!(payload.environment.as_deref(), Some("staging"));
    assert_eq!(payload.trigger.task_name, "mock:deploy");
    assert_eq!(payload.trigger.unit_name, "d");
    assert_eq!(payload.trigger.monad_name, "prod");
    assert_eq!(payload.trigger.outcome, "built");
    assert_eq!(payload.trigger.integration_kind, "deploy");
    assert!(payload.trigger.output_excerpt.contains("Build Logs"));
    assert!(payload.trigger.stderr_excerpt.is_none());
}

#[test]
fn notify_failure_does_not_fail_build() {
    let mut h = deploy_and_notify("true", &[("mock:notify-bad", "exit 7")]);
    let report = h.execute(&notifying()).unwrap();
    assert_eq!(report.summary.notify_failures, 1);
    assert_eq!(report.summary.failed, 0);
    match &outcome_of(&report, "mock:notify-bad").outcome {
        TaskOutcome::Failed { exit_code, .. } => assert_eq!(*exit_code, 7),
        other => panic!("expected Failed, got {other:?}"),
    }
}

#[test]
fn notify_tasks_fan_out_in_parallel() {
    let mut h = deploy_and_notify("true", &[("mock:notify-a", "true"), ("mock:notify-b", "true")]);
    let report = h.execute(&notifying()).unwrap();
    assert!(names(&report).contains(&"mock:notify-a"));
    assert!(names(&report).contains(&"mock:notify-b"));
}

#[test]
fn deploy_failure_notify_payload_has_failed_outcome() {
    let mut h = deploy_and_notify("complain boom", &[("mock:notify", "true")]);
    let report = h.execute(&CiOptions { fail_fast: Some(false), ..notifying() }).unwrap();
    assert_eq!(report.summary.failed, 1);
    let payload = &h.sent[0].1;
    assert_eq!(payload.trigger.outcome, "failed");
    assert_eq!(payload.trigger.exit_code, 9);
    assert!(payload.trigger.stderr_excerpt.as_deref().unwrap_or("").contains("boom"));
}

#[test]
fn notification_sidecar_written_after_deploy() {
    let mut h = deploy_and_notify("print Build Logs: https://x/abc", &[]);
    h.execute(&deploying()).unwrap();
    let payload = &h.sidecars["/ws/.monad/notification/prod/d/mock_deploy.json"];
    assert_eq!(payload.trigger.task_name, "mock:deploy");
    assert_eq!(payload.trigger.outcome, "built");
    assert!(payload.trigger.output_excerpt.contains("Build Logs"));
}

fn replaying() -> CiOptions {
    CiOptions {
        task_kind_filter: Some(IntegrationTaskKind::Notify),
        run_notify_kinds: true,
        ..ci()
    }
}

#[test]
fn monad_notify_replays_sidecar_through_notify_tasks() {
    let mut h = deploy_and_notify("print Deploy URL: https://x/abc", &[("mock:notify", "true")]);
    h.execute(&CiOptions { environment: Some("staging".into()), ..notifying() }).unwrap();
    h.sent.clear();
    let report = h.notify_only(&replaying());
    assert_eq!(h.sent.len(), 1);
    let payload = &h.sent[0].1;
    assert_eq!(payload.trigger.task_name, "mock:deploy");
    assert_eq!(payload.environment.as_deref(), Some("staging"));
    assert_eq!(names(&report), vec!["mock:notify"]);
}

#[test]
fn monad_notify_with_no_prior_deploy_emits_skipped_marker() {
    let report = deploy_and_notify("true", &[("mock:notify", "true")]).notify_only(&replaying());
    let task = &report.profiles[0].units[0].tasks[0];
    assert_eq!(task.name, "<no-prior-deploy>");
    match &task.outcome {
        TaskOutcome::Skipped { reason } => {
            assert!(reason.contains("run `monad deploy` first"), "reason: {reason}");
        }
        other => panic!("expected Skipped, got {other:?}"),
    }
    assert_eq!(report.summary.tasks, 0);
}

#[test]
fn monad_notify_on_unit_without_notify_tasks_skips_cleanly() {
    let report = deploy_and_notify("true", &[]).notify_only(&replaying());
    let task = &report.profiles[0].units[0].tasks[0];
    assert_eq!(task.name, "<no-notify>");
    assert!(matches!(task.outcome, TaskOutcome::Skipped { .. }));
}

#[test]
fn a_cache_that_fails_to_restore_fails_the_task() {
    let task = plain_task("build", "true", &[]);
    let step = next_step(
        &task,
        first_step(&task, &ci()),
        RunEvent::RestoreFailed { message: "disk full".into() },
    );
    match step {
        RunStep::Done { result, store, write_through } => {
            assert!(!store && !write_through);
            assert_eq!(
                result.outcome,
                TaskOutcome::Failed { exit_code: -1, stderr_excerpt: "cache restore failed: disk full".into() }
            );
        }
        other => panic!("{other:?}"),
    }
}

#[test]
fn a_task_that_cannot_be_started_is_tried_again() {
    let mut task = plain_task("build", "true", &[]);
    task.no_cache = true;
    task.retry = 1;
    let lost = || RunEvent::ExecFailed { message: "no sh".into() };
    let step = next_step(&task, first_step(&task, &ci()), lost());
    assert!(matches!(step, RunStep::Run { attempt: 2 }), "{step:?}");
    match next_step(&task, step, lost()) {
        RunStep::Done { result, .. } => {
            assert_eq!(result.attempts, 2);
            assert_eq!(
                result.outcome,
                TaskOutcome::Failed { exit_code: -1, stderr_excerpt: "exec error: no sh".into() }
            );
        }
        other => panic!("{other:?}"),
    }
}

#[test]
fn a_notification_that_cannot_be_started_or_awaited_fails() {
    let task = plain_task("slack", "post", &[]);
    let row = notify_task_row(&task, &NotifyEvent::SpawnFailed { message: "no sh".into() }, 4);
    assert_eq!(
        row.outcome,
        TaskOutcome::Failed { exit_code: -1, stderr_excerpt: "failed to spawn notify task: no sh".into() }
    );
    assert_eq!(row.attempts, 1);
    let row = notify_task_row(&task, &NotifyEvent::WaitFailed { message: "gone".into() }, 4);
    assert_eq!(
        row.outcome,
        TaskOutcome::Failed { exit_code: -1, stderr_excerpt: "notify task wait failed: gone".into() }
    );
    let row = notify_task_row(&task, &NotifyEvent::Refused { message: "no token".into() }, 4);
    assert_eq!(row.attempts, 0);
}

#[test]
fn the_remote_cache_is_told_only_where_the_workspace_asks_for_it() {
    let cache = |on: bool| CacheConfig {
        remote: Some("monad://cache.example".into()),
        remote_region: None,
        remote_endpoint: None,
        remote_token_env: None,
        remote_write_through: on,
    };
    assert!(writes_through(&cache(true), true, true));
    assert!(!writes_through(&cache(false), true, true));
    assert!(!writes_through(&cache(true), false, true));
    assert!(!writes_through(&cache(true), true, false));
}
