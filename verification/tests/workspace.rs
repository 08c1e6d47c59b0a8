use monad::artifacts::{
    collect, collect_patterns, is_glob, resolve_patterns, ArtifactsError, CollectError, DirContents,
};
use monad::config::{
    CacheConfig, ContainerMode, IntegrationTaskKind, LoadedUnit, Profile, RepoConfig, Task, UnitConfig,
    Workspace,
};
use monad::diff::{dirty_dirs, file_is_inside, GitDiff, GitRun};
use monad::discovery::{is_noise_dir, scan_orphan_unites, scan_orphans};
use monad::execute::TargetRefError;
use monad::inventory::{box_list, profiles_with, relative_source, unit_list};
use monad::notification::{
    build_notification_payload, is_sidecar, ndjson_line, notification_sidecar_path, order_sidecars,
    sanitize_component, NotificationPayload,
};
use monad::pathset::{contains_path, set_of_paths};
use monad::plan::{
    assemble, MissReason, PlannedProfile, PlannedTask, PlannedUnit, TaskStatus, WorkspaceNotFound,
};
use monad::prime::{collect_cache, collect_plan, compute, recommend_next, CacheStatus, PlanSnapshot};
use monad::run::{
    ExecutedProfile, ExecutedTask, ExecutedUnit, ExecutionReport, ExecutionSummary, TaskOutcome,
};
use monad::strmap::StrMap;
use monad::tools::{
    deploy_kind, deploy_options, install_options, missing_integration, notify_options, nothing_cached,
    plan_options, resolve_secret_aliases, resolve_target_filters, schema_target, task_options, why_target,
    DeployArgs, ExecArgs, InstallArgs, NotifyArgs, PlanArgs, SchemaTarget, ToolError, WhyTarget,
};
use monad::unit_run::marker_row;
use monad::why::{resolve_unit_task_key, WhyTargetError};
use monad::workspace_ctx::WorkspaceCtx;

fn texts(v: &[&str]) -> Vec<String> {
    v.iter().map(|s| s.to_string()).collect()
}

fn unit(name: &str) -> UnitConfig {
    UnitConfig {
        name: name.into(),
        language: None,
        depends_on: vec![],
        inputs: vec![],
        outputs: vec![],
        force_independent: false,
        integrations: vec![],
        notifications: vec![],
        tasks: StrMap::new(),
    }
}

fn unit_with(outputs: &[&str], task_outputs: &[(&str, &[&str])]) -> UnitConfig {
    let mut u = unit("test");
    u.outputs = texts(outputs);
    for (name, outs) in task_outputs {
        u.tasks.insert(
            name.to_string(),
            Task {
                run: Some("true".into()),
                inputs: None,
                outputs: Some(texts(outs)),
                workspace_outputs: None,
                env: vec![],
                retry: 0,
            },
        );
    }
    u
}

fn workspace(profiles: &[(&str, &[&str])], units: &dyn Fn() -> Vec<(&'static str, UnitConfig)>) -> Workspace {
    let mut by_profile = StrMap::new();
    for (name, paths) in profiles {
        by_profile.insert(
            name.to_string(),
            Profile {
                name: name.to_string(),
                source: format!("/ws/profiles/{name}.toml"),
                units: texts(paths),
            },
        );
    }
    let loaded =
        |rel: &str, config: UnitConfig| LoadedUnit { rel: rel.into(), dir: format!("/ws/{rel}"), config };
    let mut by_path = StrMap::new();
    for (rel, config) in units() {
        by_path.insert(rel.to_string(), loaded(rel, config));
    }
    let mut by_name = StrMap::new();
    for (rel, config) in units() {
        by_name.insert(config.name.clone(), loaded(rel, config));
    }
    Workspace {
        root: "/ws".into(),
        repo: RepoConfig {
            parallelism: 2,
            fail_fast: true,
            container: ContainerMode::Never,
            image: None,
            cache: CacheConfig {
                remote: None,
                remote_region: None,
                remote_endpoint: None,
                remote_token_env: None,
                remote_write_through: false,
            },
            pins: StrMap::new(),
            telemetry_enabled: true,
            environments: StrMap::new(),
        },
        profiles: by_profile,
        units_by_path: by_path,
        units_by_name: by_name,
    }
}

fn api_and_web() -> Workspace {
    workspace(&[("prod", &["apps/api", "apps/web"]), ("beta", &["apps/web"])], &|| {
        let mut api = unit("api");
        api.language = Some("go".into());
        api.outputs = texts(&["bin/api", "dist/*.js"]);
        vec![("apps/api", api), ("apps/web", unit("web"))]
    })
}

#[test]
fn literal_path_resolves_when_present() {
    let found = DirContents { present: texts(&["bin/api"]), files: texts(&["bin/api"]) };
    let resolved = resolve_patterns("/ws/apps/api", &texts(&["bin/api"]), &found).ok().unwrap();
    assert_eq!(resolved.len(), 1);
    assert!(resolved[0].ends_with("bin/api"));
    let absent = DirContents { present: vec![], files: texts(&["bin/api"]) };
    assert!(resolve_patterns("/ws/apps/api", &texts(&["bin/api"]), &absent).ok().unwrap().is_empty());
}

#[test]
fn glob_pattern_expands_to_files() {
    let found = DirContents { present: vec![], files: texts(&["dist/c.css", "dist/b.js", "dist/a.js"]) };
    let resolved = resolve_patterns("/ws/u", &texts(&["dist/*.js"]), &found).ok().unwrap();
    assert_eq!(resolved, texts(&["/ws/u/dist/a.js", "/ws/u/dist/b.js"]));
}

#[test]
fn a_broken_glob_is_refused() {
    let found = DirContents { present: vec![], files: vec![] };
    assert!(resolve_patterns("/ws/u", &texts(&["dist/[a"]), &found).is_err());
}

#[test]
fn collect_patterns_unions_unit_and_task_dedupe_in_order() {
    let u = unit_with(&["bin/api"], &[("build", &["bin/api", "dist/"]), ("test", &["coverage.out"])]);
    assert_eq!(collect_patterns(&u), texts(&["bin/api", "dist/", "coverage.out"]));
}

#[test]
fn is_glob_recognises_metachars() {
    assert!(is_glob("dist/*.js"));
    assert!(is_glob("**/*.go"));
    assert!(is_glob("file?.txt"));
    assert!(is_glob("file[ab].txt"));
    assert!(is_glob("file{a,b}.txt"));
    assert!(!is_glob("bin/api"));
    assert!(!is_glob("dist/"));
}

fn api_disk() -> StrMap<DirContents> {
    let mut disk = StrMap::new();
    disk.insert(
        "apps/api".into(),
        DirContents { present: texts(&["bin/api"]), files: texts(&["bin/api", "dist/x.js", "main.go"]) },
    );
    disk
}

#[test]
fn artifacts_are_collected_by_unit() {
    let ws = api_and_web();
    let all = collect(&ws, None, &api_disk()).ok().unwrap();
    assert_eq!(all.len(), 1);
    assert_eq!(
        all.get("api").unwrap(),
        &texts(&["/ws/apps/api/bin/api", "/ws/apps/api/dist/x.js"])
    );
    assert_eq!(collect(&ws, Some("beta"), &api_disk()).ok().unwrap().len(), 0);
    match collect(&ws, Some("nope"), &api_disk()) {
        Err(CollectError::Artifacts(e)) => {
            assert_eq!(e.message(), "no monad named 'nope' (known: beta, prod)");
            let ArtifactsError::UnknownProfile { name, available } = e;
            assert_eq!((name.as_str(), available.as_str()), ("nope", "beta, prod"));
        }
        _ => panic!("expected an unknown profile"),
    }
}

fn ended(stdout: &str) -> GitRun {
    GitRun::Ended { success: true, stdout: stdout.as_bytes().to_vec(), stderr: vec![] }
}

#[test]
fn discover_finds_repo_root() {
    let diff = GitDiff::discover("/r/a/b/c", "/r/a/b/c", &vec![false, false, false, true, false]).ok().unwrap();
    assert_eq!(diff.repo_root(), "/r");
}

#[test]
fn discover_errors_outside_repo() {
    match GitDiff::discover("/tmp/x", "/tmp/x", &vec![false, false, false]) {
        Ok(d) => panic!("{}", d.repo_root()),
        Err(err) => assert!(err.contains("no git repository"), "got: {err}"),
    }
}

#[test]
fn changed_files_picks_up_unstaged_modification() {
    let changed = GitDiff::new("/r").changed_files("HEAD", &ended("apps/api/main.go\n"), &ended("")).unwrap();
    assert!(changed.contains(&"apps/api/main.go".to_string()), "{changed:?}");
}

#[test]
fn changed_files_picks_up_untracked_files() {
    let changed =
        GitDiff::new("/r").changed_files("HEAD", &ended(""), &ended("apps/web/src/App.tsx\n")).unwrap();
    assert!(changed.contains(&"apps/web/src/App.tsx".to_string()), "{changed:?}");
}

#[test]
fn changed_files_picks_up_staged_files_not_yet_committed() {
    let changed = GitDiff::new("/r").changed_files("HEAD", &ended("staged.txt\n"), &ended("")).unwrap();
    assert!(changed.contains(&"staged.txt".to_string()), "{changed:?}");
}

#[test]
fn changed_dirs_matches_only_affected_unites() {
    let dirty = GitDiff::new("/r")
        .changed_dirs("HEAD", &texts(&["apps/api", "apps/web"]), &ended("apps/api/main.go\n"), &ended(""))
        .unwrap();
    assert!(dirty.contains(&"apps/api".to_string()));
    assert!(!dirty.contains(&"apps/web".to_string()));
}

#[test]
fn changed_dirs_does_not_confuse_prefixed_siblings() {
    let dirty = GitDiff::new("/r")
        .changed_dirs(
            "HEAD",
            &texts(&["apps/api", "apps/api-v2"]),
            &ended("apps/api-v2/main.go\n"),
            &ended(""),
        )
        .unwrap();
    assert!(!dirty.contains(&"apps/api".to_string()));
    assert!(dirty.contains(&"apps/api-v2".to_string()));
}

#[test]
fn changed_files_returns_empty_when_working_tree_matches_head() {
    let changed = GitDiff::new("/r").changed_files("HEAD", &ended(""), &ended("")).unwrap();
    assert!(changed.is_empty(), "unexpected: {changed:?}");
}

#[test]
fn unknown_ref_returns_error() {
    let bad = GitRun::Ended {
        success: false,
        stdout: vec![],
        stderr: b"fatal: bad revision 'nonsuch-ref'".to_vec(),
    };
    let err = GitDiff::new("/r").changed_files("nonsuch-ref", &bad, &ended("")).unwrap_err();
    assert!(err.contains("git diff"), "got: {err}");
    assert!(err.contains("bad revision"), "got: {err}");
    let err = GitDiff::new("/r").changed_files("HEAD", &ended(""), &GitRun::NotStarted).unwrap_err();
    assert!(err.contains("git ls-files"), "got: {err}");
}

#[test]
fn files_lie_in_the_directories_above_them() {
    assert!(file_is_inside("apps/api/x/y.go", "apps/api"));
    assert!(!file_is_inside("apps/apix/y.go", "apps/api"));
    assert!(!file_is_inside("apps/api", "apps/api"));
    assert!(!file_is_inside("apps/api/", "apps/api"));
    assert!(file_is_inside("apps/api", ""));
    assert_eq!(dirty_dirs(&texts(&["b/x", "a/y"]), &texts(&["b", "a", "c"])), texts(&["a", "b"]));
    assert_eq!(dirty_dirs(&texts(&["vendored"]), &texts(&["vendored", "other"])), texts(&["vendored"]));
}

#[test]
fn excludes_wired_and_noise() {
    let found = texts(&[
        "apps/api",
        "apps/legacy",
        "crates/experimental",
        "target/debug/spurious",
        "node_modules/pkg",
        ".git/hooks",
    ]);
    assert_eq!(
        scan_orphans(&found, &texts(&["apps/api"])),
        texts(&["apps/legacy", "crates/experimental"])
    );
    assert!(is_noise_dir(".next"));
    assert!(!is_noise_dir("next"));
}

#[test]
fn returns_empty_when_all_wired() {
    assert!(scan_orphans(&texts(&["apps/api"]), &texts(&["apps/api"])).is_empty());
}

#[test]
fn the_workspace_itself_is_no_orphan() {
    assert!(scan_orphans(&texts(&[""]), &vec![]).is_empty());
    let ws = api_and_web();
    assert_eq!(scan_orphan_unites(&ws, &texts(&["x", "apps/web"])), texts(&["x"]));
}

#[test]
fn path_sets_hold_each_path_once_and_in_order() {
    assert_eq!(set_of_paths(&texts(&["b", "a/b", "a", "b"])), texts(&["a", "a/b", "b"]));
    assert!(contains_path(&texts(&["a/b"]), "a//b"));
}

#[test]
fn units_are_listed_with_their_profiles() {
    let ws = api_and_web();
    let list = unit_list(&ws, &texts(&["apps/old"]));
    assert_eq!(list.units.len(), 2);
    assert_eq!(list.units[0].name, "api");
    assert_eq!(list.units[0].language.as_deref(), Some("go"));
    assert_eq!(list.units[0].profiles, texts(&["prod"]));
    assert_eq!(list.units[1].profiles, texts(&["beta", "prod"]));
    assert_eq!(list.orphans, texts(&["apps/old"]));
    assert_eq!(profiles_with(&ws, "apps/web"), texts(&["beta", "prod"]));
}

#[test]
fn profiles_are_listed_with_their_files() {
    let list = box_list(&api_and_web());
    assert_eq!(list.profiles[0].name, "beta");
    assert_eq!(list.profiles[0].source, "profiles/beta.toml");
    assert_eq!(list.profiles[1].units, texts(&["apps/api", "apps/web"]));
    assert_eq!(relative_source("/ws", "/elsewhere/x.toml"), "/elsewhere/x.toml");
}

fn mk_cache() -> CacheStatus {
    CacheStatus {
        local_dir: "/tmp".into(),
        local_exists: false,
        remote_url: None,
        remote_token_env: None,
        remote_token_resolved: false,
    }
}

fn mk_plan(hits: usize, misses: usize) -> PlanSnapshot {
    PlanSnapshot { preview: vec![], total_tasks: hits + misses, hits, misses, skipped: 0 }
}

#[test]
fn recommend_next_always_returns_at_least_one_step() {
    let ws = workspace(&[], &|| vec![]);
    let steps = recommend_next(&ws, &vec![], &mk_cache(), &mk_plan(0, 0));
    assert!(!steps.is_empty());
    assert!(steps.iter().any(|s| s.contains("monad box add")), "got {steps:?}");
}

#[test]
fn recommend_flags_missing_remote_token() {
    let ws = workspace(&[], &|| vec![]);
    let cache = CacheStatus {
        local_dir: "/tmp".into(),
        local_exists: true,
        remote_url: Some("monad://cache.monad.build".into()),
        remote_token_env: Some("MONAD_CACHE_TOKEN".into()),
        remote_token_resolved: false,
    };
    let steps = recommend_next(&ws, &vec![], &cache, &mk_plan(0, 0));
    assert!(steps.iter().any(|s| s.contains("MONAD_CACHE_TOKEN")), "got {steps:?}");
}

#[test]
fn recommend_warm_cache_is_clean() {
    let ws = workspace(&[("prod", &["apps/api"])], &|| {
        let mut u = unit("api");
        u.language = Some("bun".into());
        vec![("apps/api", u)]
    });
    let mut cache = mk_cache();
    cache.local_exists = true;
    let steps = recommend_next(&ws, &vec![], &cache, &mk_plan(3, 0));
    assert_eq!(steps.len(), 1);
    assert!(steps[0].contains("cache-warm"));
}

#[test]
fn misses_are_to_be_built() {
    let ws = api_and_web();
    let cold = recommend_next(&ws, &texts(&["x"]), &mk_cache(), &mk_plan(0, 2));
    assert_eq!(cold.len(), 2);
    assert!(cold[0].starts_with("1 orphan unit.toml"));
    assert!(cold[1].contains("prime the cache"));
    let warm = recommend_next(&ws, &vec![], &mk_cache(), &mk_plan(1, 2));
    assert!(warm[0].starts_with("2 task(s) would miss cache"));
}

fn planned(name: &str, status: TaskStatus) -> PlannedTask {
    PlannedTask {
        name: name.into(),
        run: "true".into(),
        key: format!("key-{name}"),
        status,
        miss_reason: if status == TaskStatus::CacheMiss { Some(MissReason::NeverCached) } else { None },
    }
}

fn planned_unit(name: &str, tasks: Vec<PlannedTask>) -> PlannedUnit {
    PlannedUnit {
        name: name.into(),
        path: format!("apps/{name}"),
        language: None,
        tasks,
        skipped_by_diff: false,
    }
}

fn plan_of_api() -> monad::plan::Plan {
    assemble(
        vec![PlannedProfile {
            name: "prod".into(),
            units: vec![planned_unit(
                "api",
                vec![
                    planned("build", TaskStatus::CacheHit),
                    planned("lint", TaskStatus::CacheMiss),
                    planned("odd", TaskStatus::NoAdapter),
                ],
            )],
        }],
        vec![],
    )
}

#[test]
fn previews_show_the_first_tasks() {
    let units = (0..4)
        .map(|i| {
            planned_unit(
                &format!("u{i}"),
                vec![planned("build", TaskStatus::CacheHit), planned("test", TaskStatus::CacheMiss)],
            )
        })
        .collect();
    let plan = assemble(vec![PlannedProfile { name: "prod".into(), units }], vec![]);
    let s = collect_plan(&plan);
    assert_eq!(s.preview.len(), 5);
    assert_eq!((s.preview[1].unit.as_str(), s.preview[1].task.as_str()), ("u0", "test"));
    assert_eq!(s.preview[1].miss_reason, Some(MissReason::NeverCached));
    assert_eq!((s.total_tasks, s.hits, s.misses), (8, 4, 4));
}

#[test]
fn a_first_look_holds_everything() {
    let mut ws = api_and_web();
    ws.repo.cache.remote = Some("monad://c".into());
    ws.repo.cache.remote_token_env = Some("TOKEN".into());
    let mut env = StrMap::new();
    env.insert("TOKEN".into(), "x".into());
    let out = compute(&ws, &texts(&["apps/old"]), Some("/cache"), true, &env, &plan_of_api());
    assert_eq!(out.workspace_root, "/ws");
    assert_eq!(out.profiles[1].unit_count, 2);
    assert_eq!(out.units[1].profiles, texts(&["beta", "prod"]));
    assert_eq!(out.orphan_units, texts(&["apps/old"]));
    assert!(out.cache.remote_token_resolved);
    assert_eq!(out.recommended_next.len(), 2);
    let unknown = collect_cache(&ws.repo.cache, None, false, &StrMap::new());
    assert_eq!(unknown.local_dir, "(unknown)");
    assert!(!unknown.remote_token_resolved);
}

#[test]
fn keys_are_found_by_unit_and_task() {
    let ws = api_and_web();
    let plan = plan_of_api();
    let key = |target: &str| resolve_unit_task_key(&ws, &plan, target);
    assert_eq!(key("api:build").ok().unwrap(), "key-build");
    match key("api") {
        Err(e @ WhyTargetError::InvalidUnitTask { .. }) => {
            assert_eq!(
                e.message(),
                "invalid target 'api' — must be `<unit>:<task>` or a cache-key hex prefix"
            );
        }
        _ => panic!("expected an invalid target"),
    }
    match key("nope:build") {
        Err(e) => {
            assert_eq!(e.message(), "no unit named 'nope' in this workspace");
            assert!(matches!(e, WhyTargetError::UnitNotFound { available, .. } if available == texts(&["api", "web"])));
        }
        Ok(k) => panic!("{k}"),
    }
    match key("api:nope") {
        Err(e) => {
            assert_eq!(e.message(), "unit 'api' has no task named 'nope'");
            assert!(matches!(e, WhyTargetError::TaskNotFound { available, .. } if available == texts(&["build", "lint", "odd"])));
        }
        Ok(k) => panic!("{k}"),
    }
    match key("api:odd") {
        Err(WhyTargetError::TaskNotFound { available, .. }) => {
            assert_eq!(available, texts(&["build", "lint"]));
        }
        _ => panic!("expected no such task"),
    }
    assert!(matches!(key("web:build"), Err(WhyTargetError::UnitNotFound { .. })));
}

#[test]
fn why_targets_are_told_apart() {
    assert!(matches!(why_target("api:build"), Ok(WhyTarget::UnitTask)));
    assert!(matches!(why_target("00ffAA"), Ok(WhyTarget::KeyPrefix)));
    assert!(why_target("").is_err());
    assert!(why_target("xyz").is_err());
    match nothing_cached("api:build", "k1", 0) {
        Some(e) => assert_eq!(e.message(), "no cache entry for api:build yet (key k1)"),
        None => panic!("expected no entry"),
    }
    assert!(nothing_cached("api:build", "k1", 1).is_none());
    assert!(nothing_cached("00ff", "k1", 0).is_none());
}

#[test]
fn schemas_have_names() {
    assert!(matches!(schema_target("notification-payload"), Ok(SchemaTarget::NotificationPayload)));
    assert!(matches!(schema_target("plan"), Ok(SchemaTarget::Plan)));
    let e = schema_target("nope").err().unwrap();
    assert!(e.starts_with("unknown schema target 'nope' — expected one of: plan, report"));
}

fn with_environment() -> Workspace {
    let mut ws = api_and_web();
    let mut secrets = StrMap::new();
    secrets.insert("TOKEN".into(), "PROD_TOKEN".into());
    secrets.insert("URL".into(), "PROD_URL".into());
    ws.repo.environments.insert("live".into(), secrets);
    ws
}

#[test]
fn arguments_go_before_the_environment() {
    let ws = with_environment();
    let mut from = StrMap::new();
    from.insert("TOKEN".to_string(), "MINE".to_string());
    let aliases = resolve_secret_aliases(&ws, Some("live"), Some(&from)).ok().unwrap();
    assert_eq!(aliases.get("TOKEN").unwrap(), "MINE");
    assert_eq!(aliases.get("URL").unwrap(), "PROD_URL");
    assert_eq!(resolve_secret_aliases(&ws, None, None).ok().unwrap().len(), 0);
    let e = resolve_secret_aliases(&ws, Some("x"), None).err().unwrap();
    assert!(e.starts_with("environment `x` is not defined in monad.toml (known: [\"live\"])"), "{e}");
}

fn deploy_args(target: &str, env: &str) -> DeployArgs {
    DeployArgs {
        target: target.into(),
        env: env.into(),
        preview: None,
        rollback: None,
        force: None,
        no_notify: None,
        secret_from: None,
    }
}

#[test]
fn deploys_take_their_options_from_the_arguments() {
    let ws = with_environment();
    let o = deploy_options(&ws, &deploy_args("api", "live")).ok().unwrap();
    assert_eq!(o.unit_filter.as_deref(), Some("api"));
    assert_eq!(o.monad_filter, None);
    assert_eq!(o.task_filter, Some(texts(&["build"])));
    assert_eq!(o.task_kind_filter, Some(IntegrationTaskKind::Deploy));
    assert_eq!(o.secret_aliases.get("TOKEN").unwrap(), "PROD_TOKEN");
    assert!(o.run_notify_kinds);
    assert!(!o.force_deploy);
    assert_eq!(o.environment.as_deref(), Some("live"));
    assert!(matches!(
        deploy_options(&ws, &deploy_args("nope", "live")),
        Err(ToolError::Target(TargetRefError::NotFound { .. }))
    ));
    assert!(matches!(deploy_options(&ws, &deploy_args("api", "x")), Err(ToolError::Environment(_))));
    let mut a = deploy_args("api", "live");
    a.preview = Some(true);
    assert_eq!(deploy_kind(&a), IntegrationTaskKind::DeployPreview);
    a.rollback = Some(true);
    assert_eq!(deploy_kind(&a), IntegrationTaskKind::Rollback);
}

#[test]
fn tools_take_their_options_from_the_arguments() {
    let ws = with_environment();
    assert_eq!(resolve_target_filters(&ws, None).ok().unwrap(), (None, None));
    assert_eq!(resolve_target_filters(&ws, Some("prod")).ok().unwrap(), (Some("prod".into()), None));
    let exec = ExecArgs {
        target: Some("prod".into()),
        no_cache: Some(true),
        skip_install: None,
        force_install: Some(false),
    };
    let o = task_options(&ws, &exec, Some("test")).ok().unwrap();
    assert_eq!(o.monad_filter.as_deref(), Some("prod"));
    assert_eq!(o.task_filter, Some(texts(&["test"])));
    assert!(o.no_cache && !o.skip_install && !o.force_install && !o.install_only);
    assert_eq!(task_options(&ws, &exec, None).ok().unwrap().task_filter, None);
    let o = install_options(&ws, &InstallArgs { target: None, force: Some(true) }).ok().unwrap();
    assert!(o.install_only && o.force_install);
    let notify = NotifyArgs { target: Some("web".into()), env: "live".into(), secret_from: None };
    let o = notify_options(&ws, &notify).ok().unwrap();
    assert_eq!(o.task_kind_filter, Some(IntegrationTaskKind::Notify));
    assert!(o.run_notify_kinds && o.skip_install);
    assert_eq!(o.unit_filter.as_deref(), Some("web"));
    let plan = PlanArgs {
        target: Some("api".into()),
        monad: Some("beta".into()),
        no_cache: None,
        since: Some("HEAD".into()),
    };
    let o = plan_options(&ws, &plan).ok().unwrap().unwrap();
    assert_eq!(o.unit_filter.as_deref(), Some("api"));
    assert_eq!(o.monad_filter.as_deref(), Some("beta"));
    assert_eq!(o.since.as_deref(), Some("HEAD"));
    assert!(!o.no_cache);
}

#[test]
fn a_target_and_a_profile_are_filters_together() {
    let ws = api_and_web();
    let filters = |target: Option<&str>, monad: Option<&str>| {
        let args = PlanArgs {
            target: target.map(|s| s.into()),
            monad: monad.map(|s| s.into()),
            no_cache: Some(true),
            since: None,
        };
        plan_options(&ws, &args).ok().unwrap().map(|o| {
            assert!(o.no_cache);
            (o.monad_filter, o.unit_filter)
        })
    };
    assert_eq!(filters(Some("prod"), Some("beta")), None);
    assert_eq!(filters(Some("prod"), Some("prod")), Some((Some("prod".into()), None)));
    assert_eq!(filters(Some("prod"), None), Some((Some("prod".into()), None)));
    assert_eq!(filters(None, Some("beta")), Some((Some("beta".into()), None)));
    assert_eq!(filters(Some("web"), None), Some((None, Some("web".into()))));
    assert_eq!(filters(None, None), Some((None, None)));
    let unknown = PlanArgs { target: Some("nope".into()), monad: Some("prod".into()), no_cache: None, since: None };
    assert!(plan_options(&ws, &unknown).is_err());
}

fn report_of(tasks: Vec<ExecutedTask>) -> ExecutionReport {
    ExecutionReport {
        profiles: vec![ExecutedProfile {
            name: "prod".into(),
            units: vec![ExecutedUnit {
                name: "api".into(),
                path: "apps/api".into(),
                language: None,
                install: None,
                tasks,
            }],
        }],
        summary: ExecutionSummary::default(),
    }
}

#[test]
fn units_without_the_integration_are_told() {
    let report = report_of(vec![marker_row("<no-deploy>".into(), "nothing".into())]);
    let e = missing_integration(&report, "api", &texts(&["sentry"]), IntegrationTaskKind::Deploy).unwrap();
    assert_eq!(e, "unit 'api' has no 'deploy' integration task — configured integrations: [\"sentry\"]");
    assert!(missing_integration(&report, "web", &vec![], IntegrationTaskKind::Deploy).is_none());
    assert!(missing_integration(&report, "api", &vec![], IntegrationTaskKind::Rollback).is_none());
}

fn deployed(name: &str, outcome: TaskOutcome) -> ExecutedTask {
    ExecutedTask {
        name: name.into(),
        run: "up".into(),
        key: "k".into(),
        duration_ms: 12,
        outcome,
        attempts: 1,
        flaky: false,
        output_excerpt: Some("https://x".into()),
        diagnostics: vec![],
    }
}

fn payload(name: &str, outcome: TaskOutcome) -> NotificationPayload {
    build_notification_payload(&deployed(name, outcome), "api", "prod", None, "0.3.7")
}

#[test]
fn payloads_name_the_outcome() {
    let built = payload("a", TaskOutcome::Built { exit_code: 0 });
    assert_eq!((built.trigger.outcome.as_str(), built.trigger.exit_code), ("built", 0));
    assert_eq!(built.trigger.output_excerpt, "https://x");
    assert_eq!(built.trigger.duration_ms, 12);
    assert_eq!(built.monad_version, "0.3.7");
    let failed = payload("a", TaskOutcome::Failed { exit_code: 4, stderr_excerpt: "boom".into() });
    assert_eq!((failed.trigger.outcome.as_str(), failed.trigger.exit_code), ("failed", 4));
    assert_eq!(failed.trigger.stderr_excerpt.as_deref(), Some("boom"));
    assert_eq!(payload("a", TaskOutcome::CacheHit).trigger.outcome, "cache_hit");
}

#[test]
fn payloads_are_kept_by_task_and_read_in_order() {
    let built = || TaskOutcome::Built { exit_code: 0 };
    let v = order_sidecars(vec![payload("b", built()), payload("a", built())]);
    assert_eq!((v[0].trigger.task_name.as_str(), v[1].trigger.task_name.as_str()), ("a", "b"));
    assert_eq!(sanitize_component("fly:io deploy-1_x/é"), "fly_io_deploy-1_x__");
    assert_eq!(
        notification_sidecar_path("/ws", "prod", "d", "mock:deploy"),
        "/ws/.monad/notification/prod/d/mock_deploy.json"
    );
    assert_eq!(ndjson_line("{}"), "{}\n");
    assert!(is_sidecar("mock_deploy.json"));
    assert!(!is_sidecar(".json") && !is_sidecar("mock_deploy.json.tmp") && !is_sidecar("json"));
}

#[test]
fn resolves_explicit_workspace() {
    let ctx = WorkspaceCtx::resolve(Ok("/ws".into()));
    assert_eq!(ctx.workspace_root(), Some("/ws"));
    assert_eq!(ctx.require_workspace_root().ok().unwrap(), "/ws");
    assert_eq!(ctx.pong(), "pong · workspace_root = /ws");
}

#[test]
fn returns_none_when_no_workspace_found() {
    let ctx = WorkspaceCtx::resolve(Err(WorkspaceNotFound { start: "/tmp".into() }));
    assert!(ctx.workspace_root().is_none());
    assert!(ctx.require_workspace_root().err().unwrap().starts_with("no monad workspace resolved"));
    assert_eq!(ctx.pong(), "pong · workspace_root = (unresolved)");
}
