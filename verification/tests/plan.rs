use monad::cascade::{content_files, ContentError, SourceFile};
use monad::config::{
    AdapterFacts, CacheConfig, ContainerMode, DefaultTask, IntegrationFacts, IntegrationTask,
    IntegrationTaskKind, LoadedUnit, NotificationBlock, Profile, RepoConfig, Task, UnitConfig,
    Workspace,
};
use monad::keys::{
    compute_key, host_triple, key_files, monad_version_major_minor, next_dep_keys, InputManifest,
};
use monad::path::ancestors;
use monad::plan::{
    assemble, classify, clean_dirs, container_image_for_plan, default_cache_root, find_workspace_root,
    plan_unit, profile_targets, unit_targets, MissReason, Plan, PlanOptions, PlannedProfile, TaskStatus,
};
use monad::strmap::StrMap;
use monad::tasks::{
    resolve_adapter, resolve_integrations, resolve_tasks, shadowed_unit_inputs, AdapterChoice,
    ResolvedTask,
};

fn texts(v: &[&str]) -> Vec<String> {
    v.iter().map(|s| s.to_string()).collect()
}

fn unit(name: &str) -> UnitConfig {
    UnitConfig {
        name: name.into(),
        language: None,
        depends_on: vec![],
        inputs: vec![],
        outputs: vec![],
        force_independent: false,
        integrations: vec![],
        notifications: vec![],
        tasks: StrMap::new(),
    }
}

fn task(run: Option<&str>) -> Task {
    Task {
        run: run.map(String::from),
        inputs: None,
        outputs: None,
        workspace_outputs: None,
        env: vec![],
        retry: 0,
    }
}

fn offers(name: &str, run: &str, inputs: &[&str]) -> DefaultTask {
    DefaultTask {
        name: name.into(),
        run: run.into(),
        inputs: Some(texts(inputs)),
        outputs: None,
    }
}

fn adapter(id: &str, tasks: Vec<DefaultTask>, fingerprints: &[&str]) -> AdapterFacts {
    AdapterFacts {
        id: id.into(),
        default_tasks: tasks,
        fingerprint_files: texts(fingerprints),
        derived_paths: vec![],
        required_toolchain: None,
        resolved_toolchain: None,
    }
}

fn go() -> AdapterFacts {
    adapter(
        "go",
        vec![
            offers("build", "go build ./...", &["**/*.go"]),
            offers("test", "go test ./...", &["**/*.go"]),
            offers("lint", "golangci-lint run", &["**/*.go"]),
        ],
        &["go.mod", "go.sum"],
    )
}

fn npm() -> AdapterFacts {
    adapter(
        "node-npm",
        vec![
            offers("build", "npm run build", &["src/**"]),
            offers("test", "npm run test", &["src/**"]),
            offers("lint", "npm run lint", &["src/**"]),
        ],
        &["package.json", "package-lock.json"],
    )
}

fn cargo() -> AdapterFacts {
    let inputs = ["src/**", "Cargo.toml"];
    adapter(
        "cargo",
        vec![
            offers("build", "cargo build --locked", &inputs),
            offers("check", "cargo check --locked --all-targets", &inputs),
            offers("test", "cargo test --locked", &inputs),
            offers("lint", "cargo clippy --locked", &inputs),
        ],
        &["Cargo.toml", "Cargo.lock"],
    )
}

fn repo() -> RepoConfig {
    RepoConfig {
        parallelism: 2,
        fail_fast: true,
        container: ContainerMode::Auto,
        image: None,
        cache: CacheConfig {
            remote: None,
            remote_region: None,
            remote_endpoint: None,
            remote_token_env: None,
            remote_write_through: false,
        },
        pins: StrMap::new(),
        telemetry_enabled: true,
        environments: StrMap::new(),
    }
}

fn language_unit(name: &str, language: &str) -> UnitConfig {
    let mut u = unit(name);
    u.language = Some(language.into());
    u
}

fn loaded(rel: &str, config: UnitConfig) -> LoadedUnit {
    LoadedUnit { rel: rel.into(), dir: format!("/ws/{rel}"), config }
}

fn profile(name: &str, units: &[&str]) -> Profile {
    Profile {
        name: name.into(),
        source: format!("/ws/profiles/{name}.toml"),
        units: texts(units),
    }
}

fn two_units() -> Workspace {
    let mut profiles = StrMap::new();
    profiles.insert("prod".into(), profile("prod", &["apps/api", "apps/web"]));
    let mut by_path = StrMap::new();
    by_path.insert("apps/api".into(), loaded("apps/api", language_unit("sample-api", "go")));
    by_path.insert("apps/web".into(), loaded("apps/web", language_unit("sample-web", "node-npm")));
    let mut by_name = StrMap::new();
    by_name.insert("sample-api".into(), loaded("apps/api", language_unit("sample-api", "go")));
    by_name.insert("sample-web".into(), loaded("apps/web", language_unit("sample-web", "node-npm")));
    Workspace {
        root: "/ws".into(),
        repo: repo(),
        profiles,
        units_by_path: by_path,
        units_by_name: by_name,
    }
}

/// The files of a unit, by its path.
fn files_of(path: &str, main: &str) -> Vec<(String, String)> {
    let list: &[(&str, &str)] = if path == "apps/api" {
        &[("go.mod", "module example.com/api\n\ngo 1.22\n"), ("go.sum", ""), ("unit.toml", "")]
    } else {
        &[("package.json", "{}"), ("package-lock.json", "{}"), ("src/App.tsx", "export default () => null;\n")]
    };
    let mut v: Vec<(String, String)> = list.iter().map(|(a, b)| (a.to_string(), b.to_string())).collect();
    if path == "apps/api" {
        v.push(("main.go".into(), main.into()));
    }
    v
}

fn key_of(
    unit: &str,
    task: &ResolvedTask,
    adapter: Option<&AdapterFacts>,
    files: &[(String, String)],
) -> (String, InputManifest) {
    let walked: Vec<String> = files.iter().map(|(p, _)| p.clone()).collect();
    let chosen = match key_files(task, adapter, Some(&walked)) {
        Ok(v) => v,
        Err(e) => panic!("{e:?}"),
    };
    let sources: Vec<SourceFile> = chosen
        .iter()
        .map(|p| SourceFile {
            rel: p.clone(),
            content: files.iter().find(|(q, _)| q == p).unwrap().1.as_bytes().to_vec(),
        })
        .collect();
    compute_key(
        unit,
        adapter,
        task,
        &vec![],
        None,
        &vec![],
        &StrMap::new(),
        "0.3.7",
        &host_triple("x86_64", "linux"),
        &sources,
    )
}

fn plan(ws: &Workspace, opts: &PlanOptions, cached: &[String], main: &str) -> Plan {
    let mut profiles = vec![];
    for name in profile_targets(ws, &opts.monad_filter) {
        let mut units = vec![];
        for path in unit_targets(ws, &name, &opts.unit_filter) {
            let u = ws.units_by_path.get(&path).unwrap();
            let a = if u.config.language.as_deref() == Some("go") { go() } else { npm() };
            let tasks = match resolve_tasks(&u.config, Some(&a), &vec![]) {
                Ok(t) => t,
                Err(e) => panic!("{}", e.message()),
            };
            let keys: Vec<String> = tasks
                .iter()
                .map(|t| key_of(&u.config.name, t, Some(&a), &files_of(&path, main)).0)
                .collect();
            let hits: Vec<bool> = keys.iter().map(|k| cached.contains(k)).collect();
            units.push(plan_unit(&u.config, &u.rel, Some(&a.id), &tasks, &keys, &hits, false, opts));
        }
        profiles.push(PlannedProfile { name, units });
    }
    assemble(profiles, vec![])
}

const MAIN: &str = "package main\n\nfunc main() {}\n";

#[test]
fn plan_produces_one_monad_two_unites() {
    let p = plan(&two_units(), &PlanOptions::default(), &[], MAIN);
    assert_eq!(p.profiles.len(), 1);
    assert_eq!(p.profiles[0].name, "prod");
    assert_eq!(p.profiles[0].units.len(), 2);
    assert_eq!(p.summary.units, 2);
}

#[test]
fn plan_detects_languages_per_unit() {
    let p = plan(&two_units(), &PlanOptions::default(), &[], MAIN);
    let units = &p.profiles[0].units;
    let find = |n: &str| units.iter().find(|u| u.name == n).unwrap().language.clone();
    assert_eq!(find("sample-api").as_deref(), Some("go"));
    assert_eq!(find("sample-web").as_deref(), Some("node-npm"));
}

#[test]
fn plan_tasks_use_adapter_defaults() {
    let p = plan(&two_units(), &PlanOptions::default(), &[], MAIN);
    let api = p.profiles[0].units.iter().find(|u| u.name == "sample-api").unwrap();
    let names: Vec<&str> = api.tasks.iter().map(|t| t.name.as_str()).collect();
    assert_eq!(names, vec!["build", "lint", "test"]);
}

#[test]
fn plan_starts_with_all_misses() {
    let p = plan(&two_units(), &PlanOptions::default(), &[], MAIN);
    for u in &p.profiles[0].units {
        for t in &u.tasks {
            assert_eq!(t.status, TaskStatus::CacheMiss);
        }
    }
    assert_eq!(p.summary.hits, 0);
    assert_eq!(p.summary.misses, p.summary.tasks);
}

fn build_key(p: &Plan) -> String {
    let api = p.profiles[0].units.iter().find(|u| u.name == "sample-api").unwrap();
    api.tasks.iter().find(|t| t.name == "build").unwrap().key.clone()
}

#[test]
fn plan_reports_hits_when_cache_populated() {
    let ws = two_units();
    let first = plan(&ws, &PlanOptions::default(), &[], MAIN);
    let second = plan(&ws, &PlanOptions::default(), &[build_key(&first)], MAIN);
    let api = second.profiles[0].units.iter().find(|u| u.name == "sample-api").unwrap();
    let build = api.tasks.iter().find(|t| t.name == "build").unwrap();
    assert_eq!(build.status, TaskStatus::CacheHit);
    assert_eq!(build.miss_reason, None);
    assert_eq!(second.summary.hits, 1);
}

#[test]
fn never_cached_miss_is_tagged_never_cached() {
    let p = plan(&two_units(), &PlanOptions::default(), &[], MAIN);
    for u in &p.profiles[0].units {
        for t in &u.tasks {
            if t.status == TaskStatus::CacheMiss {
                assert_eq!(t.miss_reason, Some(MissReason::NeverCached));
            }
        }
    }
}

fn no_cache() -> PlanOptions {
    PlanOptions { monad_filter: None, unit_filter: None, no_cache: true, since: None }
}

#[test]
fn no_cache_flag_tags_misses_as_force_rerun() {
    let p = plan(&two_units(), &no_cache(), &[], MAIN);
    let mut saw_force = false;
    for u in &p.profiles[0].units {
        for t in &u.tasks {
            if t.status == TaskStatus::CacheMiss {
                assert_eq!(t.miss_reason, Some(MissReason::ForceRerun));
                saw_force = true;
            }
        }
    }
    assert!(saw_force, "expected at least one ForceRerun-tagged miss");
}

#[test]
fn hits_have_no_miss_reason() {
    let ws = two_units();
    let first = plan(&ws, &PlanOptions::default(), &[], MAIN);
    let key = first.profiles[0].units[0].tasks[0].key.clone();
    let second = plan(&ws, &PlanOptions::default(), &[key], MAIN);
    let mut saw_hit = false;
    for u in &second.profiles[0].units {
        for t in &u.tasks {
            if t.status == TaskStatus::CacheHit {
                assert_eq!(t.miss_reason, None);
                saw_hit = true;
            }
        }
    }
    assert!(saw_hit);
}

#[test]
fn plan_no_cache_flag_forces_miss() {
    let ws = two_units();
    let first = plan(&ws, &PlanOptions::default(), &[], MAIN);
    let key = first.profiles[0].units[0].tasks[0].key.clone();
    let p = plan(&ws, &no_cache(), &[key], MAIN);
    assert_eq!(p.summary.hits, 0);
}

#[test]
fn plan_unit_filter_restricts_to_one_unit() {
    let opts = PlanOptions { unit_filter: Some("sample-api".into()), ..PlanOptions::default() };
    let p = plan(&two_units(), &opts, &[], MAIN);
    assert_eq!(p.profiles.len(), 1, "the single monad is preserved");
    assert_eq!(p.profiles[0].units.len(), 1);
    assert_eq!(p.profiles[0].units[0].name, "sample-api");
}

#[test]
fn plan_monad_filter_restricts_to_one() {
    let mut ws = two_units();
    ws.profiles.insert("staging".into(), profile("staging", &["apps/api"]));
    let opts = PlanOptions { monad_filter: Some("staging".into()), ..PlanOptions::default() };
    let p = plan(&ws, &opts, &[], MAIN);
    assert_eq!(p.profiles.len(), 1);
    assert_eq!(p.profiles[0].name, "staging");
    assert_eq!(p.summary.units, 1);
}

#[test]
fn host_triple_returns_arch_dash_os() {
    let h = host_triple("aarch64", "macos");
    let (arch, os) = h.split_once('-').unwrap();
    assert_eq!(arch, "aarch64");
    assert_eq!(os, "macos");
}

fn plain_task() -> ResolvedTask {
    ResolvedTask {
        name: "build".into(),
        run: "go build ./...".into(),
        inputs: texts(&["**"]),
        outputs: vec![],
        workspace_outputs: vec![],
        env: vec![],
        retry: 0,
        no_cache: false,
        required_env: vec![],
        required_cli: vec![],
        integration_kind: None,
        depends_on: vec![],
    }
}

#[test]
fn cache_key_includes_host_in_manifest() {
    let (_, m) = key_of("sample-api", &plain_task(), None, &files_of("apps/api", MAIN));
    assert_eq!(m.host.as_deref(), Some(host_triple("x86_64", "linux").as_str()));
    assert_eq!(m.monad_version, "0.3");
}

#[test]
fn cache_key_changes_when_source_changes() {
    let ws = two_units();
    let before = build_key(&plan(&ws, &PlanOptions::default(), &[], MAIN));
    let after = build_key(&plan(
        &ws,
        &PlanOptions::default(),
        &[],
        "package main\n\nfunc main() { println(42) }\n",
    ));
    assert_ne!(before, after);
}

#[test]
fn keys_hold_the_digests_of_the_files_that_globs_choose() {
    let a = go();
    let t = &resolve_tasks(&language_unit("sample-api", "go"), Some(&a), &vec![]).unwrap()[0];
    let (_, m) = key_of("sample-api", t, Some(&a), &files_of("apps/api", MAIN));
    let paths: Vec<&str> = m.files.iter().map(|f| f.path.as_str()).collect();
    assert_eq!(paths, vec!["go.mod", "go.sum", "main.go"]);
    assert_eq!(m.files[2].size_bytes, MAIN.len() as u64);
    assert_eq!(m.files[2].blake3, blake3::hash(MAIN.as_bytes()).to_hex().to_string());
}

#[test]
fn globs_that_are_wrong_are_reported() {
    let mut t = plain_task();
    t.inputs = texts(&["src/**", "a[b"]);
    let err = key_files(&t, None, Some(&vec![])).unwrap_err();
    assert_eq!(err.message("input"), "compiling input glob `a[b`");
}

#[test]
fn versions_are_cut_to_two_numbers() {
    assert_eq!(monad_version_major_minor("0.3.7"), "0.3");
    assert_eq!(monad_version_major_minor("1.2.3.4"), "1.2");
    assert_eq!(monad_version_major_minor("7"), "7");
}

#[test]
fn find_workspace_root_walks_upward() {
    let start = "/home/me/ws/apps/api";
    let marked: Vec<bool> = ancestors(start).iter().map(|d| d == "/home/me/ws").collect();
    assert_eq!(find_workspace_root(start, start, &marked).unwrap(), "/home/me/ws");
}

#[test]
fn find_workspace_root_errors_outside_any_workspace() {
    let marked = vec![false; ancestors("/tmp/x").len()];
    let err = find_workspace_root("/tmp/x", "/tmp/x", &marked).unwrap_err();
    assert!(err.message().contains("no monad workspace"));
}

fn with_tasks(mut u: UnitConfig, tasks: Vec<(&str, Task)>) -> UnitConfig {
    for (n, t) in tasks {
        u.tasks.insert(n.into(), t);
    }
    u
}

fn run_of(tasks: &[ResolvedTask], name: &str) -> String {
    tasks.iter().find(|t| t.name == name).unwrap().run.clone()
}

#[test]
fn resolve_tasks_overrides_adapter_defaults() {
    let mut u = language_unit("api", "go");
    u.inputs = texts(&["**/*.go"]);
    let u = with_tasks(
        u,
        vec![
            ("build", task(Some("go build -tags custom ./..."))),
            ("deploy", task(Some("./deploy.sh"))),
        ],
    );
    let resolved = resolve_tasks(&u, Some(&go()), &vec![]).unwrap();
    assert_eq!(run_of(&resolved, "build"), "go build -tags custom ./...");
    assert_eq!(run_of(&resolved, "test"), "go test ./...");
    assert_eq!(run_of(&resolved, "lint"), "golangci-lint run");
    assert_eq!(run_of(&resolved, "deploy"), "./deploy.sh");
}

#[test]
fn partial_override_inherits_run_from_adapter_default() {
    let mut t = task(None);
    t.outputs = Some(texts(&["bin/"]));
    let mut u = language_unit("api", "go");
    u.inputs = texts(&["**/*.go"]);
    let resolved = resolve_tasks(&with_tasks(u, vec![("build", t)]), Some(&go()), &vec![]).unwrap();
    let build = resolved.iter().find(|t| t.name == "build").unwrap();
    assert_eq!(build.run, "go build ./...");
    assert_eq!(build.outputs, texts(&["bin/"]));
}

#[test]
fn partial_override_inherits_inputs_and_outputs_from_adapter_default() {
    let mut t = task(None);
    t.workspace_outputs = Some(texts(&["target/debug/ctrl-plane"]));
    let u = with_tasks(language_unit("ctrl-plane", "cargo"), vec![("build", t)]);
    let resolved = resolve_tasks(&u, Some(&cargo()), &vec![]).unwrap();
    let build = resolved.iter().find(|t| t.name == "build").unwrap();
    assert!(build.inputs.iter().any(|g| g == "src/**"));
    assert!(build.inputs.iter().any(|g| g == "Cargo.toml"));
    assert_eq!(build.workspace_outputs, texts(&["target/debug/ctrl-plane"]));
}

#[test]
fn user_task_workspace_outputs_flow_through_to_resolved() {
    let mut t = task(None);
    t.workspace_outputs = Some(texts(&["target/release/ctrl-plane"]));
    let u = with_tasks(language_unit("ctrl-plane", "cargo"), vec![("build", t)]);
    let resolved = resolve_tasks(&u, Some(&cargo()), &vec![]).unwrap();
    let build = resolved.iter().find(|t| t.name == "build").unwrap();
    assert_eq!(build.workspace_outputs, texts(&["target/release/ctrl-plane"]));
    assert_eq!(build.run, "cargo build --locked");
}

#[test]
fn partial_override_without_existing_entry_errors() {
    let mut t = task(None);
    t.outputs = Some(texts(&["dist/"]));
    let u = with_tasks(unit("api"), vec![("custom", t)]);
    let msg = resolve_tasks(&u, None, &vec![]).unwrap_err().message();
    assert!(msg.contains("custom") && msg.contains("no 'run'"), "got: {msg}");
}

#[test]
fn config_driven_integration_opt_in_loads_even_without_file_detection() {
    let resolved = resolve_integrations(&vec![], &texts(&["config-only"]), &texts(&["config-only"]));
    assert_eq!(resolved, texts(&["config-only"]));
}

#[test]
fn resolve_integrations_dedupes_when_both_detect_and_config_match() {
    let resolved = resolve_integrations(&texts(&["dual"]), &texts(&["dual"]), &texts(&["dual"]));
    assert_eq!(resolved.len(), 1);
}

#[test]
fn integrations_that_are_not_known_are_passed_over() {
    let resolved = resolve_integrations(&texts(&["a"]), &texts(&["b", "ghost"]), &texts(&["a", "b"]));
    assert_eq!(resolved, texts(&["a", "b"]));
}

fn block(name: &str, run: &str) -> NotificationBlock {
    NotificationBlock {
        name: name.into(),
        run: run.into(),
        env: vec![],
        required_env: vec![],
        required_cli: vec![],
    }
}

#[test]
fn notification_spec_resolves_to_notify_kind_task() {
    let mut b = block("github-comment", "./notify.sh");
    b.env = texts(&["GITHUB_TOKEN"]);
    b.required_env = texts(&["GITHUB_TOKEN"]);
    b.required_cli = texts(&["curl: install-hint", "jq"]);
    let mut u = unit("d");
    u.notifications = vec![b];
    let resolved = resolve_tasks(&u, None, &vec![]).unwrap();
    assert_eq!(resolved.len(), 1);
    let t = &resolved[0];
    assert_eq!(t.name, "github-comment");
    assert_eq!(t.run, "./notify.sh");
    assert_eq!(t.integration_kind, Some(IntegrationTaskKind::Notify));
    assert!(t.no_cache);
    assert_eq!(t.env, vec!["GITHUB_TOKEN"]);
    assert_eq!(t.required_env, vec!["GITHUB_TOKEN"]);
    assert_eq!(t.required_cli.len(), 2);
    assert_eq!(t.required_cli[0].binary, "curl");
    assert_eq!(t.required_cli[0].install_hint, "install-hint");
    assert_eq!(t.required_cli[1].binary, "jq");
    assert_eq!(t.required_cli[1].install_hint, "");
}

#[test]
fn user_task_can_override_notification_run_but_preserves_notify_kind() {
    let mut b = block("my-notify", "original.sh");
    b.required_env = texts(&["TOKEN"]);
    let mut u = unit("d");
    u.notifications = vec![b];
    let u = with_tasks(u, vec![("my-notify", task(Some("overridden.sh")))]);
    let resolved = resolve_tasks(&u, None, &vec![]).unwrap();
    assert_eq!(resolved.len(), 1);
    let t = &resolved[0];
    assert_eq!(t.run, "overridden.sh");
    assert_eq!(t.integration_kind, Some(IntegrationTaskKind::Notify));
    assert!(t.no_cache);
    assert_eq!(t.required_env, vec!["TOKEN"]);
}

#[test]
fn shadowed_unit_inputs_lists_adapter_defaults_with_inputs() {
    let mut u = language_unit("ctrl-plane", "cargo");
    u.inputs = texts(&["openapi.yaml"]);
    let mut shadowed = shadowed_unit_inputs(&u, Some(&cargo()));
    shadowed.sort();
    assert_eq!(shadowed, vec!["build", "check", "lint", "test"]);
}

#[test]
fn shadowed_unit_inputs_empty_when_unit_inputs_empty() {
    let u = language_unit("api", "cargo");
    assert!(shadowed_unit_inputs(&u, Some(&cargo())).is_empty());
}

#[test]
fn shadowed_unit_inputs_empty_when_no_adapter() {
    let mut u = unit("scripts");
    u.inputs = texts(&["src/**"]);
    assert!(shadowed_unit_inputs(&u, None).is_empty());
}

#[test]
fn unit_inputs_silently_dropped_for_adapter_default_tasks() {
    let mut u = language_unit("ctrl-plane", "cargo");
    u.inputs = texts(&["openapi.yaml"]);
    let resolved = resolve_tasks(&u, Some(&cargo()), &vec![]).unwrap();
    let build = resolved.iter().find(|t| t.name == "build").unwrap();
    assert!(!build.inputs.iter().any(|g| g == "openapi.yaml"));
}

#[test]
fn integration_tasks_take_what_the_integration_needs() {
    let facts = IntegrationFacts {
        id: "railway".into(),
        required_env: texts(&["RAILWAY_TOKEN"]),
        required_cli: vec![],
        tasks: vec![IntegrationTask {
            name: "railway:deploy".into(),
            run: "railway up".into(),
            outputs: vec![],
            env_vars: texts(&["RAILWAY_TOKEN"]),
            no_cache: true,
            kind: IntegrationTaskKind::Deploy,
            depends_on: texts(&["build"]),
        }],
    };
    let resolved = resolve_tasks(&unit("d"), None, &vec![facts]).unwrap();
    assert_eq!(resolved[0].integration_kind, Some(IntegrationTaskKind::Deploy));
    assert_eq!(resolved[0].required_env, vec!["RAILWAY_TOKEN"]);
    assert_eq!(resolved[0].env, vec!["RAILWAY_TOKEN"]);
    assert_eq!(resolved[0].depends_on, vec!["build"]);
    assert!(resolved[0].no_cache);
}

#[test]
fn adapters_are_named_or_detected() {
    assert!(matches!(resolve_adapter(&language_unit("a", "go")), AdapterChoice::ById(id) if id == "go"));
    assert!(matches!(resolve_adapter(&unit("a")), AdapterChoice::Detect));
}

#[test]
fn statuses_are_told_apart() {
    assert_eq!(classify(true, true, true, false), (TaskStatus::SkippedDiffClean, None));
    assert_eq!(
        classify(false, true, false, true),
        (TaskStatus::CacheMiss, Some(MissReason::Uncacheable))
    );
    assert_eq!(classify(false, false, false, true), (TaskStatus::CacheHit, None));
}

#[test]
fn units_without_adapter_or_tasks_get_a_row_that_says_so() {
    let u = unit("bare");
    let p = plan_unit(&u, "bare", None, &vec![], &vec![], &vec![], false, &PlanOptions::default());
    assert_eq!(p.tasks.len(), 1);
    assert_eq!(p.tasks[0].status, TaskStatus::NoAdapter);
}

#[test]
fn directories_without_changes_are_clean() {
    let clean = clean_dirs(&texts(&["apps/api", "apps/web"]), &texts(&["apps/web/"]));
    assert_eq!(clean, texts(&["apps/api"]));
}

#[test]
fn images_count_unless_containers_are_off() {
    let mut r = repo();
    r.image = Some("rust:1".into());
    assert_eq!(container_image_for_plan(&r).as_deref(), Some("rust:1"));
    r.container = ContainerMode::Never;
    assert_eq!(container_image_for_plan(&r), None);
}

#[test]
fn the_cache_lies_where_the_environment_says() {
    assert_eq!(default_cache_root(Some("/c"), Some("/home/me")).as_deref(), Some("/c"));
    assert_eq!(
        default_cache_root(Some(""), Some("/home/me")).as_deref(),
        Some("/home/me/.monad/cache")
    );
    assert_eq!(default_cache_root(None, None), None);
}

#[test]
fn tasks_take_in_the_keys_of_the_tasks_before_them_that_they_name() {
    let named = |name: &str, deps: &[&str]| ResolvedTask {
        name: name.into(),
        depends_on: texts(deps),
        ..plain_task()
    };
    let tasks = vec![named("build", &[]), named("lint", &[]), named("deploy", &["build", "sign"])];
    assert_eq!(next_dep_keys(&tasks, &vec![]), vec![]);
    assert_eq!(next_dep_keys(&tasks, &texts(&["aa"])), vec![]);
    assert_eq!(
        next_dep_keys(&tasks, &texts(&["aa", "bb"])),
        vec![("build".to_string(), "aa".to_string())]
    );
}

#[test]
fn paths_of_profiles_that_hold_no_unit_are_passed_over() {
    let mut ws = two_units();
    ws.profiles.insert("wide".into(), profile("wide", &["apps/gone", "apps/web/"]));
    assert_eq!(unit_targets(&ws, "wide", &None), texts(&["apps/web/"]));
    assert_eq!(unit_targets(&ws, "wide", &Some("sample-api".into())), texts(&[]));
}

#[test]
fn what_an_adapter_writes_does_not_count_as_input() {
    let mut a = adapter("ruby", vec![], &["Gemfile"]);
    a.derived_paths = texts(&["Gemfile.lock", "vendor/**"]);
    let before = texts(&["Gemfile", "app.rb"]);
    let after = texts(&["Gemfile", "Gemfile.lock", "app.rb", "vendor/gem.rb"]);
    let key = |walked: &Vec<String>| key_files(&plain_task(), Some(&a), Some(walked)).unwrap();
    assert_eq!(key(&before), texts(&["Gemfile", "app.rb"]));
    assert_eq!(key(&after), key(&before));
    let mut u = unit("api");
    u.inputs = texts(&["**"]);
    let content = |walked: &Vec<String>| content_files(&u, Some(&a), Some(walked)).unwrap();
    assert_eq!(content(&after), content(&before));
}

#[test]
fn globs_of_a_signature_that_are_wrong_are_told_apart() {
    let mut a = adapter("ruby", vec![], &[]);
    let mut u = unit("api");
    u.inputs = texts(&["**"]);
    a.derived_paths = texts(&["a[b"]);
    let err = content_files(&u, Some(&a), Some(&vec![])).unwrap_err();
    assert_eq!(err.what(), "derived-paths");
    u.inputs = texts(&["c[d"]);
    match content_files(&u, Some(&a), Some(&vec![])).unwrap_err() {
        ContentError::Content(e) => assert_eq!(e.message("dep-sig"), "compiling dep-sig glob `c[d`"),
        other => panic!("expected the unit's globs, got {other:?}"),
    }
    assert!(content_files(&u, Some(&a), None).unwrap().is_empty());
}
