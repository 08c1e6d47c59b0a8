use monad::command::{
    build_path, detect_runtime, format_missing_cli, path_candidates, task_command, ContainerPlan,
};
use monad::config::{CacheConfig, CliRequirement};
use monad::diff::{parse_names, GitDiff, GitRun};
use monad::execute::build_remote_from;
use monad::run::CiOptions;
use monad::strmap::StrMap;
use monad::tasks::ResolvedTask;

fn texts(v: &[&str]) -> Vec<String> {
    v.iter().map(|s| s.to_string()).collect()
}

fn map(entries: &[(&str, &str)]) -> StrMap<String> {
    let mut m = StrMap::new();
    for (k, v) in entries {
        m.insert(k.to_string(), v.to_string());
    }
    m
}

fn task(run: &str, env: &[&str]) -> ResolvedTask {
    ResolvedTask {
        name: "deploy".into(),
        run: run.into(),
        inputs: vec![],
        outputs: vec![],
        workspace_outputs: vec![],
        env: texts(env),
        retry: 0,
        no_cache: false,
        required_env: vec![],
        required_cli: vec![],
        integration_kind: None,
        depends_on: vec![],
    }
}

#[test]
fn a_task_runs_in_a_shell_in_the_directory_of_its_unit() {
    let env = map(&[("PATH", "/usr/bin:/bin"), ("TOKEN", "t"), ("OTHER", "o")]);
    let line = task_command(
        None,
        &task("make", &["TOKEN", "ABSENT"]),
        "/ws/api",
        &texts(&["/tools/go/bin"]),
        &StrMap::new(),
        &env,
        "1:2",
    );
    assert_eq!(line.program, "sh");
    assert_eq!(line.args, texts(&["-c", "make"]));
    assert_eq!(line.dir.as_deref(), Some("/ws/api"));
    assert_eq!(line.path.as_deref(), Some("/tools/go/bin:/usr/bin:/bin"));
    assert_eq!(line.env, vec![("TOKEN".to_string(), "t".to_string())]);
}

#[test]
fn without_tools_the_path_stays_as_it_is() {
    let env = map(&[("PATH", "/bin")]);
    let line = task_command(None, &task("make", &[]), "/ws/api", &vec![], &StrMap::new(), &env, "1:2");
    assert_eq!(line.path, None);
    assert!(line.env.is_empty());
}

#[test]
fn a_container_gets_the_variables_by_name() {
    let plan = ContainerPlan { runtime: "podman".into(), image: "debian:12".into() };
    let aliases = map(&[("TOKEN", "PROD_TOKEN")]);
    let env = map(&[("TOKEN", "direct"), ("PROD_TOKEN", "aliased")]);
    let line = task_command(
        Some(&plan),
        &task("make", &["TOKEN"]),
        "/ws/api",
        &texts(&["/tools/go/bin"]),
        &aliases,
        &env,
        "1000:1000",
    );
    assert_eq!(line.program, "podman");
    assert_eq!(
        line.args,
        texts(&[
            "run",
            "--rm",
            "-i",
            "--user",
            "1000:1000",
            "--volume",
            "/ws/api:/work",
            "--workdir",
            "/work",
            "--env",
            "HOME=/work",
            "--env",
            "TOKEN",
            "debian:12",
            "sh",
            "-c",
            "make",
        ])
    );
    assert_eq!(line.dir, None);
    assert_eq!(line.path, None);
    assert_eq!(line.env, vec![("TOKEN".to_string(), "aliased".to_string())]);
}

#[test]
fn a_directory_with_a_colon_cannot_stand_in_a_path() {
    assert_eq!(build_path(&texts(&["/a", "/b"]), Some("/c:/d")), "/a:/b:/c:/d");
    assert_eq!(build_path(&texts(&["/a"]), None), "/a");
    assert_eq!(build_path(&texts(&["/a:b"]), Some("/c")), "");
}

#[test]
fn a_program_may_lie_in_each_directory_of_the_path() {
    assert_eq!(path_candidates("/usr/bin:/opt/x/", "wrangler"), texts(&["/usr/bin/wrangler", "/opt/x/wrangler"]));
}

#[test]
fn the_first_runtime_that_can_be_reached_is_used() {
    assert_eq!(detect_runtime(true, true, true), Some("docker"));
    assert_eq!(detect_runtime(false, true, true), Some("podman"));
    assert_eq!(detect_runtime(false, false, true), Some("nerdctl"));
    assert_eq!(detect_runtime(false, false, false), None);
}

#[test]
fn each_missing_program_has_a_line() {
    let missing = vec![
        CliRequirement { binary: "wrangler".into(), install_hint: "npm i -g wrangler".into() },
        CliRequirement { binary: "flyctl".into(), install_hint: "brew install flyctl".into() },
    ];
    assert_eq!(
        format_missing_cli(&missing),
        "CLI binary not found on PATH:\n  wrangler — install: npm i -g wrangler\n  flyctl — install: brew install flyctl"
    );
}

#[test]
fn declared_variables_are_read_from_their_aliases() {
    let opts = CiOptions { secret_aliases: map(&[("TOKEN", "PROD_TOKEN")]), ..CiOptions::default() };
    assert_eq!(opts.source_env_name("TOKEN"), "PROD_TOKEN");
    assert_eq!(opts.source_env_name("OTHER"), "OTHER");
}

#[test]
fn the_remote_cache_has_a_usual_token_variable() {
    let mut cache = CacheConfig {
        remote: None,
        remote_region: Some("eu-west-1".into()),
        remote_endpoint: None,
        remote_token_env: None,
        remote_write_through: false,
    };
    assert!(build_remote_from(&cache).is_none());
    cache.remote = Some("monad://cache.example".into());
    let settings = build_remote_from(&cache).unwrap();
    assert_eq!(settings.url, "monad://cache.example");
    assert_eq!(settings.region.as_deref(), Some("eu-west-1"));
    assert_eq!(settings.endpoint, None);
    assert_eq!(settings.token_env, "MONAD_CACHE_TOKEN");
    cache.remote_token_env = Some("TEAM_TOKEN".into());
    assert_eq!(build_remote_from(&cache).unwrap().token_env, "TEAM_TOKEN");
}

#[test]
fn names_that_are_not_utf8_are_shown_with_replacements() {
    assert_eq!(parse_names(&b"a\xff.txt\n\n  \nb.txt\r\n".to_vec()), texts(&["a\u{fffd}.txt", "b.txt"]));
    let failed = GitRun::Ended { success: false, stdout: vec![], stderr: b"bad \xff".to_vec() };
    let err = GitDiff::new("/r").changed_files("HEAD", &failed, &failed).unwrap_err();
    assert_eq!(err, "`git diff --name-only HEAD` failed: bad \u{fffd}");
}
