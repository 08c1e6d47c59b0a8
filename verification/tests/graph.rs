use monad::cascade::{compute, content_hash, deps_for_key, sig_to_hex, CascadeError, SourceFile, UnitSig};
use monad::config::{
    CacheConfig, ContainerMode, LoadedUnit, Profile, RepoConfig, UnitConfig, Workspace,
};
use monad::graph::{build, GraphError, ProfileGraph};
use monad::strmap::StrMap;

fn texts(v: &[&str]) -> Vec<String> {
    v.iter().map(|s| s.to_string()).collect()
}

fn unit(name: &str, deps: &[&str]) -> UnitConfig {
    UnitConfig {
        name: name.into(),
        language: None,
        depends_on: texts(deps),
        inputs: vec![],
        outputs: vec![],
        force_independent: false,
        integrations: vec![],
        notifications: vec![],
        tasks: StrMap::new(),
    }
}

fn repo() -> RepoConfig {
    RepoConfig {
        parallelism: 1,
        fail_fast: true,
        container: ContainerMode::Auto,
        image: None,
        cache: CacheConfig {
            remote: None,
            remote_region: None,
            remote_endpoint: None,
            remote_token_env: None,
            remote_write_through: false,
        },
        pins: StrMap::new(),
        telemetry_enabled: true,
        environments: StrMap::new(),
    }
}

fn workspace(units: Vec<(&str, UnitConfig, UnitConfig)>, profiles: &[(&str, &[&str])]) -> Workspace {
    let mut by_path = StrMap::new();
    let mut by_name = StrMap::new();
    for (path, a, b) in units {
        let dir = format!("/ws/{path}");
        by_name.insert(a.name.clone(), LoadedUnit { rel: path.into(), dir: dir.clone(), config: a });
        by_path.insert(path.into(), LoadedUnit { rel: path.into(), dir, config: b });
    }
    let mut all = StrMap::new();
    for (name, refs) in profiles {
        all.insert(
            name.to_string(),
            Profile {
                name: name.to_string(),
                source: format!("/ws/profiles/{name}.toml"),
                units: texts(refs),
            },
        );
    }
    Workspace {
        root: "/ws".into(),
        repo: repo(),
        profiles: all,
        units_by_path: by_path,
        units_by_name: by_name,
    }
}

/// All units in one profile, `prod`.
fn workspace_with_deps(units: &[(&str, &[&str])]) -> Workspace {
    let paths: Vec<String> = units.iter().map(|(n, _)| format!("apps/{n}")).collect();
    let refs: Vec<&str> = paths.iter().map(|s| s.as_str()).collect();
    let list = units
        .iter()
        .zip(&refs)
        .map(|((n, deps), p)| (*p, unit(n, deps), unit(n, deps)))
        .collect();
    workspace(list, &[("prod", &refs)])
}

fn refused(r: Result<ProfileGraph, GraphError>) -> GraphError {
    match r {
        Ok(_) => panic!("expected an error"),
        Err(e) => e,
    }
}

#[test]
fn linear_chain_produces_single_unit_per_level() {
    let ws = workspace_with_deps(&[("api", &[]), ("web", &["api"]), ("worker", &["web"])]);
    let graph = build(&ws, "prod").unwrap();
    assert_eq!(graph.levels.len(), 3);
    assert_eq!(graph.levels[0], vec!["api"]);
    assert_eq!(graph.levels[1], vec!["web"]);
    assert_eq!(graph.levels[2], vec!["worker"]);
}

#[test]
fn independent_units_collapse_into_one_level() {
    let ws = workspace_with_deps(&[("api", &[]), ("web", &[]), ("worker", &[])]);
    let graph = build(&ws, "prod").unwrap();
    assert_eq!(graph.levels.len(), 1);
    assert_eq!(graph.levels[0], vec!["api", "web", "worker"]);
}

#[test]
fn diamond_groups_correctly() {
    let ws = workspace_with_deps(&[
        ("api", &[]),
        ("web", &["api"]),
        ("cron", &["api"]),
        ("ui", &["web", "cron"]),
    ]);
    let graph = build(&ws, "prod").unwrap();
    assert_eq!(graph.levels.len(), 3);
    assert_eq!(graph.levels[0], vec!["api"]);
    assert_eq!(graph.levels[1], vec!["cron", "web"]);
    assert_eq!(graph.levels[2], vec!["ui"]);
    assert_eq!(graph.flattened(), vec!["api", "cron", "web", "ui"]);
}

#[test]
fn two_cycle_is_rejected() {
    let ws = workspace_with_deps(&[("a", &["b"]), ("b", &["a"])]);
    match refused(build(&ws, "prod")) {
        GraphError::Cycle { monad, cycle } => {
            assert_eq!(monad, "prod");
            assert_eq!(cycle.len(), 2);
            assert!(cycle.contains(&"a".to_string()));
            assert!(cycle.contains(&"b".to_string()));
        }
        other => panic!("expected Cycle, got {other:?}"),
    }
}

#[test]
fn self_loop_is_rejected_as_cycle() {
    let ws = workspace_with_deps(&[("a", &["a"])]);
    assert!(matches!(refused(build(&ws, "prod")), GraphError::Cycle { .. }));
}

#[test]
fn unknown_dep_reports_friendly_error() {
    let ws = workspace_with_deps(&[("a", &["ghost"])]);
    match refused(build(&ws, "prod")) {
        GraphError::UnknownDep { monad, unit, missing } => {
            assert_eq!(monad, "prod");
            assert_eq!(unit, "a");
            assert_eq!(missing, "ghost");
        }
        other => panic!("expected UnknownDep, got {other:?}"),
    }
}

#[test]
fn unit_count_matches_total_units() {
    let ws = workspace_with_deps(&[("api", &[]), ("web", &["api"]), ("cron", &["api"])]);
    let graph = build(&ws, "prod").unwrap();
    assert_eq!(graph.unit_count(), 3);
}

#[test]
fn dep_that_exists_in_workspace_but_not_this_monad_is_rejected() {
    let ws = workspace(
        vec![
            ("apps/api", unit("api", &[]), unit("api", &[])),
            ("apps/web", unit("web", &["api"]), unit("web", &["api"])),
        ],
        &[("prod", &["apps/web"]), ("staging", &["apps/api", "apps/web"])],
    );
    assert!(build(&ws, "staging").is_ok());
    assert!(matches!(refused(build(&ws, "prod")), GraphError::UnknownDep { .. }));
}

#[test]
fn cycles_are_reported_with_their_members_alone() {
    let members = |units: &[(&str, &[&str])]| match refused(build(&workspace_with_deps(units), "prod")) {
        GraphError::Cycle { cycle, .. } => cycle,
        other => panic!("expected Cycle, got {other:?}"),
    };
    assert_eq!(members(&[("a", &["b"]), ("b", &["a"]), ("c", &["a"]), ("d", &[])]), vec!["a", "b"]);
    assert_eq!(members(&[("a", &["a"]), ("b", &["a", "c"]), ("c", &["c"])]), vec!["a", "c"]);
    assert_eq!(
        members(&[("z", &["y"]), ("y", &["x"]), ("x", &["z", "w"]), ("w", &[])]),
        vec!["x", "y", "z"]
    );
}

// The two units of the cascade tests: `app` depends on `lib`.

fn lib_and_app(independent: bool) -> Workspace {
    let app = || {
        let mut u = unit("app", &["lib"]);
        u.force_independent = independent;
        u
    };
    workspace(
        vec![("lib", unit("lib", &[]), unit("lib", &[])), ("app", app(), app())],
        &[("prod", &["lib", "app"])],
    )
}

fn contents(lib: &str, app: &str) -> StrMap<UnitSig> {
    let mut m = StrMap::new();
    for (name, text) in [("lib", lib), ("app", app)] {
        let files = vec![SourceFile { rel: "src.txt".into(), content: text.as_bytes().to_vec() }];
        m.insert(name.to_string(), content_hash(name, &files));
    }
    m
}

fn signatures(ws: &Workspace, lib: &str, app: &str) -> (UnitSig, UnitSig) {
    let graph = build(ws, "prod").unwrap();
    let sigs = match compute(ws, &graph, &contents(lib, app)) {
        Ok(s) => s,
        Err(e) => panic!("{}", e.message()),
    };
    (*sigs.get("lib").unwrap(), *sigs.get("app").unwrap())
}

#[test]
fn dep_change_propagates_to_dependent_signature() {
    let ws = lib_and_app(false);
    let before = signatures(&ws, "v1", "app-v1");
    let after = signatures(&ws, "v2", "app-v1");
    assert_ne!(before.0, after.0);
    assert_ne!(before.1, after.1);
}

#[test]
fn force_independent_blocks_propagation() {
    let ws = lib_and_app(true);
    let before = signatures(&ws, "v1", "app-v1");
    let after = signatures(&ws, "v2", "app-v1");
    assert_ne!(before.0, after.0);
    assert_eq!(before.1, after.1);
}

#[test]
fn force_independent_still_reflects_own_content_changes() {
    let ws = lib_and_app(true);
    let before = signatures(&ws, "v1", "app-v1");
    let after = signatures(&ws, "v1", "app-v2");
    assert_ne!(before.1, after.1);
}

#[test]
fn independent_unites_get_distinct_signatures() {
    let a = content_hash("a", &vec![SourceFile { rel: "src.txt".into(), content: b"aaa".to_vec() }]);
    let b = content_hash("b", &vec![SourceFile { rel: "src.txt".into(), content: b"bbb".to_vec() }]);
    assert_ne!(a, b);
}

#[test]
fn sig_to_hex_is_64_lowercase_hex() {
    let sig: UnitSig = [0xab; 32];
    let hex = sig_to_hex(&sig);
    assert_eq!(hex.len(), 64);
    assert!(hex
        .chars()
        .all(|c| c.is_ascii_lowercase() || c.is_ascii_digit()));
    assert_eq!(&hex[..4], "abab");
}

#[test]
fn deps_for_key_is_empty_when_force_independent() {
    let ws = lib_and_app(true);
    let graph = build(&ws, "prod").unwrap();
    let sigs = match compute(&ws, &graph, &contents("v1", "app-v1")) {
        Ok(s) => s,
        Err(e) => panic!("{}", e.message()),
    };
    let app = ws.units_by_name.get("app").unwrap();
    assert!(deps_for_key(&app.config, &sigs).is_empty());
}

#[test]
fn deps_for_key_lists_dependencies_with_their_signatures() {
    let ws = lib_and_app(false);
    let graph = build(&ws, "prod").unwrap();
    let sigs = match compute(&ws, &graph, &contents("v1", "app-v1")) {
        Ok(s) => s,
        Err(e) => panic!("{}", e.message()),
    };
    let app = ws.units_by_name.get("app").unwrap();
    let deps = deps_for_key(&app.config, &sigs);
    assert_eq!(deps.len(), 1);
    assert_eq!(deps[0].0, "lib");
    assert_eq!(deps[0].1, *sigs.get("lib").unwrap());
}

#[test]
fn signatures_need_the_units_of_the_graph() {
    let ws = lib_and_app(false);
    let missing = ProfileGraph { monad: "prod".into(), levels: vec![vec!["ghost".into()]] };
    match compute(&ws, &missing, &contents("v1", "app-v1")) {
        Err(CascadeError::MissingUnit { unit }) => assert_eq!(unit, "ghost"),
        _ => panic!("expected MissingUnit"),
    }
    let early = ProfileGraph { monad: "prod".into(), levels: vec![vec!["app".into()]] };
    match compute(&ws, &early, &contents("v1", "app-v1")) {
        Err(CascadeError::MissingDep { unit, dep }) => {
            assert_eq!(unit, "app");
            assert_eq!(dep, "lib");
        }
        _ => panic!("expected MissingDep"),
    }
}

#[test]
fn content_hashes_are_blake3_digests() {
    let mut message = b"monad-unit-content-v1lib".to_vec();
    message.extend(7u64.to_le_bytes());
    message.extend(b"src.txt");
    message.extend(2u64.to_le_bytes());
    message.extend(b"v1");
    let want: UnitSig = *blake3::hash(&message).as_bytes();
    let files = vec![SourceFile { rel: "src.txt".into(), content: b"v1".to_vec() }];
    assert_eq!(content_hash("lib", &files), want);
}
