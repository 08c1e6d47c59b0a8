use base64::engine::general_purpose::URL_SAFE_NO_PAD;
use base64::Engine;

use monad::cloud::{
    cache_health_url, check_claims, check_cloud, check_reply, claims_error, cloud_gate, decoded_payload,
    jwt_payload, jwt_segment, Claims, CloudFacts, Reply,
};
use monad::config::{
    CacheConfig, CliRequirement, ContainerMode, LoadedUnit, Profile, RepoConfig, UnitConfig, Workspace,
};
use monad::doctor::{
    check_git_base_ref, check_git_repo, check_integrations, check_local_cache, check_orphan_unites,
    check_remote_cache, check_telemetry_posture, check_toolchains, format_bytes, run, run_with_aliases,
    run_with_options, CheckStatus, Detection, DoctorCheck, DoctorOptions, DoctorProbe, DoctorReport,
    IntegrationNeeds, LocalCacheProbe, ToolProbe, ToolchainProbe, WorkspaceProbe,
};
use monad::execute::{PinSource, ToolResolution};
use monad::report::TelemetryPosture;
use monad::strmap::StrMap;

fn texts(v: &[&str]) -> Vec<String> {
    v.iter().map(|s| s.to_string()).collect()
}

fn unit() -> UnitConfig {
    UnitConfig {
        name: "d".into(),
        language: None,
        depends_on: vec![],
        inputs: vec![],
        outputs: vec![],
        force_independent: false,
        integrations: vec![],
        notifications: vec![],
        tasks: StrMap::new(),
    }
}

fn cache(remote: Option<&str>, token_env: Option<&str>) -> CacheConfig {
    CacheConfig {
        remote: remote.map(String::from),
        remote_region: None,
        remote_endpoint: None,
        remote_token_env: token_env.map(String::from),
        remote_write_through: false,
    }
}

fn workspace() -> Workspace {
    let mut profiles = StrMap::new();
    profiles.insert(
        "prod".into(),
        Profile { name: "prod".into(), source: "/ws/profiles/prod.toml".into(), units: texts(&["unit"]) },
    );
    let loaded = || LoadedUnit { rel: "unit".into(), dir: "/ws/unit".into(), config: unit() };
    let mut by_path = StrMap::new();
    by_path.insert("unit".into(), loaded());
    let mut by_name = StrMap::new();
    by_name.insert("d".into(), loaded());
    Workspace {
        root: "/ws".into(),
        repo: RepoConfig {
            parallelism: 2,
            fail_fast: true,
            container: ContainerMode::Never,
            image: None,
            cache: cache(None, None),
            pins: StrMap::new(),
            telemetry_enabled: true,
            environments: StrMap::new(),
        },
        profiles,
        units_by_path: by_path,
        units_by_name: by_name,
    }
}

fn probe() -> DoctorProbe {
    DoctorProbe {
        workspace: WorkspaceProbe::Loaded(workspace()),
        tools: ToolchainProbe::Units(vec![]),
        integrations: vec![vercel()],
        detections: vec![],
        env: StrMap::new(),
        set_vars: vec![],
        on_path: vec![],
        local_cache: LocalCacheProbe::Missing { root: "/home/me/.cache/monad".into() },
        git_inside: None,
        git_base: None,
        orphans: vec![],
        cloud: None,
    }
}

fn vercel() -> IntegrationNeeds {
    IntegrationNeeds {
        id: "vercel".into(),
        required_env: texts(&["VERCEL_TOKEN"]),
        required_cli: vec![CliRequirement {
            binary: "vercel".into(),
            install_hint: "npm i -g vercel".into(),
        }],
    }
}

fn find<'a>(r: &'a DoctorReport, name: &str) -> &'a DoctorCheck {
    match r.checks.iter().find(|c| c.name == name) {
        Some(c) => c,
        None => panic!("no check {name}"),
    }
}

#[test]
fn doctor_reports_workspace_not_found() {
    let mut p = probe();
    p.workspace = WorkspaceProbe::NotFound("no monad workspace found at or above /tmp/x".into());
    let report = run(&p);
    assert_eq!(find(&report, "workspace").status, CheckStatus::Fail);
    assert!(report.exit_code() > 0);
    assert_eq!(report.checks.len(), 1);
}

#[test]
fn doctor_stops_at_a_config_that_does_not_load() {
    let mut p = probe();
    p.workspace = WorkspaceProbe::Invalid("profiles/prod.toml: expected a table".into());
    let report = run(&p);
    let config = find(&report, "config");
    assert_eq!(config.status, CheckStatus::Fail);
    assert!(config.detail.contains("expected a table"));
    assert!(report.checks.iter().all(|c| c.name != "cache.local"));
}

#[test]
fn doctor_happy_path_parses_config_and_reports_ok() {
    let report = run(&probe());
    let config = find(&report, "config");
    assert_eq!(config.status, CheckStatus::Pass);
    assert!(config.detail.contains("unit(es)"));
}

#[test]
fn doctor_reports_no_toolchain_pins_as_skipped() {
    assert_eq!(find(&run(&probe()), "toolchain").status, CheckStatus::Skipped);
}

fn pinned(source: PinSource, installed_at: Option<&str>) -> ToolProbe {
    ToolProbe {
        resolution: Some(ToolResolution {
            tool: "go".into(),
            version: Some("0.0.0-fake".into()),
            source,
            source_label: "monad.toml".into(),
        }),
        installed_at: installed_at.map(String::from),
    }
}

#[test]
fn doctor_reports_missing_toolchain_as_fail() {
    let mut p = probe();
    p.tools = ToolchainProbe::Units(vec![pinned(PinSource::Repo, None)]);
    let report = run(&p);
    let tc = find(&report, "toolchain.go@0.0.0-fake");
    assert_eq!(tc.status, CheckStatus::Fail);
    assert!(tc.detail.contains("not installed"));
}

#[test]
fn pins_are_checked_once_and_detected_versions_never() {
    let one = check_toolchains(&vec![
        pinned(PinSource::Unit, Some("/opt/go")),
        pinned(PinSource::Repo, None),
    ]);
    assert_eq!(one.len(), 1);
    assert_eq!(one[0].status, CheckStatus::Pass);
    assert_eq!(one[0].detail, "installed at /opt/go");
    let none = check_toolchains(&vec![pinned(PinSource::Detected, None)]);
    assert_eq!(none.len(), 1);
    assert_eq!(none[0].status, CheckStatus::Skipped);
}

#[test]
fn a_store_that_is_not_found_is_a_warning() {
    let mut p = probe();
    p.tools = ToolchainProbe::NoStore("no home".into());
    let report = run(&p);
    let c = find(&report, "toolchain.store");
    assert_eq!(c.status, CheckStatus::Warn);
    assert_eq!(c.detail, "could not locate toolchain store: no home");
}

#[test]
fn doctor_skips_integrations_when_none_detected() {
    assert_eq!(find(&run(&probe()), "integrations").status, CheckStatus::Skipped);
}

fn detected() -> DoctorProbe {
    let mut p = probe();
    p.detections = vec![Detection { unit: "d".into(), integration: "vercel".into() }];
    p
}

#[test]
fn doctor_flags_missing_vercel_token_when_detected() {
    let report = run(&detected());
    let env = find(&report, "integration.vercel.env");
    assert_eq!(env.status, CheckStatus::Fail);
    assert!(env.detail.contains("VERCEL_TOKEN"));
    let cli = find(&report, "integration.vercel.cli");
    assert!(matches!(cli.status, CheckStatus::Pass | CheckStatus::Fail));
}

#[test]
fn aliases_say_where_a_token_comes_from() {
    let mut p = detected();
    p.env.insert("PROD_TOKEN".into(), "x".into());
    p.on_path = texts(&["vercel"]);
    let mut aliases = StrMap::new();
    aliases.insert("VERCEL_TOKEN".into(), "PROD_TOKEN".into());
    let report = run_with_aliases(&p, &aliases);
    assert_eq!(find(&report, "integration.vercel.env").status, CheckStatus::Pass);
    assert_eq!(find(&report, "integration.vercel.cli").status, CheckStatus::Pass);
    let checks = check_integrations(&p.integrations, &p.detections, &StrMap::new(), &p.env, &vec![]);
    assert_eq!(checks[0].status, CheckStatus::Fail);
    assert_eq!(checks[1].status, CheckStatus::Fail);
    assert!(checks[1].detail.contains("vercel"));
}

#[test]
fn doctor_skips_remote_cache_when_unset() {
    assert_eq!(find(&run(&probe()), "cache.remote").status, CheckStatus::Skipped);
}

#[test]
fn remote_caches_need_a_known_scheme_and_credentials() {
    let aws = texts(&["AWS_ACCESS_KEY_ID"]);
    let none: Vec<String> = vec![];
    assert_eq!(check_remote_cache(&cache(Some("s3://b/p"), None), &none).status, CheckStatus::Fail);
    let c = check_remote_cache(&cache(Some("s3://b/p"), None), &aws);
    assert_eq!(c.status, CheckStatus::Pass);
    assert_eq!(c.detail, "configured: s3://b/p (region=us-east-1, reachability not probed)");
    assert_eq!(check_remote_cache(&cache(Some("ftp://b"), None), &aws).status, CheckStatus::Fail);
    let hosted = cache(Some("monad://cache.monad.build"), None);
    assert_eq!(check_remote_cache(&hosted, &none).status, CheckStatus::Fail);
    let hosted = cache(Some("monad://cache.monad.build"), Some("MONAD_CACHE_TOKEN"));
    let c = check_remote_cache(&hosted, &none);
    assert_eq!(c.status, CheckStatus::Pass);
    assert!(c.detail.contains("$MONAD_CACHE_TOKEN"));
}

#[test]
fn doctor_gha_cache_states() {
    let mut p = probe();
    assert_eq!(find(&run(&p), "cache.gha").status, CheckStatus::Skipped);
    p.set_vars = texts(&["GITHUB_ACTIONS"]);
    let report = run(&p);
    assert_eq!(find(&report, "cache.gha").status, CheckStatus::Warn);
    assert_eq!(report.exit_code(), 0, "warns must not fail doctor");
    p.set_vars = texts(&["GITHUB_ACTIONS", "ACTIONS_CACHE_URL", "ACTIONS_RUNTIME_TOKEN"]);
    assert_eq!(find(&run(&p), "cache.gha").status, CheckStatus::Pass);
}

#[test]
fn summary_counts_match_check_vector() {
    let report = run(&probe());
    let s = &report.summary;
    assert_eq!(s.total, s.ok + s.warn + s.fail + s.skipped);
    assert_eq!(s.total, report.checks.len());
}

#[test]
fn format_bytes_scales_by_unit() {
    assert_eq!(format_bytes(0), "0 B");
    assert_eq!(format_bytes(512), "512 B");
    assert_eq!(format_bytes(2048), "2.00 KiB");
    assert_eq!(format_bytes(5 * 1024 * 1024), "5.00 MiB");
    assert!(format_bytes(3 * 1024 * 1024 * 1024).starts_with("3.00 GiB"));
}

/// What the format machinery prints for the same number.
fn printed(n: u64) -> String {
    const KB: u64 = 1024;
    const MB: u64 = 1024 * KB;
    const GB: u64 = 1024 * MB;
    if n >= GB {
        format!("{:.2} GiB", n as f64 / GB as f64)
    } else if n >= MB {
        format!("{:.2} MiB", n as f64 / MB as f64)
    } else if n >= KB {
        format!("{:.2} KiB", n as f64 / KB as f64)
    } else {
        format!("{n} B")
    }
}

#[test]
fn sizes_are_rounded_as_floats_print() {
    let mut n: u64 = 0;
    while n < 300_000 {
        assert_eq!(format_bytes(n), printed(n));
        n += 1;
    }
    let mut x: u64 = 0x2545_f491_4f6c_dd1d;
    for shift in 0..64u32 {
        for _ in 0..200 {
            x = x.wrapping_mul(6364136223846793005).wrapping_add(1442695040888963407);
            let n = x >> shift;
            assert_eq!(format_bytes(n), printed(n), "{n}");
        }
    }
    for n in [u64::MAX, u64::MAX - 1, (1 << 53) + 1, (1 << 53) - 1, 1 << 63, (1 << 63) - 1] {
        assert_eq!(format_bytes(n), printed(n), "{n}");
    }
}

#[test]
fn cache_health_url_derives_https_from_monad_scheme() {
    assert_eq!(
        cache_health_url("monad://cache.monad.build").unwrap(),
        "https://cache.monad.build/health"
    );
    assert_eq!(
        cache_health_url("monad://cache.monad.build/some/prefix").unwrap(),
        "https://cache.monad.build/health"
    );
    assert!(cache_health_url("https://example.com").is_err());
    assert!(cache_health_url("monad://").is_err());
}

/// The claims of a token.
fn decode_jwt_claims(jwt: &str) -> Result<Claims, String> {
    let bytes = jwt_payload(jwt)?;
    let v: serde_json::Value = serde_json::from_slice(&bytes).map_err(|e| claims_error(&e.to_string()))?;
    let text = |k: &str| {
        v.get(k).and_then(|x| x.as_str()).map(String::from).ok_or_else(|| claims_error(k))
    };
    Ok(Claims {
        iss: text("iss")?,
        team_id: text("team_id")?,
        scope: text("scope")?,
        label: text("label")?,
        exp: v.get("exp").and_then(|x| x.as_u64()).ok_or_else(|| claims_error("exp"))?,
    })
}

#[test]
fn jwt_decode_rejects_malformed_tokens() {
    assert!(decode_jwt_claims("").is_err());
    assert!(decode_jwt_claims("only-one-segment").is_err());
    assert!(decode_jwt_claims("a.b").is_err());
    assert!(decode_jwt_claims("a.b.c.d").is_err());
    assert!(decode_jwt_claims("header.!!notb64!!.sig").is_err());
    assert!(decode_jwt_claims("header.eyJmb28iOiJiYXIifQ.sig").is_err());
}

#[test]
fn jwt_decode_extracts_claims() {
    let exp = 1_700_000_000_u64 + 30 * 86_400;
    let claims_json = format!(
        "{{\"iss\":\"monad.build\",\"team_id\":\"00000000-0000-0000-0000-000000000001\",\"scope\":\"read_write\",\"label\":\"ci-prod\",\"iat\":1700000000,\"exp\":{exp}}}"
    );
    let payload = URL_SAFE_NO_PAD.encode(claims_json.as_bytes());
    let jwt = format!("HEADER.{payload}.SIG");
    assert_eq!(jwt_payload(&jwt).unwrap(), claims_json.as_bytes());
    assert_eq!(jwt_segment(&jwt).unwrap(), payload);
    let claims = decode_jwt_claims(&jwt).unwrap();
    assert_eq!(claims.iss, "monad.build");
    assert_eq!(claims.label.as_str(), "ci-prod");
    assert_eq!(claims.exp, exp);
}

#[test]
fn payload_errors_say_what_was_wrong() {
    assert_eq!(decoded_payload(Ok(vec![1, 2])), Ok(vec![1, 2]));
    let e = decoded_payload(Err("Invalid padding".into())).unwrap_err();
    assert!(e.contains("Invalid padding"), "{e}");
    let e = jwt_payload("header.!!notb64!!.sig").unwrap_err();
    assert!(e.contains("base64"), "{e}");
}

fn claims(exp: u64) -> Claims {
    Claims {
        iss: "monad.build".into(),
        team_id: "t1".into(),
        scope: "ReadWrite".into(),
        label: "ci".into(),
        exp,
    }
}

#[test]
fn claims_are_shown_with_their_expiry() {
    let checks = check_claims(&Ok(claims(1_000_000)), 1_000_000 - 3 * 86_400);
    assert_eq!(checks.len(), 2);
    assert_eq!(checks[0].detail, "iss=monad.build team_id=t1 scope=readwrite label=ci");
    assert_eq!(checks[1].status, CheckStatus::Pass);
    assert_eq!(checks[1].detail, "expires unix 1000000 (~3 days from now)");
    let late = check_claims(&Ok(claims(10)), 10);
    assert_eq!(late[1].status, CheckStatus::Fail);
    assert!(late[1].detail.starts_with("token expired at unix 10 (now: 10)"));
    let bad = check_claims(&Err("not a token".into()), 10);
    assert_eq!(bad.len(), 1);
    assert_eq!(bad[0].status, CheckStatus::Fail);
}

#[test]
fn replies_are_good_when_they_say_so() {
    assert_eq!(check_reply("x", "u", &Reply::Status(204)).status, CheckStatus::Pass);
    assert_eq!(check_reply("x", "u", &Reply::Status(300)).status, CheckStatus::Fail);
    assert_eq!(check_reply("x", "u", &Reply::Status(199)).detail, "GET u → 199");
    let gone = check_reply("x", "u", &Reply::Unreachable("no route".into()));
    assert_eq!(gone.status, CheckStatus::Fail);
    assert_eq!(gone.detail, "GET u failed: no route");
}

fn token_env() -> StrMap<String> {
    let mut env = StrMap::new();
    env.insert("MONAD_CACHE_TOKEN".into(), "é.b.c".into());
    env
}

#[test]
fn cloud_checks_wait_for_a_token() {
    let refused = |c: &CacheConfig, env: &StrMap<String>| match cloud_gate(c, env) {
        Ok(a) => panic!("{}", a.url),
        Err(e) => (e.name, e.status),
    };
    let none = StrMap::new();
    assert_eq!(refused(&cache(None, None), &none), ("cloud.remote".into(), CheckStatus::Skipped));
    assert_eq!(refused(&cache(Some("s3://b"), None), &none), ("cloud.remote".into(), CheckStatus::Skipped));
    let url = Some("monad://cache.monad.build");
    assert_eq!(refused(&cache(url, None), &none), ("cloud.token.env".into(), CheckStatus::Fail));
    assert_eq!(refused(&cache(url, Some("")), &none), ("cloud.token.env".into(), CheckStatus::Fail));
    assert_eq!(
        refused(&cache(url, Some("MONAD_CACHE_TOKEN")), &none),
        ("cloud.token.env".into(), CheckStatus::Fail)
    );
    let checks = check_cloud(&cache(None, None), &none, &None);
    assert_eq!(checks.len(), 1);
}

#[test]
fn cloud_checks_are_made_on_request() {
    let mut p = probe();
    let mut ws = workspace();
    ws.repo.cache = cache(Some("monad://cache.monad.build/x"), Some("MONAD_CACHE_TOKEN"));
    p.workspace = WorkspaceProbe::Loaded(ws);
    p.env = token_env();
    p.cloud = Some(CloudFacts {
        claims: Ok(claims(2_000_000)),
        now: 1_000_000,
        cache_reply: Reply::Status(200),
        api_reply: Reply::Status(503),
    });
    assert!(run(&p).checks.iter().all(|c| !c.name.starts_with("cloud.")));
    let report = run_with_options(&p, &StrMap::new(), DoctorOptions { cloud: true });
    assert_eq!(find(&report, "cloud.token.env").detail, "$MONAD_CACHE_TOKEN is set (6 chars)");
    assert_eq!(
        find(&report, "cloud.cache.health").detail,
        "GET https://cache.monad.build/health → 200"
    );
    assert_eq!(find(&report, "cloud.api.health").status, CheckStatus::Fail);
    assert!(report.exit_code() > 0);
}

#[test]
fn local_caches_are_described() {
    let c = check_local_cache(&LocalCacheProbe::Stats {
        root: "/c".into(),
        entries: 1,
        total_bytes: 2048,
    });
    assert_eq!((c.status, c.detail.as_str()), (CheckStatus::Pass, "/c: 1 entry, 2.00 KiB"));
    let c = check_local_cache(&LocalCacheProbe::Stats { root: "/c".into(), entries: 3, total_bytes: 0 });
    assert_eq!(c.detail, "/c: 3 entries, 0 B");
    let c = check_local_cache(&LocalCacheProbe::NotWritable { root: "/c".into() });
    assert_eq!(c.status, CheckStatus::Fail);
    let c = check_local_cache(&LocalCacheProbe::StatsFailed { root: "/c".into(), error: "io".into() });
    assert_eq!((c.status, c.detail.as_str()), (CheckStatus::Warn, "/c exists but stats failed: io"));
    let c = check_local_cache(&LocalCacheProbe::NoRoot("no home".into()));
    assert_eq!((c.status, c.detail.as_str()), (CheckStatus::Fail, "no home"));
}

#[test]
fn git_answers_are_read() {
    assert_eq!(check_git_repo(&Some("true\n".into())).status, CheckStatus::Pass);
    assert_eq!(check_git_repo(&Some("false\n".into())).status, CheckStatus::Warn);
    assert_eq!(check_git_repo(&None).status, CheckStatus::Warn);
    let c = check_git_base_ref(&Some("0123456789abcdef0123\n".into()));
    assert_eq!((c.status, c.detail.as_str()), (CheckStatus::Pass, "origin/main → 0123456789ab"));
    assert_eq!(check_git_base_ref(&Some(" \n".into())).status, CheckStatus::Warn);
    assert_eq!(check_git_base_ref(&None).status, CheckStatus::Warn);
}

#[test]
fn orphans_are_listed() {
    let c = check_orphan_unites(2, &vec![]);
    assert_eq!(c.status, CheckStatus::Pass);
    let c = check_orphan_unites(2, &texts(&["apps/a", "apps/b"]));
    assert_eq!(c.status, CheckStatus::Warn);
    assert!(c.detail.contains("2 unit.toml file(s)"));
    assert!(c.detail.contains("apps/a, apps/b"));
}

#[test]
fn telemetry_says_where_reports_go() {
    let url: Option<String> = Some("monad://cache.monad.build".into());
    let detail = |p: TelemetryPosture, u: &Option<String>| check_telemetry_posture(p, u).detail;
    assert!(detail(TelemetryPosture::Enabled, &url).contains("POST to monad://cache.monad.build"));
    assert!(detail(TelemetryPosture::Enabled, &None).contains("nothing is sent"));
    assert!(detail(TelemetryPosture::DisabledByConfig, &url).starts_with("disabled by config"));
    assert!(detail(TelemetryPosture::DisabledByEnv, &url).starts_with("disabled by env"));
    assert!(detail(TelemetryPosture::DisabledByBoth, &url).starts_with("disabled by both"));
}
