use monad::report::{
    build_endpoint, build_report_from, git_one_line, report_response, report_target, telemetry_posture,
    BuildStatus, TelemetryPosture,
};
use monad::run::ExecutionSummary;

fn ratio(r: &monad::report::BuildReport) -> f32 {
    (r.hits as f32 / r.executed as f32).clamp(0.0, 1.0)
}

fn report(s: ExecutionSummary, package: &str) -> monad::report::BuildReport {
    build_report_from(&s, package, None, None)
}

#[test]
fn build_endpoint_handles_monad_scheme() {
    assert_eq!(
        build_endpoint(Some("monad://cache.example.com")).as_deref(),
        Some("https://cache.example.com/report/build")
    );
    assert_eq!(
        build_endpoint(Some("monad://cache.example.com/")).as_deref(),
        Some("https://cache.example.com/report/build")
    );
    assert_eq!(
        build_endpoint(Some("monad://cache.example.com/some/prefix")).as_deref(),
        Some("https://cache.example.com/report/build")
    );
}

#[test]
fn build_endpoint_skips_other_schemes() {
    assert!(build_endpoint(Some("s3://bucket/prefix")).is_none());
    assert!(build_endpoint(Some("https://cache.example.com")).is_none());
    assert!(build_endpoint(None).is_none());
    assert!(build_endpoint(Some("monad://")).is_none());
}

#[test]
fn status_success_when_no_failures_and_all_executed() {
    let br = report(
        ExecutionSummary { tasks: 4, hits: 3, built: 1, failed: 0, ..Default::default() },
        "x",
    );
    assert!(matches!(br.status, BuildStatus::Success));
    assert!((ratio(&br) - 0.75).abs() < 1e-5);
}

#[test]
fn status_failed_on_failed_count() {
    let br = report(
        ExecutionSummary { tasks: 4, hits: 1, built: 2, failed: 1, ..Default::default() },
        "x",
    );
    assert!(matches!(br.status, BuildStatus::Failed));
}

#[test]
fn status_failed_on_install_failures() {
    let br = report(ExecutionSummary { tasks: 4, install_failures: 1, ..Default::default() }, "x");
    assert!(matches!(br.status, BuildStatus::Failed));
}

#[test]
fn status_partial_when_some_skipped_without_failure() {
    let br = report(
        ExecutionSummary { tasks: 5, hits: 2, built: 1, failed: 0, ..Default::default() },
        "x",
    );
    assert!(matches!(br.status, BuildStatus::Partial));
}

#[test]
fn status_success_when_short_circuited_deploys_account_for_gap() {
    let br = report(
        ExecutionSummary { tasks: 5, hits: 2, built: 1, deploy_unchanged: 2, ..Default::default() },
        "x",
    );
    assert!(matches!(br.status, BuildStatus::Success));
}

#[test]
fn cache_hit_ratio_zero_when_nothing_executable() {
    let br = report(ExecutionSummary::default(), "x");
    assert_eq!(ratio(&br), 0.0);
}

#[test]
fn cache_hit_ratio_clamped_above() {
    let br = report(ExecutionSummary { tasks: 10, hits: 100, built: 0, ..Default::default() }, "x");
    assert!(ratio(&br) <= 1.0);
}

#[test]
fn duration_ms_passes_through() {
    let br = report(
        ExecutionSummary { tasks: 3, hits: 3, built: 0, duration_ms: 4321, ..Default::default() },
        "x",
    );
    assert_eq!(br.duration_ms, 4321);
}

#[test]
fn package_field_propagates() {
    let br = report(ExecutionSummary::default(), "api/server");
    assert_eq!(br.package, "api/server");
}

#[test]
fn posture_enabled_when_config_on_and_env_unset() {
    assert_eq!(telemetry_posture(true, None), TelemetryPosture::Enabled);
    assert!(telemetry_posture(true, None).is_enabled());
}

#[test]
fn posture_disabled_by_config() {
    assert_eq!(telemetry_posture(false, None), TelemetryPosture::DisabledByConfig);
    assert!(!telemetry_posture(false, None).is_enabled());
}

#[test]
fn posture_disabled_by_env() {
    for v in ["0", "false", "no", "off"] {
        assert_eq!(
            telemetry_posture(true, Some(v)),
            TelemetryPosture::DisabledByEnv,
            "MONAD_TELEMETRY={v} should suppress"
        );
    }
}

#[test]
fn posture_disabled_by_both_when_config_off_and_env_off() {
    assert_eq!(telemetry_posture(false, Some("0")), TelemetryPosture::DisabledByBoth);
}

#[test]
fn posture_env_cannot_force_on_when_config_off() {
    for v in ["1", "true", "yes", "on"] {
        assert_eq!(
            telemetry_posture(false, Some(v)),
            TelemetryPosture::DisabledByConfig,
            "MONAD_TELEMETRY={v} must not flip a config-off to on"
        );
    }
}

#[test]
fn reports_need_telemetry_an_endpoint_and_a_token() {
    let remote = Some("monad://cache.example.com/team");
    let t = report_target(true, None, remote, Some("MONAD_CACHE_TOKEN")).unwrap();
    assert_eq!(t.url, "https://cache.example.com/report/build");
    assert_eq!(t.token_env, "MONAD_CACHE_TOKEN");
    assert!(report_target(false, None, remote, Some("T")).is_none());
    assert!(report_target(true, Some("off"), remote, Some("T")).is_none());
    assert!(report_target(true, None, Some("s3://bucket"), Some("T")).is_none());
    assert!(report_target(true, None, remote, Some("")).is_none());
    assert!(report_target(true, None, remote, None).is_none());
}

#[test]
fn unwelcome_reports_are_no_news() {
    assert_eq!(report_response("u", 200), None);
    assert_eq!(report_response("u", 299), None);
    assert_eq!(report_response("u", 404), None);
    assert_eq!(
        report_response("https://h/report/build", 503).as_deref(),
        Some("report/build https://h/report/build: server replied 503")
    );
}

#[test]
fn git_lines_are_trimmed() {
    assert_eq!(git_one_line(Some("main\n")).as_deref(), Some("main"));
    assert_eq!(git_one_line(Some(" \n")), None);
    assert_eq!(git_one_line(None), None);
}
