//! Build reports to the cache's server, and whether they are sent.
use vstd::prelude::*;

use crate::run::ExecutionSummary;
use crate::text::{cat3, cat4, copy, decimal, number, same, split, split_on, strip_prefix, texts, trim, trim_of};

verus! {

broadcast use crate::deep::group_deep;

/// Whether reports are sent, and who says that they are not.
#[derive(Debug, Clone, Copy, PartialEq, Eq, Structural)]
pub enum TelemetryPosture {
    Enabled,
    DisabledByConfig,
    DisabledByEnv,
    DisabledByBoth,
}

impl TelemetryPosture {
    /// Whether reports are sent.
    pub fn is_enabled(self) -> (r: bool)
        ensures
            r == (self == TelemetryPosture::Enabled),
    {
        match self {
            TelemetryPosture::Enabled => true,
            _ => false,
        }
    }
}

/// Whether the value of `MONAD_TELEMETRY` says that no reports are sent.
pub open spec fn env_off(value: Option<Seq<char>>) -> bool {
    value == Some("0"@) || value == Some("false"@) || value == Some("no"@) || value == Some("off"@)
}

/// Whether reports are sent: where either says that they are not, they are not.
pub open spec fn posture_of(config_enabled: bool, value: Option<Seq<char>>) -> TelemetryPosture {
    if config_enabled {
        if env_off(value) {
            TelemetryPosture::DisabledByEnv
        } else {
            TelemetryPosture::Enabled
        }
    } else if env_off(value) {
        TelemetryPosture::DisabledByBoth
    } else {
        TelemetryPosture::DisabledByConfig
    }
}

/// Whether reports are sent. `value` is that of `MONAD_TELEMETRY`.
pub fn telemetry_posture(config_enabled: bool, value: Option<&str>) -> (r: TelemetryPosture)
    ensures
        r == posture_of(config_enabled, value.deep_view()),
{
    let off = match value {
        Some(v) => same(v, "0") || same(v, "false") || same(v, "no") || same(v, "off"),
        None => false,
    };
    if config_enabled {
        if off {
            TelemetryPosture::DisabledByEnv
        } else {
            TelemetryPosture::Enabled
        }
    } else if off {
        TelemetryPosture::DisabledByBoth
    } else {
        TelemetryPosture::DisabledByConfig
    }
}

/// Reports are sent only where the configuration allows them, whatever the environment says.
pub proof fn law_config_cannot_be_overridden(value: Option<Seq<char>>)
    ensures
        posture_of(false, value) != TelemetryPosture::Enabled,
        env_off(value) ==> posture_of(true, value) != TelemetryPosture::Enabled,
{
}

/// The host of a `monad://host[/prefix]` URL; nothing for any other text, or where the host is empty.
pub open spec fn monad_host(url: Seq<char>) -> Option<Seq<char>> {
    let scheme = "monad://"@;
    if scheme.is_prefix_of(url) {
        let host = split_on(url.skip(scheme.len() as int), '/')[0];
        if host.len() == 0 {
            None
        } else {
            Some(host)
        }
    } else {
        None
    }
}

/// The host of a `monad://host[/prefix]` URL.
pub fn host_of(url: &str) -> (r: Option<String>)
    ensures
        r.deep_view() == monad_host(url@),
{
    match strip_prefix(url, "monad://") {
        Some(rest) => {
            let parts = split(rest.as_str(), '/');
            proof {
                crate::text::lemma_find(rest@, '/');
                assert(texts(parts@).len() > 0);
            }
            let host = copy(parts[0].as_str());
            assert(host@ == texts(parts@)[0]);
            if host.as_str().is_empty() {
                None
            } else {
                Some(host)
            }
        },
        None => None,
    }
}

/// Where reports go.
pub open spec fn endpoint_of(remote: Option<Seq<char>>) -> Option<Seq<char>> {
    match remote {
        Some(url) => match monad_host(url) {
            Some(host) => Some("https://"@ + host + "/report/build"@),
            None => None,
        },
        None => None,
    }
}

/// Where reports go; nowhere unless the remote cache is a `monad://` one.
pub fn build_endpoint(cache_remote: Option<&str>) -> (r: Option<String>)
    ensures
        r.deep_view() == endpoint_of(cache_remote.deep_view()),
{
    match cache_remote {
        Some(url) => match host_of(url) {
            Some(host) => Some(cat3("https://", host.as_str(), "/report/build")),
            None => None,
        },
        None => None,
    }
}

/// Where a report goes, and the variable that holds the token for it.
#[derive(Debug)]
pub struct ReportTarget {
    pub url: String,
    pub token_env: String,
}

/// Where a report goes; `None` where none is sent.
pub fn report_target(
    telemetry_enabled: bool,
    telemetry_env: Option<&str>,
    cache_remote: Option<&str>,
    cache_token_env: Option<&str>,
) -> (r: Option<ReportTarget>)
    ensures
        (match r {
            Some(t) => Some((t.url@, t.token_env@)),
            None => None,
        }) == report_place(
            telemetry_enabled,
            telemetry_env.deep_view(),
            cache_remote.deep_view(),
            cache_token_env.deep_view(),
        ),
        match r {
            Some(t) => {
                &&& posture_of(telemetry_enabled, telemetry_env.deep_view()) == TelemetryPosture::Enabled
                &&& endpoint_of(cache_remote.deep_view()) == Some(t.url@)
                &&& cache_token_env.deep_view() == Some(t.token_env@)
                &&& t.token_env@.len() > 0
            },
            None => {
                ||| posture_of(telemetry_enabled, telemetry_env.deep_view()) != TelemetryPosture::Enabled
                ||| endpoint_of(cache_remote.deep_view()) is None
                ||| cache_token_env is None
                ||| cache_token_env.deep_view()->0.len() == 0
            },
        },
{
    if !telemetry_posture(telemetry_enabled, telemetry_env).is_enabled() {
        return None;
    }
    match (build_endpoint(cache_remote), cache_token_env) {
        (Some(url), Some(name)) => if name.is_empty() {
            None
        } else {
            Some(ReportTarget { url, token_env: copy(name) })
        },
        _ => None,
    }
}

/// What is logged of a server's answer: nothing where it took the report, or where it knows no
/// reports.
pub fn report_response(url: &str, status: u16) -> (r: Option<String>)
    ensures
        r.deep_view() == (if 200 <= status < 300 || status == 404 {
            None
        } else {
            Some("report/build "@ + url@ + ": server replied "@ + decimal(status as nat))
        }),
{
    if (200 <= status && status < 300) || status == 404 {
        None
    } else {
        let n = number(status as u64);
        Some(cat4("report/build ", url, ": server replied ", n.as_str()))
    }
}

/// What a report says came of a build.
#[derive(Debug, Clone, Copy, PartialEq, Eq, Structural)]
pub enum BuildStatus {
    Success,
    Failed,
    /// Something that was planned did not run, and nothing failed.
    Partial,
}

/// What came of a build: failed where a task or an install failed; partial where fewer tasks were
/// restored or built than there were to do.
pub open spec fn status_of(s: ExecutionSummary) -> BuildStatus {
    if s.failed > 0 || s.install_failures > 0 {
        BuildStatus::Failed
    } else if s.hits + s.built + s.deploy_unchanged < s.tasks {
        BuildStatus::Partial
    } else {
        BuildStatus::Success
    }
}

/// A report. Of the `executed` tasks that were restored or built, `hits` were restored; the ratio of
/// the two is the share that came from the cache. `executed` is 1 where there were none.
#[derive(Debug)]
pub struct BuildReport {
    pub package: String,
    pub branch: Option<String>,
    pub sha: Option<String>,
    pub hits: usize,
    pub executed: usize,
    pub status: BuildStatus,
    pub duration_ms: u64,
}

/// The report of a run.
pub fn build_report_from(s: &ExecutionSummary, package: &str, branch: Option<String>, sha: Option<String>) -> (r: BuildReport)
    requires
        s.hits + s.built <= usize::MAX,
    ensures
        r.package@ == package@,
        r.branch == branch,
        r.sha == sha,
        r.hits == s.hits,
        r.executed == (if s.hits + s.built == 0 {
            1
        } else {
            s.hits + s.built
        }),
        r.hits <= r.executed,
        r.status == status_of(*s),
        r.duration_ms == s.duration_ms,
{
    let executed: usize = s.hits + s.built;
    let expected: usize = if s.tasks >= s.deploy_unchanged {
        s.tasks - s.deploy_unchanged
    } else {
        0
    };
    let status = if s.failed > 0 || s.install_failures > 0 {
        BuildStatus::Failed
    } else if executed < expected {
        BuildStatus::Partial
    } else {
        BuildStatus::Success
    };
    BuildReport {
        package: copy(package),
        branch,
        sha,
        hits: s.hits,
        executed: if executed == 0 {
            1
        } else {
            executed
        },
        status,
        duration_ms: s.duration_ms,
    }
}

/// The line that a git command printed; nothing where it failed or printed nothing.
pub fn git_one_line(stdout: Option<&str>) -> (r: Option<String>)
    ensures
        r.deep_view() == (match stdout.deep_view() {
            Some(s) if trim_of(s).len() > 0 => Some(trim_of(s)),
            _ => None,
        }),
{
    match stdout {
        Some(s) => {
            let t = trim(s);
            if t.as_str().is_empty() {
                None
            } else {
                Some(t)
            }
        },
        None => None,
    }
}

/// Reports are sent if and only if the configuration allows them and the environment does not switch them
/// off; who switched them off is told.
pub proof fn law_when_reports_are_sent(config_enabled: bool, value: Option<Seq<char>>)
    ensures
        posture_of(config_enabled, value) == TelemetryPosture::Enabled <==> config_enabled && !env_off(value),
        posture_of(config_enabled, value) == TelemetryPosture::DisabledByConfig <==> !config_enabled && !env_off(
            value,
        ),
        posture_of(config_enabled, value) == TelemetryPosture::DisabledByEnv <==> config_enabled && env_off(value),
        value is None ==> !env_off(value),
        env_off(Some("0"@)) && env_off(Some("false"@)) && env_off(Some("no"@)) && env_off(Some("off"@)),
{
}

/// A build failed if and only if a task or an install did; it succeeded if and only if nothing failed and
/// every task was restored, built, or had nothing to deploy.
pub proof fn law_status_of_a_build(s: ExecutionSummary)
    ensures
        status_of(s) == BuildStatus::Failed <==> s.failed > 0 || s.install_failures > 0,
        status_of(s) == BuildStatus::Success <==> s.failed == 0 && s.install_failures == 0 && s.hits + s.built
            + s.deploy_unchanged >= s.tasks,
        status_of(s) == BuildStatus::Partial <==> s.failed == 0 && s.install_failures == 0 && s.hits + s.built
            + s.deploy_unchanged < s.tasks,
{
}

/// The host of a `monad://` URL is what stands between the scheme and the first slash, or the end; reports
/// and health checks go there.
pub proof fn law_host_of_a_cache(host: Seq<char>, rest: Seq<char>)
    requires
        !host.contains('/'),
    ensures
        host.len() > 0 ==> monad_host("monad://"@ + host) == Some(host) && monad_host("monad://"@ + host + "/"@ + rest)
            == Some(host),
        host.len() == 0 ==> monad_host("monad://"@ + host) is None && monad_host("monad://"@ + host + "/"@ + rest)
            is None,
        host.len() > 0 ==> endpoint_of(Some("monad://"@ + host + "/"@ + rest)) == Some(
            "https://"@ + host + "/report/build"@,
        ),
        endpoint_of(None) is None,
{
    reveal_strlit("/");
    let scheme = "monad://"@;
    let a = scheme + host;
    let b = scheme + host + "/"@ + rest;
    let n = host.len() as int;
    assert(scheme =~= a.subrange(0, scheme.len() as int));
    assert(scheme =~= b.subrange(0, scheme.len() as int));
    assert(a.skip(scheme.len() as int) =~= host);
    assert(b.skip(scheme.len() as int) =~= host + "/"@ + rest);
    crate::text::lemma_find_is(host, '/', n);
    crate::text::lemma_find_is(host + "/"@ + rest, '/', n);
    assert((host + "/"@ + rest).take(n) =~= host);
    assert(split_on(host, '/') == seq![host]);
    assert(split_on(host + "/"@ + rest, '/')[0] == host);
}

/// A URL of another scheme has no host, and no report goes there.
pub proof fn law_other_schemes_have_no_host(url: Seq<char>)
    requires
        !"monad://"@.is_prefix_of(url),
    ensures
        monad_host(url) is None,
        endpoint_of(Some(url)) is None,
{
}

/// Where a report goes, and the variable that holds the token for it.
pub open spec fn report_place(
    enabled: bool,
    value: Option<Seq<char>>,
    remote: Option<Seq<char>>,
    token_env: Option<Seq<char>>,
) -> Option<(Seq<char>, Seq<char>)> {
    match (endpoint_of(remote), token_env) {
        (Some(url), Some(name)) if posture_of(enabled, value) == TelemetryPosture::Enabled && name.len() > 0 => Some(
            (url, name),
        ),
        _ => None,
    }
}

/// A report is sent if and only if reports are allowed, the remote cache is a hosted one with a host, and a
/// variable is named for its token; it goes to that host, with that token.
pub proof fn law_when_a_report_is_sent(
    enabled: bool,
    value: Option<Seq<char>>,
    remote: Option<Seq<char>>,
    token_env: Option<Seq<char>>,
)
    ensures
        report_place(enabled, value, remote, token_env) is Some <==> enabled && !env_off(value) && (remote matches Some(u)
            && monad_host(u) is Some) && (token_env matches Some(n) && n.len() > 0),
        report_place(enabled, value, remote, token_env) matches Some(t) ==> token_env == Some(t.1) && (remote matches Some(
            u,
        ) && (monad_host(u) matches Some(h) && t.0 == "https://"@ + h + "/report/build"@)),
{
}

} // verus!
