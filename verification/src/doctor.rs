//! The health checks of a workspace.
//!
//! Each check has a stable dotted name, a status and a detail for people. The checks read what was
//! found out beforehand, a [`DoctorProbe`], and change nothing.
use vstd::prelude::*;

use crate::cloud::{check_cloud, cloud_checks, gate_of, CloudFacts};
use crate::command::{absent, missing_env, missing_required_cli, missing_required_env};
use crate::config::{CacheConfig, CliRequirement, CliRequirementModel, ToolVersion, ToolVersionModel, Workspace};
use crate::deep::{deep, filter_map, flat_map, lemma_filter_map_next, lemma_flat_map_next};
use crate::excerpt::{fitting_head, head_fitting};
use crate::execute::{pinned, PinSource, ToolResolution, ToolResolutionModel};
use crate::report::{posture_of, telemetry_posture, TelemetryPosture};
use crate::strmap::StrMap;
use crate::text::{cat, cat3, cat4, cat5, cat7, contains, copy, decimal, join, joined, number, pad_zeros, same, starts_with, trim, trim_of, zero_padded};

verus! {

broadcast use {crate::deep::group_deep, crate::deep::lemma_take_next, crate::deep::lemma_take_all};

/// What came of a check.
#[derive(Debug, Clone, Copy, PartialEq, Eq, Structural)]
pub enum CheckStatus {
    /// The check succeeded.
    Pass,
    /// Not a failure, but something to look at.
    Warn,
    /// Something is broken.
    Fail,
    /// The check did not run.
    Skipped,
}

/// A check.
#[derive(Debug)]
pub struct DoctorCheck {
    pub name: String,
    pub status: CheckStatus,
    pub detail: String,
}

#[verifier::ext_equal]
pub struct DoctorCheckModel {
    pub name: Seq<char>,
    pub status: CheckStatus,
    pub detail: Seq<char>,
}

impl DeepView for DoctorCheck {
    type V = DoctorCheckModel;

    open spec fn deep_view(&self) -> DoctorCheckModel {
        DoctorCheckModel { name: self.name@, status: self.status, detail: self.detail@ }
    }
}

/// A check that succeeded.
pub open spec fn ok(name: Seq<char>, detail: Seq<char>) -> DoctorCheckModel {
    DoctorCheckModel { name, status: CheckStatus::Pass, detail }
}

/// A check that found something to look at.
pub open spec fn warn(name: Seq<char>, detail: Seq<char>) -> DoctorCheckModel {
    DoctorCheckModel { name, status: CheckStatus::Warn, detail }
}

/// A check that failed.
pub open spec fn fail(name: Seq<char>, detail: Seq<char>) -> DoctorCheckModel {
    DoctorCheckModel { name, status: CheckStatus::Fail, detail }
}

/// A check that did not run.
pub open spec fn skipped(name: Seq<char>, detail: Seq<char>) -> DoctorCheckModel {
    DoctorCheckModel { name, status: CheckStatus::Skipped, detail }
}

/// A check that succeeded.
pub fn check_ok(name: &str, detail: String) -> (r: DoctorCheck)
    ensures
        r.deep_view() == ok(name@, detail@),
{
    DoctorCheck { name: copy(name), status: CheckStatus::Pass, detail }
}

/// A check that found something to look at.
pub fn check_warn(name: &str, detail: String) -> (r: DoctorCheck)
    ensures
        r.deep_view() == warn(name@, detail@),
{
    DoctorCheck { name: copy(name), status: CheckStatus::Warn, detail }
}

/// A check that failed.
pub fn check_fail(name: &str, detail: String) -> (r: DoctorCheck)
    ensures
        r.deep_view() == fail(name@, detail@),
{
    DoctorCheck { name: copy(name), status: CheckStatus::Fail, detail }
}

/// A check that did not run.
pub fn check_skipped(name: &str, detail: String) -> (r: DoctorCheck)
    ensures
        r.deep_view() == skipped(name@, detail@),
{
    DoctorCheck { name: copy(name), status: CheckStatus::Skipped, detail }
}

/// How many checks there are, and how many of each status.
#[derive(Debug)]
pub struct DoctorSummary {
    pub total: usize,
    pub ok: usize,
    pub warn: usize,
    pub fail: usize,
    pub skipped: usize,
}

/// How many checks have a status.
pub open spec fn count(checks: Seq<DoctorCheckModel>, status: CheckStatus) -> nat
    decreases checks.len(),
{
    if checks.len() == 0 {
        0
    } else {
        count(checks.drop_last(), status) + (if checks.last().status == status {
            1nat
        } else {
            0
        })
    }
}

/// The four statuses account for all checks.
pub proof fn law_summary_is_complete(checks: Seq<DoctorCheckModel>)
    ensures
        count(checks, CheckStatus::Pass) + count(checks, CheckStatus::Warn) + count(checks, CheckStatus::Fail)
            + count(checks, CheckStatus::Skipped) == checks.len(),
    decreases checks.len(),
{
    if checks.len() > 0 {
        law_summary_is_complete(checks.drop_last());
    }
}

/// What the checks found.
#[derive(Debug)]
pub struct DoctorReport {
    pub checks: Vec<DoctorCheck>,
    pub summary: DoctorSummary,
}

impl DoctorReport {
    /// The summary counts the checks.
    pub open spec fn consistent(self) -> bool {
        let checks = self.checks.deep_view();
        &&& self.summary.total == checks.len()
        &&& self.summary.ok == count(checks, CheckStatus::Pass)
        &&& self.summary.warn == count(checks, CheckStatus::Warn)
        &&& self.summary.fail == count(checks, CheckStatus::Fail)
        &&& self.summary.skipped == count(checks, CheckStatus::Skipped)
    }

    /// The exit code: 1 where a check failed, and 0 where none did.
    pub fn exit_code(&self) -> (r: i32)
        ensures
            r == (if self.summary.fail > 0 {
                1i32
            } else {
                0
            }),
    {
        if self.summary.fail > 0 {
            1
        } else {
            0
        }
    }
}

/// A count is above zero only where a check has the status.
pub proof fn lemma_count_positive(checks: Seq<DoctorCheckModel>, status: CheckStatus)
    ensures
        count(checks, status) > 0 <==> exists|i: int|
            0 <= i < checks.len() && (#[trigger] checks[i]).status == status,
    decreases checks.len(),
{
    if checks.len() > 0 {
        let rest = checks.drop_last();
        lemma_count_positive(rest, status);
        if checks.last().status == status {
            assert(checks[checks.len() - 1].status == status);
        }
        if count(rest, status) > 0 {
            let i = choose|i: int| 0 <= i < rest.len() && (#[trigger] rest[i]).status == status;
            assert(checks[i].status == status);
        }
        if exists|i: int| 0 <= i < checks.len() && (#[trigger] checks[i]).status == status {
            let i = choose|i: int| 0 <= i < checks.len() && (#[trigger] checks[i]).status == status;
            if i < rest.len() {
                assert(rest[i].status == status);
            }
        }
    }
}

/// The exit code says whether a check failed: warnings and skipped checks do not count.
pub proof fn law_exit_code(report: DoctorReport)
    requires
        report.consistent(),
    ensures
        report.summary.fail > 0 <==> exists|i: int|
            0 <= i < report.checks@.len() && (#[trigger] report.checks@[i]).status == CheckStatus::Fail,
        report.summary.total == report.summary.ok + report.summary.warn + report.summary.fail
            + report.summary.skipped,
{
    let checks = report.checks.deep_view();
    lemma_count_positive(checks, CheckStatus::Fail);
    law_summary_is_complete(checks);
    if report.summary.fail > 0 {
        let i = choose|i: int| 0 <= i < checks.len() && (#[trigger] checks[i]).status == CheckStatus::Fail;
        assert(report.checks@[i].status == CheckStatus::Fail);
    }
    if exists|i: int|
        0 <= i < report.checks@.len() && (#[trigger] report.checks@[i]).status == CheckStatus::Fail {
        let i = choose|i: int|
            0 <= i < report.checks@.len() && (#[trigger] report.checks@[i]).status == CheckStatus::Fail;
        assert(checks[i].status == CheckStatus::Fail);
    }
}

/// The report of some checks.
fn finalize(checks: Vec<DoctorCheck>) -> (r: DoctorReport)
    ensures
        r.checks == checks,
        r.consistent(),
{
    let ghost all = deep(checks@);
    let mut s = DoctorSummary { total: checks.len(), ok: 0, warn: 0, fail: 0, skipped: 0 };
    let mut i: usize = 0;
    while i < checks.len()
        invariant
            i <= checks@.len(),
            all == deep(checks@),
            s.total == all.len(),
            s.ok == count(all.take(i as int), CheckStatus::Pass),
            s.warn == count(all.take(i as int), CheckStatus::Warn),
            s.fail == count(all.take(i as int), CheckStatus::Fail),
            s.skipped == count(all.take(i as int), CheckStatus::Skipped),
        decreases checks.len() - i,
    {
        proof {
            law_summary_is_complete(all.take(i as int));
            assert(all.take(i + 1).drop_last() =~= all.take(i as int));
        }
        match checks[i].status {
            CheckStatus::Pass => {
                s.ok += 1;
            },
            CheckStatus::Warn => {
                s.warn += 1;
            },
            CheckStatus::Fail => {
                s.fail += 1;
            },
            CheckStatus::Skipped => {
                s.skipped += 1;
            },
        }
        i += 1;
    }
    DoctorReport { checks, summary: s }
}

/// What was found out about the tool of one unit.
#[derive(Debug)]
pub struct ToolProbe {
    /// The unit's tool, where its adapter knows one.
    pub resolution: Option<ToolResolution>,
    /// Where the tool's programs lie, where it is installed.
    pub installed_at: Option<String>,
}

#[verifier::ext_equal]
pub struct ToolProbeModel {
    pub resolution: Option<ToolResolutionModel>,
    pub installed_at: Option<Seq<char>>,
}

impl DeepView for ToolProbe {
    type V = ToolProbeModel;

    open spec fn deep_view(&self) -> ToolProbeModel {
        ToolProbeModel {
            resolution: self.resolution.deep_view(),
            installed_at: self.installed_at.deep_view(),
        }
    }
}

/// Whether a unit's tool is pinned at a version.
pub open spec fn has_pin(p: ToolProbeModel) -> bool {
    p.resolution is Some && pinned(p.resolution->0)
}

/// The tool and version that are pinned.
pub open spec fn pin_of(p: ToolProbeModel) -> ToolVersionModel {
    ToolVersionModel { tool: p.resolution->0.tool, version: p.resolution->0.version->0 }
}

/// The first probe of each pinned tool and version.
pub open spec fn distinct_pins(probes: Seq<ToolProbeModel>) -> Seq<ToolProbeModel>
    decreases probes.len(),
{
    if probes.len() == 0 {
        Seq::empty()
    } else {
        let before = distinct_pins(probes.drop_last());
        if has_pin(probes.last()) && !before.map_values(|p: ToolProbeModel| pin_of(p)).contains(
            pin_of(probes.last()),
        ) {
            before.push(probes.last())
        } else {
            before
        }
    }
}

/// The check of a pinned tool.
pub open spec fn tool_check(p: ToolProbeModel) -> DoctorCheckModel {
    let name = "toolchain."@ + pin_of(p).tool + "@"@ + pin_of(p).version;
    match p.installed_at {
        Some(dir) => ok(name, "installed at "@ + dir),
        None => fail(
            name,
            "pinned by '"@ + p.resolution->0.source_label
                + "' but not installed — run `monad toolchain install`"@,
        ),
    }
}

/// The checks of the pinned tools: one for each tool and version, or a marker where none is pinned.
pub open spec fn tool_checks(probes: Seq<ToolProbeModel>) -> Seq<DoctorCheckModel> {
    if distinct_pins(probes).len() == 0 {
        seq![skipped("toolchain"@, "no explicit toolchain pins — nothing to verify"@)]
    } else {
        distinct_pins(probes).map_values(|p: ToolProbeModel| tool_check(p))
    }
}

/// Whether a tool and version are among some.
fn contains_pin(seen: &Vec<ToolVersion>, tool: &str, version: &str) -> (r: bool)
    ensures
        r == deep(seen@).contains(ToolVersionModel { tool: tool@, version: version@ }),
{
    let ghost want = ToolVersionModel { tool: tool@, version: version@ };
    let mut i: usize = 0;
    while i < seen.len()
        invariant
            i <= seen@.len(),
            want == (ToolVersionModel { tool: tool@, version: version@ }),
            forall|j: int| 0 <= j < i ==> #[trigger] deep(seen@)[j] != want,
        decreases seen.len() - i,
    {
        assert(deep(seen@)[i as int] == seen@[i as int].deep_view());
        if same(seen[i].tool.as_str(), tool) && same(seen[i].version.as_str(), version) {
            assert(deep(seen@)[i as int] == want);
            return true;
        }
        i += 1;
    }
    false
}

/// The checks of the pinned tools. `probes` holds what was found out of each unit, in the order of
/// their paths.
pub fn check_toolchains(probes: &Vec<ToolProbe>) -> (r: Vec<DoctorCheck>)
    ensures
        r.deep_view() == tool_checks(probes.deep_view()),
{
    let ghost all = deep(probes@);
    let ghost key = |p: ToolProbeModel| pin_of(p);
    let ghost check = |p: ToolProbeModel| tool_check(p);
    let mut seen: Vec<ToolVersion> = Vec::new();
    let mut checks: Vec<DoctorCheck> = Vec::new();
    assert(deep(seen@) =~= distinct_pins(all.take(0)).map_values(key));
    assert(deep(checks@) =~= distinct_pins(all.take(0)).map_values(check));
    let mut i: usize = 0;
    while i < probes.len()
        invariant
            i <= probes@.len(),
            all == deep(probes@),
            key == (|p: ToolProbeModel| pin_of(p)),
            check == (|p: ToolProbeModel| tool_check(p)),
            deep(seen@) == distinct_pins(all.take(i as int)).map_values(key),
            deep(checks@) == distinct_pins(all.take(i as int)).map_values(check),
        decreases probes.len() - i,
    {
        let p = &probes[i];
        let ghost before = distinct_pins(all.take(i as int));
        let ghost m = p.deep_view();
        proof {
            assert(all[i as int] == m);
            assert(all.take(i + 1).drop_last() =~= all.take(i as int));
            assert(all.take(i + 1).last() == m);
            assert(before.push(m).map_values(key) =~= before.map_values(key).push(pin_of(m)));
            assert(before.push(m).map_values(check) =~= before.map_values(check).push(tool_check(m)));
        }
        if let Some(t) = &p.resolution {
            let by_someone = match t.source {
                PinSource::Unit => true,
                PinSource::Repo => true,
                PinSource::Detected => false,
            };
            if let Some(version) = &t.version {
                assert(has_pin(m) == by_someone);
                if by_someone && !contains_pin(&seen, t.tool.as_str(), version.as_str()) {
                    let name = cat4("toolchain.", t.tool.as_str(), "@", version.as_str());
                    let c = match &p.installed_at {
                        Some(dir) => check_ok(name.as_str(), cat("installed at ", dir.as_str())),
                        None => check_fail(
                            name.as_str(),
                            cat3(
                                "pinned by '",
                                t.source_label.as_str(),
                                "' but not installed — run `monad toolchain install`",
                            ),
                        ),
                    };
                    assert(c.deep_view() == tool_check(m));
                    checks.push(c);
                    seen.push(
                        ToolVersion { tool: copy(t.tool.as_str()), version: copy(version.as_str()) },
                    );
                    assert(seen@.last().deep_view() == pin_of(m));
                }
            }
        }
        i += 1;
    }
    if checks.len() == 0 {
        checks.push(
            check_skipped("toolchain", copy("no explicit toolchain pins — nothing to verify")),
        );
        assert(deep(checks@) =~= tool_checks(all));
    }
    checks
}

/// That an integration was detected on a unit.
#[derive(Debug)]
pub struct Detection {
    pub unit: String,
    pub integration: String,
}

#[verifier::ext_equal]
pub struct DetectionModel {
    pub unit: Seq<char>,
    pub integration: Seq<char>,
}

impl DeepView for Detection {
    type V = DetectionModel;

    open spec fn deep_view(&self) -> DetectionModel {
        DetectionModel { unit: self.unit@, integration: self.integration@ }
    }
}

/// What an integration needs.
#[derive(Debug)]
pub struct IntegrationNeeds {
    pub id: String,
    pub required_env: Vec<String>,
    pub required_cli: Vec<CliRequirement>,
}

#[verifier::ext_equal]
pub struct IntegrationNeedsModel {
    pub id: Seq<char>,
    pub required_env: Seq<Seq<char>>,
    pub required_cli: Seq<CliRequirementModel>,
}

impl DeepView for IntegrationNeeds {
    type V = IntegrationNeedsModel;

    open spec fn deep_view(&self) -> IntegrationNeedsModel {
        IntegrationNeedsModel {
            id: self.id@,
            required_env: self.required_env.deep_view(),
            required_cli: self.required_cli.deep_view(),
        }
    }
}

/// The unit of a detection, where it is one of an integration.
pub open spec fn unit_detecting(id: Seq<char>) -> spec_fn(DetectionModel) -> Option<Seq<char>> {
    |d: DetectionModel|
        if d.integration == id {
            Some(d.unit)
        } else {
            None
        }
}

/// The units on which an integration was detected.
pub open spec fn units_with(detections: Seq<DetectionModel>, id: Seq<char>) -> Seq<Seq<char>> {
    filter_map(detections, unit_detecting(id))
}

/// The units on which an integration was detected.
fn detecting_units(detections: &Vec<Detection>, id: &str) -> (r: Vec<String>)
    ensures
        deep(r@) == units_with(deep(detections@), id@),
{
    let ghost all = deep(detections@);
    let ghost f = unit_detecting(id@);
    let mut r: Vec<String> = Vec::new();
    let mut i: usize = 0;
    while i < detections.len()
        invariant
            i <= detections@.len(),
            all == deep(detections@),
            f == unit_detecting(id@),
            deep(r@) == filter_map(all.take(i as int), f),
        decreases detections.len() - i,
    {
        proof {
            lemma_filter_map_next(all, f, i as int);
        }
        if same(detections[i].integration.as_str(), id) {
            r.push(copy(detections[i].unit.as_str()));
        }
        i += 1;
    }
    r
}

/// The check of the variables that an integration needs.
pub open spec fn env_check(
    n: IntegrationNeedsModel,
    units: Seq<Seq<char>>,
    aliases: Map<Seq<char>, Seq<char>>,
    env: Map<Seq<char>, Seq<char>>,
) -> DoctorCheckModel {
    let name = "integration."@ + n.id + ".env"@;
    let suffix = "(units: "@ + joined(units, ", "@) + ")"@;
    let missing = missing_env(n.required_env, aliases, env);
    if n.required_env.len() == 0 {
        skipped(name, "no env vars required "@ + suffix)
    } else if missing.len() == 0 {
        ok(name, "all "@ + decimal(n.required_env.len()) + " env var(s) present "@ + suffix)
    } else {
        fail(name, "missing env var(s): "@ + joined(missing, ", "@) + " "@ + suffix)
    }
}

/// What is said of a program that is not there.
pub open spec fn install_line(c: CliRequirementModel) -> Seq<char> {
    c.binary + " (install: "@ + c.install_hint + ")"@
}

/// The check of the programs that an integration needs.
pub open spec fn cli_check(n: IntegrationNeedsModel, units: Seq<Seq<char>>, on_path: Seq<Seq<char>>) -> DoctorCheckModel {
    let name = "integration."@ + n.id + ".cli"@;
    let suffix = "(units: "@ + joined(units, ", "@) + ")"@;
    let missing = absent(n.required_cli, on_path);
    if n.required_cli.len() == 0 {
        skipped(name, "no CLI required "@ + suffix)
    } else if missing.len() == 0 {
        let names = n.required_cli.map_values(|c: CliRequirementModel| c.binary);
        ok(name, "all CLI binaries on PATH: "@ + joined(names, ", "@) + " "@ + suffix)
    } else {
        let lines = missing.map_values(|c: CliRequirementModel| install_line(c));
        fail(name, "not on PATH: "@ + joined(lines, "; "@) + " "@ + suffix)
    }
}

/// The two checks of an integration; none where it was detected on no unit.
pub open spec fn checks_of_integration(
    detections: Seq<DetectionModel>,
    aliases: Map<Seq<char>, Seq<char>>,
    env: Map<Seq<char>, Seq<char>>,
    on_path: Seq<Seq<char>>,
) -> spec_fn(IntegrationNeedsModel) -> Seq<DoctorCheckModel> {
    |n: IntegrationNeedsModel|
        {
            let units = units_with(detections, n.id);
            if units.len() == 0 {
                Seq::empty()
            } else {
                seq![env_check(n, units, aliases, env), cli_check(n, units, on_path)]
            }
        }
}

/// The checks of the integrations that were detected, or a marker where none was.
pub open spec fn integration_checks(
    needs: Seq<IntegrationNeedsModel>,
    detections: Seq<DetectionModel>,
    aliases: Map<Seq<char>, Seq<char>>,
    env: Map<Seq<char>, Seq<char>>,
    on_path: Seq<Seq<char>>,
) -> Seq<DoctorCheckModel> {
    if detections.len() == 0 {
        seq![
            skipped("integrations"@, "no deploy / release integrations detected across any unit"@),
        ]
    } else {
        flat_map(needs, checks_of_integration(detections, aliases, env, on_path))
    }
}

fn integration_env_check(
    n: &IntegrationNeeds,
    units: &Vec<String>,
    aliases: &StrMap<String>,
    env: &StrMap<String>,
) -> (r: DoctorCheck)
    ensures
        r.deep_view() == env_check(n.deep_view(), deep(units@), aliases@, env@),
{
    let name = cat3("integration.", n.id.as_str(), ".env");
    let list = join(units, ", ");
    let suffix = cat3("(units: ", list.as_str(), ")");
    if n.required_env.len() == 0 {
        return check_skipped(name.as_str(), cat("no env vars required ", suffix.as_str()));
    }
    match missing_required_env(&n.required_env, aliases, env) {
        None => {
            let count = number(n.required_env.len() as u64);
            check_ok(name.as_str(), cat4("all ", count.as_str(), " env var(s) present ", suffix.as_str()))
        },
        Some(missing) => {
            let what = join(&missing, ", ");
            check_fail(name.as_str(), cat4("missing env var(s): ", what.as_str(), " ", suffix.as_str()))
        },
    }
}

fn integration_cli_check(n: &IntegrationNeeds, units: &Vec<String>, on_path: &Vec<String>) -> (r: DoctorCheck)
    ensures
        r.deep_view() == cli_check(n.deep_view(), deep(units@), deep(on_path@)),
{
    let name = cat3("integration.", n.id.as_str(), ".cli");
    let list = join(units, ", ");
    let suffix = cat3("(units: ", list.as_str(), ")");
    if n.required_cli.len() == 0 {
        return check_skipped(name.as_str(), cat("no CLI required ", suffix.as_str()));
    }
    match missing_required_cli(&n.required_cli, on_path) {
        None => {
            let ghost want = deep(n.required_cli@).map_values(|c: CliRequirementModel| c.binary);
            let mut names: Vec<String> = Vec::new();
            let mut i: usize = 0;
            while i < n.required_cli.len()
                invariant
                    i <= n.required_cli@.len(),
                    want == deep(n.required_cli@).map_values(|c: CliRequirementModel| c.binary),
                    deep(names@) == want.take(i as int),
                decreases n.required_cli.len() - i,
            {
                let b = copy(n.required_cli[i].binary.as_str());
                assert(b@ == want[i as int]);
                names.push(b);
                i += 1;
            }
            let what = join(&names, ", ");
            check_ok(
                name.as_str(),
                cat4("all CLI binaries on PATH: ", what.as_str(), " ", suffix.as_str()),
            )
        },
        Some(missing) => {
            let ghost want = deep(missing@).map_values(|c: CliRequirementModel| install_line(c));
            let mut lines: Vec<String> = Vec::new();
            let mut i: usize = 0;
            while i < missing.len()
                invariant
                    i <= missing@.len(),
                    want == deep(missing@).map_values(|c: CliRequirementModel| install_line(c)),
                    deep(lines@) == want.take(i as int),
                decreases missing.len() - i,
            {
                let l = cat4(
                    missing[i].binary.as_str(),
                    " (install: ",
                    missing[i].install_hint.as_str(),
                    ")",
                );
                assert(l@ == want[i as int]);
                lines.push(l);
                i += 1;
            }
            let what = join(&lines, "; ");
            check_fail(name.as_str(), cat4("not on PATH: ", what.as_str(), " ", suffix.as_str()))
        },
    }
}

/// The checks of the integrations. `needs` lists every integration that is known; `detections` says
/// which were detected on which units, in the order of the units' paths.
pub fn check_integrations(
    needs: &Vec<IntegrationNeeds>,
    detections: &Vec<Detection>,
    aliases: &StrMap<String>,
    env: &StrMap<String>,
    on_path: &Vec<String>,
) -> (r: Vec<DoctorCheck>)
    ensures
        r.deep_view() == integration_checks(
            needs.deep_view(),
            detections.deep_view(),
            aliases@,
            env@,
            on_path.deep_view(),
        ),
{
    let mut checks: Vec<DoctorCheck> = Vec::new();
    if detections.len() == 0 {
        checks.push(
            check_skipped(
                "integrations",
                copy("no deploy / release integrations detected across any unit"),
            ),
        );
        return checks;
    }
    let ghost all = deep(needs@);
    let ghost f = checks_of_integration(deep(detections@), aliases@, env@, deep(on_path@));
    let mut i: usize = 0;
    while i < needs.len()
        invariant
            i <= needs@.len(),
            all == deep(needs@),
            f == checks_of_integration(deep(detections@), aliases@, env@, deep(on_path@)),
            deep(checks@) == flat_map(all.take(i as int), f),
        decreases needs.len() - i,
    {
        let n = &needs[i];
        proof {
            lemma_flat_map_next(all, f, i as int);
        }
        let ghost before = deep(checks@);
        let units = detecting_units(detections, n.id.as_str());
        if units.len() > 0 {
            checks.push(integration_env_check(n, &units, aliases, env));
            checks.push(integration_cli_check(n, &units, on_path));
        }
        assert(deep(checks@) =~= before + f(all[i as int]));
        i += 1;
    }
    checks
}

/// `n / m` rounded to a whole number, halves to the even one.
pub open spec fn rounded(n: int, m: int) -> int {
    let q = n / m;
    let twice = 2 * (n % m);
    if twice < m || (twice == m && q % 2 == 0) {
        q
    } else {
        q + 1
    }
}

/// How far apart the double-precision numbers near a whole number lie, and 1 where they lie closer.
pub open spec fn float_step(n: nat) -> nat
    decreases n,
{
    if n < 0x20_0000_0000_0000 {
        1
    } else {
        2 * float_step(n / 2)
    }
}

/// The double-precision number nearest to a whole number.
pub open spec fn to_float(n: nat) -> int {
    float_step(n) * rounded(n as int, float_step(n) as int)
}

/// A number of units in decimal, with two digits behind the point: that of `n` as a
/// double-precision number, rounded, halves to the even digit.
pub open spec fn in_units(n: nat, unit: int) -> Seq<char> {
    let hundredths = rounded(100 * to_float(n), unit);
    decimal((hundredths / 100) as nat) + "."@ + zero_padded((hundredths % 100) as nat, 2)
}

/// A number of bytes for people to read.
pub open spec fn bytes_text(n: nat) -> Seq<char> {
    if n >= 0x4000_0000 {
        in_units(n, 0x4000_0000) + " GiB"@
    } else if n >= 0x10_0000 {
        in_units(n, 0x10_0000) + " MiB"@
    } else if n >= 0x400 {
        in_units(n, 0x400) + " KiB"@
    } else {
        decimal(n) + " B"@
    }
}

fn round_div(n: u128, m: u128) -> (r: u128)
    requires
        0 < m < 0x1_0000_0000_0000_0000,
        n < 0x1000_0000_0000_0000_0000_0000_0000_0000,
    ensures
        r == rounded(n as int, m as int),
        r <= n / m + 1,
{
    let q: u128 = n / m;
    let twice: u128 = 2 * (n % m);
    assert(q <= n) by (nonlinear_arith)
        requires
            q == n / m,
            m > 0,
    ;
    if twice < m || (twice == m && q % 2 == 0) {
        q
    } else {
        q + 1
    }
}

fn step_of(n: u64) -> (r: u64)
    ensures
        r == float_step(n as nat),
        1 <= r <= 0x1000,
{
    let mut m: u64 = n;
    let mut s: u64 = 1;
    while m >= 0x20_0000_0000_0000
        invariant
            s * float_step(m as nat) == float_step(n as nat),
            1 <= s <= 0x1000,
            s * m <= n,
        decreases m,
    {
        proof {
            let (a, b, h) = (s as int, m as int, m as int / 2);
            assert(a * 0x20_0000_0000_0000 <= a * b) by (nonlinear_arith)
                requires
                    a >= 1,
                    b >= 0x20_0000_0000_0000,
            ;
            assert(a * (2 * h) <= a * b) by (nonlinear_arith)
                requires
                    a >= 1,
                    2 * h <= b,
            ;
            assert((2 * a) * h == a * (2 * h)) by (nonlinear_arith);
            let f = float_step(h as nat) as int;
            assert(a * (2 * f) == (2 * a) * f) by (nonlinear_arith);
        }
        m = m / 2;
        s = 2 * s;
    }
    assert(s * 1 == s);
    s
}

/// A number of units in decimal, with two digits behind the point.
fn unit_text(n: u64, unit: u64) -> (r: String)
    requires
        unit >= 0x400,
    ensures
        r@ == in_units(n as nat, unit as int),
{
    let step = step_of(n);
    let k: u128 = round_div(n as u128, step as u128);
    proof {
        let (s, a) = (step as int, n as int);
        assert(s * (a / s + 1) <= a + s) by (nonlinear_arith)
            requires
                s >= 1,
                a >= 0,
        ;
        let q = a / s + 1;
        assert(s * k <= s * q) by (nonlinear_arith)
            requires
                s >= 1,
                k <= q,
        ;
    }
    assert(step * k == to_float(n as nat));
    let f: u128 = step as u128 * k;
    let h: u128 = round_div(100 * f, unit as u128);
    proof {
        vstd::arithmetic::div_mod::lemma_div_is_ordered_by_denominator(100 * f as int, 0x400, unit as int);
    }
    let whole = number((h / 100) as u64);
    let rest = pad_zeros((h % 100) as u64, 2);
    cat3(whole.as_str(), ".", rest.as_str())
}

/// A number of bytes for people to read.
pub fn format_bytes(n: u64) -> (r: String)
    ensures
        r@ == bytes_text(n as nat),
{
    if n >= 0x4000_0000 {
        let t = unit_text(n, 0x4000_0000);
        cat(t.as_str(), " GiB")
    } else if n >= 0x10_0000 {
        let t = unit_text(n, 0x10_0000);
        cat(t.as_str(), " MiB")
    } else if n >= 0x400 {
        let t = unit_text(n, 0x400);
        cat(t.as_str(), " KiB")
    } else {
        let t = number(n);
        cat(t.as_str(), " B")
    }
}

/// What was found out about the local cache.
#[derive(Debug)]
pub enum LocalCacheProbe {
    /// Where it lies is not known; why.
    NoRoot(String),
    Missing { root: String },
    NotWritable { root: String },
    Stats { root: String, entries: u64, total_bytes: u64 },
    StatsFailed { root: String, error: String },
}

/// The check of the local cache.
pub open spec fn local_cache_check(p: LocalCacheProbe) -> DoctorCheckModel {
    let name = "cache.local"@;
    match p {
        LocalCacheProbe::NoRoot(e) => fail(name, e@),
        LocalCacheProbe::Missing { root } => warn(
            name,
            root@ + " does not exist yet (will be created on first cache write)"@,
        ),
        LocalCacheProbe::NotWritable { root } => fail(name, root@ + " is not writable"@),
        LocalCacheProbe::Stats { root, entries, total_bytes } => ok(
            name,
            root@ + ": "@ + decimal(entries as nat) + " entr"@ + (if entries == 1 {
                "y"@
            } else {
                "ies"@
            }) + ", "@ + bytes_text(total_bytes as nat),
        ),
        LocalCacheProbe::StatsFailed { root, error } => warn(
            name,
            root@ + " exists but stats failed: "@ + error@,
        ),
    }
}

/// The check of the local cache.
pub fn check_local_cache(p: &LocalCacheProbe) -> (r: DoctorCheck)
    ensures
        r.deep_view() == local_cache_check(*p),
{
    match p {
        LocalCacheProbe::NoRoot(e) => check_fail("cache.local", copy(e.as_str())),
        LocalCacheProbe::Missing { root } => check_warn(
            "cache.local",
            cat(root.as_str(), " does not exist yet (will be created on first cache write)"),
        ),
        LocalCacheProbe::NotWritable { root } => check_fail(
            "cache.local",
            cat(root.as_str(), " is not writable"),
        ),
        LocalCacheProbe::Stats { root, entries, total_bytes } => {
            let n = number(*entries);
            let size = format_bytes(*total_bytes);
            let end = if *entries == 1 {
                "y"
            } else {
                "ies"
            };
            check_ok(
                "cache.local",
                cat7(root.as_str(), ": ", n.as_str(), " entr", end, ", ", size.as_str()),
            )
        },
        LocalCacheProbe::StatsFailed { root, error } => check_warn(
            "cache.local",
            cat3(root.as_str(), " exists but stats failed: ", error.as_str()),
        ),
    }
}

/// The check of the remote cache. `aws_key` says whether `AWS_ACCESS_KEY_ID` is set.
pub open spec fn remote_cache_check(c: CacheConfig, aws_key: bool) -> DoctorCheckModel {
    let name = "cache.remote"@;
    match c.remote {
        None => skipped(name, "not configured"@),
        Some(remote) => if "monad://"@.is_prefix_of(remote@) {
            match c.remote_token_env {
                Some(var) if var@.len() > 0 => ok(
                    name,
                    "configured: "@ + remote@ + " (monad hosted cache; token via $"@ + var@
                        + "; run `monad doctor --cloud` for reachability + JWT validation)"@,
                ),
                _ => fail(
                    name,
                    "configured: "@ + remote@
                        + " but [cache] remote_token_env is not set — name the env var holding the JWT (e.g. remote_token_env = \"MONAD_CACHE_TOKEN\")"@,
                ),
            }
        } else if !"s3://"@.is_prefix_of(remote@) {
            fail(name, "remote URL must start with s3:// or monad:// (got: "@ + remote@ + ")"@)
        } else if !aws_key {
            fail(
                name,
                "remote configured ("@ + remote@
                    + ") but AWS_ACCESS_KEY_ID is not set — S3-compatible credentials required"@,
            )
        } else {
            let region = match c.remote_region {
                Some(g) => g@,
                None => "us-east-1"@,
            };
            ok(
                name,
                "configured: "@ + remote@ + " (region="@ + region + ", reachability not probed)"@,
            )
        },
    }
}

/// The check of the remote cache. `set_vars` names the environment variables that are set.
pub fn check_remote_cache(c: &CacheConfig, set_vars: &Vec<String>) -> (r: DoctorCheck)
    ensures
        r.deep_view() == remote_cache_check(*c, set_vars.deep_view().contains("AWS_ACCESS_KEY_ID"@)),
{
    let remote = match &c.remote {
        Some(u) => u.as_str(),
        None => {
            return check_skipped("cache.remote", copy("not configured"));
        },
    };
    if starts_with(remote, "monad://") {
        if let Some(var) = &c.remote_token_env {
            if !var.as_str().is_empty() {
                return check_ok(
                    "cache.remote",
                    cat5(
                        "configured: ",
                        remote,
                        " (monad hosted cache; token via $",
                        var.as_str(),
                        "; run `monad doctor --cloud` for reachability + JWT validation)",
                    ),
                );
            }
        }
        return check_fail(
            "cache.remote",
            cat3(
                "configured: ",
                remote,
                " but [cache] remote_token_env is not set — name the env var holding the JWT (e.g. remote_token_env = \"MONAD_CACHE_TOKEN\")",
            ),
        );
    }
    if !starts_with(remote, "s3://") {
        return check_fail(
            "cache.remote",
            cat3("remote URL must start with s3:// or monad:// (got: ", remote, ")"),
        );
    }
    if !contains(set_vars, "AWS_ACCESS_KEY_ID") {
        return check_fail(
            "cache.remote",
            cat3(
                "remote configured (",
                remote,
                ") but AWS_ACCESS_KEY_ID is not set — S3-compatible credentials required",
            ),
        );
    }
    let region = match &c.remote_region {
        Some(g) => g.as_str(),
        None => "us-east-1",
    };
    check_ok(
        "cache.remote",
        cat5("configured: ", remote, " (region=", region, ", reachability not probed)"),
    )
}

/// The check of whether reports are sent.
pub open spec fn telemetry_check(posture: TelemetryPosture, remote: Option<Seq<char>>) -> DoctorCheckModel {
    let name = "telemetry.posture"@;
    match posture {
        TelemetryPosture::Enabled => match remote {
            Some(u) if "monad://"@.is_prefix_of(u) => ok(
                name,
                "enabled — build reports POST to "@ + u
                    + " after `monad ci` / `monad build` (opt out via `[telemetry] enabled = false` in monad.toml or MONAD_TELEMETRY=0)"@,
            ),
            _ => ok(
                name,
                "enabled in config but no `monad://` remote configured — nothing is sent (set `[cache] remote = \"monad://...\"` to wire reporting)"@,
            ),
        },
        TelemetryPosture::DisabledByConfig => ok(
            name,
            "disabled by config: `[telemetry] enabled = false` in monad.toml"@,
        ),
        TelemetryPosture::DisabledByEnv => ok(
            name,
            "disabled by env: MONAD_TELEMETRY is set off (config flag would otherwise allow it)"@,
        ),
        TelemetryPosture::DisabledByBoth => ok(
            name,
            "disabled by both: `[telemetry] enabled = false` and MONAD_TELEMETRY env var off"@,
        ),
    }
}

/// The check of whether reports are sent.
pub fn check_telemetry_posture(posture: TelemetryPosture, remote: &Option<String>) -> (r: DoctorCheck)
    ensures
        r.deep_view() == telemetry_check(posture, remote.deep_view()),
{
    match posture {
        TelemetryPosture::Enabled => {
            if let Some(u) = remote {
                if starts_with(u.as_str(), "monad://") {
                    return check_ok(
                        "telemetry.posture",
                        cat3(
                            "enabled — build reports POST to ",
                            u.as_str(),
                            " after `monad ci` / `monad build` (opt out via `[telemetry] enabled = false` in monad.toml or MONAD_TELEMETRY=0)",
                        ),
                    );
                }
            }
            check_ok(
                "telemetry.posture",
                copy(
                    "enabled in config but no `monad://` remote configured — nothing is sent (set `[cache] remote = \"monad://...\"` to wire reporting)",
                ),
            )
        },
        TelemetryPosture::DisabledByConfig => check_ok(
            "telemetry.posture",
            copy("disabled by config: `[telemetry] enabled = false` in monad.toml"),
        ),
        TelemetryPosture::DisabledByEnv => check_ok(
            "telemetry.posture",
            copy("disabled by env: MONAD_TELEMETRY is set off (config flag would otherwise allow it)"),
        ),
        TelemetryPosture::DisabledByBoth => check_ok(
            "telemetry.posture",
            copy("disabled by both: `[telemetry] enabled = false` and MONAD_TELEMETRY env var off"),
        ),
    }
}

/// The check of the cache that GitHub Actions offers. `set` holds the names of the environment
/// variables that are set.
pub open spec fn gha_check(set: Seq<Seq<char>>) -> DoctorCheckModel {
    let name = "cache.gha"@;
    let have_url = set.contains("ACTIONS_CACHE_URL"@);
    let have_token = set.contains("ACTIONS_RUNTIME_TOKEN"@);
    let before = "inside GHA but cache env vars not readable from shell: "@;
    let after = ". Degrades GHA-tier caching; other cache tiers unaffected."@;
    if !set.contains("GITHUB_ACTIONS"@) {
        skipped(name, "not running inside GitHub Actions (GITHUB_ACTIONS unset)"@)
    } else if have_url && have_token {
        ok(name, "ACTIONS_CACHE_URL and ACTIONS_RUNTIME_TOKEN present"@)
    } else if have_url {
        warn(name, before + "ACTIONS_RUNTIME_TOKEN"@ + after)
    } else if have_token {
        warn(name, before + "ACTIONS_CACHE_URL"@ + after)
    } else {
        warn(name, before + "ACTIONS_CACHE_URL, ACTIONS_RUNTIME_TOKEN"@ + after)
    }
}

/// The check of the cache that GitHub Actions offers.
pub fn check_gha_cache(set_vars: &Vec<String>) -> (r: DoctorCheck)
    ensures
        r.deep_view() == gha_check(set_vars.deep_view()),
{
    if !contains(set_vars, "GITHUB_ACTIONS") {
        return check_skipped(
            "cache.gha",
            copy("not running inside GitHub Actions (GITHUB_ACTIONS unset)"),
        );
    }
    let have_url = contains(set_vars, "ACTIONS_CACHE_URL");
    let have_token = contains(set_vars, "ACTIONS_RUNTIME_TOKEN");
    if have_url && have_token {
        return check_ok("cache.gha", copy("ACTIONS_CACHE_URL and ACTIONS_RUNTIME_TOKEN present"));
    }
    let missing = if have_url {
        "ACTIONS_RUNTIME_TOKEN"
    } else if have_token {
        "ACTIONS_CACHE_URL"
    } else {
        "ACTIONS_CACHE_URL, ACTIONS_RUNTIME_TOKEN"
    };
    check_warn(
        "cache.gha",
        cat3(
            "inside GHA but cache env vars not readable from shell: ",
            missing,
            ". Degrades GHA-tier caching; other cache tiers unaffected.",
        ),
    )
}

/// The check of the git repository. `answer` is what `git rev-parse --is-inside-work-tree` printed,
/// where it succeeded.
pub open spec fn git_repo_check(answer: Option<Seq<char>>) -> DoctorCheckModel {
    match answer {
        Some(out) => if trim_of(out) == "true"@ {
            ok("git.repo"@, "repository reachable"@)
        } else {
            warn("git.repo"@, "git reports not-inside-worktree"@)
        },
        None => warn(
            "git.repo"@,
            "no git repo (diff pre-filter and `--since` will be skipped)"@,
        ),
    }
}

/// The check of the git repository.
pub fn check_git_repo(answer: &Option<String>) -> (r: DoctorCheck)
    ensures
        r.deep_view() == git_repo_check(answer.deep_view()),
{
    match answer {
        Some(out) => {
            let t = trim(out.as_str());
            if same(t.as_str(), "true") {
                check_ok("git.repo", copy("repository reachable"))
            } else {
                check_warn("git.repo", copy("git reports not-inside-worktree"))
            }
        },
        None => check_warn(
            "git.repo",
            copy("no git repo (diff pre-filter and `--since` will be skipped)"),
        ),
    }
}

/// The check of the default baseline. `answer` is what `git rev-parse --verify origin/main` printed,
/// where it succeeded; the detail shows at most 12 bytes of it.
pub open spec fn base_ref_check(answer: Option<Seq<char>>) -> DoctorCheckModel {
    match answer {
        Some(out) if trim_of(out).len() > 0 => ok(
            "git.base_ref"@,
            "origin/main → "@ + fitting_head(trim_of(out), 12),
        ),
        _ => warn(
            "git.base_ref"@,
            "origin/main not found locally; `monad plan --since=origin/main` will warn"@,
        ),
    }
}

/// The check of the default baseline.
pub fn check_git_base_ref(answer: &Option<String>) -> (r: DoctorCheck)
    ensures
        r.deep_view() == base_ref_check(answer.deep_view()),
{
    if let Some(out) = answer {
        let t = trim(out.as_str());
        if !t.as_str().is_empty() {
            let h = head_fitting(t.as_str(), 12);
            return check_ok("git.base_ref", cat("origin/main → ", h.as_str()));
        }
    }
    check_warn(
        "git.base_ref",
        copy("origin/main not found locally; `monad plan --since=origin/main` will warn"),
    )
}

/// The check of units that lie on disk and belong to no profile.
pub open spec fn orphan_check(wired: nat, orphans: Seq<Seq<char>>) -> DoctorCheckModel {
    let name = "workspace.orphan_unites"@;
    if orphans.len() == 0 {
        ok(name, decimal(wired) + " wired unit(es); no orphan unit.toml files on disk"@)
    } else {
        warn(
            name,
            decimal(orphans.len()) + " unit.toml file(s) on disk not wired into any monad: "@ + joined(
                orphans,
                ", "@,
            ) + " — run `monad unit add <path>` to wire them"@,
        )
    }
}

/// The check of units that lie on disk and belong to no profile.
pub fn check_orphan_unites(wired: usize, orphans: &Vec<String>) -> (r: DoctorCheck)
    ensures
        r.deep_view() == orphan_check(wired as nat, orphans.deep_view()),
{
    if orphans.len() == 0 {
        let n = number(wired as u64);
        return check_ok(
            "workspace.orphan_unites",
            cat(n.as_str(), " wired unit(es); no orphan unit.toml files on disk"),
        );
    }
    let n = number(orphans.len() as u64);
    let list = join(orphans, ", ");
    check_warn(
        "workspace.orphan_unites",
        cat4(
            n.as_str(),
            " unit.toml file(s) on disk not wired into any monad: ",
            list.as_str(),
            " — run `monad unit add <path>` to wire them",
        ),
    )
}

/// What became of finding and loading the workspace.
pub enum WorkspaceProbe {
    /// There is none; why.
    NotFound(String),
    /// Its files cannot be loaded; why.
    Invalid(String),
    Loaded(Workspace),
}

/// What became of looking at the units' tools.
#[derive(Debug)]
pub enum ToolchainProbe {
    /// Where tools are installed is not known; why.
    NoStore(String),
    /// What was found out of each unit, in the order of their paths.
    Units(Vec<ToolProbe>),
}

/// What the checks read.
pub struct DoctorProbe {
    pub workspace: WorkspaceProbe,
    pub tools: ToolchainProbe,
    /// Every integration that is known.
    pub integrations: Vec<IntegrationNeeds>,
    /// Which were detected on which units, in the order of the units' paths.
    pub detections: Vec<Detection>,
    /// The environment.
    pub env: StrMap<String>,
    /// The names of all environment variables that are set, whatever they hold.
    pub set_vars: Vec<String>,
    /// The required programs that are on `PATH`.
    pub on_path: Vec<String>,
    pub local_cache: LocalCacheProbe,
    /// What `git rev-parse --is-inside-work-tree` printed, where it succeeded.
    pub git_inside: Option<String>,
    /// What `git rev-parse --verify origin/main` printed, where it succeeded.
    pub git_base: Option<String>,
    /// The units on disk that belong to no profile.
    pub orphans: Vec<String>,
    /// What the cloud checks read, where they can run.
    pub cloud: Option<CloudFacts>,
}

/// Checks beyond the default ones.
#[derive(Debug, Clone, Copy, PartialEq, Eq, Structural)]
pub struct DoctorOptions {
    /// The `cloud.*` checks, which use the network.
    pub cloud: bool,
}

/// The check of the configuration of a workspace that was loaded.
pub open spec fn config_check(w: Workspace) -> DoctorCheckModel {
    ok(
        "config"@,
        decimal(w.profiles.keys().len()) + " monad(s), "@ + decimal(w.units_by_name.keys().len())
            + " unit(es) loaded from "@ + w.root@,
    )
}

/// The checks of the tools.
pub open spec fn toolchain_checks(p: ToolchainProbe) -> Seq<DoctorCheckModel> {
    match p {
        ToolchainProbe::NoStore(e) => seq![
            warn("toolchain.store"@, "could not locate toolchain store: "@ + e@),
        ],
        ToolchainProbe::Units(probes) => tool_checks(probes.deep_view()),
    }
}

/// The value of `MONAD_TELEMETRY`.
pub open spec fn telemetry_var(env: Map<Seq<char>, Seq<char>>) -> Option<Seq<char>> {
    if env.contains_key("MONAD_TELEMETRY"@) {
        Some(env["MONAD_TELEMETRY"@])
    } else {
        None
    }
}

/// The checks that are made of every workspace, in order.
pub open spec fn standing_checks(w: Workspace, p: DoctorProbe) -> Seq<DoctorCheckModel> {
    let set = p.set_vars.deep_view();
    seq![
        local_cache_check(p.local_cache),
        remote_cache_check(w.repo.cache, set.contains("AWS_ACCESS_KEY_ID"@)),
        telemetry_check(
            posture_of(w.repo.telemetry_enabled, telemetry_var(p.env@)),
            w.repo.cache.remote.deep_view(),
        ),
        gha_check(set),
        git_repo_check(p.git_inside.deep_view()),
        base_ref_check(p.git_base.deep_view()),
        orphan_check(w.units_by_name.keys().len(), p.orphans.deep_view()),
    ]
}

/// The checks that are made of every workspace.
fn check_standing(w: &Workspace, probe: &DoctorProbe) -> (r: Vec<DoctorCheck>)
    ensures
        deep(r@) == standing_checks(*w, *probe),
{
    let mut checks: Vec<DoctorCheck> = Vec::new();
    checks.push(check_local_cache(&probe.local_cache));
    checks.push(check_remote_cache(&w.repo.cache, &probe.set_vars));
    let var = match probe.env.get("MONAD_TELEMETRY") {
        Some(v) => Some(v.as_str()),
        None => None,
    };
    assert(var.deep_view() == telemetry_var(probe.env@));
    let posture = telemetry_posture(w.repo.telemetry_enabled, var);
    checks.push(check_telemetry_posture(posture, &w.repo.cache.remote));
    checks.push(check_gha_cache(&probe.set_vars));
    checks.push(check_git_repo(&probe.git_inside));
    checks.push(check_git_base_ref(&probe.git_base));
    checks.push(check_orphan_unites(w.units_by_name.len(), &probe.orphans));
    assert(deep(checks@) =~= standing_checks(*w, *probe));
    checks
}

/// The check of a workspace's configuration.
fn check_config(w: &Workspace) -> (r: DoctorCheck)
    ensures
        r.deep_view() == config_check(*w),
{
    let profiles = number(w.profiles.len() as u64);
    let units = number(w.units_by_name.len() as u64);
    check_ok(
        "config",
        cat5(profiles.as_str(), " monad(s), ", units.as_str(), " unit(es) loaded from ", w.root.as_str()),
    )
}

/// The checks of the tools.
fn check_tools(p: &ToolchainProbe) -> (r: Vec<DoctorCheck>)
    ensures
        deep(r@) == toolchain_checks(*p),
{
    match p {
        ToolchainProbe::NoStore(e) => {
            let mut v: Vec<DoctorCheck> = Vec::new();
            v.push(check_warn("toolchain.store", cat("could not locate toolchain store: ", e.as_str())));
            assert(deep(v@) =~= toolchain_checks(*p));
            v
        },
        ToolchainProbe::Units(probes) => check_toolchains(probes),
    }
}

/// The checks of a workspace that was loaded, in order.
pub open spec fn loaded_checks(
    w: Workspace,
    p: DoctorProbe,
    aliases: Map<Seq<char>, Seq<char>>,
    cloud: bool,
) -> Seq<DoctorCheckModel> {
    seq![config_check(w)] + toolchain_checks(p.tools) + integration_checks(
        p.integrations.deep_view(),
        p.detections.deep_view(),
        aliases,
        p.env@,
        p.on_path.deep_view(),
    ) + standing_checks(w, p) + (if cloud {
        cloud_checks(w.repo.cache, p.env@, p.cloud)
    } else {
        Seq::empty()
    })
}

/// All checks, in order: one alone where there is no workspace or it cannot be loaded.
pub open spec fn all_checks(p: DoctorProbe, aliases: Map<Seq<char>, Seq<char>>, cloud: bool) -> Seq<DoctorCheckModel> {
    match p.workspace {
        WorkspaceProbe::NotFound(e) => seq![fail("workspace"@, e@)],
        WorkspaceProbe::Invalid(e) => seq![fail("config"@, e@)],
        WorkspaceProbe::Loaded(w) => loaded_checks(w, p, aliases, cloud),
    }
}

/// The checks can be made: where the cloud checks go on to ask, there is an answer.
pub open spec fn answered(p: DoctorProbe, cloud: bool) -> bool {
    match p.workspace {
        WorkspaceProbe::Loaded(w) => cloud && gate_of(w.repo.cache, p.env@) is Ok ==> p.cloud is Some,
        _ => true,
    }
}

/// The default checks.
pub fn run(probe: &DoctorProbe) -> (r: DoctorReport)
    ensures
        r.checks.deep_view() == all_checks(*probe, Map::empty(), false),
        r.consistent(),
{
    let none: StrMap<String> = StrMap::new();
    run_with_options(probe, &none, DoctorOptions { cloud: false })
}

/// The default checks, with each required variable read from the one that an alias names.
pub fn run_with_aliases(probe: &DoctorProbe, secret_aliases: &StrMap<String>) -> (r: DoctorReport)
    ensures
        r.checks.deep_view() == all_checks(*probe, secret_aliases@, false),
        r.consistent(),
{
    run_with_options(probe, secret_aliases, DoctorOptions { cloud: false })
}

/// The checks that the options ask for, with each required variable read from the one that an alias
/// names.
pub fn run_with_options(probe: &DoctorProbe, secret_aliases: &StrMap<String>, options: DoctorOptions) -> (r: DoctorReport)
    requires
        answered(*probe, options.cloud),
    ensures
        r.checks.deep_view() == all_checks(*probe, secret_aliases@, options.cloud),
        r.consistent(),
{
    let mut checks: Vec<DoctorCheck> = Vec::new();
    let w = match &probe.workspace {
        WorkspaceProbe::NotFound(e) => {
            checks.push(check_fail("workspace", copy(e.as_str())));
            return finalize(checks);
        },
        WorkspaceProbe::Invalid(e) => {
            checks.push(check_fail("config", copy(e.as_str())));
            return finalize(checks);
        },
        WorkspaceProbe::Loaded(w) => w,
    };
    checks.push(check_config(w));
    let mut more = check_tools(&probe.tools);
    checks.append(&mut more);
    let mut more = check_integrations(
        &probe.integrations,
        &probe.detections,
        secret_aliases,
        &probe.env,
        &probe.on_path,
    );
    checks.append(&mut more);
    let mut more = check_standing(w, probe);
    checks.append(&mut more);
    if options.cloud {
        let mut more = check_cloud(&w.repo.cache, &probe.env, &probe.cloud);
        checks.append(&mut more);
    }
    assert(deep(checks@) =~= loaded_checks(*w, *probe, secret_aliases@, options.cloud));
    finalize(checks)
}

/// The first probe of each pinned tool and version is checked, and nothing else; the check succeeds if and
/// only if the tool is installed. Where nothing is pinned, one check says that there is nothing to see.
pub proof fn law_pinned_tools_are_checked(probes: Seq<ToolProbeModel>, i: int)
    ensures
        first_pin(probes, i) ==> tool_checks(probes).contains(tool_check(probes[i])),
        (forall|k: int| 0 <= k < probes.len() ==> !has_pin(#[trigger] probes[k])) ==> tool_checks(probes).len() == 1
            && tool_checks(probes)[0].status == CheckStatus::Skipped,
        0 <= i < distinct_pins(probes).len() ==> tool_checks(probes)[i] == tool_check(distinct_pins(probes)[i])
            && probes.contains(distinct_pins(probes)[i]) && has_pin(distinct_pins(probes)[i]),
        0 <= i < probes.len() ==> (tool_check(probes[i]).status == CheckStatus::Pass <==> probes[i].installed_at is Some),
        0 <= i < probes.len() ==> (tool_check(probes[i]).status == CheckStatus::Fail <==> probes[i].installed_at is None),
{
    let d = distinct_pins(probes);
    if first_pin(probes, i) {
        lemma_first_pin(probes, i);
        let k = choose|k: int| 0 <= k < d.len() && d[k] == probes[i];
        assert(tool_checks(probes)[k] == tool_check(probes[i]));
    }
    if 0 <= i < d.len() {
        assert(d.contains(d[i]));
        lemma_pins_are_probes(probes, d[i]);
    }
    if d.len() > 0 {
        assert(d.contains(d[0]));
        lemma_pins_are_probes(probes, d[0]);
        let k = choose|k: int| 0 <= k < probes.len() && probes[k] == d[0];
        assert(has_pin(probes[k]));
    }
}

proof fn lemma_pins_are_probes(probes: Seq<ToolProbeModel>, p: ToolProbeModel)
    requires
        distinct_pins(probes).contains(p),
    ensures
        probes.contains(p),
        has_pin(p),
    decreases probes.len(),
{
    if probes.len() > 0 {
        let rest = probes.drop_last();
        let before = distinct_pins(rest);
        crate::deep::lemma_push_contains(before, probes.last(), p);
        crate::deep::lemma_last_contains(probes, p);
        if before.contains(p) {
            lemma_pins_are_probes(rest, p);
        }
    }
}

/// Whether the probe at an index is the first of its tool and version.
pub open spec fn first_pin(probes: Seq<ToolProbeModel>, i: int) -> bool {
    &&& 0 <= i < probes.len()
    &&& has_pin(probes[i])
    &&& forall|j: int| 0 <= j < i && has_pin(#[trigger] probes[j]) ==> pin_of(probes[j]) != pin_of(probes[i])
}

proof fn lemma_first_pin(probes: Seq<ToolProbeModel>, i: int)
    requires
        first_pin(probes, i),
    ensures
        distinct_pins(probes).contains(probes[i]),
    decreases probes.len(),
{
    let rest = probes.drop_last();
    let before = distinct_pins(rest);
    crate::deep::lemma_push_contains(before, probes.last(), probes[i]);
    if i < rest.len() {
        assert(first_pin(rest, i)) by {
            assert forall|j: int| 0 <= j < i && has_pin(#[trigger] rest[j]) implies pin_of(rest[j]) != pin_of(
                rest[i],
            ) by {
                assert(has_pin(probes[j]));
            }
        }
        lemma_first_pin(rest, i);
    } else {
        let pins = before.map_values(|p: ToolProbeModel| pin_of(p));
        if pins.contains(pin_of(probes.last())) {
            let k = choose|k: int| 0 <= k < pins.len() && pins[k] == pin_of(probes.last());
            assert(before.contains(before[k]));
            lemma_pins_are_probes(rest, before[k]);
            let j = choose|j: int| 0 <= j < rest.len() && rest[j] == before[k];
            assert(has_pin(probes[j]));
        }
    }
}

/// The check of an integration's variables fails if and only if one of them has no value where it is read
/// from; that of its programs if and only if one is not on `PATH`. Each is left out where nothing is
/// needed.
pub proof fn law_integration_needs_are_checked(
    n: IntegrationNeedsModel,
    units: Seq<Seq<char>>,
    aliases: Map<Seq<char>, Seq<char>>,
    env: Map<Seq<char>, Seq<char>>,
    on_path: Seq<Seq<char>>,
)
    ensures
        env_check(n, units, aliases, env).status == CheckStatus::Skipped <==> n.required_env.len() == 0,
        env_check(n, units, aliases, env).status == CheckStatus::Fail <==> exists|i: int|
            0 <= i < n.required_env.len() && !(env.contains_key(
                crate::command::source_of(aliases, #[trigger] n.required_env[i]),
            ) && env[crate::command::source_of(aliases, n.required_env[i])].len() > 0),
        cli_check(n, units, on_path).status == CheckStatus::Skipped <==> n.required_cli.len() == 0,
        cli_check(n, units, on_path).status == CheckStatus::Fail <==> exists|i: int|
            0 <= i < n.required_cli.len() && !on_path.contains((#[trigger] n.required_cli[i]).binary),
{
    crate::command::law_missing_variables(n.required_env, aliases, env);
    let missing = absent(n.required_cli, on_path);
    if missing.len() > 0 {
        crate::command::law_missing_programs(n.required_cli, on_path, missing[0]);
        assert(missing.contains(missing[0]));
        let i = choose|i: int| 0 <= i < n.required_cli.len() && n.required_cli[i] == missing[0];
        assert(!on_path.contains(n.required_cli[i].binary));
    }
    if exists|i: int| 0 <= i < n.required_cli.len() && !on_path.contains((#[trigger] n.required_cli[i]).binary) {
        let i = choose|i: int|
            0 <= i < n.required_cli.len() && !on_path.contains((#[trigger] n.required_cli[i]).binary);
        crate::command::law_missing_programs(n.required_cli, on_path, n.required_cli[i]);
        assert(n.required_cli.contains(n.required_cli[i]));
    }
}

/// An integration is checked if and only if it was detected on a unit, and then both what it needs of
/// variables and of programs.
pub proof fn law_detected_integrations_are_checked(
    needs: Seq<IntegrationNeedsModel>,
    detections: Seq<DetectionModel>,
    aliases: Map<Seq<char>, Seq<char>>,
    env: Map<Seq<char>, Seq<char>>,
    on_path: Seq<Seq<char>>,
    i: int,
    k: int,
)
    requires
        0 <= i < needs.len(),
        0 <= k < detections.len(),
        detections[k].integration == needs[i].id,
    ensures
        ({
            let checks = integration_checks(needs, detections, aliases, env, on_path);
            let units = units_with(detections, needs[i].id);
            &&& units.contains(detections[k].unit)
            &&& checks.contains(env_check(needs[i], units, aliases, env))
            &&& checks.contains(cli_check(needs[i], units, on_path))
        }),
{
    let checks = integration_checks(needs, detections, aliases, env, on_path);
    let f = checks_of_integration(detections, aliases, env, on_path);
    let units = units_with(detections, needs[i].id);
    assert(unit_detecting(needs[i].id)(detections[k]) == Some(detections[k].unit));
    crate::deep::lemma_filter_map_contains(detections, unit_detecting(needs[i].id), detections[k].unit);
    assert(units.len() > 0);
    crate::deep::lemma_flat_map_place(needs, f, i, 0);
    crate::deep::lemma_flat_map_place(needs, f, i, 1);
    let at = crate::deep::length_before(needs, f, i);
    assert(checks[at] == env_check(needs[i], units, aliases, env));
    assert(checks[at + 1] == cli_check(needs[i], units, on_path));
}

/// Where nothing was detected, one check says so.
pub proof fn law_no_integration_is_told(
    needs: Seq<IntegrationNeedsModel>,
    aliases: Map<Seq<char>, Seq<char>>,
    env: Map<Seq<char>, Seq<char>>,
    on_path: Seq<Seq<char>>,
)
    ensures
        integration_checks(needs, Seq::empty(), aliases, env, on_path).len() == 1,
        integration_checks(needs, Seq::empty(), aliases, env, on_path)[0].status == CheckStatus::Skipped,
{
}

/// What the check of the local cache finds: good where it can be written and counted, something to look at
/// where it is not there yet or cannot be counted, bad where it cannot be written or has no place.
pub proof fn law_local_cache_status(p: LocalCacheProbe)
    ensures
        local_cache_check(p).status == CheckStatus::Pass <==> p is Stats,
        local_cache_check(p).status == CheckStatus::Warn <==> p is Missing || p is StatsFailed,
        local_cache_check(p).status == CheckStatus::Fail <==> p is NoRoot || p is NotWritable,
{
}

/// What the check of the remote cache finds: nothing without one; good where a hosted cache names the
/// variable of its token, or a bucket has its credentials; bad otherwise.
pub proof fn law_remote_cache_status(c: CacheConfig, aws_key: bool)
    ensures
        remote_cache_check(c, aws_key).status == CheckStatus::Skipped <==> c.remote is None,
        c.remote matches Some(u) ==> {
            &&& "monad://"@.is_prefix_of(u@) ==> (remote_cache_check(c, aws_key).status == CheckStatus::Pass <==> (
            c.remote_token_env matches Some(v) && v@.len() > 0))
            &&& !"monad://"@.is_prefix_of(u@) && "s3://"@.is_prefix_of(u@) ==> (remote_cache_check(c, aws_key).status
                == CheckStatus::Pass <==> aws_key)
            &&& !"monad://"@.is_prefix_of(u@) && !"s3://"@.is_prefix_of(u@) ==> remote_cache_check(c, aws_key).status
                == CheckStatus::Fail
            &&& remote_cache_check(c, aws_key).status != CheckStatus::Warn
        },
{
}

/// What the smaller checks find: whether reports are sent is never a fault; the cache of GitHub Actions is
/// looked at only there, and is good where both variables are set; a repository and its baseline are good
/// where they are found, and units that no profile lists are something to look at.
pub proof fn law_smaller_checks(
    posture: TelemetryPosture,
    remote: Option<Seq<char>>,
    set: Seq<Seq<char>>,
    answer: Option<Seq<char>>,
    wired: nat,
    orphans: Seq<Seq<char>>,
)
    ensures
        telemetry_check(posture, remote).status == CheckStatus::Pass,
        gha_check(set).status == CheckStatus::Skipped <==> !set.contains("GITHUB_ACTIONS"@),
        gha_check(set).status == CheckStatus::Pass <==> set.contains("GITHUB_ACTIONS"@) && set.contains(
            "ACTIONS_CACHE_URL"@,
        ) && set.contains("ACTIONS_RUNTIME_TOKEN"@),
        gha_check(set).status != CheckStatus::Fail,
        git_repo_check(answer).status == CheckStatus::Pass <==> (answer matches Some(t) && trim_of(t) == "true"@),
        git_repo_check(answer).status != CheckStatus::Fail,
        base_ref_check(answer).status == CheckStatus::Pass <==> (answer matches Some(t) && trim_of(t).len() > 0),
        base_ref_check(answer).status != CheckStatus::Fail,
        orphan_check(wired, orphans).status == CheckStatus::Pass <==> orphans.len() == 0,
        orphan_check(wired, orphans).status == CheckStatus::Warn <==> orphans.len() > 0,
{
}

/// A workspace that is not there, or that cannot be loaded, is one failed check; of one that is loaded, all
/// checks are made: the configuration first, then the tools, the integrations and the standing ones, and
/// those of the cloud only where they are asked for.
pub proof fn law_which_checks_are_made(p: DoctorProbe, aliases: Map<Seq<char>, Seq<char>>, cloud: bool)
    ensures
        !(p.workspace is Loaded) ==> all_checks(p, aliases, cloud).len() == 1 && all_checks(p, aliases, cloud)[0].status
            == CheckStatus::Fail,
        p.workspace matches WorkspaceProbe::Loaded(w) ==> {
            let checks = all_checks(p, aliases, cloud);
            let tools = toolchain_checks(p.tools);
            let found = integration_checks(
                p.integrations.deep_view(),
                p.detections.deep_view(),
                aliases,
                p.env@,
                p.on_path.deep_view(),
            );
            let at: int = 1 + tools.len() as int + found.len() as int;
            &&& checks[0] == config_check(w) && checks[0].status == CheckStatus::Pass
            &&& checks.subrange(1, 1 + tools.len() as int) == tools
            &&& checks.subrange(1 + tools.len() as int, at) == found
            &&& checks[at] == local_cache_check(p.local_cache)
            &&& checks[at + 1] == remote_cache_check(
                w.repo.cache,
                p.set_vars.deep_view().contains("AWS_ACCESS_KEY_ID"@),
            )
            &&& checks[at + 2].status == CheckStatus::Pass
            &&& checks[at + 3] == gha_check(p.set_vars.deep_view())
            &&& checks[at + 4] == git_repo_check(p.git_inside.deep_view())
            &&& checks[at + 5] == base_ref_check(p.git_base.deep_view())
            &&& checks[at + 6] == orphan_check(w.units_by_name.keys().len(), p.orphans.deep_view())
            &&& !cloud ==> checks.len() == at + 7
            &&& cloud ==> checks.skip(at + 7) == cloud_checks(w.repo.cache, p.env@, p.cloud)
        },
{
    if let WorkspaceProbe::Loaded(w) = p.workspace {
        let checks = all_checks(p, aliases, cloud);
        let tools = toolchain_checks(p.tools);
        let found = integration_checks(
            p.integrations.deep_view(),
            p.detections.deep_view(),
            aliases,
            p.env@,
            p.on_path.deep_view(),
        );
        let at: int = 1 + tools.len() as int + found.len() as int;
        assert(checks.subrange(1, 1 + tools.len() as int) =~= tools);
        assert(checks.subrange(1 + tools.len() as int, at) =~= found);
        if cloud {
            assert(checks.skip(at + 7) =~= cloud_checks(w.repo.cache, p.env@, p.cloud));
        }
    }
}

/// What is counted of the checks is how many there are of each status.
pub proof fn law_counts_are_of_checks(checks: Seq<DoctorCheckModel>, s: CheckStatus)
    ensures
        count(checks, s) == checks.filter(|c: DoctorCheckModel| c.status == s).len(),
    decreases checks.len(),
{
    reveal(Seq::filter);
    if checks.len() > 0 {
        law_counts_are_of_checks(checks.drop_last(), s);
    }
}

/// A number of bytes is shown as it is below a kibibyte, and otherwise in the largest unit that it fills;
/// a whole number of units is shown as that number, with nothing behind the point.
pub proof fn law_bytes_for_people(n: nat, q: nat)
    ensures
        n < 1024 ==> bytes_text(n) == decimal(n) + " B"@,
        1 <= q < 1024 ==> bytes_text(q * 1024) == decimal(q) + "."@ + zero_padded(0, 2) + " KiB"@,
        1 <= q < 1024 ==> bytes_text(q * 0x10_0000) == decimal(q) + "."@ + zero_padded(0, 2) + " MiB"@,
        1 <= q < 0x10_0000 ==> bytes_text(q * 0x4000_0000) == decimal(q) + "."@ + zero_padded(0, 2) + " GiB"@,
{
    if 1 <= q < 1024 {
        lemma_whole_units(q, 1024);
        lemma_whole_units(q, 0x10_0000);
    }
    if 1 <= q < 0x10_0000 {
        lemma_whole_units(q, 0x4000_0000);
    }
}

proof fn lemma_whole_units(q: nat, unit: nat)
    requires
        0 < unit,
        q * unit < 0x20_0000_0000_0000,
    ensures
        in_units(q * unit, unit as int) == decimal(q) + "."@ + zero_padded(0, 2),
{
    let n = q * unit;
    assert(float_step(n) == 1);
    assert(n as int / 1 == n && n as int % 1 == 0);
    assert(to_float(n) == n);
    let h: int = 100 * n as int;
    assert(h == (100 * q) * unit + 0) by (nonlinear_arith)
        requires
            h == 100 * n,
            n == q * unit,
    ;
    vstd::arithmetic::div_mod::lemma_fundamental_div_mod_converse(h, unit as int, 100 * q as int, 0);
    assert(rounded(h, unit as int) == 100 * q);
    assert((100 * q as int) / 100 == q && (100 * q as int) % 100 == 0);
}

/// What is told of telemetry rests on the one variable that turns it off, and on its value.
pub proof fn law_the_variable_of_telemetry(env: Map<Seq<char>, Seq<char>>, value: Seq<char>)
    ensures
        telemetry_var(env.insert("MONAD_TELEMETRY"@, value)) == Some(value),
        telemetry_var(env.remove("MONAD_TELEMETRY"@)) is None,
{
}

} // verus!
