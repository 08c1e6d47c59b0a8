//! Running a workspace: which units run when, what they need first, and the report as a whole.
use vstd::prelude::*;

use crate::config::{path_key, usual_path, CacheConfig, LoadedUnitModel, Workspace};
use crate::deep::deep;
use crate::deploy_state::{with_record, DeployRecord, DeployRecordModel, DeployState};
use crate::diagnostic_parsers::{parse, parsed, Diagnostic, ParserId};
use crate::excerpt::{lossy, shown_as_is, utf8_lossy};
use crate::order::in_order;
use crate::plan::{admits, admitted_profiles, allows, profile_targets};
use crate::run::{zero_summary, CiOptions, CiOptionsModel, ExecutedProfile, ExecutedProfileModel, ExecutedTaskModel, ExecutedUnit, ExecutedUnitModel, ExecutionReport, ExecutionSummary, InstallRecord, InstallRecordModel, TaskOutcome, UnitStats};
use crate::strmap::StrMap;
use crate::tasks::{copy_task, ResolvedTask, ResolvedTaskModel};
use crate::text::{cat3, cat7, copy, copy_opt, join, joined};
use crate::unit_run::DeployToRecord;

verus! {

broadcast use {crate::deep::group_deep, crate::deep::lemma_take_next, crate::deep::lemma_take_all};

/// The units of a level that are there and that a filter lets through.
pub open spec fn targets_of(
    units: Map<Seq<char>, LoadedUnitModel>,
    level: Seq<Seq<char>>,
    filter: Option<Seq<char>>,
) -> Seq<Seq<char>>
    decreases level.len(),
{
    if level.len() == 0 {
        Seq::empty()
    } else {
        let before = targets_of(units, level.drop_last(), filter);
        if units.contains_key(level.last()) && admits(filter, units[level.last()].config.name) {
            before.push(level.last())
        } else {
            before
        }
    }
}

/// The names of the units of a level that are to run, in order.
pub fn level_targets(workspace: &Workspace, level: &Vec<String>, filter: &Option<String>) -> (r: Vec<String>)
    ensures
        r.deep_view() == targets_of(workspace.units_by_name@, level.deep_view(), filter.deep_view()),
{
    let ghost all = deep(level@);
    let mut r: Vec<String> = Vec::new();
    let mut i: usize = 0;
    while i < level.len()
        invariant
            i <= level@.len(),
            all == deep(level@),
            deep(r@) == targets_of(workspace.units_by_name@, all.take(i as int), filter.deep_view()),
        decreases level.len() - i,
    {
        let name = level[i].as_str();
        proof {
            assert(all.take(i + 1).drop_last() =~= all.take(i as int));
        }
        if let Some(loaded) = workspace.units_by_name.get(name) {
            if allows(filter, loaded.config.name.as_str()) {
                r.push(copy(name));
            }
        }
        i += 1;
    }
    r
}

/// Runs of neighbours that are to be run side by side: from a position, up to but not including
/// another.
pub open spec fn batches_of(from: nat, n: nat, width: nat) -> Seq<(usize, usize)>
    decreases n - from,
{
    if from >= n || width == 0 {
        Seq::empty()
    } else if from + width >= n {
        seq![(from as usize, n as usize)]
    } else {
        seq![(from as usize, (from + width) as usize)] + batches_of(from + width, n, width)
    }
}

/// How `n` units are split into runs of at most `parallelism`, and at least one.
pub fn batches(n: usize, parallelism: usize) -> (r: Vec<(usize, usize)>)
    ensures
        r@ == batches_of(0, n as nat, width_of(parallelism)),
{
    let width: usize = if parallelism == 0 {
        1
    } else {
        parallelism
    };
    let mut r: Vec<(usize, usize)> = Vec::new();
    let mut from: usize = 0;
    let ghost want = batches_of(0, n as nat, width as nat);
    assert(r@ + want =~= want);
    while from < n
        invariant
            from <= n,
            width > 0,
            r@ + batches_of(from as nat, n as nat, width as nat) == want,
        decreases n - from,
    {
        let to: usize = if n - from <= width {
            n
        } else {
            from + width
        };
        proof {
            assert(r@.push((from, to)) + batches_of(to as nat, n as nat, width as nat) =~= r@ + (
            seq![(from, to)] + batches_of(to as nat, n as nat, width as nat)));
            assert(seq![(from, to)] + Seq::<(usize, usize)>::empty() =~= seq![(from, to)]);
        }
        r.push((from, to));
        from = to;
    }
    assert(r@ + Seq::<(usize, usize)>::empty() =~= r@);
    r
}

/// Whether the counts of a unit can be added to those of a report.
pub open spec fn addable(s: ExecutionSummary, u: UnitStats) -> bool {
    &&& s.units < usize::MAX
    &&& s.tasks + u.tasks <= usize::MAX
    &&& s.hits + u.hits <= usize::MAX
    &&& s.built + u.built <= usize::MAX
    &&& s.failed + u.failed <= usize::MAX
    &&& s.flaky + u.flaky <= usize::MAX
    &&& s.installs + u.installs <= usize::MAX
    &&& s.install_failures + u.install_failures <= usize::MAX
    &&& s.notify_failures + u.notify_failures <= usize::MAX
    &&& s.deploy_unchanged + u.deploy_unchanged <= usize::MAX
}

/// The counts of a report with those of a unit more.
pub open spec fn added(s: ExecutionSummary, u: UnitStats) -> ExecutionSummary {
    ExecutionSummary {
        units: (s.units + 1) as usize,
        tasks: (s.tasks + u.tasks) as usize,
        hits: (s.hits + u.hits) as usize,
        built: (s.built + u.built) as usize,
        failed: (s.failed + u.failed) as usize,
        flaky: (s.flaky + u.flaky) as usize,
        installs: (s.installs + u.installs) as usize,
        install_failures: (s.install_failures + u.install_failures) as usize,
        notify_failures: (s.notify_failures + u.notify_failures) as usize,
        deploy_unchanged: (s.deploy_unchanged + u.deploy_unchanged) as usize,
        duration_ms: s.duration_ms,
    }
}

/// Whether a task of a unit failed.
pub open spec fn has_failure(rows: Seq<ExecutedTaskModel>) -> bool {
    exists|i: int| 0 <= i < rows.len() && (#[trigger] rows[i]).outcome is Failed
}

/// Units that are to be run side by side.
#[derive(Debug)]
pub struct Batch {
    /// The place of their level in the order of the levels.
    pub level: usize,
    pub names: Vec<String>,
}

#[verifier::ext_equal]
pub struct BatchModel {
    pub level: usize,
    pub names: Seq<Seq<char>>,
}

impl DeepView for Batch {
    type V = BatchModel;

    open spec fn deep_view(&self) -> BatchModel {
        BatchModel { level: self.level, names: self.names.deep_view() }
    }
}

/// The batches of a level: for each run of neighbours, the units in it.
pub open spec fn level_batches(level: usize, targets: Seq<Seq<char>>, cuts: Seq<(usize, usize)>) -> Seq<BatchModel>
    decreases cuts.len(),
{
    if cuts.len() == 0 {
        Seq::empty()
    } else {
        level_batches(level, targets, cuts.drop_last()).push(
            BatchModel { level, names: targets.subrange(cuts.last().0 as int, cuts.last().1 as int) },
        )
    }
}

/// How many units run side by side.
pub open spec fn width_of(parallelism: usize) -> nat {
    if parallelism == 0 {
        1
    } else {
        parallelism as nat
    }
}

/// The batches of some levels: level by level, and within a level in its order.
pub open spec fn graph_batches(
    units: Map<Seq<char>, LoadedUnitModel>,
    levels: Seq<Seq<Seq<char>>>,
    filter: Option<Seq<char>>,
    width: nat,
) -> Seq<BatchModel>
    decreases levels.len(),
{
    if levels.len() == 0 {
        Seq::empty()
    } else {
        let targets = targets_of(units, levels.last(), filter);
        graph_batches(units, levels.drop_last(), filter, width) + level_batches(
            (levels.len() - 1) as usize,
            targets,
            batches_of(0, targets.len(), width),
        )
    }
}

fn names_between(v: &Vec<String>, from: usize, to: usize) -> (r: Vec<String>)
    requires
        from <= to <= v@.len(),
    ensures
        r.deep_view() == deep(v@).subrange(from as int, to as int),
{
    let ghost all = deep(v@);
    let mut r: Vec<String> = Vec::new();
    let mut i: usize = from;
    assert(deep(r@) =~= all.subrange(from as int, from as int));
    while i < to
        invariant
            from <= i <= to <= v@.len(),
            all == deep(v@),
            deep(r@) == all.subrange(from as int, i as int),
        decreases to - i,
    {
        assert(all.subrange(from as int, i + 1) =~= all.subrange(from as int, i as int).push(all[i as int]));
        r.push(copy(v[i].as_str()));
        i += 1;
    }
    r
}

proof fn lemma_cuts_within(from: nat, n: nat, width: nat)
    requires
        n <= usize::MAX,
    ensures
        forall|i: int|
            0 <= i < batches_of(from, n, width).len() ==> (#[trigger] batches_of(from, n, width)[i]).0
                <= batches_of(from, n, width)[i].1 <= n,
    decreases n - from,
{
    if from < n && width > 0 {
        law_batches_cover(from, n, width);
        let b = batches_of(from, n, width);
        assert forall|i: int| 0 <= i < b.len() implies (#[trigger] b[i]).0 <= b[i].1 <= n by {
            if from + width < n {
                lemma_cuts_within(from + width, n, width);
                if i > 0 {
                    assert(b[i] == batches_of(from + width, n, width)[i - 1]);
                }
            }
        }
    }
}

/// The batches in which the units of a graph run: level by level, each level in runs of at most
/// `parallelism` neighbours.
pub fn profile_batches(
    workspace: &Workspace,
    levels: &Vec<Vec<String>>,
    filter: &Option<String>,
    parallelism: usize,
) -> (r: Vec<Batch>)
    ensures
        r.deep_view() == graph_batches(
            workspace.units_by_name@,
            levels.deep_view(),
            filter.deep_view(),
            width_of(parallelism),
        ),
{
    let ghost units = workspace.units_by_name@;
    let ghost width = width_of(parallelism);
    let ghost all = deep(levels@);
    let mut r: Vec<Batch> = Vec::new();
    let mut i: usize = 0;
    while i < levels.len()
        invariant
            i <= levels@.len(),
            all == deep(levels@),
            units == workspace.units_by_name@,
            width == width_of(parallelism),
            deep(r@) == graph_batches(units, all.take(i as int), filter.deep_view(), width),
        decreases levels.len() - i,
    {
        let targets = level_targets(workspace, &levels[i], filter);
        let cuts = batches(targets.len(), parallelism);
        let ghost before = deep(r@);
        let ghost names = deep(targets@);
        proof {
            lemma_cuts_within(0, targets@.len(), width);
            assert(all.take(i + 1).drop_last() =~= all.take(i as int));
            assert(before + level_batches(i, names, cuts@.take(0)) =~= before);
        }
        let mut j: usize = 0;
        while j < cuts.len()
            invariant
                j <= cuts@.len(),
                names == deep(targets@),
                cuts@ == batches_of(0, targets@.len(), width),
                forall|k: int| 0 <= k < cuts@.len() ==> (#[trigger] cuts@[k]).0 <= cuts@[k].1 <= targets@.len(),
                deep(r@) == before + level_batches(i, names, cuts@.take(j as int)),
            decreases cuts.len() - j,
        {
            let (from, to) = cuts[j];
            proof {
                assert(cuts@.take(j + 1).drop_last() =~= cuts@.take(j as int));
                assert(cuts@.take(j + 1).last() == (from, to));
            }
            r.push(Batch { level: i, names: names_between(&targets, from, to) });
            assert(deep(r@) =~= before + level_batches(i, names, cuts@.take(j + 1)));
            j += 1;
        }
        assert(cuts@.take(j as int) =~= cuts@);
        assert(all.take(i + 1).last() == all[i as int]);
        i += 1;
    }
    r
}

/// A run of a workspace.
pub struct ExecutionRun {
    /// The profiles that are done.
    pub profiles: Vec<ExecutedProfile>,
    /// The units of the present profile that are done.
    pub units: Vec<ExecutedUnit>,
    pub summary: ExecutionSummary,
    pub fail_fast: bool,
    /// No further level is to be run.
    pub stop: bool,
    /// The profiles that are still to be run.
    pub todo: Vec<String>,
    /// The profile that is being run.
    pub present: Option<String>,
    /// The batches of the present profile that are still to be run.
    pub queue: Vec<Batch>,
    /// The level of the batch that came last.
    pub level: usize,
}

#[verifier::ext_equal]
pub struct ExecutionRunModel {
    pub profiles: Seq<ExecutedProfileModel>,
    pub units: Seq<ExecutedUnitModel>,
    pub summary: ExecutionSummary,
    pub fail_fast: bool,
    pub stop: bool,
    pub todo: Seq<Seq<char>>,
    pub present: Option<Seq<char>>,
    pub queue: Seq<BatchModel>,
    pub level: usize,
}

impl DeepView for ExecutionRun {
    type V = ExecutionRunModel;

    open spec fn deep_view(&self) -> ExecutionRunModel {
        ExecutionRunModel {
            profiles: self.profiles.deep_view(),
            units: self.units.deep_view(),
            summary: self.summary,
            fail_fast: self.fail_fast,
            stop: self.stop,
            todo: self.todo.deep_view(),
            present: self.present.deep_view(),
            queue: self.queue.deep_view(),
            level: self.level,
        }
    }
}

/// What a run does next.
#[derive(Debug)]
pub enum ExecutionStep {
    /// The graph of a profile is to be built.
    Profile { name: String },
    /// The units are to be run side by side.
    Units { names: Vec<String> },
    /// Nothing is left to do.
    Finished,
}

#[verifier::ext_equal]
pub enum ExecutionStepModel {
    Profile { name: Seq<char> },
    Units { names: Seq<Seq<char>> },
    Finished,
}

impl DeepView for ExecutionStep {
    type V = ExecutionStepModel;

    open spec fn deep_view(&self) -> ExecutionStepModel {
        match self {
            ExecutionStep::Profile { name } => ExecutionStepModel::Profile { name: name@ },
            ExecutionStep::Units { names } => ExecutionStepModel::Units { names: names.deep_view() },
            ExecutionStep::Finished => ExecutionStepModel::Finished,
        }
    }
}

/// The run with one unit more.
pub open spec fn with_unit(r: ExecutionRunModel, u: ExecutedUnitModel, s: UnitStats) -> ExecutionRunModel {
    ExecutionRunModel {
        units: r.units.push(u),
        summary: added(r.summary, s),
        stop: r.stop || (r.fail_fast && has_failure(u.tasks)),
        ..r
    }
}

/// The run with one profile more.
pub open spec fn with_profile(r: ExecutionRunModel, name: Seq<char>) -> ExecutionRunModel {
    ExecutionRunModel {
        profiles: r.profiles.push(ExecutedProfileModel { name, units: r.units }),
        units: Seq::empty(),
        ..r
    }
}

/// The run without a present profile: the one that was being run is done.
pub open spec fn left_profile(r: ExecutionRunModel) -> ExecutionRunModel {
    match r.present {
        Some(name) => ExecutionRunModel { present: None, queue: Seq::empty(), ..with_profile(r, name) },
        None => r,
    }
}

/// What a run does next, and how it stands then. Batches come in order; where the run is to stop, only
/// those of the level that is being run. Behind the last batch of a profile comes the next profile,
/// unless the run is to stop.
pub open spec fn advanced(r: ExecutionRunModel) -> (ExecutionRunModel, ExecutionStepModel) {
    if r.queue.len() > 0 && (!r.stop || r.queue[0].level == r.level) {
        (
            ExecutionRunModel { queue: r.queue.skip(1), level: r.queue[0].level, ..r },
            ExecutionStepModel::Units { names: r.queue[0].names },
        )
    } else if r.stop || r.todo.len() == 0 {
        (left_profile(r), ExecutionStepModel::Finished)
    } else {
        (
            ExecutionRunModel { todo: r.todo.skip(1), present: Some(r.todo[0]), ..left_profile(r) },
            ExecutionStepModel::Profile { name: r.todo[0] },
        )
    }
}

fn failed_in(unit: &ExecutedUnit) -> (r: bool)
    ensures
        r == has_failure(unit.tasks.deep_view()),
{
    let ghost all = deep(unit.tasks@);
    let mut i: usize = 0;
    while i < unit.tasks.len()
        invariant
            i <= unit.tasks@.len(),
            all == deep(unit.tasks@),
            forall|j: int| 0 <= j < i ==> !((#[trigger] all[j]).outcome is Failed),
        decreases unit.tasks.len() - i,
    {
        if let TaskOutcome::Failed { .. } = &unit.tasks[i].outcome {
            assert(all[i as int].outcome is Failed);
            return true;
        }
        i += 1;
    }
    false
}

impl ExecutionRun {
    /// A run before anything ran. Where the options do not say whether to stop at the first failure,
    /// the workspace does.
    pub fn start(workspace: &Workspace, opts: &CiOptions) -> (r: ExecutionRun)
        ensures
            r.deep_view() == run_at_start(*workspace, opts.deep_view()),
    {
        ExecutionRun {
            profiles: Vec::new(),
            units: Vec::new(),
            summary: ExecutionSummary::default(),
            fail_fast: match opts.fail_fast {
                Some(b) => b,
                None => workspace.repo.fail_fast,
            },
            stop: false,
            todo: profile_targets(workspace, &opts.monad_filter),
            present: None,
            queue: Vec::new(),
            level: 0,
        }
    }

    /// What to do next.
    pub fn next(&mut self) -> (r: ExecutionStep)
        ensures
            (final(self).deep_view(), r.deep_view()) == advanced(old(self).deep_view()),
    {
        let ghost before = self.deep_view();
        if self.queue.len() > 0 && (!self.stop || self.queue[0].level == self.level) {
            assert(before.queue[0] == self.queue@[0].deep_view());
            let b = self.queue.remove(0);
            self.level = b.level;
            assert(deep(self.queue@) =~= before.queue.skip(1));
            return ExecutionStep::Units { names: b.names };
        }
        let mut present: Option<String> = None;
        std::mem::swap(&mut present, &mut self.present);
        if let Some(name) = present {
            self.queue = Vec::new();
            self.profile_done(name.as_str());
            assert(self.deep_view() =~= left_profile(before));
        }
        assert(self.deep_view() =~= left_profile(before));
        if self.stop || self.todo.len() == 0 {
            return ExecutionStep::Finished;
        }
        assert(before.todo[0] == self.todo@[0]@);
        let name = self.todo.remove(0);
        assert(deep(self.todo@) =~= before.todo.skip(1));
        self.present = Some(copy(name.as_str()));
        ExecutionStep::Profile { name }
    }

    /// Takes in the batches of the present profile, once its graph is built.
    pub fn profile_ready(&mut self, batches: Vec<Batch>)
        ensures
            final(self).deep_view() == (ExecutionRunModel {
                queue: batches.deep_view(),
                ..old(self).deep_view()
            }),
    {
        self.queue = batches;
    }

    /// Takes in a unit that is done. Where a task of it failed and the run is to stop at a failure,
    /// no further level is to be run.
    pub fn unit_done(&mut self, unit: ExecutedUnit, stats: UnitStats)
        requires
            addable(old(self).summary, stats),
        ensures
            final(self).deep_view() == with_unit(old(self).deep_view(), unit.deep_view(), stats),
    {
        let failed = failed_in(&unit);
        self.summary.units += 1;
        self.summary.tasks += stats.tasks;
        self.summary.hits += stats.hits;
        self.summary.built += stats.built;
        self.summary.failed += stats.failed;
        self.summary.flaky += stats.flaky;
        self.summary.installs += stats.installs;
        self.summary.install_failures += stats.install_failures;
        self.summary.notify_failures += stats.notify_failures;
        self.summary.deploy_unchanged += stats.deploy_unchanged;
        self.units.push(unit);
        if failed && self.fail_fast {
            self.stop = true;
        }
    }

    /// Takes in that the present profile is done.
    pub fn profile_done(&mut self, name: &str)
        ensures
            final(self).deep_view() == with_profile(old(self).deep_view(), name@),
    {
        let mut units: Vec<ExecutedUnit> = Vec::new();
        std::mem::swap(&mut units, &mut self.units);
        let ghost us = units.deep_view();
        let profile = ExecutedProfile { name: copy(name), units };
        assert(profile.deep_view() == (ExecutedProfileModel { name: name@, units: us }));
        self.profiles.push(profile);
    }

    /// The report of the run.
    pub fn report(self, duration_ms: u64) -> (r: ExecutionReport)
        ensures
            r.profiles == self.profiles,
            r.summary == (ExecutionSummary { duration_ms, ..self.summary }),
    {
        let mut summary = self.summary;
        summary.duration_ms = duration_ms;
        ExecutionReport { profiles: self.profiles, summary }
    }
}

/// Whether a unit's dependencies are there.
#[derive(Debug)]
pub enum InstallProbe {
    Ready,
    Missing { reason: String },
}

/// What to do about a unit's dependencies.
#[derive(Debug)]
pub enum InstallDecision {
    /// Nothing.
    Skip,
    /// Find out whether they are there.
    Probe,
    /// Install them.
    Install { reason: String },
}

#[verifier::ext_equal]
pub enum InstallDecisionModel {
    Skip,
    Probe,
    Install { reason: Seq<char> },
}

impl DeepView for InstallDecision {
    type V = InstallDecisionModel;

    open spec fn deep_view(&self) -> InstallDecisionModel {
        match self {
            InstallDecision::Skip => InstallDecisionModel::Skip,
            InstallDecision::Probe => InstallDecisionModel::Probe,
            InstallDecision::Install { reason } => InstallDecisionModel::Install { reason: reason@ },
        }
    }
}

/// What to do about a unit's dependencies: nothing where that is asked for, or where no adapter
/// knows how; install them where that is forced; or else what the probe says, but for an explicit
/// install, which installs even what is there.
pub open spec fn install_decision(
    o: CiOptionsModel,
    has_adapter: bool,
    probe: Option<InstallProbe>,
) -> InstallDecisionModel {
    if o.skip_install || !has_adapter {
        InstallDecisionModel::Skip
    } else if o.force_install {
        InstallDecisionModel::Install { reason: "--force-install"@ }
    } else {
        match probe {
            None => InstallDecisionModel::Probe,
            Some(InstallProbe::Ready) => if o.install_only {
                InstallDecisionModel::Install { reason: "explicit monad install"@ }
            } else {
                InstallDecisionModel::Skip
            },
            Some(InstallProbe::Missing { reason }) => InstallDecisionModel::Install { reason: reason@ },
        }
    }
}

/// What to do about a unit's dependencies. `probe` is what a probe found, once one was made.
pub fn ensure_installed(opts: &CiOptions, has_adapter: bool, probe: Option<InstallProbe>) -> (r: InstallDecision)
    ensures
        r.deep_view() == install_decision(opts.deep_view(), has_adapter, probe),
{
    if opts.skip_install || !has_adapter {
        return InstallDecision::Skip;
    }
    if opts.force_install {
        return InstallDecision::Install { reason: copy("--force-install") };
    }
    match probe {
        None => InstallDecision::Probe,
        Some(InstallProbe::Ready) => if opts.install_only {
            InstallDecision::Install { reason: copy("explicit monad install") }
        } else {
            InstallDecision::Skip
        },
        Some(InstallProbe::Missing { reason }) => InstallDecision::Install { reason },
    }
}

/// The record of an install. Units that share an install share what came of it: the one that made it
/// records it; of the others, each records it where it failed.
pub open spec fn install_record_of(
    made: bool,
    reason: Seq<char>,
    scope: Seq<char>,
    duration_ms: u64,
    error: Option<Seq<char>>,
) -> Option<InstallRecordModel> {
    if made {
        Some(InstallRecordModel { reason, duration_ms, error })
    } else if error is Some {
        Some(
            InstallRecordModel {
                reason: "shared install scope "@ + scope + " (handled by sibling)"@,
                duration_ms: 0,
                error,
            },
        )
    } else {
        None
    }
}

/// The record of an install. `made` says whether this unit made it; `error` says why it failed.
pub fn install_record(made: bool, reason: String, scope: &str, duration_ms: u64, error: Option<String>) -> (r: Option<
    InstallRecord,
>)
    ensures
        r.deep_view() == install_record_of(made, reason@, scope@, duration_ms, error.deep_view()),
{
    if made {
        return Some(InstallRecord { reason, duration_ms, error });
    }
    match error {
        Some(e) => Some(
            InstallRecord {
                reason: cat3("shared install scope ", scope, " (handled by sibling)"),
                duration_ms: 0,
                error: Some(e),
            },
        ),
        None => None,
    }
}

/// The installs that were made, and why each failed that did. Units whose dependencies lie in one
/// place, a scope, share an install.
pub struct InstallLedger {
    pub done: StrMap<Option<String>>,
}

/// The model of the installs: for each scope, why its install failed, where it did.
pub type InstallLedgerModel = Map<Seq<char>, Option<Seq<char>>>;

impl View for InstallLedger {
    type V = InstallLedgerModel;

    open spec fn view(&self) -> InstallLedgerModel {
        self.done@
    }
}

/// What a unit does about an install that it needs.
#[derive(Debug)]
pub enum InstallTurn {
    /// It makes the install.
    Run,
    /// The install was made for another unit; the record of it.
    Reuse { record: Option<InstallRecord> },
}

#[verifier::ext_equal]
pub enum InstallTurnModel {
    Run,
    Reuse { record: Option<InstallRecordModel> },
}

impl DeepView for InstallTurn {
    type V = InstallTurnModel;

    open spec fn deep_view(&self) -> InstallTurnModel {
        match self {
            InstallTurn::Run => InstallTurnModel::Run,
            InstallTurn::Reuse { record } => InstallTurnModel::Reuse { record: record.deep_view() },
        }
    }
}

/// What a unit does about an install: the first of a scope makes it, and the others take over what
/// came of it.
pub open spec fn turn_of(l: InstallLedgerModel, scope: Seq<char>) -> InstallTurnModel {
    if l.contains_key(path_key(scope)) {
        InstallTurnModel::Reuse {
            record: install_record_of(false, Seq::empty(), scope, 0, l[path_key(scope)]),
        }
    } else {
        InstallTurnModel::Run
    }
}

impl Default for InstallLedger {
    fn default() -> (r: Self)
        ensures
            r@ == Map::<Seq<char>, Option<Seq<char>>>::empty(),
    {
        InstallLedger { done: StrMap::new() }
    }
}

impl InstallLedger {
    /// What a unit does about an install in a scope.
    pub fn turn(&self, scope: &str) -> (r: InstallTurn)
        ensures
            r.deep_view() == turn_of(self@, scope@),
    {
        let key = usual_path(scope);
        match self.done.get(key.as_str()) {
            Some(error) => {
                let reason = String::new();
                assert(reason@ =~= Seq::<char>::empty());
                InstallTurn::Reuse { record: install_record(false, reason, scope, 0, copy_opt(error)) }
            },
            None => InstallTurn::Run,
        }
    }

    /// Keeps what came of the install of a scope; the record of it for the unit that made it.
    pub fn made(&mut self, reason: String, scope: &str, duration_ms: u64, error: Option<String>) -> (r: Option<
        InstallRecord,
    >)
        requires
            turn_of(old(self)@, scope@) is Run,
        ensures
            final(self)@ == old(self)@.insert(path_key(scope@), error.deep_view()),
            r.deep_view() == install_record_of(true, reason@, scope@, duration_ms, error.deep_view()),
    {
        self.done.insert(usual_path(scope), copy_opt(&error));
        install_record(true, reason, scope, duration_ms, error)
    }
}

/// A unit whose dependencies are looked after: what it is asked for, what its probe finds, and what
/// an install for it would give.
pub struct InstallCall {
    pub options: CiOptionsModel,
    pub has_adapter: bool,
    pub probe: InstallProbe,
    pub scope: Seq<char>,
    pub duration_ms: u64,
    pub error: Option<Seq<char>>,
}

/// Whether a unit needs an install.
pub open spec fn needs_install(c: InstallCall) -> bool {
    install_decision(c.options, c.has_adapter, Some(c.probe)) is Install
}

/// Whether a unit makes an install.
pub open spec fn makes_install(l: InstallLedgerModel, c: InstallCall) -> bool {
    needs_install(c) && turn_of(l, c.scope) is Run
}

/// The record of a unit's install.
pub open spec fn record_from(l: InstallLedgerModel, c: InstallCall) -> Option<InstallRecordModel> {
    match install_decision(c.options, c.has_adapter, Some(c.probe)) {
        InstallDecisionModel::Install { reason } => match turn_of(l, c.scope) {
            InstallTurnModel::Run => install_record_of(true, reason, c.scope, c.duration_ms, c.error),
            InstallTurnModel::Reuse { record } => record,
        },
        _ => None,
    }
}

/// The installs after some units, one after the other.
pub open spec fn ledger_after(l: InstallLedgerModel, calls: Seq<InstallCall>) -> InstallLedgerModel
    decreases calls.len(),
{
    if calls.len() == 0 {
        l
    } else {
        let before = ledger_after(l, calls.drop_last());
        if makes_install(before, calls.last()) {
            before.insert(path_key(calls.last().scope), calls.last().error)
        } else {
            before
        }
    }
}

/// Whether `i` is the first of some units that needs an install in its scope.
pub open spec fn first_in_scope(calls: Seq<InstallCall>, i: int) -> bool {
    &&& 0 <= i < calls.len()
    &&& needs_install(calls[i])
    &&& forall|j: int|
        0 <= j < i && needs_install(#[trigger] calls[j]) ==> path_key(calls[j].scope) != path_key(calls[i].scope)
}

proof fn lemma_scope_before(l: InstallLedgerModel, calls: Seq<InstallCall>, i: int, k: int)
    requires
        first_in_scope(calls, i),
        !l.contains_key(path_key(calls[i].scope)),
        0 <= k <= i,
    ensures
        !ledger_after(l, calls.take(k)).contains_key(path_key(calls[i].scope)),
    decreases k,
{
    if k > 0 {
        lemma_scope_before(l, calls, i, k - 1);
        assert(calls.take(k).drop_last() =~= calls.take(k - 1));
        assert(calls.take(k).last() == calls[k - 1]);
    }
}

proof fn lemma_scope_behind(l: InstallLedgerModel, calls: Seq<InstallCall>, i: int, k: int)
    requires
        first_in_scope(calls, i),
        !l.contains_key(path_key(calls[i].scope)),
        i < k <= calls.len(),
    ensures
        ledger_after(l, calls.take(k)).contains_key(path_key(calls[i].scope)),
        ledger_after(l, calls.take(k))[path_key(calls[i].scope)] == calls[i].error,
    decreases k,
{
    assert(calls.take(k).drop_last() =~= calls.take(k - 1));
    assert(calls.take(k).last() == calls[k - 1]);
    if k == i + 1 {
        lemma_scope_before(l, calls, i, i);
    } else {
        lemma_scope_behind(l, calls, i, k - 1);
    }
}

/// A scope is installed once: by the first unit that needs it. The others of the scope take over what
/// came of it: no record where it succeeded, and its error where it failed, without another try.
pub proof fn law_a_scope_is_installed_once(l: InstallLedgerModel, calls: Seq<InstallCall>, i: int, j: int)
    requires
        first_in_scope(calls, i),
        !l.contains_key(path_key(calls[i].scope)),
        0 <= j < calls.len(),
        path_key(calls[j].scope) == path_key(calls[i].scope),
    ensures
        makes_install(ledger_after(l, calls.take(j)), calls[j]) <==> j == i,
        j == i ==> (record_from(ledger_after(l, calls.take(j)), calls[j]) matches Some(r) && r.error
            == calls[i].error),
        j != i && needs_install(calls[j]) ==> match calls[i].error {
            Some(e) => record_from(ledger_after(l, calls.take(j)), calls[j]) matches Some(r) && r.error == Some(e),
            None => record_from(ledger_after(l, calls.take(j)), calls[j]) is None,
        },
{
    if j <= i {
        lemma_scope_before(l, calls, i, j);
    } else {
        lemma_scope_behind(l, calls, i, j);
    }
}

/// Who pins a tool's version.
#[derive(Debug, Clone, Copy, PartialEq, Eq, Structural)]
pub enum PinSource {
    Unit,
    Repo,
    /// Nobody: it is what an adapter found.
    Detected,
}

/// The tool that a unit's language needs.
#[derive(Debug)]
pub struct ToolResolution {
    pub tool: String,
    pub version: Option<String>,
    pub source: PinSource,
    /// What the source is called.
    pub source_label: String,
}

#[verifier::ext_equal]
pub struct ToolResolutionModel {
    pub tool: Seq<char>,
    pub version: Option<Seq<char>>,
    pub source: PinSource,
    pub source_label: Seq<char>,
}

impl DeepView for ToolResolution {
    type V = ToolResolutionModel;

    open spec fn deep_view(&self) -> ToolResolutionModel {
        ToolResolutionModel {
            tool: self.tool@,
            version: self.version.deep_view(),
            source: self.source,
            source_label: self.source_label@,
        }
    }
}

/// A tool that another needs beside it.
#[derive(Debug)]
pub struct CoRequired {
    pub tool: String,
    pub default_version: String,
}

#[verifier::ext_equal]
pub struct CoRequiredModel {
    pub tool: Seq<char>,
    pub default_version: Seq<char>,
}

impl DeepView for CoRequired {
    type V = CoRequiredModel;

    open spec fn deep_view(&self) -> CoRequiredModel {
        CoRequiredModel { tool: self.tool@, default_version: self.default_version@ }
    }
}

/// A tool to install, and what to say where that fails.
#[derive(Debug)]
pub struct ToolInstall {
    pub tool: String,
    pub version: String,
    pub context: String,
}

#[verifier::ext_equal]
pub struct ToolInstallModel {
    pub tool: Seq<char>,
    pub version: Seq<char>,
    pub context: Seq<char>,
}

impl DeepView for ToolInstall {
    type V = ToolInstallModel;

    open spec fn deep_view(&self) -> ToolInstallModel {
        ToolInstallModel { tool: self.tool@, version: self.version@, context: self.context@ }
    }
}

/// A tool that another needs, at its pinned version or else at its default one.
pub open spec fn co_install(c: CoRequiredModel, pins: Map<Seq<char>, Seq<char>>, primary: Seq<char>) -> ToolInstallModel {
    let version = if pins.contains_key(c.tool) {
        pins[c.tool]
    } else {
        c.default_version
    };
    ToolInstallModel {
        tool: c.tool,
        version,
        context: "installing co-required toolchain "@ + c.tool + "@"@ + version + " (for "@ + primary
            + ")"@,
    }
}

/// Whether a tool is to be installed: its version is pinned by the unit or the workspace.
pub open spec fn pinned(r: ToolResolutionModel) -> bool {
    r.version is Some && (r.source == PinSource::Unit || r.source == PinSource::Repo)
}

/// The tools to install for a unit, in order: what its tool needs beside it, then the tool.
pub open spec fn tools_of(
    r: ToolResolutionModel,
    co: Seq<CoRequiredModel>,
    pins: Map<Seq<char>, Seq<char>>,
) -> Seq<ToolInstallModel> {
    let version = r.version->0;
    co.map_values(|c: CoRequiredModel| co_install(c, pins, r.tool)).push(
        ToolInstallModel {
            tool: r.tool,
            version,
            context: "installing toolchain "@ + r.tool + "@"@ + version + " (pinned in "@
                + r.source_label + ")"@,
        },
    )
}

/// The tools to install for a unit, in order. Nothing is installed unless a version is pinned;
/// `installable` says that the host and the tool are ones for which there is an installer, and
/// `co_required` lists what the tool needs beside it.
pub fn ensure_toolchain(
    resolution: Option<&ToolResolution>,
    installable: bool,
    co_required: &Vec<CoRequired>,
    pins: &StrMap<String>,
) -> (r: Vec<ToolInstall>)
    ensures
        r.deep_view() == installed_tools(resolution.deep_view(), installable, co_required.deep_view(), pins@),
{
    let mut out: Vec<ToolInstall> = Vec::new();
    let t = match resolution {
        Some(t) => t,
        None => {
            return out;
        },
    };
    let version = match &t.version {
        Some(v) => v,
        None => {
            return out;
        },
    };
    let by_someone = match t.source {
        PinSource::Unit => true,
        PinSource::Repo => true,
        PinSource::Detected => false,
    };
    if !by_someone || !installable {
        return out;
    }
    let ghost want = deep(co_required@).map_values(|c: CoRequiredModel| co_install(c, pins@, t.tool@));
    let mut i: usize = 0;
    while i < co_required.len()
        invariant
            i <= co_required@.len(),
            want == deep(co_required@).map_values(|c: CoRequiredModel| co_install(c, pins@, t.tool@)),
            deep(out@) == want.take(i as int),
        decreases co_required.len() - i,
    {
        let c = &co_required[i];
        let v = match pins.get(c.tool.as_str()) {
            Some(p) => copy(p.as_str()),
            None => copy(c.default_version.as_str()),
        };
        let context = cat7(
            "installing co-required toolchain ",
            c.tool.as_str(),
            "@",
            v.as_str(),
            " (for ",
            t.tool.as_str(),
            ")",
        );
        let item = ToolInstall { tool: copy(c.tool.as_str()), version: v, context };
        assert(want[i as int] == item.deep_view());
        out.push(item);
        i += 1;
    }
    let context = cat7(
        "installing toolchain ",
        t.tool.as_str(),
        "@",
        version.as_str(),
        " (pinned in ",
        t.source_label.as_str(),
        ")",
    );
    let item = ToolInstall { tool: copy(t.tool.as_str()), version: copy(version.as_str()), context };
    assert(item.deep_view() == tools_of(t.deep_view(), co_required.deep_view(), pins@).last());
    out.push(item);
    assert(deep(out@) =~= tools_of(t.deep_view(), co_required.deep_view(), pins@));
    out
}

/// How a task is run again to get diagnostics.
#[derive(Debug)]
pub enum DiagnosticRerun {
    /// With more arguments.
    AppendArgs(Vec<String>),
    /// By another command.
    Replace(String),
}

/// The command of a task that is run again for diagnostics.
pub open spec fn rerun_command(run: Seq<char>, rerun: DiagnosticRerun) -> Seq<char> {
    match rerun {
        DiagnosticRerun::AppendArgs(args) => if args@.len() == 0 {
            run
        } else {
            run + " "@ + joined(args.deep_view(), " "@)
        },
        DiagnosticRerun::Replace(cmd) => cmd@,
    }
}

/// The task that is run for the diagnostics of a task that failed: the same, but for its command,
/// and without retries.
pub fn diagnostic_task(task: &ResolvedTask, rerun: &DiagnosticRerun) -> (r: ResolvedTask)
    ensures
        r.deep_view() == (ResolvedTaskModel {
            run: rerun_command(task.run@, *rerun),
            retry: 0,
            ..task.deep_view()
        }),
{
    let run = match rerun {
        DiagnosticRerun::AppendArgs(args) => if args.len() == 0 {
            copy(task.run.as_str())
        } else {
            let list = join(args, " ");
            cat3(task.run.as_str(), " ", list.as_str())
        },
        DiagnosticRerun::Replace(cmd) => copy(cmd.as_str()),
    };
    let mut t = copy_task(task);
    t.run = run;
    t.retry = 0;
    t
}

/// The diagnostics in what a process wrote.
pub fn capture_diagnostics(
    parser: ParserId,
    stdout: &Vec<u8>,
    stderr: &Vec<u8>,
    unit_dir: &str,
    workspace_root: &str,
) -> (r: Vec<Diagnostic>)
    ensures
        r.deep_view() == parsed(parser, utf8_lossy(stdout@), unit_dir@, workspace_root@),
        shown_as_is(stdout@),
{
    let out = lossy(stdout.as_slice());
    let err = lossy(stderr.as_slice());
    parse(parser, out.as_str(), err.as_str(), unit_dir, workspace_root)
}

/// Keeps a deploy as the last that succeeded.
pub fn record_deploy(state: &mut DeployState, env: Option<&str>, unit: &str, deploy: DeployToRecord, deployed_at: String)
    ensures
        final(state)@ == with_record(
            old(state)@,
            env.deep_view(),
            unit@,
            deploy.task@,
            (DeployRecordModel {
                input_hash: deploy.input_hash@,
                deployed_at: deployed_at@,
                deploy_url: deploy.deploy_url.deep_view(),
            }),
        ),
{
    let record = DeployRecord {
        input_hash: deploy.input_hash,
        deployed_at,
        deploy_url: deploy.deploy_url,
    };
    state.set(env, unit, deploy.task.as_str(), record);
}

/// What a client of the remote cache needs to know.
#[derive(Debug)]
pub struct RemoteSettings {
    pub url: String,
    pub region: Option<String>,
    pub endpoint: Option<String>,
    /// The variable that holds the token.
    pub token_env: String,
}

/// What a client of the remote cache needs to know; `None` where there is no remote cache.
pub fn build_remote_from(cache: &CacheConfig) -> (r: Option<RemoteSettings>)
    ensures
        match r {
            Some(s) => {
                &&& remote_of(*cache) == Some((s.url@, s.token_env@))
                &&& cache.remote.deep_view() == Some(s.url@)
                &&& s.region.deep_view() == cache.remote_region.deep_view()
                &&& s.endpoint.deep_view() == cache.remote_endpoint.deep_view()
                &&& s.token_env@ == (match cache.remote_token_env.deep_view() {
                    Some(n) => n,
                    None => "MONAD_CACHE_TOKEN"@,
                })
            },
            None => cache.remote is None && remote_of(*cache) is None,
        },
{
    match &cache.remote {
        Some(url) => Some(
            RemoteSettings {
                url: copy(url.as_str()),
                region: copy_opt(&cache.remote_region),
                endpoint: copy_opt(&cache.remote_endpoint),
                token_env: match &cache.remote_token_env {
                    Some(n) => copy(n.as_str()),
                    None => copy("MONAD_CACHE_TOKEN"),
                },
            },
        ),
        None => None,
    }
}

/// Whether the remote cache is told of what the local cache restored: the workspace asks for it, there
/// is a remote cache, and the local cache holds what could be sent.
pub fn writes_through(cache: &CacheConfig, has_remote: bool, has_bundle: bool) -> (r: bool)
    ensures
        r == tells_remote(cache.remote_write_through, has_remote, has_bundle),
{
    cache.remote_write_through && has_remote && has_bundle
}

/// What a target names.
#[derive(Debug, PartialEq, Eq)]
pub enum TargetRef {
    Monad(String),
    Unit(String),
}

/// Why a target names nothing.
#[derive(Debug, PartialEq, Eq)]
pub enum TargetRefError {
    NotFound { target: String, available_profiles: Vec<String>, available_unites: Vec<String> },
    Ambiguous { target: String },
}

impl TargetRefError {
    /// What the error says.
    pub fn message(&self) -> (r: String)
        ensures
            match self {
                TargetRefError::NotFound { target, .. } => r@ == "'"@ + target@
                    + "' is not a known monad or unit in this workspace"@,
                TargetRefError::Ambiguous { target } => r@ == "'"@ + target@
                    + "' is ambiguous — it names both a monad and a unit; rename one"@,
            },
    {
        match self {
            TargetRefError::NotFound { target, .. } => cat3(
                "'",
                target.as_str(),
                "' is not a known monad or unit in this workspace",
            ),
            TargetRefError::Ambiguous { target } => cat3(
                "'",
                target.as_str(),
                "' is ambiguous — it names both a monad and a unit; rename one",
            ),
        }
    }
}

/// The keys of a map, in order.
pub fn names_of<V: DeepView>(m: &StrMap<V>) -> (r: Vec<String>)
    ensures
        r.deep_view() == in_order(m@.dom()),
        forall|i: int| 0 <= i < r@.len() ==> m@.contains_key(#[trigger] r.deep_view()[i]),
{
    let n = m.len();
    let ghost keys = m.keys();
    let mut r: Vec<String> = Vec::new();
    let mut i: usize = 0;
    while i < n
        invariant
            i <= n == keys.len(),
            keys == m.keys(),
            deep(r@) == keys.take(i as int),
            forall|j: int| 0 <= j < i ==> m@.contains_key(#[trigger] keys[j]),
        decreases n - i,
    {
        r.push(copy(m.key(i).as_str()));
        i += 1;
    }
    r
}

/// What is wrong with a target: it names both a profile and a unit, or neither.
pub open spec fn target_fails(ws: Workspace, target: Seq<char>, e: TargetRefError) -> bool {
    let profile = ws.profiles@.contains_key(target);
    let unit = ws.units_by_name@.contains_key(target);
    match e {
        TargetRefError::Ambiguous { target: t } => profile && unit && t@ == target,
        TargetRefError::NotFound { target: t, available_profiles, available_unites } => {
            &&& !profile && !unit
            &&& t@ == target
            &&& available_profiles.deep_view() == in_order(ws.profiles@.dom())
            &&& available_unites.deep_view() == in_order(ws.units_by_name@.dom())
        },
    }
}

/// What a target names: a profile or a unit, and not both.
pub fn resolve_target(workspace: &Workspace, target: &str) -> (r: Result<TargetRef, TargetRefError>)
    ensures
        ({
            let profile = workspace.profiles@.contains_key(target@);
            let unit = workspace.units_by_name@.contains_key(target@);
            match r {
                Ok(TargetRef::Monad(n)) => profile && !unit && n@ == target@,
                Ok(TargetRef::Unit(n)) => unit && !profile && n@ == target@,
                Err(e) => target_fails(*workspace, target@, e),
            }
        }),
{
    let is_profile = workspace.profiles.contains_key(target);
    let is_unit = workspace.units_by_name.contains_key(target);
    if is_profile && is_unit {
        Err(TargetRefError::Ambiguous { target: copy(target) })
    } else if is_profile {
        Ok(TargetRef::Monad(copy(target)))
    } else if is_unit {
        Ok(TargetRef::Unit(copy(target)))
    } else {
        Err(
            TargetRefError::NotFound {
                target: copy(target),
                available_profiles: names_of(&workspace.profiles),
                available_unites: names_of(&workspace.units_by_name),
            },
        )
    }
}

/// The runs of neighbours follow one another from the first unit to the last, and none is wider
/// than asked for.
pub proof fn law_batches_cover(from: nat, n: nat, width: nat)
    requires
        from < n <= usize::MAX,
        width > 0,
    ensures
        ({
            let b = batches_of(from, n, width);
            &&& b.len() > 0
            &&& b[0].0 == from
            &&& b.last().1 == n
            &&& forall|i: int| 0 <= i < b.len() ==> (#[trigger] b[i]).0 < b[i].1 && b[i].1 - b[i].0 <= width
            &&& forall|i: int, j: int| 0 <= i && j == i + 1 && j < b.len() ==> (#[trigger] b[i]).1 == (#[trigger] b[j]).0
        }),
    decreases n - from,
{
    let b = batches_of(from, n, width);
    if from + width < n {
        law_batches_cover(from + width, n, width);
        let tail = batches_of(from + width, n, width);
        assert(b.last() == tail.last());
        assert forall|i: int| 0 <= i < b.len() implies (#[trigger] b[i]).0 < b[i].1 && b[i].1 - b[i].0 <= width by {
            if i > 0 {
                assert(b[i] == tail[i - 1]);
            }
        }
        assert forall|i: int, j: int| 0 <= i && j == i + 1 && j < b.len() implies (#[trigger] b[i]).1 == (#[trigger] b[j]).0 by {
            assert(b[j] == tail[j - 1]);
            if i > 0 {
                assert(b[i] == tail[i - 1]);
            }
        }
    }
}

/// The batches that still come of the present profile, where no further unit fails.
pub open spec fn still_run(r: ExecutionRunModel) -> Seq<Seq<Seq<char>>>
    decreases r.queue.len(),
{
    match advanced(r).1 {
        ExecutionStepModel::Units { names } => if r.queue.len() > 0 {
            seq![names] + still_run(advanced(r).0)
        } else {
            Seq::empty()
        },
        _ => Seq::empty(),
    }
}

/// The names of the units of some batches.
pub open spec fn names_of_batches(q: Seq<BatchModel>) -> Seq<Seq<Seq<char>>> {
    q.map_values(|b: BatchModel| b.names)
}

/// A run that is not to stop runs every batch of the present profile, in order.
pub proof fn law_every_batch_runs(r: ExecutionRunModel)
    requires
        !r.stop,
    ensures
        still_run(r) == names_of_batches(r.queue),
    decreases r.queue.len(),
{
    if r.queue.len() > 0 {
        law_every_batch_runs(advanced(r).0);
        assert(names_of_batches(r.queue) =~= seq![r.queue[0].names] + names_of_batches(r.queue.skip(1)));
    } else {
        assert(names_of_batches(r.queue) =~= Seq::empty());
    }
}

/// A run that is to stop finishes the level that is being run, whatever failed in it, and starts
/// neither a further level nor a further profile: `n` batches of the level are left.
pub proof fn law_stop_finishes_the_level(r: ExecutionRunModel, n: nat)
    requires
        r.stop,
        n <= r.queue.len(),
        forall|i: int| 0 <= i < n ==> (#[trigger] r.queue[i]).level == r.level,
        n < r.queue.len() ==> r.queue[n as int].level != r.level,
    ensures
        still_run(r) == names_of_batches(r.queue.take(n as int)),
        !(advanced(r).1 is Profile),
    decreases n,
{
    if n > 0 {
        let next = advanced(r).0;
        assert forall|i: int| 0 <= i < n - 1 implies (#[trigger] next.queue[i]).level == next.level by {
            assert(next.queue[i] == r.queue[i + 1]);
        }
        law_stop_finishes_the_level(next, (n - 1) as nat);
        assert(names_of_batches(r.queue.take(n as int)) =~= seq![r.queue[0].names] + names_of_batches(
            next.queue.take(n - 1),
        ));
    } else {
        assert(names_of_batches(r.queue.take(0)) =~= Seq::empty());
    }
}

/// The units of some batches, one behind the other.
pub open spec fn units_of_batches(q: Seq<BatchModel>) -> Seq<Seq<char>>
    decreases q.len(),
{
    if q.len() == 0 {
        Seq::empty()
    } else {
        units_of_batches(q.drop_last()) + q.last().names
    }
}

/// The units of some levels that a filter lets through, one behind the other.
pub open spec fn targets_of_levels(
    units: Map<Seq<char>, LoadedUnitModel>,
    levels: Seq<Seq<Seq<char>>>,
    filter: Option<Seq<char>>,
) -> Seq<Seq<char>>
    decreases levels.len(),
{
    if levels.len() == 0 {
        Seq::empty()
    } else {
        targets_of_levels(units, levels.drop_last(), filter) + targets_of(units, levels.last(), filter)
    }
}

proof fn lemma_units_of_more(a: Seq<BatchModel>, b: Seq<BatchModel>)
    ensures
        units_of_batches(a + b) == units_of_batches(a) + units_of_batches(b),
    decreases b.len(),
{
    if b.len() == 0 {
        assert(a + b =~= a);
    } else {
        lemma_units_of_more(a, b.drop_last());
        assert((a + b).drop_last() =~= a + b.drop_last());
        assert(units_of_batches(a) + (units_of_batches(b.drop_last()) + b.last().names) =~= (units_of_batches(a)
            + units_of_batches(b.drop_last())) + b.last().names);
    }
}

proof fn lemma_level_batches(level: usize, targets: Seq<Seq<char>>, cuts: Seq<(usize, usize)>)
    requires
        cuts.len() > 0,
        cuts[0].0 == 0,
        forall|i: int| 0 <= i < cuts.len() ==> (#[trigger] cuts[i]).0 <= cuts[i].1 <= targets.len(),
        forall|i: int, j: int| 0 <= i && j == i + 1 && j < cuts.len() ==> (#[trigger] cuts[i]).1 == (#[trigger] cuts[j]).0,
    ensures
        units_of_batches(level_batches(level, targets, cuts)) == targets.take(cuts.last().1 as int),
        forall|i: int|
            0 <= i < level_batches(level, targets, cuts).len() ==> (#[trigger] level_batches(level, targets, cuts)[i]).level
                == level,
    decreases cuts.len(),
{
    let rest = cuts.drop_last();
    let b = level_batches(level, targets, cuts);
    assert(b.drop_last() =~= level_batches(level, targets, rest));
    if rest.len() > 0 {
        lemma_level_batches(level, targets, rest);
        assert(rest.last() == cuts[cuts.len() - 2]);
        assert(targets.take(cuts.last().0 as int) + targets.subrange(cuts.last().0 as int, cuts.last().1 as int)
            =~= targets.take(cuts.last().1 as int));
        assert forall|i: int| 0 <= i < b.len() implies (#[trigger] b[i]).level == level by {
            if i < b.len() - 1 {
                assert(b[i] == b.drop_last()[i]);
            }
        }
    } else {
        assert(Seq::<Seq<char>>::empty() + targets.subrange(0, cuts.last().1 as int) =~= targets.take(
            cuts.last().1 as int,
        ));
        assert(units_of_batches(b.drop_last()) =~= Seq::empty());
    }
}

/// The batches of a graph hold every unit that is to run, once for each time that its levels do and in
/// their order, and their levels ascend.
pub proof fn law_batches_hold_every_target(
    units: Map<Seq<char>, LoadedUnitModel>,
    levels: Seq<Seq<Seq<char>>>,
    filter: Option<Seq<char>>,
    width: nat,
)
    requires
        width > 0,
        levels.len() <= usize::MAX,
        forall|i: int| 0 <= i < levels.len() ==> (#[trigger] levels[i]).len() <= usize::MAX,
    ensures
        units_of_batches(graph_batches(units, levels, filter, width)) == targets_of_levels(units, levels, filter),
        forall|i: int, j: int|
            0 <= i <= j < graph_batches(units, levels, filter, width).len() ==> (#[trigger] graph_batches(
                units,
                levels,
                filter,
                width,
            )[i]).level <= (#[trigger] graph_batches(units, levels, filter, width)[j]).level < levels.len(),
    decreases levels.len(),
{
    let b = graph_batches(units, levels, filter, width);
    if levels.len() > 0 {
        let before = levels.drop_last();
        law_batches_hold_every_target(units, before, filter, width);
        let targets = targets_of(units, levels.last(), filter);
        lemma_targets_fit(units, levels.last(), filter);
        let cuts = batches_of(0, targets.len(), width);
        let level = (levels.len() - 1) as usize;
        let first = graph_batches(units, before, filter, width);
        let last = level_batches(level, targets, cuts);
        lemma_units_of_more(first, last);
        if targets.len() > 0 {
            law_batches_cover(0, targets.len(), width);
            lemma_cuts_within(0, targets.len(), width);
            lemma_level_batches(level, targets, cuts);
            assert(targets.take(targets.len() as int) =~= targets);
        } else {
            assert(targets =~= Seq::empty());
            assert(units_of_batches(last) =~= targets);
        }
        assert forall|i: int, j: int| 0 <= i <= j < b.len() implies (#[trigger] b[i]).level <= (#[trigger] b[j]).level
            < levels.len() by {
            if j < first.len() {
                assert(b[i] == first[i] && b[j] == first[j]);
            } else {
                assert(b[j] == last[j - first.len()]);
                if i < first.len() {
                    assert(b[i] == first[i]);
                    assert(first[i].level <= first[i].level < before.len());
                } else {
                    assert(b[i] == last[i - first.len()]);
                }
            }
        }
    }
}

proof fn lemma_targets_fit(units: Map<Seq<char>, LoadedUnitModel>, level: Seq<Seq<char>>, filter: Option<Seq<char>>)
    ensures
        targets_of(units, level, filter).len() <= level.len(),
    decreases level.len(),
{
    if level.len() > 0 {
        lemma_targets_fit(units, level.drop_last(), filter);
    }
}

/// The units of a level that run are those that are there and that the filter lets through, and no
/// others.
pub proof fn law_which_units_run(
    units: Map<Seq<char>, LoadedUnitModel>,
    level: Seq<Seq<char>>,
    filter: Option<Seq<char>>,
    n: Seq<char>,
)
    ensures
        targets_of(units, level, filter).contains(n) <==> level.contains(n) && units.contains_key(n) && (filter
            matches Some(f) ==> units[n].config.name == f),
    decreases level.len(),
{
    if level.len() > 0 {
        let rest = level.drop_last();
        law_which_units_run(units, rest, filter, n);
        crate::deep::lemma_last_contains(level, n);
        crate::deep::lemma_push_contains(targets_of(units, rest, filter), level.last(), n);
    }
}

/// A unit that is done is added to the run, and each of its counts to that of the run. The run is to stop
/// if and only if it was already, or a task of the unit failed and failures are to stop it.
pub proof fn law_units_add_up(r: ExecutionRunModel, u: ExecutedUnitModel, s: UnitStats)
    requires
        addable(r.summary, s),
    ensures
        ({
            let t = with_unit(r, u, s);
            &&& t.units == r.units.push(u)
            &&& t.summary.units == r.summary.units + 1
            &&& t.summary.tasks == r.summary.tasks + s.tasks
            &&& t.summary.hits == r.summary.hits + s.hits
            &&& t.summary.built == r.summary.built + s.built
            &&& t.summary.failed == r.summary.failed + s.failed
            &&& t.summary.flaky == r.summary.flaky + s.flaky
            &&& t.summary.installs == r.summary.installs + s.installs
            &&& t.summary.install_failures == r.summary.install_failures + s.install_failures
            &&& t.summary.notify_failures == r.summary.notify_failures + s.notify_failures
            &&& t.summary.deploy_unchanged == r.summary.deploy_unchanged + s.deploy_unchanged
            &&& t.stop <==> r.stop || (r.fail_fast && exists|i: int|
                0 <= i < u.tasks.len() && (#[trigger] u.tasks[i]).outcome is Failed)
            &&& t.profiles == r.profiles && t.queue == r.queue && t.todo == r.todo && t.present == r.present
        }),
{
}

/// A profile that is done holds the units that were run since the one before it, and the next begins
/// without any.
pub proof fn law_profiles_keep_their_units(r: ExecutionRunModel, name: Seq<char>)
    ensures
        with_profile(r, name).profiles == r.profiles.push(ExecutedProfileModel { name, units: r.units }),
        with_profile(r, name).units.len() == 0,
        with_profile(r, name).summary == r.summary,
        r.present == Some(name) ==> left_profile(r).profiles == r.profiles.push(
            (ExecutedProfileModel { name, units: r.units }),
        ) && left_profile(r).present is None,
        r.present is None ==> left_profile(r) == r,
{
}

/// Dependencies are installed if and only if an adapter knows how, nobody asked to leave them alone, and
/// the install is forced, or they are missing, or an install is all that is asked for. They are left
/// alone where nobody asked for an install and they are there. A probe is made only where its answer
/// matters and is not known yet.
pub proof fn law_when_dependencies_are_installed(o: CiOptionsModel, has_adapter: bool, probe: Option<InstallProbe>)
    ensures
        ({
            let d = install_decision(o, has_adapter, probe);
            let may = has_adapter && !o.skip_install;
            &&& d is Install <==> may && (o.force_install || (probe matches Some(InstallProbe::Missing { .. })) || (
            probe == Some(InstallProbe::Ready) && o.install_only))
            &&& d is Probe <==> may && !o.force_install && probe is None
            &&& d is Skip <==> !may || (!o.force_install && probe == Some(InstallProbe::Ready) && !o.install_only)
            &&& probe matches Some(InstallProbe::Missing { reason }) ==> (d matches InstallDecisionModel::Install {
                reason: given,
            } ==> (!o.force_install ==> given == reason@))
        }),
{
}

/// Each tool that a pinned tool needs is installed before it, at its pinned version or else at its
/// default one, and the tool itself comes last, at the version that is pinned.
pub proof fn law_tools_in_order(
    r: ToolResolutionModel,
    co: Seq<CoRequiredModel>,
    pins: Map<Seq<char>, Seq<char>>,
)
    requires
        pinned(r),
    ensures
        ({
            let tools = tools_of(r, co, pins);
            &&& tools.len() == co.len() + 1
            &&& tools.last().tool == r.tool
            &&& r.version == Some(tools.last().version)
            &&& forall|i: int| 0 <= i < co.len() ==> (#[trigger] tools[i]).tool == co[i].tool
            &&& forall|i: int|
                0 <= i < co.len() && pins.contains_key(co[i].tool) ==> (#[trigger] tools[i]).version
                    == pins[co[i].tool]
            &&& forall|i: int|
                0 <= i < co.len() && !pins.contains_key(co[i].tool) ==> (#[trigger] tools[i]).version
                    == co[i].default_version
        }),
{
}

/// A tool is installed only where the unit or the workspace pins a version of it; one that was merely
/// detected is not.
pub proof fn law_only_pinned_tools(r: ToolResolutionModel)
    ensures
        r.source == PinSource::Detected ==> !pinned(r),
        r.version is None ==> !pinned(r),
        r.version is Some && (r.source == PinSource::Unit || r.source == PinSource::Repo) ==> pinned(r),
{
}

/// A task is run again for diagnostics by its own command with the arguments behind it, or by the command
/// that takes its place.
pub proof fn law_diagnostic_command(run: Seq<char>, rerun: DiagnosticRerun)
    ensures
        rerun matches DiagnosticRerun::Replace(cmd) ==> rerun_command(run, rerun) == cmd@,
        rerun matches DiagnosticRerun::AppendArgs(args) ==> {
            &&& run.is_prefix_of(rerun_command(run, rerun))
            &&& args@.len() == 0 ==> rerun_command(run, rerun) == run
            &&& args@.len() == 1 ==> rerun_command(run, rerun) == run + " "@ + args@[0]@
        },
{
    let r = rerun_command(run, rerun);
    if let DiagnosticRerun::AppendArgs(args) = rerun {
        assert(r.take(run.len() as int) =~= run);
        assert(run.is_prefix_of(r));
        if args@.len() == 1 {
            assert(deep(args@)[0] == args@[0]@);
        }
    }
}

/// Every batch but the last is as wide as asked for: nothing waits that could be run beside the others.
pub proof fn law_batches_are_full(from: nat, n: nat, width: nat, i: int)
    requires
        from < n <= usize::MAX,
        width > 0,
        0 <= i < batches_of(from, n, width).len() - 1,
    ensures
        batches_of(from, n, width)[i].1 - batches_of(from, n, width)[i].0 == width,
    decreases n - from,
{
    if from + width < n && i > 0 {
        law_batches_are_full(from + width, n, width, i - 1);
        assert(batches_of(from, n, width)[i] == batches_of(from + width, n, width)[i - 1]);
    }
}

/// As many units run side by side as are asked for, and one where none is.
pub proof fn law_width(parallelism: usize)
    ensures
        parallelism > 0 ==> width_of(parallelism) == parallelism,
        width_of(parallelism) >= 1,
{
}

/// A unit that made an install keeps a record of it, with its reason and its error; a unit that shares one
/// keeps a record only where it failed.
pub proof fn law_records_of_installs(
    made: bool,
    reason: Seq<char>,
    scope: Seq<char>,
    duration_ms: u64,
    error: Option<Seq<char>>,
)
    ensures
        ({
            let r = install_record_of(made, reason, scope, duration_ms, error);
            &&& r is Some <==> made || error is Some
            &&& r matches Some(x) ==> x.error == error
            &&& made ==> (r matches Some(x) && x.reason == reason && x.duration_ms == duration_ms)
        }),
{
}

/// What a client of the remote cache needs to know; `None` where there is no remote cache.
pub open spec fn remote_of(c: CacheConfig) -> Option<(Seq<char>, Seq<char>)> {
    match c.remote {
        Some(url) => Some(
            (
                url@,
                match c.remote_token_env {
                    Some(n) => n@,
                    None => "MONAD_CACHE_TOKEN"@,
                },
            ),
        ),
        None => None,
    }
}

/// A remote cache is used if and only if one is named; its token is read from the variable that is named for
/// it, and from the usual one where none is.
pub proof fn law_when_there_is_a_remote_cache(c: CacheConfig)
    ensures
        remote_of(c) is Some <==> c.remote is Some,
        remote_of(c) matches Some(r) ==> {
            &&& c.remote matches Some(u) && r.0 == u@
            &&& c.remote_token_env matches Some(n) ==> r.1 == n@
            &&& c.remote_token_env is None ==> r.1 == "MONAD_CACHE_TOKEN"@
        },
{
}

/// Whether the remote cache is told of what the local cache restored.
pub open spec fn tells_remote(write_through: bool, has_remote: bool, has_bundle: bool) -> bool {
    write_through && has_remote && has_bundle
}

/// The remote cache is told only where that is asked for, there is one, and there is something to tell; and
/// then it is.
pub proof fn law_when_the_remote_is_told(write_through: bool, has_remote: bool, has_bundle: bool)
    ensures
        !write_through || !has_remote || !has_bundle ==> !tells_remote(write_through, has_remote, has_bundle),
        tells_remote(true, true, true),
{
}

/// The tools that are installed for a unit.
pub open spec fn installed_tools(
    r: Option<ToolResolutionModel>,
    installable: bool,
    co: Seq<CoRequiredModel>,
    pins: Map<Seq<char>, Seq<char>>,
) -> Seq<ToolInstallModel> {
    match r {
        Some(t) if pinned(t) && installable => tools_of(t, co, pins),
        _ => Seq::empty(),
    }
}

/// A tool is installed if and only if its version is pinned and there is an installer for it; nothing is
/// installed otherwise, not even what it would need.
pub proof fn law_when_tools_are_installed(
    r: Option<ToolResolutionModel>,
    installable: bool,
    co: Seq<CoRequiredModel>,
    pins: Map<Seq<char>, Seq<char>>,
)
    ensures
        installed_tools(r, installable, co, pins).len() > 0 <==> installable && (r matches Some(t) && t.version is Some
            && (t.source == PinSource::Unit || t.source == PinSource::Repo)),
        r matches Some(t) ==> (installed_tools(r, installable, co, pins).len() > 0 ==> installed_tools(
            r,
            installable,
            co,
            pins,
        ).last().tool == t.tool),
{
}

/// A run before anything ran.
pub open spec fn run_at_start(ws: Workspace, o: CiOptionsModel) -> ExecutionRunModel {
    ExecutionRunModel {
        profiles: Seq::empty(),
        units: Seq::empty(),
        summary: zero_summary(),
        fail_fast: match o.fail_fast {
            Some(b) => b,
            None => ws.repo.fail_fast,
        },
        stop: false,
        todo: admitted_profiles(in_order(ws.profiles@.dom()), o.monad_filter),
        present: None,
        queue: Seq::empty(),
        level: 0,
    }
}

/// A run begins with nothing done and every profile that is asked for still to do; whether a failure stops it
/// is what the options say, or else what the workspace says.
pub proof fn law_how_a_run_begins(ws: Workspace, o: CiOptionsModel, n: Seq<char>)
    ensures
        ({
            let r = run_at_start(ws, o);
            &&& r.profiles.len() == 0 && r.units.len() == 0 && r.queue.len() == 0 && !r.stop
            &&& r.summary.tasks == 0 && r.summary.failed == 0 && r.summary.units == 0
            &&& r.todo.contains(n) <==> in_order(ws.profiles@.dom()).contains(n) && (o.monad_filter is None
                || o.monad_filter == Some(n))
            &&& o.fail_fast matches Some(b) ==> r.fail_fast == b
            &&& o.fail_fast is None ==> r.fail_fast == ws.repo.fail_fast
        }),
{
    crate::plan::law_profiles_are_admitted(in_order(ws.profiles@.dom()), o.monad_filter, n);
}

} // verus!
