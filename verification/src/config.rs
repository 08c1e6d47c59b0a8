//! The workspace as its configuration files describe it.
//!
//! Each type has a model: the same value with sequences of characters for strings, sequences for
//! lists and maps for tables. Contracts speak of the models.
use vstd::prelude::*;

use crate::path::{path_components, render, rendered, components};
use crate::strmap::StrMap;

verus! {

broadcast use crate::deep::group_deep;

/// Whether tasks run inside a container.
#[derive(Debug, Clone, Copy, PartialEq, Eq, Structural)]
pub enum ContainerMode {
    /// Inside one where an image is declared and a runtime can be reached.
    Auto,
    Always,
    Never,
}

/// The role of an integration's task.
#[derive(Debug, Clone, Copy, PartialEq, Eq, Structural)]
pub enum IntegrationTaskKind {
    Deploy,
    DeployPreview,
    Rollback,
    Notify,
    Release,
    Other,
}

impl IntegrationTaskKind {
    /// The name of the kind.
    pub open spec fn name(self) -> Seq<char> {
        match self {
            IntegrationTaskKind::Deploy => "deploy"@,
            IntegrationTaskKind::DeployPreview => "deploy_preview"@,
            IntegrationTaskKind::Rollback => "rollback"@,
            IntegrationTaskKind::Notify => "notify"@,
            IntegrationTaskKind::Release => "release"@,
            IntegrationTaskKind::Other => "other"@,
        }
    }

    /// Whether tasks of the kind act on the outside world, so that none is ever served from a
    /// cache.
    pub open spec fn side_effectful(self) -> bool {
        !(self is Release || self is Other)
    }

    /// The name of the kind.
    pub fn as_str(self) -> (r: &'static str)
        ensures
            r@ == self.name(),
    {
        match self {
            IntegrationTaskKind::Deploy => "deploy",
            IntegrationTaskKind::DeployPreview => "deploy_preview",
            IntegrationTaskKind::Rollback => "rollback",
            IntegrationTaskKind::Notify => "notify",
            IntegrationTaskKind::Release => "release",
            IntegrationTaskKind::Other => "other",
        }
    }

    /// Whether tasks of the kind act on the outside world.
    pub fn defaults_no_cache(self) -> (r: bool)
        ensures
            r == self.side_effectful(),
    {
        match self {
            IntegrationTaskKind::Release => false,
            IntegrationTaskKind::Other => false,
            _ => true,
        }
    }
}

/// A program that must be on `PATH`, and how to get it.
#[derive(Debug)]
pub struct CliRequirement {
    pub binary: String,
    pub install_hint: String,
}

#[verifier::ext_equal]
pub struct CliRequirementModel {
    pub binary: Seq<char>,
    pub install_hint: Seq<char>,
}

impl DeepView for CliRequirement {
    type V = CliRequirementModel;

    open spec fn deep_view(&self) -> CliRequirementModel {
        CliRequirementModel { binary: self.binary@, install_hint: self.install_hint@ }
    }
}

/// A `[tasks.<name>]` block.
#[derive(Debug)]
pub struct Task {
    pub run: Option<String>,
    pub inputs: Option<Vec<String>>,
    pub outputs: Option<Vec<String>>,
    pub workspace_outputs: Option<Vec<String>>,
    pub env: Vec<String>,
    pub retry: u32,
}

#[verifier::ext_equal]
pub struct TaskModel {
    pub run: Option<Seq<char>>,
    pub inputs: Option<Seq<Seq<char>>>,
    pub outputs: Option<Seq<Seq<char>>>,
    pub workspace_outputs: Option<Seq<Seq<char>>>,
    pub env: Seq<Seq<char>>,
    pub retry: u32,
}

impl DeepView for Task {
    type V = TaskModel;

    open spec fn deep_view(&self) -> TaskModel {
        TaskModel {
            run: self.run.deep_view(),
            inputs: self.inputs.deep_view(),
            outputs: self.outputs.deep_view(),
            workspace_outputs: self.workspace_outputs.deep_view(),
            env: self.env.deep_view(),
            retry: self.retry,
        }
    }
}

/// A `[[notifications]]` block.
#[derive(Debug)]
pub struct NotificationBlock {
    pub name: String,
    pub run: String,
    pub env: Vec<String>,
    pub required_env: Vec<String>,
    /// Each `binary` or `binary: install hint`.
    pub required_cli: Vec<String>,
}

#[verifier::ext_equal]
pub struct NotificationBlockModel {
    pub name: Seq<char>,
    pub run: Seq<char>,
    pub env: Seq<Seq<char>>,
    pub required_env: Seq<Seq<char>>,
    pub required_cli: Seq<Seq<char>>,
}

impl DeepView for NotificationBlock {
    type V = NotificationBlockModel;

    open spec fn deep_view(&self) -> NotificationBlockModel {
        NotificationBlockModel {
            name: self.name@,
            run: self.run@,
            env: self.env.deep_view(),
            required_env: self.required_env.deep_view(),
            required_cli: self.required_cli.deep_view(),
        }
    }
}

/// A `unit.toml`.
pub struct UnitConfig {
    pub name: String,
    pub language: Option<String>,
    pub depends_on: Vec<String>,
    pub inputs: Vec<String>,
    pub outputs: Vec<String>,
    pub force_independent: bool,
    /// The ids of the `[integrations.<id>]` blocks.
    pub integrations: Vec<String>,
    pub notifications: Vec<NotificationBlock>,
    pub tasks: StrMap<Task>,
}

#[verifier::ext_equal]
pub struct UnitModel {
    pub name: Seq<char>,
    pub language: Option<Seq<char>>,
    pub depends_on: Seq<Seq<char>>,
    pub inputs: Seq<Seq<char>>,
    pub outputs: Seq<Seq<char>>,
    pub force_independent: bool,
    pub integrations: Seq<Seq<char>>,
    pub notifications: Seq<NotificationBlockModel>,
    pub tasks: Map<Seq<char>, TaskModel>,
}

impl DeepView for UnitConfig {
    type V = UnitModel;

    open spec fn deep_view(&self) -> UnitModel {
        UnitModel {
            name: self.name@,
            language: self.language.deep_view(),
            depends_on: self.depends_on.deep_view(),
            inputs: self.inputs.deep_view(),
            outputs: self.outputs.deep_view(),
            force_independent: self.force_independent,
            integrations: self.integrations.deep_view(),
            notifications: self.notifications.deep_view(),
            tasks: self.tasks@,
        }
    }
}

/// A unit and where it lies.
pub struct LoadedUnit {
    /// Its directory, from the workspace root.
    pub rel: String,
    /// Its directory.
    pub dir: String,
    pub config: UnitConfig,
}

#[verifier::ext_equal]
pub struct LoadedUnitModel {
    pub rel: Seq<char>,
    pub dir: Seq<char>,
    pub config: UnitModel,
}

impl DeepView for LoadedUnit {
    type V = LoadedUnitModel;

    open spec fn deep_view(&self) -> LoadedUnitModel {
        LoadedUnitModel { rel: self.rel@, dir: self.dir@, config: self.config.deep_view() }
    }
}

/// A profile: the units that are planned and run together.
pub struct Profile {
    pub name: String,
    /// The file that declares it.
    pub source: String,
    /// The paths of its units, as the file lists them.
    pub units: Vec<String>,
}

#[verifier::ext_equal]
pub struct ProfileModel {
    pub name: Seq<char>,
    pub source: Seq<char>,
    pub units: Seq<Seq<char>>,
}

impl DeepView for Profile {
    type V = ProfileModel;

    open spec fn deep_view(&self) -> ProfileModel {
        ProfileModel { name: self.name@, source: self.source@, units: self.units.deep_view() }
    }
}

/// The `[cache]` block.
pub struct CacheConfig {
    pub remote: Option<String>,
    pub remote_region: Option<String>,
    pub remote_endpoint: Option<String>,
    /// The environment variable that holds the token.
    pub remote_token_env: Option<String>,
    pub remote_write_through: bool,
}

/// A `monad.toml`.
pub struct RepoConfig {
    pub parallelism: usize,
    pub fail_fast: bool,
    pub container: ContainerMode,
    pub image: Option<String>,
    pub cache: CacheConfig,
    /// The `[toolchain]` pins, by tool.
    pub pins: StrMap<String>,
    pub telemetry_enabled: bool,
    /// The `[environments.<name>]` blocks: declared variable to source variable.
    pub environments: StrMap<StrMap<String>>,
}

/// A workspace.
pub struct Workspace {
    pub root: String,
    pub repo: RepoConfig,
    pub profiles: StrMap<Profile>,
    /// The units by their path from the root.
    pub units_by_path: StrMap<LoadedUnit>,
    pub units_by_name: StrMap<LoadedUnit>,
}

/// The usual text of a path.
pub open spec fn path_key(p: Seq<char>) -> Seq<char> {
    rendered(components(p))
}

/// The usual text of a path.
pub fn usual_path(p: &str) -> (r: String)
    ensures
        r@ == path_key(p@),
{
    let c = path_components(p);
    proof {
        crate::deep::lemma_take_all(crate::text::texts(c@));
    }
    render(&c, c.len())
}

impl Workspace {
    /// The unit that a profile means by a path.
    pub open spec fn unit(self, r: Seq<char>) -> LoadedUnitModel {
        self.units_by_path@[path_key(r)]
    }

    /// Each path that a profile lists is the path of a unit.
    pub open spec fn refs_resolve(self, profile: Seq<char>) -> bool {
        forall|i: int|
            0 <= i < self.profiles@[profile].units.len() ==> self.units_by_path@.contains_key(
                path_key(#[trigger] self.profiles@[profile].units[i]),
            )
    }

    /// The unit that a profile means by a path.
    pub fn unit_at(&self, r: &str) -> (u: Option<&LoadedUnit>)
        ensures
            u is Some == self.units_by_path@.contains_key(path_key(r@)),
            u matches Some(l) ==> l.deep_view() == self.unit(r@),
    {
        let key = usual_path(r);
        self.units_by_path.get(key.as_str())
    }
}

/// A task that a language adapter offers.
#[derive(Debug)]
pub struct DefaultTask {
    pub name: String,
    pub run: String,
    pub inputs: Option<Vec<String>>,
    pub outputs: Option<Vec<String>>,
}

#[verifier::ext_equal]
pub struct DefaultTaskModel {
    pub name: Seq<char>,
    pub run: Seq<char>,
    pub inputs: Option<Seq<Seq<char>>>,
    pub outputs: Option<Seq<Seq<char>>>,
}

impl DeepView for DefaultTask {
    type V = DefaultTaskModel;

    open spec fn deep_view(&self) -> DefaultTaskModel {
        DefaultTaskModel {
            name: self.name@,
            run: self.run@,
            inputs: self.inputs.deep_view(),
            outputs: self.outputs.deep_view(),
        }
    }
}

/// A task that an integration offers.
#[derive(Debug)]
pub struct IntegrationTask {
    pub name: String,
    pub run: String,
    pub outputs: Vec<String>,
    pub env_vars: Vec<String>,
    pub no_cache: bool,
    pub kind: IntegrationTaskKind,
    pub depends_on: Vec<String>,
}

#[verifier::ext_equal]
pub struct IntegrationTaskModel {
    pub name: Seq<char>,
    pub run: Seq<char>,
    pub outputs: Seq<Seq<char>>,
    pub env_vars: Seq<Seq<char>>,
    pub no_cache: bool,
    pub kind: IntegrationTaskKind,
    pub depends_on: Seq<Seq<char>>,
}

impl DeepView for IntegrationTask {
    type V = IntegrationTaskModel;

    open spec fn deep_view(&self) -> IntegrationTaskModel {
        IntegrationTaskModel {
            name: self.name@,
            run: self.run@,
            outputs: self.outputs.deep_view(),
            env_vars: self.env_vars.deep_view(),
            no_cache: self.no_cache,
            kind: self.kind,
            depends_on: self.depends_on.deep_view(),
        }
    }
}

/// What an integration says of one unit.
#[derive(Debug)]
pub struct IntegrationFacts {
    pub id: String,
    pub required_env: Vec<String>,
    pub required_cli: Vec<CliRequirement>,
    /// The tasks it offers for the unit.
    pub tasks: Vec<IntegrationTask>,
}

#[verifier::ext_equal]
pub struct IntegrationFactsModel {
    pub id: Seq<char>,
    pub required_env: Seq<Seq<char>>,
    pub required_cli: Seq<CliRequirementModel>,
    pub tasks: Seq<IntegrationTaskModel>,
}

impl DeepView for IntegrationFacts {
    type V = IntegrationFactsModel;

    open spec fn deep_view(&self) -> IntegrationFactsModel {
        IntegrationFactsModel {
            id: self.id@,
            required_env: self.required_env.deep_view(),
            required_cli: self.required_cli.deep_view(),
            tasks: self.tasks.deep_view(),
        }
    }
}

/// A tool at a version.
#[derive(Debug)]
pub struct ToolVersion {
    pub tool: String,
    pub version: String,
}

#[verifier::ext_equal]
pub struct ToolVersionModel {
    pub tool: Seq<char>,
    pub version: Seq<char>,
}

impl DeepView for ToolVersion {
    type V = ToolVersionModel;

    open spec fn deep_view(&self) -> ToolVersionModel {
        ToolVersionModel { tool: self.tool@, version: self.version@ }
    }
}

/// What a language adapter says of one unit.
#[derive(Debug)]
pub struct AdapterFacts {
    pub id: String,
    pub default_tasks: Vec<DefaultTask>,
    pub fingerprint_files: Vec<String>,
    /// Globs of what the adapter writes as it runs.
    pub derived_paths: Vec<String>,
    pub required_toolchain: Option<ToolVersion>,
    /// The version that is installed.
    pub resolved_toolchain: Option<String>,
}

#[verifier::ext_equal]
pub struct AdapterFactsModel {
    pub id: Seq<char>,
    pub default_tasks: Seq<DefaultTaskModel>,
    pub fingerprint_files: Seq<Seq<char>>,
    pub derived_paths: Seq<Seq<char>>,
    pub required_toolchain: Option<ToolVersionModel>,
    pub resolved_toolchain: Option<Seq<char>>,
}

impl DeepView for AdapterFacts {
    type V = AdapterFactsModel;

    open spec fn deep_view(&self) -> AdapterFactsModel {
        AdapterFactsModel {
            id: self.id@,
            default_tasks: self.default_tasks.deep_view(),
            fingerprint_files: self.fingerprint_files.deep_view(),
            derived_paths: self.derived_paths.deep_view(),
            required_toolchain: self.required_toolchain.deep_view(),
            resolved_toolchain: self.resolved_toolchain.deep_view(),
        }
    }
}

} // verus!
