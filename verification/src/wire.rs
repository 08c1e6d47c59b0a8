//! What the messages between the host and a plugin hold.
use vstd::prelude::*;

use crate::config::DefaultTask;
use crate::strmap::StrMap;

verus! {

/// What a plugin says of itself.
pub struct Manifest {
    pub protocol_version: u32,
    pub adapter_id: String,
    pub display_name: String,
    pub fingerprint_files: Vec<String>,
    pub default_tasks: Vec<DefaultTask>,
    pub capabilities: Capabilities,
    /// How to get diagnostics of a failed task, by the task's name.
    pub diagnostic_hooks: StrMap<ManifestDiagnosticHook>,
}

/// How to get diagnostics of a failed task.
#[derive(Debug)]
pub struct ManifestDiagnosticHook {
    pub rerun: ManifestRerun,
    /// The parser of the output: a built-in one, or `plugin`.
    pub parser: String,
}

#[verifier::ext_equal]
pub struct ManifestDiagnosticHookModel {
    pub rerun: ManifestRerunModel,
    pub parser: Seq<char>,
}

impl DeepView for ManifestDiagnosticHook {
    type V = ManifestDiagnosticHookModel;

    open spec fn deep_view(&self) -> ManifestDiagnosticHookModel {
        ManifestDiagnosticHookModel { rerun: self.rerun.deep_view(), parser: self.parser@ }
    }
}

/// How to run a failed task again.
#[derive(Debug)]
pub enum ManifestRerun {
    AppendArgs { args: Vec<String> },
    Replace { command: String },
}

#[verifier::ext_equal]
pub enum ManifestRerunModel {
    AppendArgs { args: Seq<Seq<char>> },
    Replace { command: Seq<char> },
}

impl DeepView for ManifestRerun {
    type V = ManifestRerunModel;

    open spec fn deep_view(&self) -> ManifestRerunModel {
        match self {
            ManifestRerun::AppendArgs { args } => ManifestRerunModel::AppendArgs { args: args.deep_view() },
            ManifestRerun::Replace { command } => ManifestRerunModel::Replace { command: command@ },
        }
    }
}

/// The output of a task, to be parsed by a plugin.
#[derive(Debug)]
pub struct ParseDiagnosticsParams {
    pub task_name: String,
    pub stdout: String,
    pub stderr: String,
    pub exit_status: i32,
    pub unit_dir: String,
    pub workspace_root: String,
}

/// The diagnostics that a plugin found.
#[derive(Debug)]
pub struct ParseDiagnosticsResult {
    pub diagnostics: Vec<DiagnosticPayload>,
}

/// A diagnostic.
#[derive(Debug)]
pub struct DiagnosticPayload {
    pub file: String,
    pub line: u32,
    pub col: Option<u32>,
    pub end_line: Option<u32>,
    pub end_col: Option<u32>,
    pub severity: String,
    pub message: String,
    pub rule: Option<String>,
    pub source: String,
}

/// What a plugin offers.
#[derive(Debug, Clone, Copy, PartialEq, Eq, Structural)]
pub struct Capabilities {
    pub detect: bool,
    pub required_toolchain: bool,
    pub resolved_toolchain_fingerprint: bool,
    pub install: bool,
}

impl Default for Capabilities {
    /// What a plugin offers that says nothing of it.
    fn default() -> (r: Self)
        ensures
            r == (Capabilities {
                detect: true,
                required_toolchain: true,
                resolved_toolchain_fingerprint: false,
                install: true,
            }),
    {
        Capabilities {
            detect: true,
            required_toolchain: true,
            resolved_toolchain_fingerprint: false,
            install: true,
        }
    }
}

/// A log entry of a plugin.
#[derive(Debug)]
pub struct LogParams {
    pub level: LogLevel,
    pub stream: Option<LogStream>,
    pub message: String,
}

/// How grave a log entry is.
#[derive(Debug, Clone, Copy, PartialEq, Eq, Structural)]
pub enum LogLevel {
    Trace,
    Debug,
    Info,
    Warn,
    Error,
}

/// The stream that a log entry came from.
#[derive(Debug, Clone, Copy, PartialEq, Eq, Structural)]
pub enum LogStream {
    Stdout,
    Stderr,
}

} // verus!
