//! The workspace that a server is pinned to.
use vstd::prelude::*;

use crate::plan::WorkspaceNotFound;
use crate::text::{cat, copy};

verus! {

/// The workspace that a server is pinned to, where there is one.
pub struct WorkspaceCtx {
    workspace_root: Option<String>,
}

/// What is said where there is no workspace.
pub const NO_WORKSPACE: &'static str = "no monad workspace resolved — launch `monad-mcp` with `--workspace <PATH>` or export `$MONAD_WORKSPACE_ROOT`";

impl WorkspaceCtx {
    /// The root of the workspace.
    pub closed spec fn root(self) -> Option<Seq<char>> {
        self.workspace_root.deep_view()
    }

    /// The context of a server that looked for a workspace. That there is none is no error.
    pub fn resolve(found: Result<String, WorkspaceNotFound>) -> (r: WorkspaceCtx)
        ensures
            r.root() == (match found {
                Ok(root) => Some(root@),
                Err(_) => None,
            }),
    {
        match found {
            Ok(root) => WorkspaceCtx { workspace_root: Some(root) },
            Err(_) => WorkspaceCtx { workspace_root: None },
        }
    }

    /// The root of the workspace.
    pub fn workspace_root(&self) -> (r: Option<&str>)
        ensures
            r.deep_view() == self.root(),
    {
        match &self.workspace_root {
            Some(p) => Some(p.as_str()),
            None => None,
        }
    }

    /// The root of the workspace, or what to say where there is none.
    pub fn require_workspace_root(&self) -> (r: Result<String, String>)
        ensures
            match r {
                Ok(p) => self.root() == Some(p@),
                Err(e) => self.root() is None && e@ == NO_WORKSPACE@,
            },
    {
        match &self.workspace_root {
            Some(p) => Ok(copy(p.as_str())),
            None => Err(copy(NO_WORKSPACE)),
        }
    }

    /// The answer to a ping.
    pub fn pong(&self) -> (r: String)
        ensures
            r@ == "pong · workspace_root = "@ + (match self.root() {
                Some(p) => p,
                None => "(unresolved)"@,
            }),
    {
        match &self.workspace_root {
            Some(p) => cat("pong · workspace_root = ", p.as_str()),
            None => cat("pong · workspace_root = ", "(unresolved)"),
        }
    }
}

} // verus!
