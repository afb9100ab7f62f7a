use vstd::prelude::*;

use crate::errors::CoherenceError;

verus! {

/// One commit of a project's history, as the UI shows it.
#[derive(Debug, Clone, PartialEq)]
pub struct CommitInfo {
    pub id: String,
    pub message: Option<String>,
    pub author: Option<String>,
    pub email: Option<String>,
    pub timestamp: i64,
    pub parents: Vec<String>,
}

/// One local branch and the commit it points at.
#[derive(Debug, Clone, PartialEq)]
pub struct BranchInfo {
    pub name: String,
    pub tip: String,
}

/// A project's commit history: the commits reachable from any local
/// branch, the current head, and the branches themselves.
#[derive(Debug, Clone, PartialEq)]
pub struct CommitGraph {
    pub commits: Vec<CommitInfo>,
    pub head: Option<String>,
    pub branches: Vec<BranchInfo>,
}

impl CommitGraph {
    pub fn new(commits: Vec<CommitInfo>, head: Option<String>, branches: Vec<BranchInfo>) -> (r:
        Self)
        ensures
            r.commits == commits,
            r.head == head,
            r.branches == branches,
    {
        Self { commits, head, branches }
    }
}

impl BranchInfo {
    pub fn new(name: String, tip: String) -> (r: Self)
        ensures
            r.name == name,
            r.tip == tip,
    {
        Self { name, tip }
    }
}

/// The shape of a version-control backend for a project's working
/// directory.  The real backend lives outside this crate.
pub trait Git: Sized {
    fn new() -> Self;

    fn init() -> Result<(), CoherenceError>;
}

/// A stand-in backend that only remembers where the repository root
/// would be.
#[derive(Debug, Clone, PartialEq)]
pub struct GitImpl {
    pub root_dir: Option<String>,
}

impl GitImpl {
    pub fn new() -> (r: Self)
        ensures
            r.root_dir is None,
    {
        GitImpl { root_dir: None }
    }

    pub fn set_path(_path: String) {
    }
}

} // verus!
