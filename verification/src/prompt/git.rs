//! Where a git working tree stands.
use vstd::prelude::*;

verus! {

pub struct Head {
    pub name: HeadName,
    pub tracking: Option<Tracking>,
    pub counts: Counts,
}

pub enum HeadName {
    Branch(String),
    /// A commit that no branch names.
    Detached(String),
}

/// How the branch stands against the one it tracks.
#[derive(Debug, Clone, Copy, PartialEq, Eq, Structural)]
pub struct Tracking {
    pub ahead: usize,
    pub behind: usize,
}

/// How many paths are in each state.
#[derive(Debug, Clone, Copy, PartialEq, Eq, Structural)]
pub struct Counts {
    pub conflicted: usize,
    pub deleted: usize,
    pub renamed: usize,
    pub modified: usize,
    pub staged: usize,
    pub untracked: usize,
}

impl Default for Counts {
    fn default() -> (c: Counts)
        ensures
            c == (Counts {
                conflicted: 0,
                deleted: 0,
                renamed: 0,
                modified: 0,
                staged: 0,
                untracked: 0,
            }),
    {
        Counts { conflicted: 0, deleted: 0, renamed: 0, modified: 0, staged: 0, untracked: 0 }
    }
}

} // verus!
