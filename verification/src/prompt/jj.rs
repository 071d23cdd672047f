//! Where a jj working copy stands.
use vstd::prelude::*;

verus! {

/// The working-copy change.
pub struct Head {
    /// The shortest unique prefix of the change id.
    pub change_prefix: String,
    /// The rest of the shown change id.
    pub change_rest: String,
    pub flags: Flags,
    /// The bookmark the change descends from.
    pub bookmark: Option<Bookmark>,
}

#[derive(Debug, Clone, Copy, PartialEq, Eq, Structural)]
pub struct Flags {
    pub empty: bool,
    pub conflict: bool,
    pub divergent: bool,
}

pub struct Bookmark {
    pub names: String,
    /// How many changes lie between it and the working copy.
    pub distance: usize,
}

} // verus!
