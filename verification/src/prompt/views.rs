//! Which configured view owns the prompt directory, and where it stood at
//! the last survey.
use vstd::prelude::*;

verus! {

/// The view the prompt directory sits inside.
#[derive(Debug, Clone, PartialEq, Eq)]
pub struct View {
    pub name: String,
    /// Counts from the last survey; `None` for a view never surveyed.
    pub counts: Option<Counts>,
}

/// How the view stood against its published repository at the last survey.
#[derive(Debug, Clone, Copy, PartialEq, Eq, Structural)]
pub struct Counts {
    /// Published commits that had not arrived here.
    pub behind: usize,
    /// View commits here the published repository did not have.
    pub ahead: usize,
}

} // verus!
