//! The configured views.
use crate::text::{append_int, int_text, string_of, Text};
use vstd::prelude::*;

verus! {

/// A checked starting point for a view: a commit of the repository that owns
/// the path, and the published commit of the same snapshot, both in
/// hexadecimal.
#[derive(Debug, Clone)]
pub struct AnchorIds {
    pub source: String,
    pub view: String,
}

/// A path prefix of a repository that is also published as a repository of
/// its own.
#[derive(Debug, Clone)]
pub struct ViewConfig {
    pub name: String,
    pub path: String,
    pub remote: String,
    /// The default branch of the published repository.
    pub branch: String,
    /// The remote of a read-only upstream.
    pub upstream: Option<String>,
    pub anchor: Option<AnchorIds>,
    /// Whether the published anchor has no parents.
    pub root_anchor: bool,
}

/// A number of commits in words.
pub open spec fn commits_text(n: usize) -> Seq<char> {
    int_text(n as int) + (if n == 1 {
        " commit"@
    } else {
        " commits"@
    })
}

pub fn commits(n: usize) -> (r: String)
    ensures
        r@ == commits_text(n),
{
    let mut t: Text = Vec::new();
    append_int(&mut t, n as i128);
    crate::text::append_str(
        &mut t,
        if n == 1 {
            " commit"
        } else {
            " commits"
        },
    );
    assert(t@ =~= commits_text(n));
    string_of(&t)
}

} // verus!
