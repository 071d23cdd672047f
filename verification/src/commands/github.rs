//! Links into the one forge whose remotes are recognized.
use crate::lang::host::without_slashes;
use crate::lang::strings::slice_of;
use crate::text::{append_str, string_of, text_of, Text};
use vstd::prelude::*;

verus! {

/// Whether a text begins with another.
pub open spec fn begins(t: Seq<char>, p: Seq<char>) -> bool {
    t.len() >= p.len() && t.take(p.len() as int) == p
}

/// Whether a text ends with another.
pub open spec fn ends(t: Seq<char>, p: Seq<char>) -> bool {
    t.len() >= p.len() && t.skip(t.len() - p.len()) == p
}

/// What follows the host in the spellings of a GitHub remote.
pub open spec fn after_host(remote: Seq<char>) -> Option<Seq<char>> {
    if begins(remote, "git@github.com:"@) {
        Some(remote.skip("git@github.com:"@.len() as int))
    } else if begins(remote, "ssh://git@github.com/"@) {
        Some(remote.skip("ssh://git@github.com/"@.len() as int))
    } else if begins(remote, "https://github.com/"@) {
        Some(remote.skip("https://github.com/"@.len() as int))
    } else if begins(remote, "http://github.com/"@) {
        Some(remote.skip("http://github.com/"@.len() as int))
    } else {
        None
    }
}

/// A path without `.git` and without trailing slashes.
pub open spec fn bare_path(t: Seq<char>) -> Seq<char> {
    without_slashes(
        if ends(t, ".git"@) {
            t.take(t.len() - ".git"@.len())
        } else {
            t
        },
    )
}

/// Whether a path is two components, neither empty.
pub open spec fn two_components(t: Seq<char>) -> bool {
    exists|k: int|
        0 < k < t.len() - 1 && #[trigger] t[k] == '/' && forall|j: int|
            0 <= j < t.len() && #[trigger] t[j] == '/' ==> j == k
}

/// `owner/name` for the spellings of a GitHub remote; nothing for a shape
/// that is not known.
pub open spec fn repo_path(remote: Seq<char>) -> Option<Seq<char>> {
    match after_host(remote) {
        None => None,
        Some(rest) => if two_components(bare_path(rest)) {
            Some(bare_path(rest))
        } else {
            None
        },
    }
}

fn begins_with(t: &Text, p: &Text) -> (r: bool)
    ensures
        r == begins(t@, p@),
{
    if t.len() < p.len() {
        return false;
    }
    let mut i: usize = 0;
    while i < p.len()
        invariant
            i <= p.len(),
            p.len() <= t.len(),
            forall|j: int| 0 <= j < i ==> t@[j] == p@[j],
        decreases p.len() - i,
    {
        if t[i] != p[i] {
            assert(t@.take(p@.len() as int)[i as int] != p@[i as int]);
            return false;
        }
        i += 1;
    }
    assert(t@.take(p@.len() as int) =~= p@);
    true
}

fn strip_prefix(t: &Text, prefix: &str) -> (r: Option<Text>)
    ensures
        match r {
            Some(s) => begins(t@, prefix@) && s@ == t@.skip(prefix@.len() as int),
            None => !begins(t@, prefix@),
        },
{
    let p = text_of(prefix);
    if begins_with(t, &p) {
        let s = slice_of(t, p.len(), t.len());
        assert(s@ =~= t@.skip(prefix@.len() as int));
        Some(s)
    } else {
        None
    }
}

fn strip_git(t: &Text) -> (r: Text)
    ensures
        r@ == (if ends(t@, ".git"@) {
            t@.take(t@.len() - ".git"@.len())
        } else {
            t@
        }),
{
    let p = text_of(".git");
    if t.len() >= p.len() {
        let cut = t.len() - p.len();
        let tail = slice_of(t, cut, t.len());
        assert(tail@ =~= t@.skip(cut as int));
        if crate::lang::heap::same_text(&tail, &p) {
            let r = slice_of(t, 0, cut);
            assert(r@ =~= t@.take(cut as int));
            return r;
        }
    }
    crate::text::copy_of(t)
}

fn strip_slashes(t: Text) -> (r: Text)
    ensures
        r@ == without_slashes(t@),
{
    let mut r = t;
    while r.len() > 0 && r[r.len() - 1] == '/'
        invariant
            without_slashes(r@) == without_slashes(t@),
        decreases r.len(),
    {
        let _ = r.pop();
    }
    r
}

fn has_two_components(t: &Text) -> (r: bool)
    ensures
        r == two_components(t@),
{
    let mut at: Option<usize> = None;
    let mut i: usize = 0;
    while i < t.len()
        invariant
            i <= t.len(),
            match at {
                None => forall|j: int| 0 <= j < i ==> #[trigger] t@[j] != '/',
                Some(k) => k < i && t@[k as int] == '/' && forall|j: int|
                    0 <= j < i && #[trigger] t@[j] == '/' ==> j == k,
            },
        decreases t.len() - i,
    {
        if t[i] == '/' {
            if at.is_some() {
                return false;
            }
            at = Some(i);
        }
        i += 1;
    }
    match at {
        None => false,
        Some(k) => {
            assert(t@[k as int] == '/');
            0 < k && k < t.len() - 1
        },
    }
}

/// An optional text as its model.
pub open spec fn string_view(s: Option<String>) -> Option<Seq<char>> {
    match s {
        Some(s) => Some(s@),
        None => None,
    }
}

/// `owner/name` for the three spellings of a GitHub remote.
pub fn github_repo(remote: &str) -> (r: Option<String>)
    ensures
        string_view(r) == repo_path(remote@),
{
    let t = text_of(remote);
    let rest = match strip_prefix(&t, "git@github.com:") {
        Some(s) => s,
        None => match strip_prefix(&t, "ssh://git@github.com/") {
            Some(s) => s,
            None => match strip_prefix(&t, "https://github.com/") {
                Some(s) => s,
                None => match strip_prefix(&t, "http://github.com/") {
                    Some(s) => s,
                    None => return None,
                },
            },
        },
    };
    let path = strip_slashes(strip_git(&rest));
    if has_two_components(&path) {
        Some(string_of(&path))
    } else {
        None
    }
}

/// The link that opens a pull request from `head` into `base`. There is none
/// from a branch to itself, and none on a forge that is not recognized.
pub open spec fn pull_request(remote: Seq<char>, base: Seq<char>, head: Seq<char>) -> Option<
    Seq<char>,
> {
    if base == head {
        None
    } else {
        match repo_path(remote) {
            None => None,
            Some(repo) => Some(
                "https://github.com/"@ + repo + "/compare/"@ + base + "..."@ + head + "?expand=1"@,
            ),
        }
    }
}

/// The URL that opens a pull request from `head` into `base`, when the remote
/// is one whose shape is known.
pub fn pull_request_url(remote: &str, base: &str, head: &str) -> (r: Option<String>)
    ensures
        string_view(r) == pull_request(remote@, base@, head@),
{
    if crate::lang::heap::same_text(&text_of(base), &text_of(head)) {
        return None;
    }
    match github_repo(remote) {
        None => None,
        Some(repo) => {
            let mut t = text_of("https://github.com/");
            append_str(&mut t, &repo);
            append_str(&mut t, "/compare/");
            append_str(&mut t, base);
            append_str(&mut t, "...");
            append_str(&mut t, head);
            append_str(&mut t, "?expand=1");
            Some(string_of(&t))
        },
    }
}

} // verus!
