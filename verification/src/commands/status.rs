//! Where each configured view stands against its published repository.
use crate::commands::config::{commits, commits_text, ViewConfig};
use crate::text::{append_str, string_of, text_of, Text};
use vstd::prelude::*;

verus! {

/// What to report on.
#[derive(Debug, Clone)]
pub struct ViewsStatusArgs {
    /// Views to report on, by their keys; every configured one by default.
    pub views: Vec<String>,
    /// Compare one view with its read-only upstream endpoint.
    pub upstream: Option<String>,
    /// Bookmark the views are derived from.
    pub bookmark: String,
    /// Report against the last fetch.
    pub no_fetch: bool,
    /// Emit one JSON object.
    pub json: bool,
}

impl ViewsStatusArgs {
    /// The names the report is about: the one compared with its upstream, or
    /// the ones listed.
    pub fn selected_names(&self) -> (r: Vec<String>)
        ensures
            r@.len() == (if self.upstream is Some {
                1
            } else {
                self.views@.len()
            }),
            match self.upstream {
                Some(u) => r@[0]@ == u@,
                None => forall|i: int| 0 <= i < r@.len() ==> (#[trigger] r@[i])@ == self.views@[i]@,
            },
    {
        let mut out: Vec<String> = Vec::new();
        if let Some(u) = &self.upstream {
            out.push(u.clone());
            return out;
        }
        let mut i: usize = 0;
        while i < self.views.len()
            invariant
                i <= self.views.len(),
                out@.len() == i,
                forall|j: int| 0 <= j < i ==> (#[trigger] out@[j])@ == self.views@[j]@,
            decreases self.views.len() - i,
        {
            out.push(self.views[i].clone());
            i += 1;
        }
        out
    }
}

/// How a view and its published branch lie to each other.
#[derive(Debug, Clone, Copy, PartialEq, Eq, Structural)]
pub enum Position {
    Current,
    LocalAhead,
    FastForward,
    Diverged,
}

/// What a survey of one view found.
#[derive(Debug, Clone)]
pub struct Survey {
    pub view: ViewConfig,
    pub remote: String,
    pub branch: String,
    /// The view's tip here.
    pub derived: Option<String>,
    /// The published tip.
    pub upstream: String,
    pub ahead: usize,
    /// How many published commits have not arrived here.
    pub incoming: usize,
    /// How many arrived commits the view drops.
    pub elided: usize,
    pub position: Position,
}

#[derive(Debug, Clone, Copy, PartialEq, Eq, Structural)]
pub enum ViewState {
    UpToDate,
    LocalAhead,
    FastForward,
    Diverged,
}

/// The name of a state in a report.
pub open spec fn state_text(s: ViewState) -> Seq<char> {
    match s {
        ViewState::UpToDate => "up_to_date"@,
        ViewState::LocalAhead => "local_ahead"@,
        ViewState::FastForward => "fast_forward"@,
        ViewState::Diverged => "diverged"@,
    }
}

impl ViewState {
    pub fn as_str(self) -> (r: &'static str)
        ensures
            r@ == state_text(self),
    {
        match self {
            ViewState::UpToDate => "up_to_date",
            ViewState::LocalAhead => "local_ahead",
            ViewState::FastForward => "fast_forward",
            ViewState::Diverged => "diverged",
        }
    }
}

/// One view's entry in a report.
pub struct ViewStatus {
    pub name: String,
    pub path: String,
    pub remote: String,
    pub branch: String,
    pub anchor_source: Option<String>,
    pub anchor_view: Option<String>,
    pub anchor_tree_matches: Option<bool>,
    pub local_commit: Option<String>,
    pub published_commit: String,
    pub ahead: usize,
    pub behind: usize,
    pub elided: usize,
    pub state: ViewState,
}

pub open spec fn state_of(p: Position) -> ViewState {
    match p {
        Position::Current => ViewState::UpToDate,
        Position::LocalAhead => ViewState::LocalAhead,
        Position::FastForward => ViewState::FastForward,
        Position::Diverged => ViewState::Diverged,
    }
}

/// Whether two optional texts are the same.
pub open spec fn same_option(a: Option<String>, b: Option<String>) -> bool {
    match (a, b) {
        (Some(x), Some(y)) => x@ == y@,
        (None, None) => true,
        _ => false,
    }
}

fn copy_option(a: &Option<String>) -> (r: Option<String>)
    ensures
        same_option(*a, r),
{
    match a {
        Some(s) => Some(s.clone()),
        None => None,
    }
}

impl ViewStatus {
    /// The report entry of a survey. An anchor is only ever recorded after
    /// its trees were found to match.
    pub fn from_survey(survey: &Survey) -> (r: ViewStatus)
        ensures
            r.name@ == survey.view.name@,
            r.path@ == survey.view.path@,
            r.remote@ == survey.remote@,
            r.branch@ == survey.branch@,
            match survey.view.anchor {
                Some(a) => r.anchor_source is Some && r.anchor_source->0@ == a.source@
                    && r.anchor_view is Some && r.anchor_view->0@ == a.view@
                    && r.anchor_tree_matches == Some(true),
                None => r.anchor_source is None && r.anchor_view is None
                    && r.anchor_tree_matches is None,
            },
            same_option(survey.derived, r.local_commit),
            r.published_commit@ == survey.upstream@,
            r.ahead == survey.ahead,
            r.behind == survey.incoming,
            r.elided == survey.elided,
            r.state == state_of(survey.position),
    {
        let (anchor_source, anchor_view, anchor_tree_matches) = match &survey.view.anchor {
            Some(a) => (Some(a.source.clone()), Some(a.view.clone()), Some(true)),
            None => (None, None, None),
        };
        ViewStatus {
            name: survey.view.name.clone(),
            path: survey.view.path.clone(),
            remote: survey.remote.clone(),
            branch: survey.branch.clone(),
            anchor_source,
            anchor_view,
            anchor_tree_matches,
            local_commit: copy_option(&survey.derived),
            published_commit: survey.upstream.clone(),
            ahead: survey.ahead,
            behind: survey.incoming,
            elided: survey.elided,
            state: match survey.position {
                Position::Current => ViewState::UpToDate,
                Position::LocalAhead => ViewState::LocalAhead,
                Position::FastForward => ViewState::FastForward,
                Position::Diverged => ViewState::Diverged,
            },
        }
    }
}

/// Whether a report asks the published repositories where they are now.
#[derive(Debug, Clone, Copy, PartialEq, Eq, Structural)]
pub enum Freshness {
    Fetch,
    AsOfLastFetch,
}

impl ViewsStatusArgs {
    pub fn freshness(&self) -> (r: Freshness)
        ensures
            r == (if self.no_fetch {
                Freshness::AsOfLastFetch
            } else {
                Freshness::Fetch
            }),
    {
        if self.no_fetch {
            Freshness::AsOfLastFetch
        } else {
            Freshness::Fetch
        }
    }
}

/// The one-line answer to "where is this view".
pub open spec fn headline_text(s: Survey) -> Seq<char> {
    match s.position {
        Position::Current => "up to date."@,
        Position::LocalAhead => commits_text(s.ahead) + " ahead of "@ + s.remote@
            + "; run `jj views push`."@,
        Position::FastForward => commits_text(s.incoming) + " behind "@ + s.remote@
            + "; run `jj views fetch`."@,
        Position::Diverged => "diverged from "@ + s.remote@
            + "; run `jj views fetch` to bring the published commits in beside this history, then `jj new`."@,
    }
}

pub fn headline(survey: &Survey) -> (r: String)
    ensures
        r@ == headline_text(*survey),
{
    let mut t: Text = Vec::new();
    match survey.position {
        Position::Current => append_str(&mut t, "up to date."),
        Position::LocalAhead => {
            append_str(&mut t, &commits(survey.ahead));
            append_str(&mut t, " ahead of ");
            append_str(&mut t, &survey.remote);
            append_str(&mut t, "; run `jj views push`.");
        },
        Position::FastForward => {
            append_str(&mut t, &commits(survey.incoming));
            append_str(&mut t, " behind ");
            append_str(&mut t, &survey.remote);
            append_str(&mut t, "; run `jj views fetch`.");
        },
        Position::Diverged => {
            append_str(&mut t, "diverged from ");
            append_str(&mut t, &survey.remote);
            append_str(
                &mut t,
                "; run `jj views fetch` to bring the published commits in beside this history, then `jj new`.",
            );
        },
    }
    assert(t@ =~= headline_text(*survey));
    string_of(&t)
}

/// The first line under the headline: the tip here.
pub open spec fn here_line(s: Survey) -> Seq<char> {
    match s.derived {
        Some(tip) => "here: "@ + tip@ + " (from "@ + s.view.path@ + ")"@,
        None => "here: nothing under "@ + s.view.path@
            + " yet, so a fetch would import the whole history."@,
    }
}

/// The lines under the headline, each one a number the headline cannot carry.
/// The last one is the note on elided commits.
pub open spec fn detail_lines(s: Survey, note: Seq<char>) -> Seq<Seq<char>> {
    let first = seq![
        here_line(s),
        s.remote@ + ": "@ + s.upstream@ + " ("@ + s.branch@ + ")"@,
    ];
    let ahead = if s.ahead > 0 && s.position != Position::LocalAhead {
        first.push(commits_text(s.ahead) + " here not published yet."@)
    } else {
        first
    };
    if s.elided > 0 {
        ahead.push(note)
    } else {
        ahead
    }
}

fn here_text(survey: &Survey) -> (t: Text)
    ensures
        t@ == here_line(*survey),
{
    let mut t: Text = Vec::new();
    match &survey.derived {
        Some(tip) => {
            append_str(&mut t, "here: ");
            append_str(&mut t, tip);
            append_str(&mut t, " (from ");
            append_str(&mut t, &survey.view.path);
            append_str(&mut t, ")");
        },
        None => {
            append_str(&mut t, "here: nothing under ");
            append_str(&mut t, &survey.view.path);
            append_str(&mut t, " yet, so a fetch would import the whole history.");
        },
    }
    assert(t@ =~= here_line(*survey));
    t
}

/// Texts as their model.
pub open spec fn strings_view(v: Seq<String>) -> Seq<Seq<char>> {
    Seq::new(v.len(), |i: int| v[i]@)
}

pub fn detail(survey: &Survey, elided_note: &str) -> (r: Vec<String>)
    ensures
        strings_view(r@) == detail_lines(*survey, elided_note@),
{
    let mut lines: Vec<String> = Vec::new();
    lines.push(string_of(&here_text(survey)));
    let mut t = text_of(&survey.remote);
    append_str(&mut t, ": ");
    append_str(&mut t, &survey.upstream);
    append_str(&mut t, " (");
    append_str(&mut t, &survey.branch);
    append_str(&mut t, ")");
    lines.push(string_of(&t));
    if survey.ahead > 0 && survey.position != Position::LocalAhead {
        let mut t = text_of(&commits(survey.ahead));
        append_str(&mut t, " here not published yet.");
        lines.push(string_of(&t));
    }
    if survey.elided > 0 {
        lines.push(elided_note.to_owned());
    }
    assert(strings_view(lines@) =~= detail_lines(*survey, elided_note@));
    lines
}

/// What a report says about one view: its name and the headline, and the
/// details below, set in.
pub open spec fn report_text(s: Survey, note: Seq<char>) -> Seq<Seq<char>> {
    let d = detail_lines(s, note);
    seq![s.view.name@ + ": "@ + headline_text(s)] + Seq::new(d.len(), |i: int| "  "@ + d[i])
}

pub fn report_lines(survey: &Survey, elided_note: &str) -> (r: Vec<String>)
    ensures
        strings_view(r@) == report_text(*survey, elided_note@),
{
    let mut out: Vec<String> = Vec::new();
    let mut t = text_of(&survey.view.name);
    append_str(&mut t, ": ");
    append_str(&mut t, &headline(survey));
    out.push(string_of(&t));
    let lines = detail(survey, elided_note);
    let ghost d = detail_lines(*survey, elided_note@);
    let ghost first = out@[0]@;
    let mut i: usize = 0;
    while i < lines.len()
        invariant
            i <= lines.len(),
            strings_view(lines@) == d,
            out@.len() == i + 1,
            out@[0]@ == first,
            forall|j: int| 0 <= j < i ==> (#[trigger] out@[j + 1])@ == "  "@ + d[j],
        decreases lines.len() - i,
    {
        assert(d[i as int] == lines@[i as int]@);
        let mut t = text_of("  ");
        append_str(&mut t, &lines[i]);
        out.push(string_of(&t));
        i += 1;
    }
    assert forall|k: int| 0 <= k < out@.len() implies strings_view(out@)[k] == #[trigger] report_text(
        *survey,
        elided_note@,
    )[k] by {
        if k > 0 {
            assert(out@[(k - 1) + 1]@ == "  "@ + d[k - 1]);
        }
    }
    assert(strings_view(out@) =~= report_text(*survey, elided_note@));
    out
}

} // verus!
