//! Pushing each configured view to the repository it belongs to: what is
//! refused before anything is sent, in which order views are sent, and what
//! is said about the outcome.
use crate::commands::config::ViewConfig;
use crate::commands::github::{pull_request, pull_request_url, string_view};
use crate::commands::status::{strings_view, Position};
use crate::lang::heap::same_text;
use crate::lang::strings::slice_of;
use crate::text::{append_str, lines, lines_of, string_of, text_of, texts_view, Text};
use vstd::prelude::*;

verus! {

/// What to push and how.
#[derive(Debug, Clone)]
pub struct ViewsPushArgs {
    /// Views to push, by their keys; every configured one by default.
    pub views: Vec<String>,
    /// Revision whose view to push.
    pub revision: String,
    /// Branch to push under, instead of the generated name.
    pub branch: Option<String>,
    /// Permit `branch` to name a view's own default branch.
    pub allow_default_branch: bool,
    /// Allow pushing a view whose tip commit has an empty description.
    pub allow_empty_description: bool,
    /// Report what would be pushed, without pushing.
    pub dry_run: bool,
}

/// A refusal and what to do about it.
pub struct Refusal {
    pub message: String,
    pub hint: String,
}

/// A refusal as its message and hint.
pub open spec fn refusal_view(r: Option<Refusal>) -> Option<(Seq<char>, Seq<char>)> {
    match r {
        Some(r) => Some((r.message@, r.hint@)),
        None => None,
    }
}

/// The first view from `i` on whose default branch this is.
pub open spec fn default_of(views: Seq<ViewConfig>, branch: Seq<char>, i: int) -> int
    decreases views.len() - i,
{
    if i >= views.len() || views[i].branch@ == branch {
        i
    } else {
        default_of(views, branch, i + 1)
    }
}

/// Writing a view's own default branch takes saying so twice.
pub open spec fn branch_refusal(views: Seq<ViewConfig>, branch: Seq<char>, allow: bool) -> Option<
    (Seq<char>, Seq<char>),
> {
    let at = default_of(views, branch, 0);
    if allow || at >= views.len() {
        None
    } else {
        Some(
            (
                "Refusing to push to "@ + branch + ", the default branch of the "@ + views[at].name@
                    + " view at "@ + views[at].remote@,
                "Pass --allow-default-branch as well if that is really what you want, or drop --branch to push a new branch and open a pull request."@,
            ),
        )
    }
}

pub fn refuse_default_branch(views: &Vec<ViewConfig>, branch: &str, allow: bool) -> (r: Option<
    Refusal,
>)
    ensures
        refusal_view(r) == branch_refusal(views@, branch@, allow),
{
    if allow {
        return None;
    }
    let name = text_of(branch);
    let mut i: usize = 0;
    while i < views.len() && !same_text(&text_of(&views[i].branch), &name)
        invariant
            i <= views.len(),
            name@ == branch@,
            default_of(views@, branch@, i as int) == default_of(views@, branch@, 0),
        decreases views.len() - i,
    {
        i += 1;
    }
    if i >= views.len() {
        return None;
    }
    let mut t = text_of("Refusing to push to ");
    append_str(&mut t, branch);
    append_str(&mut t, ", the default branch of the ");
    append_str(&mut t, &views[i].name);
    append_str(&mut t, " view at ");
    append_str(&mut t, &views[i].remote);
    Some(
        Refusal {
            message: string_of(&t),
            hint: "Pass --allow-default-branch as well if that is really what you want, or drop --branch to push a new branch and open a pull request.".to_owned(),
        },
    )
}

/// The complaint about a view without any history.
pub open spec fn no_history_text(view: ViewConfig, args: ViewsPushArgs) -> Seq<char> {
    "Nothing under "@ + view.path@ + " anywhere in the ancestry of "@ + args.revision@
        + ", so the "@ + view.name@ + " view has no history to push"@
}

pub fn no_history(view: &ViewConfig, args: &ViewsPushArgs) -> (r: String)
    ensures
        r@ == no_history_text(*view, *args),
{
    let mut t = text_of("Nothing under ");
    append_str(&mut t, &view.path);
    append_str(&mut t, " anywhere in the ancestry of ");
    append_str(&mut t, &args.revision);
    append_str(&mut t, ", so the ");
    append_str(&mut t, &view.name);
    append_str(&mut t, " view has no history to push");
    string_of(&t)
}

/// Whether a byte is ASCII whitespace.
pub open spec fn blank_byte(b: u8) -> bool {
    b == 32 || b == 9 || b == 10 || b == 12 || b == 13
}

/// Whether a commit message says nothing.
pub fn is_blank(message: &Vec<u8>) -> (r: bool)
    ensures
        r == forall|i: int| 0 <= i < message@.len() ==> blank_byte(#[trigger] message@[i]),
{
    let mut i: usize = 0;
    while i < message.len()
        invariant
            i <= message.len(),
            forall|j: int| 0 <= j < i ==> blank_byte(#[trigger] message@[j]),
        decreases message.len() - i,
    {
        let b = message[i];
        if !(b == 32 || b == 9 || b == 10 || b == 12 || b == 13) {
            assert(!blank_byte(message@[i as int]));
            return false;
        }
        i += 1;
    }
    true
}

/// The first twelve digits of an id.
pub open spec fn short_id(id: Seq<char>) -> Seq<char> {
    if id.len() > 12 {
        id.take(12)
    } else {
        id
    }
}

/// A view's tip is described, or the user says that it need not be.
pub fn refuse_empty_description(
    view: &ViewConfig,
    tip: &str,
    empty: bool,
    args: &ViewsPushArgs,
) -> (r: Option<Refusal>)
    ensures
        refusal_view(r) == (if !args.allow_empty_description && empty {
            Some(
                (
                    "Won't push the "@ + view.name@ + " view: its tip "@ + short_id(tip@)
                        + " has no description"@,
                    "Describe the revision the view derives from, or pass --allow-empty-description."@,
                ),
            )
        } else {
            None
        }),
{
    if args.allow_empty_description || !empty {
        return None;
    }
    let mut t = text_of("Won't push the ");
    append_str(&mut t, &view.name);
    append_str(&mut t, " view: its tip ");
    let id = text_of(tip);
    if id.len() > 12 {
        let short = slice_of(&id, 0, 12);
        assert(short@ =~= id@.take(12));
        crate::text::append_all(&mut t, &short);
    } else {
        crate::text::append_all(&mut t, &id);
    }
    append_str(&mut t, " has no description");
    Some(
        Refusal {
            message: string_of(&t),
            hint: "Describe the revision the view derives from, or pass --allow-empty-description.".to_owned(),
        },
    )
}

/// A view about to be sent: its tip, and the published tip it adds nothing
/// to, where that is so.
pub struct Planned {
    pub view: ViewConfig,
    pub tip: String,
    pub published: Option<String>,
}

/// What a dry run says about one view.
pub open spec fn dry_line(p: Planned, branch: Seq<char>) -> Seq<char> {
    match p.published {
        Some(published) => p.view.name@ + ": no content beyond "@ + p.view.branch@ + " at "@
            + published@ + "; nothing to push."@,
        None => p.view.name@ + ": would push "@ + p.tip@ + " to "@ + p.view.remote@ + " as "@
            + branch,
    }
}

fn dry_text(p: &Planned, branch: &str) -> (r: String)
    ensures
        r@ == dry_line(*p, branch@),
{
    let mut t = text_of(&p.view.name);
    match &p.published {
        Some(published) => {
            append_str(&mut t, ": no content beyond ");
            append_str(&mut t, &p.view.branch);
            append_str(&mut t, " at ");
            append_str(&mut t, published);
            append_str(&mut t, "; nothing to push.");
        },
        None => {
            append_str(&mut t, ": would push ");
            append_str(&mut t, &p.tip);
            append_str(&mut t, " to ");
            append_str(&mut t, &p.view.remote);
            append_str(&mut t, " as ");
            append_str(&mut t, branch);
        },
    }
    string_of(&t)
}

/// What a dry run says.
pub fn dry_run_lines(plan: &Vec<Planned>, branch: &str) -> (r: Vec<String>)
    ensures
        strings_view(r@) == Seq::new(plan@.len(), |i: int| dry_line(plan@[i], branch@)).push(
            "Dry-run requested, not pushing."@,
        ),
{
    let mut out: Vec<String> = Vec::new();
    let mut i: usize = 0;
    while i < plan.len()
        invariant
            i <= plan.len(),
            out@.len() == i,
            forall|j: int| 0 <= j < i ==> (#[trigger] out@[j])@ == dry_line(plan@[j], branch@),
        decreases plan.len() - i,
    {
        out.push(dry_text(&plan[i], branch));
        i += 1;
    }
    out.push("Dry-run requested, not pushing.".to_owned());
    assert(strings_view(out@) =~= Seq::new(
        plan@.len(),
        |i: int| dry_line(plan@[i], branch@),
    ).push("Dry-run requested, not pushing."@));
    out
}

// -- sending -----------------------------------------------------------------

/// What happened to one view.
pub enum Outcome {
    /// The branch was written on the remote.
    Pushed { url: Option<String> },
    /// The remote branch was already this commit.
    Current { url: Option<String> },
    /// The derived tip adds no content to the integrated published branch.
    NoChanges { published: String },
    /// The push was refused or failed. Carries what was said.
    Failed(String),
    /// An earlier view failed, so this one was never sent.
    NotAttempted,
}

/// Whether a remote branch already is at a commit.
pub open spec fn already(observed: Option<String>, tip: Seq<char>) -> bool {
    observed is Some && observed->0@ == tip
}

/// What the state of the remote branch decides before anything is sent:
/// nothing where it has to be sent.
pub fn before_push(view: &ViewConfig, tip: &str, branch: &str, observed: &Result<
    Option<String>,
    String,
>) -> (r: Option<Outcome>)
    ensures
        match observed {
            Err(m) => r matches Some(Outcome::Failed(x)) && x@ == m@,
            Ok(at) => if already(*at, tip@) {
                r matches Some(Outcome::Current { url }) && string_view(url) == pull_request(
                    view.remote@,
                    view.branch@,
                    branch@,
                )
            } else {
                r is None
            },
        },
{
    match observed {
        Err(m) => Some(Outcome::Failed(m.clone())),
        Ok(at) => {
            let here = match at {
                Some(id) => same_text(&text_of(id), &text_of(tip)),
                None => false,
            };
            if here {
                Some(Outcome::Current { url: pull_request_url(&view.remote, &view.branch, branch) })
            } else {
                None
            }
        },
    }
}

/// What came of sending a view.
pub fn after_push(view: &ViewConfig, branch: &str, sent: Result<(), String>) -> (r: Outcome)
    ensures
        match sent {
            Ok(_) => r matches Outcome::Pushed { url } && string_view(url) == pull_request(
                view.remote@,
                view.branch@,
                branch@,
            ),
            Err(m) => r matches Outcome::Failed(x) && x@ == m@,
        },
{
    match sent {
        Ok(_) => Outcome::Pushed { url: pull_request_url(&view.remote, &view.branch, branch) },
        Err(m) => Outcome::Failed(m),
    }
}

/// Views being sent one after the other, up to the first failure.
pub struct PushRun {
    pub plan: Vec<Planned>,
    pub outcomes: Vec<Outcome>,
}

/// Whether a view counts as landed.
pub open spec fn landed(o: Outcome) -> bool {
    o is Pushed || o is Current || o is NoChanges
}

/// Whether what landed is a prefix of the order: everything up to the first
/// failure, and nothing after it was attempted.
pub open spec fn in_order(outcomes: Seq<Outcome>) -> bool {
    forall|i: int, j: int|
        0 <= i < j < outcomes.len() ==> (landed(#[trigger] outcomes[i]) || #[trigger] outcomes[j]
            is NotAttempted)
}

/// Whether some view could not be pushed.
pub open spec fn has_failed(outcomes: Seq<Outcome>) -> bool {
    exists|i: int| 0 <= i < outcomes.len() && #[trigger] outcomes[i] is Failed
}

/// Whether an outcome is what is decided without sending anything: a view
/// after a failure is not attempted, and one that adds nothing has no changes.
pub open spec fn unsent(p: Planned, failed: bool, o: Outcome) -> bool {
    if failed {
        o is NotAttempted
    } else {
        p.published is Some && o is NoChanges && o->published@ == p.published->0@
    }
}

impl PushRun {
    /// What every run keeps: outcomes belong to the first views of the plan,
    /// and what landed is a prefix of them.
    pub open spec fn wf(&self) -> bool {
        &&& self.outcomes@.len() <= self.plan@.len()
        &&& in_order(self.outcomes@)
        &&& forall|i: int|
            0 <= i < self.outcomes@.len() && !landed(#[trigger] self.outcomes@[i])
                ==> has_failed(self.outcomes@)
    }

    pub fn new(plan: Vec<Planned>) -> (r: PushRun)
        ensures
            r.wf(),
            r.plan@ == plan@,
            r.outcomes@.len() == 0,
    {
        PushRun { plan, outcomes: Vec::new() }
    }

    /// Whether a view could not be pushed.
    pub fn failed(&self) -> (r: bool)
        ensures
            r == has_failed(self.outcomes@),
    {
        let mut i: usize = 0;
        while i < self.outcomes.len()
            invariant
                i <= self.outcomes.len(),
                forall|j: int| 0 <= j < i ==> !(#[trigger] self.outcomes@[j] is Failed),
            decreases self.outcomes.len() - i,
        {
            if let Outcome::Failed(_) = &self.outcomes[i] {
                assert(self.outcomes@[i as int] is Failed);
                return true;
            }
            i += 1;
        }
        false
    }

    /// Passes over the views that need no sending, and says which view is to
    /// be sent next.
    pub fn advance(&mut self) -> (r: Option<usize>)
        requires
            old(self).wf(),
        ensures
            final(self).wf(),
            final(self).plan@ == old(self).plan@,
            old(self).outcomes@.is_prefix_of(final(self).outcomes@),
            has_failed(final(self).outcomes@) == has_failed(old(self).outcomes@),
            forall|i: int|
                old(self).outcomes@.len() <= i < final(self).outcomes@.len() ==> unsent(
                    final(self).plan@[i],
                    has_failed(old(self).outcomes@),
                    #[trigger] final(self).outcomes@[i],
                ),
            match r {
                None => final(self).outcomes@.len() == final(self).plan@.len(),
                Some(i) => {
                    &&& i == final(self).outcomes@.len()
                    &&& i < final(self).plan@.len()
                    &&& !has_failed(final(self).outcomes@)
                    &&& final(self).plan@[i as int].published is None
                },
            },
    {
        let failed = self.failed();
        while self.outcomes.len() < self.plan.len()
            invariant
                self.wf(),
                self.plan@ == old(self).plan@,
                old(self).outcomes@.is_prefix_of(self.outcomes@),
                failed == has_failed(old(self).outcomes@),
                failed == has_failed(self.outcomes@),
                forall|i: int|
                    old(self).outcomes@.len() <= i < self.outcomes@.len() ==> unsent(
                        self.plan@[i],
                        failed,
                        #[trigger] self.outcomes@[i],
                    ),
            decreases self.plan.len() - self.outcomes.len(),
        {
            let at = self.outcomes.len();
            let outcome = if failed {
                Outcome::NotAttempted
            } else {
                match &self.plan[at].published {
                    Some(published) => Outcome::NoChanges { published: published.clone() },
                    None => return Some(at),
                }
            };
            let ghost before = self.outcomes@;
            self.outcomes.push(outcome);
            proof {
                lemma_kept(before, outcome);
                assert(before =~= self.outcomes@.take(before.len() as int));
            }
        }
        None
    }

    /// Takes what came of the view that was to be sent.
    pub fn record(&mut self, outcome: Outcome)
        requires
            old(self).wf(),
            old(self).outcomes@.len() < old(self).plan@.len(),
            !has_failed(old(self).outcomes@),
            landed(outcome) || outcome is Failed,
        ensures
            final(self).wf(),
            final(self).plan@ == old(self).plan@,
            final(self).outcomes@ == old(self).outcomes@.push(outcome),
            has_failed(final(self).outcomes@) == (outcome is Failed),
    {
        let ghost before = self.outcomes@;
        self.outcomes.push(outcome);
        proof {
            lemma_kept(before, outcome);
        }
    }
}

/// One more outcome changes the verdict only where it is a failure.
proof fn lemma_kept(outcomes: Seq<Outcome>, o: Outcome)
    ensures
        has_failed(outcomes.push(o)) == (has_failed(outcomes) || o is Failed),
{
    let more = outcomes.push(o);
    if has_failed(outcomes) {
        let i = choose|i: int| 0 <= i < outcomes.len() && #[trigger] outcomes[i] is Failed;
        assert(more[i] is Failed);
    }
    if o is Failed {
        assert(more[outcomes.len() as int] is Failed);
    }
    if has_failed(more) {
        let i = choose|i: int| 0 <= i < more.len() && #[trigger] more[i] is Failed;
        if i < outcomes.len() {
            assert(outcomes[i] is Failed);
        }
    }
}

/// What landed is a prefix of the order, not an arbitrary subset: at most one
/// view fails, everything before it landed, and nothing after it was
/// attempted.
pub proof fn law_what_landed_is_a_prefix(run: PushRun, k: int)
    requires
        run.wf(),
        0 <= k < run.outcomes@.len(),
        run.outcomes@[k] is Failed,
    ensures
        forall|i: int| 0 <= i < k ==> landed(#[trigger] run.outcomes@[i]),
        forall|i: int| k < i < run.outcomes@.len() ==> #[trigger] run.outcomes@[i] is NotAttempted,
{
    assert forall|i: int| 0 <= i < k implies landed(#[trigger] run.outcomes@[i]) by {
        assert(landed(run.outcomes@[i]) || run.outcomes@[k] is NotAttempted);
    }
    assert forall|i: int| k < i < run.outcomes@.len() implies #[trigger] run.outcomes@[i]
        is NotAttempted by {
        assert(landed(run.outcomes@[k]) || run.outcomes@[i] is NotAttempted);
    }
}

// -- the report --------------------------------------------------------------

/// One thing to tell the user.
pub enum Line {
    Status(String),
    Warning(String),
    /// Where a pull request for a view can be opened, if that is known.
    PullRequest { name: String, url: Option<String> },
}

pub enum LineView {
    Status(Seq<char>),
    Warning(Seq<char>),
    PullRequest { name: Seq<char>, url: Option<Seq<char>> },
}

impl View for Line {
    type V = LineView;

    open spec fn view(&self) -> LineView {
        match self {
            Line::Status(s) => LineView::Status(s@),
            Line::Warning(s) => LineView::Warning(s@),
            Line::PullRequest { name, url } => LineView::PullRequest {
                name: name@,
                url: string_view(*url),
            },
        }
    }
}

pub open spec fn lines_view(v: Seq<Line>) -> Seq<LineView> {
    Seq::new(v.len(), |i: int| v[i]@)
}

/// What is said about one view.
pub open spec fn outcome_lines(p: Planned, o: Outcome, branch: Seq<char>) -> Seq<LineView> {
    match o {
        Outcome::Pushed { url } => seq![
            LineView::Status(
                p.view.name@ + ": pushed "@ + p.tip@ + " to "@ + p.view.remote@ + " as "@ + branch,
            ),
            LineView::PullRequest { name: p.view.name@, url: string_view(url) },
        ],
        Outcome::Current { url } => seq![
            LineView::Status(
                p.view.name@ + ": "@ + p.view.remote@ + " already has "@ + branch + " at "@
                    + p.tip@,
            ),
            LineView::PullRequest { name: p.view.name@, url: string_view(url) },
        ],
        Outcome::NoChanges { published } => seq![
            LineView::Status(
                p.view.name@ + ": no content beyond "@ + p.view.branch@ + " at "@ + published@
                    + "; nothing pushed."@,
            ),
        ],
        Outcome::Failed(message) => seq![
            LineView::Warning(p.view.name@ + ": could not push to "@ + p.view.remote@),
        ] + quoted(lines(message@)),
        Outcome::NotAttempted => seq![LineView::Status(p.view.name@ + ": not attempted."@)],
    }
}

/// The lines of a message, set in.
pub open spec fn quoted(lines: Seq<Seq<char>>) -> Seq<LineView> {
    Seq::new(lines.len(), |i: int| LineView::Status("  "@ + lines[i]))
}

/// What is said about the views from `i` on.
pub open spec fn reported(
    plan: Seq<Planned>,
    outcomes: Seq<Outcome>,
    branch: Seq<char>,
    n: int,
) -> Seq<LineView>
    decreases n,
{
    if n <= 0 {
        seq![]
    } else {
        reported(plan, outcomes, branch, n - 1) + outcome_lines(plan[n - 1], outcomes[n - 1], branch)
    }
}

fn status(t: &Text) -> (r: Line)
    ensures
        r@ == LineView::Status(t@),
{
    Line::Status(string_of(t))
}

fn url_of(url: &Option<String>) -> (r: Option<String>)
    ensures
        string_view(r) == string_view(*url),
{
    match url {
        Some(u) => Some(u.clone()),
        None => None,
    }
}

fn quote_lines(out: &mut Vec<Line>, message: &str)
    ensures
        lines_view(final(out)@) == lines_view(old(out)@) + quoted(lines(message@)),
{
    let all = lines_of(&text_of(message));
    let ghost said = lines(message@);
    let mut i: usize = 0;
    assert(lines_view(out@) =~= lines_view(old(out)@) + quoted(said).take(0));
    while i < all.len()
        invariant
            i <= all.len(),
            texts_view(all@) == said,
            lines_view(out@) == lines_view(old(out)@) + quoted(said).take(i as int),
        decreases all.len() - i,
    {
        let mut t = text_of("  ");
        crate::text::append_all(&mut t, &all[i]);
        let ghost before = out@;
        out.push(status(&t));
        assert(all@[i as int]@ == said[i as int]);
        assert(lines_view(out@) =~= lines_view(before).push(quoted(said)[i as int]));
        assert(quoted(said).take(i + 1) =~= quoted(said).take(i as int).push(
            quoted(said)[i as int],
        ));
        i += 1;
    }
    assert(quoted(said).take(i as int) =~= quoted(said));
}

fn report_one(out: &mut Vec<Line>, p: &Planned, o: &Outcome, branch: &str)
    ensures
        lines_view(final(out)@) == lines_view(old(out)@) + outcome_lines(*p, *o, branch@),
{
    let mut t = text_of(&p.view.name);
    let ghost before = lines_view(out@);
    match o {
        Outcome::Pushed { url } => {
            append_str(&mut t, ": pushed ");
            append_str(&mut t, &p.tip);
            append_str(&mut t, " to ");
            append_str(&mut t, &p.view.remote);
            append_str(&mut t, " as ");
            append_str(&mut t, branch);
            out.push(status(&t));
            out.push(Line::PullRequest { name: p.view.name.clone(), url: url_of(url) });
            assert(lines_view(out@) =~= before + outcome_lines(*p, *o, branch@));
        },
        Outcome::Current { url } => {
            append_str(&mut t, ": ");
            append_str(&mut t, &p.view.remote);
            append_str(&mut t, " already has ");
            append_str(&mut t, branch);
            append_str(&mut t, " at ");
            append_str(&mut t, &p.tip);
            out.push(status(&t));
            out.push(Line::PullRequest { name: p.view.name.clone(), url: url_of(url) });
            assert(lines_view(out@) =~= before + outcome_lines(*p, *o, branch@));
        },
        Outcome::NoChanges { published } => {
            append_str(&mut t, ": no content beyond ");
            append_str(&mut t, &p.view.branch);
            append_str(&mut t, " at ");
            append_str(&mut t, published);
            append_str(&mut t, "; nothing pushed.");
            out.push(status(&t));
            assert(lines_view(out@) =~= before + outcome_lines(*p, *o, branch@));
        },
        Outcome::Failed(message) => {
            append_str(&mut t, ": could not push to ");
            append_str(&mut t, &p.view.remote);
            out.push(Line::Warning(string_of(&t)));
            assert(lines_view(out@) =~= before.push(LineView::Warning(t@)));
            quote_lines(out, message);
            assert(lines_view(out@) =~= before + outcome_lines(*p, *o, branch@));
        },
        Outcome::NotAttempted => {
            append_str(&mut t, ": not attempted.");
            out.push(status(&t));
            assert(lines_view(out@) =~= before + outcome_lines(*p, *o, branch@));
        },
    }
}

/// What a finished run says, view by view, and whether every view was pushed.
pub fn report(run: &PushRun, branch: &str) -> (r: (Vec<Line>, Option<Refusal>))
    requires
        run.wf(),
    ensures
        lines_view(r.0@) == reported(
            run.plan@,
            run.outcomes@,
            branch@,
            run.outcomes@.len() as int,
        ),
        refusal_view(r.1) == (if has_failed(run.outcomes@) {
            Some(
                (
                    "Not every view was pushed"@,
                    "The views listed above as pushed are on their remotes; re-run to send the rest."@,
                ),
            )
        } else {
            None
        }),
{
    let mut out: Vec<Line> = Vec::new();
    let mut i: usize = 0;
    assert(lines_view(out@) =~= reported(run.plan@, run.outcomes@, branch@, 0));
    while i < run.outcomes.len()
        invariant
            i <= run.outcomes.len() <= run.plan.len(),
            lines_view(out@) == reported(run.plan@, run.outcomes@, branch@, i as int),
        decreases run.outcomes.len() - i,
    {
        report_one(&mut out, &run.plan[i], &run.outcomes[i], branch);
        i += 1;
    }
    let verdict = if run.failed() {
        Some(
            Refusal {
                message: "Not every view was pushed".to_owned(),
                hint: "The views listed above as pushed are on their remotes; re-run to send the rest.".to_owned(),
            },
        )
    } else {
        None
    };
    (out, verdict)
}

// -- planning ----------------------------------------------------------------

/// What is known of a view before it is planned.
pub enum Found {
    /// Its default branch is published: what surveying it said.
    Surveyed { derived: Option<String>, position: Position, upstream: String },
    /// It is not published yet: what deriving it said.
    Derived { tip: Option<String> },
}

/// The tip of a view.
pub open spec fn found_tip(f: Found) -> Option<Seq<char>> {
    match f {
        Found::Surveyed { derived, .. } => string_view(derived),
        Found::Derived { tip } => string_view(tip),
    }
}

/// The published tip that a view adds nothing to: an integrated tip has no
/// reviewable content.
pub open spec fn found_published(f: Found) -> Option<Seq<char>> {
    match f {
        Found::Surveyed { position, upstream, .. } => if position == Position::Current {
            Some(upstream@)
        } else {
            None
        },
        Found::Derived { .. } => None,
    }
}

} // verus!
