//! Installing view anchors without their older history: which endpoint is
//! asked for an anchor, what has to hold before it is recorded, and what is
//! said about it.
//!
//! Reading and writing the object store and talking to remotes is left to the
//! caller. [`AnchorRun`] says what to do next; the caller does it and hands
//! back what came of it.
use crate::commands::config::{commits, commits_text, AnchorIds, ViewConfig};
use crate::commands::github::string_view;
use crate::commands::status::strings_view;
use crate::lang::heap::same_text;
use crate::text::{append_str, string_of, text_of, Text};
use vstd::prelude::*;

verus! {

/// What to install.
#[derive(Debug, Clone)]
pub struct ViewsAnchorArgs {
    /// Views whose anchors should be installed; every configured one by
    /// default.
    pub views: Vec<String>,
    /// Bookmark whose history must contain the source anchor.
    pub bookmark: String,
    /// Emit one JSON object.
    pub json: bool,
}

/// Where an anchor came from.
#[derive(Debug, Clone, Copy, PartialEq, Eq, Structural)]
pub enum AnchorEndpointKind {
    Local,
    Upstream,
    Published,
}

pub open spec fn kind_text(k: AnchorEndpointKind) -> Seq<char> {
    match k {
        AnchorEndpointKind::Local => "local object store"@,
        AnchorEndpointKind::Upstream => "read-only upstream"@,
        AnchorEndpointKind::Published => "published branch"@,
    }
}

/// The name of an endpoint in a JSON report.
pub open spec fn kind_name(k: AnchorEndpointKind) -> Seq<char> {
    match k {
        AnchorEndpointKind::Local => "local"@,
        AnchorEndpointKind::Upstream => "upstream"@,
        AnchorEndpointKind::Published => "published"@,
    }
}

impl AnchorEndpointKind {
    pub fn as_str(self) -> (r: &'static str)
        ensures
            r@ == kind_text(self),
    {
        match self {
            AnchorEndpointKind::Local => "local object store",
            AnchorEndpointKind::Upstream => "read-only upstream",
            AnchorEndpointKind::Published => "published branch",
        }
    }

    pub fn name(self) -> (r: &'static str)
        ensures
            r@ == kind_name(self),
    {
        match self {
            AnchorEndpointKind::Local => "local",
            AnchorEndpointKind::Upstream => "upstream",
            AnchorEndpointKind::Published => "published",
        }
    }
}

/// An endpoint that may have an anchor, and how much of its history to take.
pub struct AnchorEndpoint {
    pub kind: AnchorEndpointKind,
    pub remote: String,
    pub selector: String,
    pub depth: usize,
}

#[verifier::ext_equal]
pub struct EndpointView {
    pub kind: AnchorEndpointKind,
    pub remote: Seq<char>,
    pub selector: Seq<char>,
    pub depth: nat,
}

impl View for AnchorEndpoint {
    type V = EndpointView;

    open spec fn view(&self) -> EndpointView {
        EndpointView {
            kind: self.kind,
            remote: self.remote@,
            selector: self.selector@,
            depth: self.depth as nat,
        }
    }
}

/// An endpoint that did not have an anchor, and why.
pub struct AnchorEndpointAttempt {
    pub endpoint: AnchorEndpointKind,
    pub remote: String,
    pub selector: String,
    pub error: String,
}

#[verifier::ext_equal]
pub struct AttemptView {
    pub endpoint: AnchorEndpointKind,
    pub remote: Seq<char>,
    pub selector: Seq<char>,
    pub error: Seq<char>,
}

impl View for AnchorEndpointAttempt {
    type V = AttemptView;

    open spec fn view(&self) -> AttemptView {
        AttemptView {
            endpoint: self.endpoint,
            remote: self.remote@,
            selector: self.selector@,
            error: self.error@,
        }
    }
}

pub open spec fn attempts_view(v: Seq<AnchorEndpointAttempt>) -> Seq<AttemptView> {
    Seq::new(v.len(), |i: int| v[i]@)
}

/// An installed anchor. Its trees were found to match.
pub struct AnchorStatus {
    pub name: String,
    pub source: String,
    pub view: String,
    pub fetched_commits: usize,
    pub tree_matches: bool,
    pub endpoint: AnchorEndpointKind,
    pub attempts: Vec<AnchorEndpointAttempt>,
}

#[verifier::ext_equal]
pub struct StatusView {
    pub name: Seq<char>,
    pub source: Seq<char>,
    pub view: Seq<char>,
    pub fetched_commits: nat,
    pub tree_matches: bool,
    pub endpoint: AnchorEndpointKind,
    pub attempts: Seq<AttemptView>,
}

pub open spec fn status_view(s: AnchorStatus) -> StatusView {
    StatusView {
        name: s.name@,
        source: s.source@,
        view: s.view@,
        fetched_commits: s.fetched_commits as nat,
        tree_matches: s.tree_matches,
        endpoint: s.endpoint,
        attempts: attempts_view(s.attempts@),
    }
}

pub open spec fn statuses_view(v: Seq<AnchorStatus>) -> Seq<StatusView> {
    Seq::new(v.len(), |i: int| status_view(v[i]))
}

// -- texts -------------------------------------------------------------------

/// One failed attempt in words.
pub open spec fn attempt_text(a: AttemptView) -> Seq<char> {
    kind_text(a.endpoint) + " "@ + a.selector + " at "@ + a.remote + " failed: "@ + a.error
}

fn append_attempt(t: &mut Text, a: &AnchorEndpointAttempt)
    ensures
        final(t)@ == old(t)@ + attempt_text(a@),
{
    append_str(t, a.endpoint.as_str());
    append_str(t, " ");
    append_str(t, &a.selector);
    append_str(t, " at ");
    append_str(t, &a.remote);
    append_str(t, " failed: ");
    append_str(t, &a.error);
    assert(t@ =~= old(t)@ + attempt_text(a@));
}

/// The first `n` attempts in words, each after a semicolon.
pub open spec fn attempts_text(attempts: Seq<AttemptView>, n: int) -> Seq<char>
    decreases n,
{
    if n <= 0 {
        seq![]
    } else {
        attempts_text(attempts, n - 1) + "; "@ + attempt_text(attempts[n - 1])
    }
}

/// Why an anchor could not be had.
pub open spec fn unavailable_text(anchor: Seq<char>, attempts: Seq<AttemptView>) -> Seq<char> {
    "anchor "@ + anchor + " was not available"@ + attempts_text(attempts, attempts.len() as int)
}

fn unavailable(anchor: &str, attempts: &Vec<AnchorEndpointAttempt>) -> (r: String)
    ensures
        r@ == unavailable_text(anchor@, attempts_view(attempts@)),
{
    let mut t = text_of("anchor ");
    append_str(&mut t, anchor);
    append_str(&mut t, " was not available");
    let ghost head = t@;
    let mut i: usize = 0;
    assert(t@ =~= head + attempts_text(attempts_view(attempts@), 0));
    while i < attempts.len()
        invariant
            i <= attempts.len(),
            t@ == head + attempts_text(attempts_view(attempts@), i as int),
        decreases attempts.len() - i,
    {
        append_str(&mut t, "; ");
        append_attempt(&mut t, &attempts[i]);
        i += 1;
        assert(t@ =~= head + attempts_text(attempts_view(attempts@), i as int));
    }
    string_of(&t)
}

/// What is said about one installed anchor.
pub open spec fn installed_text(s: StatusView) -> Seq<char> {
    s.name + ": anchor "@ + s.source + " -> "@ + s.view + " is valid from "@ + kind_text(s.endpoint)
        + "; fetched "@ + commits_text(s.fetched_commits as usize) + " and its tree matches."@
}

/// The failed attempts, then the anchor itself.
pub open spec fn status_lines_text(s: StatusView) -> Seq<Seq<char>> {
    Seq::new(s.attempts.len(), |i: int| s.name + ": "@ + attempt_text(s.attempts[i])).push(
        installed_text(s),
    )
}

pub fn status_lines(status: &AnchorStatus) -> (r: Vec<String>)
    ensures
        strings_view(r@) == status_lines_text(status_view(*status)),
{
    let mut out: Vec<String> = Vec::new();
    let mut i: usize = 0;
    let ghost s = status_view(*status);
    while i < status.attempts.len()
        invariant
            i <= status.attempts.len(),
            out@.len() == i,
            s == status_view(*status),
            forall|j: int|
                0 <= j < i ==> (#[trigger] out@[j])@ == s.name + ": "@ + attempt_text(
                    s.attempts[j],
                ),
        decreases status.attempts.len() - i,
    {
        let mut t = text_of(&status.name);
        append_str(&mut t, ": ");
        append_attempt(&mut t, &status.attempts[i]);
        out.push(string_of(&t));
        i += 1;
    }
    let mut t = text_of(&status.name);
    append_str(&mut t, ": anchor ");
    append_str(&mut t, &status.source);
    append_str(&mut t, " -> ");
    append_str(&mut t, &status.view);
    append_str(&mut t, " is valid from ");
    append_str(&mut t, status.endpoint.as_str());
    append_str(&mut t, "; fetched ");
    append_str(&mut t, &commits(status.fetched_commits));
    append_str(&mut t, " and its tree matches.");
    out.push(string_of(&t));
    assert(strings_view(out@) =~= status_lines_text(s));
    out
}

/// The references that record an anchor, in the order they are written: the
/// published commit, the source commit and the revision it was checked
/// against.
pub fn anchor_refs(
    namespaces: (&str, &str, &str),
    name: &str,
    anchor: &AnchorIds,
    revision: &str,
) -> (r: Vec<(String, String)>)
    ensures
        r@.len() == 3,
        r@[0].0@ == namespaces.0@ + name@ && r@[0].1@ == anchor.view@,
        r@[1].0@ == namespaces.1@ + name@ && r@[1].1@ == anchor.source@,
        r@[2].0@ == namespaces.2@ + name@ && r@[2].1@ == revision@,
{
    let mut out: Vec<(String, String)> = Vec::new();
    let mut t = text_of(namespaces.0);
    append_str(&mut t, name);
    out.push((string_of(&t), anchor.view.clone()));
    let mut t = text_of(namespaces.1);
    append_str(&mut t, name);
    out.push((string_of(&t), anchor.source.clone()));
    let mut t = text_of(namespaces.2);
    append_str(&mut t, name);
    out.push((string_of(&t), revision.to_owned()));
    out
}

// -- the run -----------------------------------------------------------------

/// What is going on with the view at hand.
#[derive(Debug, Clone, Copy, PartialEq, Eq, Structural)]
pub enum Stage {
    /// A parentless anchor is being created.
    Root,
    /// The anchor is looked for in the object store.
    Find,
    /// The anchor that is there is being checked.
    Seed,
    /// The commits after the source anchor are being counted.
    Count,
    /// An endpoint is being asked for the anchor.
    Fetch,
    /// The fetched anchor is being checked.
    Validate,
    /// The published history is being compared with the derived one.
    History,
    /// The fetched anchor is being installed.
    Install,
    /// The anchor's references are being written.
    Record,
    /// Nothing is left to do.
    Done,
}

/// What the caller is to do next, for the view at hand.
pub enum Action {
    CreateRoot,
    FindAnchor,
    Seed,
    CountHosts,
    Fetch(AnchorEndpoint),
    ValidateFetched,
    DeriveTip,
    Install,
    Record,
    /// Every anchor is recorded.
    Finish,
    /// The command fails with this message, and with its cause if it has one.
    Refuse { message: String, cause: Option<String> },
}

pub enum ActionView {
    CreateRoot,
    FindAnchor,
    Seed,
    CountHosts,
    Fetch(EndpointView),
    ValidateFetched,
    DeriveTip,
    Install,
    Record,
    Finish,
    Refuse { message: Seq<char>, cause: Option<Seq<char>> },
}

impl View for Action {
    type V = ActionView;

    open spec fn view(&self) -> ActionView {
        match self {
            Action::CreateRoot => ActionView::CreateRoot,
            Action::FindAnchor => ActionView::FindAnchor,
            Action::Seed => ActionView::Seed,
            Action::CountHosts => ActionView::CountHosts,
            Action::Fetch(e) => ActionView::Fetch(e@),
            Action::ValidateFetched => ActionView::ValidateFetched,
            Action::DeriveTip => ActionView::DeriveTip,
            Action::Install => ActionView::Install,
            Action::Record => ActionView::Record,
            Action::Finish => ActionView::Finish,
            Action::Refuse { message, cause } => ActionView::Refuse {
                message: message@,
                cause: string_view(*cause),
            },
        }
    }
}

/// What came of an action.
pub enum Event {
    /// It was done.
    Done,
    /// Whether the anchor is in the object store.
    Present(bool),
    /// How many commits follow the source anchor.
    Count(usize),
    /// The tip that was fetched with the anchor, or why there is none.
    Fetched(Result<String, String>),
    /// The view's tip, where it has one.
    Tip(Option<String>),
}

/// Whether an event can come of what a stage does.
pub open spec fn fits(stage: Stage, e: Event) -> bool {
    match stage {
        Stage::Root | Stage::Seed | Stage::Validate | Stage::Install | Stage::Record => e is Done,
        Stage::Find => e is Present,
        Stage::Count => e is Count,
        Stage::Fetch => e is Fetched,
        Stage::History => e is Tip,
        Stage::Done => false,
    }
}

/// The anchors of the views, one after the other.
pub struct AnchorRun {
    pub views: Vec<ViewConfig>,
    /// The revision whose history has to contain the source anchors.
    pub revision: String,
    /// The commits of that history.
    pub reachable: Vec<String>,
    /// The view at hand.
    pub at: usize,
    pub stage: Stage,
    pub depth: usize,
    pub attempts: Vec<AnchorEndpointAttempt>,
    pub endpoint: AnchorEndpointKind,
    pub fetched: usize,
    pub tip: String,
    pub statuses: Vec<AnchorStatus>,
}

/// The part of a run that changes.
#[verifier::ext_equal]
pub struct RunView {
    pub at: nat,
    pub stage: Stage,
    pub depth: nat,
    pub attempts: Seq<AttemptView>,
    pub endpoint: AnchorEndpointKind,
    pub fetched: nat,
    pub tip: Seq<char>,
    pub statuses: Seq<StatusView>,
}

/// The part of a run that does not change.
#[verifier::ext_equal]
pub struct Plan {
    pub views: Seq<ViewConfig>,
    pub revision: Seq<char>,
    pub reachable: Seq<Seq<char>>,
}

impl Plan {
    /// The source anchor of the view at hand.
    pub open spec fn source(self, at: nat) -> Seq<char> {
        self.views[at as int].anchor->0.source@
    }

    /// The published anchor of the view at hand.
    pub open spec fn published(self, at: nat) -> Seq<char> {
        self.views[at as int].anchor->0.view@
    }

    /// The endpoints that may have an anchor, in the order they are asked:
    /// the published branch, then the upstream where there is one.
    pub open spec fn endpoints(self, at: nat, depth: nat) -> Seq<EndpointView> {
        let v = self.views[at as int];
        let branch = seq![
            EndpointView {
                kind: AnchorEndpointKind::Published,
                remote: v.remote@,
                selector: "refs/heads/"@ + v.branch@,
                depth,
            },
        ];
        match v.upstream {
            Some(u) => branch.push(
                EndpointView {
                    kind: AnchorEndpointKind::Upstream,
                    remote: u@,
                    selector: self.published(at),
                    depth: 1,
                },
            ),
            None => branch,
        }
    }
}

impl RunView {
    pub open spec fn moved(self, stage: Stage) -> RunView {
        RunView { stage, ..self }
    }

    pub open spec fn refused(self, message: Seq<char>, cause: Option<Seq<char>>) -> (
        RunView,
        ActionView,
    ) {
        (self.moved(Stage::Done), ActionView::Refuse { message, cause })
    }

    /// Begins with the view at hand.
    pub open spec fn begin(self, p: Plan) -> (RunView, ActionView) {
        if self.at >= p.views.len() {
            (self.moved(Stage::Done), ActionView::Finish)
        } else {
            let v = p.views[self.at as int];
            if v.anchor is None {
                self.refused("The "@ + v.name@ + " view has no anchor in .jj-views.toml"@, None)
            } else if !p.reachable.contains(p.source(self.at)) {
                self.refused(
                    "The "@ + v.name@ + " view anchor source "@ + p.source(self.at)
                        + " is not an ancestor of "@ + p.revision,
                    None,
                )
            } else if v.root_anchor {
                (self.moved(Stage::Root), ActionView::CreateRoot)
            } else {
                (self.moved(Stage::Find), ActionView::FindAnchor)
            }
        }
    }

    /// An anchor that is ready to be recorded.
    pub open spec fn ready(
        self,
        endpoint: AnchorEndpointKind,
        fetched: nat,
        attempts: Seq<AttemptView>,
    ) -> (RunView, ActionView) {
        (RunView { stage: Stage::Record, endpoint, fetched, attempts, ..self }, ActionView::Record)
    }

    /// Asks the next endpoint, where one is left.
    pub open spec fn ask(self, p: Plan) -> (RunView, ActionView) {
        let all = p.endpoints(self.at, self.depth);
        if self.attempts.len() < all.len() {
            (self.moved(Stage::Fetch), ActionView::Fetch(all[self.attempts.len() as int]))
        } else {
            self.refused(
                "Could not fetch the "@ + p.views[self.at as int].name@ + " view anchor "@
                    + p.published(self.at),
                Some(unavailable_text(p.published(self.at), self.attempts)),
            )
        }
    }

    /// Compares the tip that was derived with the one that was fetched: equal
    /// tips name the same history.
    pub open spec fn compared(self, p: Plan, tip: Option<Seq<char>>) -> (RunView, ActionView) {
        let message = "Could not verify the "@ + p.views[self.at as int].name@
            + " published anchor history"@;
        match tip {
            None => self.refused(
                message,
                Some(
                    "host commit "@ + p.revision + " produced no published view commit"@,
                ),
            ),
            Some(t) => if t == self.tip {
                (self.moved(Stage::Install), ActionView::Install)
            } else {
                self.refused(
                    message,
                    Some("published tip is "@ + self.tip + "; derived host tip is "@ + t),
                )
            },
        }
    }

    /// The status of the view at hand, once it is recorded.
    pub open spec fn recorded(self, p: Plan) -> StatusView {
        StatusView {
            name: p.views[self.at as int].name@,
            source: p.source(self.at),
            view: p.published(self.at),
            fetched_commits: self.fetched,
            tree_matches: true,
            endpoint: self.endpoint,
            attempts: self.attempts,
        }
    }

    /// The next state and action after an event.
    pub open spec fn step(self, p: Plan, e: Event) -> (RunView, ActionView) {
        match self.stage {
            Stage::Root | Stage::Seed => self.ready(AnchorEndpointKind::Local, 0, seq![]),
            Stage::Find => if e->Present_0 {
                (self.moved(Stage::Seed), ActionView::Seed)
            } else {
                (self.moved(Stage::Count), ActionView::CountHosts)
            },
            Stage::Count => if e->Count_0 == usize::MAX {
                self.refused(
                    "The "@ + p.views[self.at as int].name@ + " view's fetch depth overflowed"@,
                    None,
                )
            } else {
                RunView { depth: (e->Count_0 + 1) as nat, attempts: seq![], ..self }.ask(p)
            },
            Stage::Fetch => {
                let here = p.endpoints(self.at, self.depth)[self.attempts.len() as int];
                match e->Fetched_0 {
                    Ok(tip) => (
                        RunView {
                            stage: Stage::Validate,
                            endpoint: here.kind,
                            tip: tip@,
                            ..self
                        },
                        ActionView::ValidateFetched,
                    ),
                    Err(m) => RunView {
                        attempts: self.attempts.push(
                            AttemptView {
                                endpoint: here.kind,
                                remote: here.remote,
                                selector: here.selector,
                                error: m@,
                            },
                        ),
                        ..self
                    }.ask(p),
                }
            },
            Stage::Validate => if self.endpoint == AnchorEndpointKind::Published {
                (self.moved(Stage::History), ActionView::DeriveTip)
            } else {
                (self.moved(Stage::Install), ActionView::Install)
            },
            Stage::History => self.compared(p, string_view(e->Tip_0)),
            Stage::Install => self.ready(self.endpoint, 1, self.attempts),
            Stage::Record => RunView {
                at: self.at + 1,
                statuses: self.statuses.push(self.recorded(p)),
                attempts: seq![],
                ..self
            }.begin(p),
            Stage::Done => (self, ActionView::Finish),
        }
    }
}

impl AnchorRun {
    pub open spec fn plan(&self) -> Plan {
        Plan {
            views: self.views@,
            revision: self.revision@,
            reachable: strings_view(self.reachable@),
        }
    }

    pub open spec fn state(&self) -> RunView {
        RunView {
            at: self.at as nat,
            stage: self.stage,
            depth: self.depth as nat,
            attempts: attempts_view(self.attempts@),
            endpoint: self.endpoint,
            fetched: self.fetched as nat,
            tip: self.tip@,
            statuses: statuses_view(self.statuses@),
        }
    }

    /// What every run keeps: while a view is at hand it has an anchor, whose
    /// source is reachable, and while an endpoint is asked there is one.
    pub open spec fn wf(&self) -> bool {
        &&& self.stage != Stage::Done ==> self.at < self.views@.len() && self.views@[self.at as int].anchor
            is Some && self.plan().reachable.contains(self.plan().source(self.at as nat))
        &&& self.stage == Stage::Fetch ==> self.attempts@.len() < self.plan().endpoints(
            self.at as nat,
            self.depth as nat,
        ).len()
    }

    /// Starts with the first view.
    pub fn start(views: Vec<ViewConfig>, revision: String, reachable: Vec<String>) -> (r: (
        AnchorRun,
        Action,
    ))
        ensures
            r.0.wf(),
            r.0.plan() == (Plan {
                views: views@,
                revision: revision@,
                reachable: strings_view(reachable@),
            }),
            (r.0.state(), r.1@) == first_state().begin(r.0.plan()),
    {
        let mut run = AnchorRun {
            views,
            revision,
            reachable,
            at: 0,
            stage: Stage::Done,
            depth: 0,
            attempts: Vec::new(),
            endpoint: AnchorEndpointKind::Local,
            fetched: 0,
            tip: "".to_owned(),
            statuses: Vec::new(),
        };
        proof {
            reveal_strlit("");
        }
        assert(run.state() =~= first_state());
        let action = run.begin();
        (run, action)
    }

    fn refuse(&mut self, message: &Text, cause: Option<String>) -> (r: Action)
        ensures
            final(self).plan() == old(self).plan(),
            final(self).wf(),
            (final(self).state(), r@) == old(self).state().refused(message@, string_view(cause)),
    {
        self.stage = Stage::Done;
        Action::Refuse { message: string_of(message), cause }
    }

    fn is_reachable(&self, id: &str) -> (r: bool)
        ensures
            r == self.plan().reachable.contains(id@),
    {
        let t = text_of(id);
        let mut i: usize = 0;
        while i < self.reachable.len()
            invariant
                i <= self.reachable.len(),
                t@ == id@,
                forall|j: int| 0 <= j < i ==> (#[trigger] self.reachable@[j])@ != id@,
            decreases self.reachable.len() - i,
        {
            if same_text(&text_of(&self.reachable[i]), &t) {
                assert(self.plan().reachable[i as int] == id@);
                return true;
            }
            i += 1;
        }
        assert(forall|j: int|
            0 <= j < self.plan().reachable.len() ==> #[trigger] self.plan().reachable[j]
                == self.reachable@[j]@);
        false
    }

    fn begin(&mut self) -> (r: Action)
        ensures
            final(self).plan() == old(self).plan(),
            final(self).wf(),
            (final(self).state(), r@) == old(self).state().begin(old(self).plan()),
    {
        if self.at >= self.views.len() {
            self.stage = Stage::Done;
            return Action::Finish;
        }
        let view = &self.views[self.at];
        let mut t = text_of("The ");
        append_str(&mut t, &view.name);
        let reachable = match &view.anchor {
            None => {
                append_str(&mut t, " view has no anchor in .jj-views.toml");
                return self.refuse(&t, None);
            },
            Some(a) => {
                append_str(&mut t, " view anchor source ");
                append_str(&mut t, &a.source);
                self.is_reachable(&a.source)
            },
        };
        if !reachable {
            append_str(&mut t, " is not an ancestor of ");
            append_str(&mut t, &self.revision);
            return self.refuse(&t, None);
        }
        if self.views[self.at].root_anchor {
            self.stage = Stage::Root;
            Action::CreateRoot
        } else {
            self.stage = Stage::Find;
            Action::FindAnchor
        }
    }

    fn ready(&mut self, endpoint: AnchorEndpointKind, fetched: usize) -> (r: Action)
        requires
            old(self).wf(),
            old(self).stage != Stage::Done,
        ensures
            final(self).plan() == old(self).plan(),
            final(self).wf(),
            (final(self).state(), r@) == old(self).state().ready(
                endpoint,
                fetched as nat,
                old(self).state().attempts,
            ),
    {
        self.stage = Stage::Record;
        self.endpoint = endpoint;
        self.fetched = fetched;
        Action::Record
    }

    /// The endpoint at a place of the order, where there is one.
    fn endpoint_at(&self, i: usize) -> (r: Option<AnchorEndpoint>)
        requires
            self.at < self.views@.len(),
            self.views@[self.at as int].anchor is Some,
        ensures
            match r {
                Some(e) => i < self.plan().endpoints(self.at as nat, self.depth as nat).len() && e@
                    == self.plan().endpoints(self.at as nat, self.depth as nat)[i as int],
                None => i >= self.plan().endpoints(self.at as nat, self.depth as nat).len(),
            },
    {
        let view = &self.views[self.at];
        if i == 0 {
            let mut t = text_of("refs/heads/");
            append_str(&mut t, &view.branch);
            return Some(
                AnchorEndpoint {
                    kind: AnchorEndpointKind::Published,
                    remote: view.remote.clone(),
                    selector: string_of(&t),
                    depth: self.depth,
                },
            );
        }
        if i > 1 {
            return None;
        }
        match (&view.upstream, &view.anchor) {
            (Some(u), Some(a)) => Some(
                AnchorEndpoint {
                    kind: AnchorEndpointKind::Upstream,
                    remote: u.clone(),
                    selector: a.view.clone(),
                    depth: 1,
                },
            ),
            _ => None,
        }
    }

    fn ask(&mut self) -> (r: Action)
        requires
            old(self).at < old(self).views@.len(),
            old(self).views@[old(self).at as int].anchor is Some,
            old(self).plan().reachable.contains(old(self).plan().source(old(self).at as nat)),
        ensures
            final(self).plan() == old(self).plan(),
            final(self).wf(),
            (final(self).state(), r@) == old(self).state().ask(old(self).plan()),
    {
        match self.endpoint_at(self.attempts.len()) {
            Some(e) => {
                self.stage = Stage::Fetch;
                Action::Fetch(e)
            },
            None => {
                let view = &self.views[self.at];
                let mut t = text_of("Could not fetch the ");
                append_str(&mut t, &view.name);
                append_str(&mut t, " view anchor ");
                let cause = match &view.anchor {
                    Some(a) => {
                        append_str(&mut t, &a.view);
                        Some(unavailable(&a.view, &self.attempts))
                    },
                    None => None,
                };
                self.refuse(&t, cause)
            },
        }
    }

    fn fetched_from(&mut self, result: Result<String, String>) -> (r: Action)
        requires
            old(self).wf(),
            old(self).stage == Stage::Fetch,
        ensures
            final(self).plan() == old(self).plan(),
            final(self).wf(),
            (final(self).state(), r@) == old(self).state().step(
                old(self).plan(),
                Event::Fetched(result),
            ),
    {
        let here = self.endpoint_at(self.attempts.len());
        match (here, result) {
            (Some(e), Ok(tip)) => {
                self.stage = Stage::Validate;
                self.endpoint = e.kind;
                self.tip = tip;
                Action::ValidateFetched
            },
            (Some(e), Err(error)) => {
                let ghost before = self.state();
                self.attempts.push(
                    AnchorEndpointAttempt {
                        endpoint: e.kind,
                        remote: e.remote,
                        selector: e.selector,
                        error,
                    },
                );
                assert(self.state().attempts =~= before.attempts.push(
                    self.attempts@[before.attempts.len() as int]@,
                ));
                self.ask()
            },
            (None, _) => Action::Finish,
        }
    }

    fn compare_tips(&mut self, tip: Option<String>) -> (r: Action)
        requires
            old(self).wf(),
            old(self).stage == Stage::History,
        ensures
            final(self).plan() == old(self).plan(),
            final(self).wf(),
            (final(self).state(), r@) == old(self).state().compared(
                old(self).plan(),
                string_view(tip),
            ),
    {
        let mut t = text_of("Could not verify the ");
        append_str(&mut t, &self.views[self.at].name);
        append_str(&mut t, " published anchor history");
        let mut why: Text = Vec::new();
        match tip {
            None => {
                append_str(&mut why, "host commit ");
                append_str(&mut why, &self.revision);
                append_str(&mut why, " produced no published view commit");
            },
            Some(expected) => {
                if same_text(&text_of(&expected), &text_of(&self.tip)) {
                    self.stage = Stage::Install;
                    return Action::Install;
                }
                append_str(&mut why, "published tip is ");
                append_str(&mut why, &self.tip);
                append_str(&mut why, "; derived host tip is ");
                append_str(&mut why, &expected);
            },
        }
        let cause = Some(string_of(&why));
        assert(match tip {
            None => why@ =~= "host commit "@ + self.revision@
                + " produced no published view commit"@,
            Some(x) => why@ =~= "published tip is "@ + self.tip@ + "; derived host tip is "@ + x@,
        });
        self.refuse(&t, cause)
    }

    fn record(&mut self) -> (r: Action)
        requires
            old(self).wf(),
            old(self).stage == Stage::Record,
        ensures
            final(self).plan() == old(self).plan(),
            final(self).wf(),
            (final(self).state(), r@) == old(self).state().step(old(self).plan(), Event::Done),
    {
        let mut attempts: Vec<AnchorEndpointAttempt> = Vec::new();
        std::mem::swap(&mut attempts, &mut self.attempts);
        let view = &self.views[self.at];
        let (source, published) = match &view.anchor {
            Some(a) => (a.source.clone(), a.view.clone()),
            None => ("".to_owned(), "".to_owned()),
        };
        let status = AnchorStatus {
            name: view.name.clone(),
            source,
            view: published,
            fetched_commits: self.fetched,
            tree_matches: true,
            endpoint: self.endpoint,
            attempts,
        };
        let ghost before = self.statuses@;
        self.statuses.push(status);
        assert(self.at < self.views.len());
        self.at = self.at + 1;
        assert(statuses_view(self.statuses@) =~= statuses_view(before).push(status_view(status)));
        assert(self.state().attempts =~= seq![]);
        assert(status_view(status) =~= old(self).state().recorded(old(self).plan()));
        self.begin()
    }

    /// Takes what came of the last action and says what to do next.
    pub fn step(&mut self, event: Event) -> (r: Action)
        requires
            old(self).wf(),
            fits(old(self).stage, event),
        ensures
            final(self).plan() == old(self).plan(),
            final(self).wf(),
            (final(self).state(), r@) == old(self).state().step(old(self).plan(), event),
    {
        match self.stage {
            Stage::Root | Stage::Seed => {
                self.attempts = Vec::new();
                assert(self.state().attempts =~= seq![]);
                self.ready(AnchorEndpointKind::Local, 0)
            },
            Stage::Find => {
                let present = match event {
                    Event::Present(b) => b,
                    _ => false,
                };
                if present {
                    self.stage = Stage::Seed;
                    Action::Seed
                } else {
                    self.stage = Stage::Count;
                    Action::CountHosts
                }
            },
            Stage::Count => {
                let count: usize = match event {
                    Event::Count(n) => n,
                    _ => 0,
                };
                if count == usize::MAX {
                    let mut t = text_of("The ");
                    append_str(&mut t, &self.views[self.at].name);
                    append_str(&mut t, " view's fetch depth overflowed");
                    return self.refuse(&t, None);
                }
                self.depth = count + 1;
                self.attempts = Vec::new();
                assert(self.state().attempts =~= seq![]);
                self.ask()
            },
            Stage::Fetch => match event {
                Event::Fetched(result) => self.fetched_from(result),
                _ => Action::Finish,
            },
            Stage::Validate => {
                if self.endpoint == AnchorEndpointKind::Published {
                    self.stage = Stage::History;
                    Action::DeriveTip
                } else {
                    self.stage = Stage::Install;
                    Action::Install
                }
            },
            Stage::History => match event {
                Event::Tip(tip) => self.compare_tips(tip),
                _ => Action::Finish,
            },
            Stage::Install => self.ready(self.endpoint, 1),
            Stage::Record => self.record(),
            Stage::Done => Action::Finish,
        }
    }
}

/// A run before its first view.
pub open spec fn first_state() -> RunView {
    RunView {
        at: 0,
        stage: Stage::Done,
        depth: 0,
        attempts: seq![],
        endpoint: AnchorEndpointKind::Local,
        fetched: 0,
        tip: seq![],
        statuses: seq![],
    }
}

/// An anchor from a published branch is recorded only after the derived tip
/// was found to be the one that was fetched.
pub proof fn law_published_history_is_compared(s: RunView, p: Plan, e: Event)
    requires
        fits(s.stage, e),
        s.stage == Stage::Validate || s.stage == Stage::History,
        s.endpoint == AnchorEndpointKind::Published,
        s.step(p, e).0.stage == Stage::Install,
    ensures
        s.stage == Stage::History,
        e->Tip_0 is Some,
        e->Tip_0->0@ == s.tip,
{
}

} // verus!
