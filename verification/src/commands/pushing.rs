//! A push from beginning to end: what is decided before anything is sent,
//! view by view, and then what is sent.
//!
//! Reading, deriving and sending is left to the caller. [`PushFlow`] says what
//! to do next; the caller does it and hands back what came of it.
use crate::commands::config::ViewConfig;
use crate::commands::push::{
    after_push, already, before_push, branch_refusal, dry_line, dry_run_lines, found_published,
    found_tip, has_failed, lines_view, no_history, no_history_text,
    refusal_view, refuse_default_branch, refuse_empty_description, report, reported, short_id, unsent,
    Found,
    Line, LineView, Outcome, Planned, PushRun, Refusal, ViewsPushArgs,
};
use crate::commands::github::{pull_request, string_view};
use crate::commands::status::{strings_view, Position};
use crate::history::commits::{commit_of, has_empty_description, is_blank_message};
use crate::text::{append_str, string_of, text_of};
use vstd::prelude::*;

verus! {

/// The branch to push under: the one that was asked for, or the generated
/// one, which must not be empty.
pub fn chosen_branch(args: &ViewsPushArgs, generated: &str) -> (r: Result<String, String>)
    ensures
        match r {
            Ok(b) => b@ == (match args.branch {
                Some(name) => name@,
                None => generated@,
            }) && (args.branch is Some || generated@.len() > 0),
            Err(m) => args.branch is None && generated@.len() == 0 && m@
                == "Empty branch name generated"@,
        },
{
    if let Some(name) = &args.branch {
        return Ok(name.clone());
    }
    if text_of(generated).len() == 0 {
        return Err("Empty branch name generated".to_owned());
    }
    Ok(generated.to_owned())
}

/// What is going on.
#[derive(Debug, Clone, Copy, PartialEq, Eq, Structural)]
pub enum PushStage {
    /// The branch name is being checked.
    Branch,
    /// The configured views are being validated.
    Views,
    /// The view's published branch is being looked up.
    Published,
    /// The view is being surveyed against its published branch.
    Survey,
    /// The view is being derived.
    Derive,
    /// The view's tip is being read.
    Tip,
    /// The view's tip is being recorded.
    Record,
    /// The remote branch is being looked up.
    Observe,
    /// A view is being sent.
    Send,
    /// Nothing is left to do.
    Over,
}

/// What the caller is to do next. Planning is about the first view that is
/// left, sending about the view whose number is given.
pub enum PushAction {
    CheckBranch,
    ValidateViews,
    LookUp,
    Survey,
    Derive,
    /// Read the object of this commit.
    ReadTip(String),
    /// Record this commit as the view's tip.
    Record(String),
    Observe(usize),
    Send(usize),
    /// Say this. The command fails where there is a refusal.
    Finish { lines: Vec<Line>, verdict: Option<Refusal> },
    /// The command fails before anything was sent.
    Refuse { message: String, hint: Option<String> },
}

/// What came of an action.
pub enum PushEvent {
    Done,
    /// Whether the view's default branch is published.
    Published(bool),
    /// What surveying or deriving said.
    Found(Found),
    /// The object of the tip, and whether ids are SHA-256 hashes.
    Tip(Vec<u8>, bool),
    /// Where the remote branch is.
    Observed(Result<Option<String>, String>),
    /// What sending said.
    Sent(Result<(), String>),
}

/// Whether an event can come of what a stage does.
pub open spec fn fits_push(stage: PushStage, e: PushEvent) -> bool {
    match stage {
        PushStage::Branch | PushStage::Views | PushStage::Record => e is Done,
        PushStage::Published => e is Published,
        PushStage::Survey => e is Found && e->Found_0 is Surveyed,
        PushStage::Derive => e is Found && e->Found_0 is Derived,
        PushStage::Tip => e is Tip,
        PushStage::Observe => e is Observed,
        PushStage::Send => e is Sent,
        PushStage::Over => false,
    }
}

/// A push under way.
pub struct PushFlow {
    pub args: ViewsPushArgs,
    pub branch: String,
    /// The views that are not planned yet.
    pub left: Vec<ViewConfig>,
    /// The tip of the first of them, once it is known, and the published tip
    /// that it adds nothing to.
    pub tip: String,
    pub published: Option<String>,
    pub run: PushRun,
    pub stage: PushStage,
}

/// The complaint about a tip that is not described.
pub open spec fn undescribed(name: Seq<char>, tip: Seq<char>) -> Seq<char> {
    "Won't push the "@ + name + " view: its tip "@ + short_id(tip) + " has no description"@
}

/// What a dry run says.
pub open spec fn dry_lines(plan: Seq<Planned>, branch: Seq<char>) -> Seq<LineView> {
    Seq::new(plan.len(), |i: int| LineView::Status(dry_line(plan[i], branch))).push(
        LineView::Status("Dry-run requested, not pushing."@),
    )
}

/// Whether nothing but the stage changed.
pub open spec fn only_stage(a: PushFlow, b: PushFlow) -> bool {
    &&& b.args == a.args
    &&& b.branch == a.branch
    &&& b.left@ == a.left@
    &&& b.tip == a.tip
    &&& b.published == a.published
    &&& b.run.plan@ == a.run.plan@
    &&& b.run.outcomes@ == a.run.outcomes@
}

/// Whether a push ended with a refusal.
pub open spec fn refused(
    a: PushFlow,
    b: PushFlow,
    r: PushAction,
    message: Seq<char>,
    hint: Option<Seq<char>>,
) -> bool {
    &&& only_stage(a, b)
    &&& b.stage == PushStage::Over
    &&& r is Refuse
    &&& r->Refuse_message@ == message
    &&& string_view(r->Refuse_hint) == hint
}

/// Whether a push goes on with the first view that is left, or, where none
/// is, with what a dry run says or with sending.
pub open spec fn goes_on(a: PushFlow, b: PushFlow, r: PushAction) -> bool {
    if a.left@.len() > 0 {
        only_stage(a, b) && b.stage == PushStage::Published && r is LookUp
    } else if a.args.dry_run {
        &&& only_stage(a, b)
        &&& b.stage == PushStage::Over
        &&& r is Finish
        &&& lines_view(r->lines@) == dry_lines(a.run.plan@, a.branch@)
        &&& r->verdict is None
    } else {
        sends_next(a, b, r)
    }
}

/// Whether a push goes on with the next view that has to be sent, or, where
/// none is left, with its report.
pub open spec fn sends_next(a: PushFlow, b: PushFlow, r: PushAction) -> bool {
    &&& b.args == a.args
    &&& b.branch == a.branch
    &&& b.left@ == a.left@
    &&& b.run.plan@ == a.run.plan@
    &&& a.run.outcomes@.is_prefix_of(b.run.outcomes@)
    &&& has_failed(b.run.outcomes@) == has_failed(a.run.outcomes@)
    &&& forall|i: int|
        a.run.outcomes@.len() <= i < b.run.outcomes@.len() ==> unsent(
            b.run.plan@[i],
            has_failed(a.run.outcomes@),
            #[trigger] b.run.outcomes@[i],
        )
    &&& match r {
        PushAction::Observe(i) => b.stage == PushStage::Observe && i == b.run.outcomes@.len() && i
            < b.run.plan@.len() && b.run.plan@[i as int].published is None && !has_failed(
            b.run.outcomes@,
        ),
        PushAction::Finish { lines, verdict } => {
            &&& b.stage == PushStage::Over
            &&& b.run.outcomes@.len() == b.run.plan@.len()
            &&& lines_view(lines@) == reported(
                b.run.plan@,
                b.run.outcomes@,
                b.branch@,
                b.run.outcomes@.len() as int,
            )
            &&& refusal_view(verdict) == (if has_failed(b.run.outcomes@) {
                Some(
                    (
                        "Not every view was pushed"@,
                        "The views listed above as pushed are on their remotes; re-run to send the rest."@,
                    ),
                )
            } else {
                None
            })
        },
        _ => false,
    }
}

/// A push with one more outcome.
pub open spec fn recorded(a: PushFlow, o: Outcome, m: PushFlow) -> bool {
    &&& m.args == a.args
    &&& m.branch == a.branch
    &&& m.left@ == a.left@
    &&& m.run.plan@ == a.run.plan@
    &&& m.run.outcomes@ == a.run.outcomes@.push(o)
}

/// Whether an outcome is what observing the remote branch decides.
pub open spec fn observed_outcome(p: Planned, branch: Seq<char>, seen: Result<Option<String>, String>, o: Outcome) -> bool {
    match seen {
        Err(m) => o matches Outcome::Failed(x) && x@ == m@,
        Ok(_) => o matches Outcome::Current { url } && string_view(url) == pull_request(
            p.view.remote@,
            p.view.branch@,
            branch,
        ),
    }
}

/// Whether an outcome is what sending said.
pub open spec fn sent_outcome(p: Planned, branch: Seq<char>, sent: Result<(), String>, o: Outcome) -> bool {
    match sent {
        Err(m) => o matches Outcome::Failed(x) && x@ == m@,
        Ok(_) => o matches Outcome::Pushed { url } && string_view(url) == pull_request(
            p.view.remote@,
            p.view.branch@,
            branch,
        ),
    }
}

/// What one step of a push does.
pub open spec fn stepped(a: PushFlow, e: PushEvent, b: PushFlow, r: PushAction) -> bool {
    match a.stage {
        PushStage::Branch => match branch_refusal(
            a.left@,
            a.branch@,
            a.args.allow_default_branch,
        ) {
            Some((message, hint)) => refused(a, b, r, message, Some(hint)),
            None => only_stage(a, b) && b.stage == PushStage::Views && r is ValidateViews,
        },
        PushStage::Views => goes_on(a, b, r),
        PushStage::Published => only_stage(a, b) && if e->Published_0 {
            b.stage == PushStage::Survey && r is Survey
        } else {
            b.stage == PushStage::Derive && r is Derive
        },
        PushStage::Survey | PushStage::Derive => match found_tip(e->Found_0) {
            None => refused(a, b, r, no_history_text(a.left@[0], a.args), None),
            Some(tip) => {
                &&& b.args == a.args
                &&& b.branch == a.branch
                &&& b.left@ == a.left@
                &&& b.run.plan@ == a.run.plan@
                &&& b.run.outcomes@ == a.run.outcomes@
                &&& b.tip@ == tip
                &&& string_view(b.published) == found_published(e->Found_0)
                &&& if a.args.allow_empty_description {
                    b.stage == PushStage::Record && r is Record && r->Record_0@ == tip
                } else {
                    b.stage == PushStage::Tip && r is ReadTip && r->ReadTip_0@ == tip
                }
            },
        },
        PushStage::Tip => match commit_of(e->Tip_0@, e->Tip_1) {
            None => refused(a, b, r, "Could not read the commit "@ + a.tip@, None),
            Some(c) => if !a.args.allow_empty_description && is_blank_message(c.message) {
                refused(
                    a,
                    b,
                    r,
                    undescribed(a.left@[0].name@, a.tip@),
                    Some(
                        "Describe the revision the view derives from, or pass --allow-empty-description."@,
                    ),
                )
            } else {
                only_stage(a, b) && b.stage == PushStage::Record && r is Record && r->Record_0@
                    == a.tip@
            },
        },
        PushStage::Record => exists|m: PushFlow| #[trigger] planned_one(a, m) && goes_on(m, b, r),
        PushStage::Observe => {
            let p = a.run.plan@[a.run.outcomes@.len() as int];
            let seen = e->Observed_0;
            if seen is Ok && !already(seen->Ok_0, p.tip@) {
                &&& only_stage(a, b)
                &&& b.stage == PushStage::Send
                &&& r is Send
                &&& r->Send_0 == a.run.outcomes@.len()
            } else {
                exists|m: PushFlow, o: Outcome|
                    observed_outcome(p, a.branch@, seen, o) && #[trigger] recorded(a, o, m)
                        && sends_next(m, b, r)
            }
        },
        PushStage::Send => {
            let p = a.run.plan@[a.run.outcomes@.len() as int];
            exists|m: PushFlow, o: Outcome|
                sent_outcome(p, a.branch@, e->Sent_0, o) && #[trigger] recorded(a, o, m)
                    && sends_next(m, b, r)
        },
        PushStage::Over => true,
    }
}

/// A push whose first view that was left is planned.
pub open spec fn planned_one(a: PushFlow, m: PushFlow) -> bool {
    &&& m.args == a.args
    &&& m.branch == a.branch
    &&& m.left@ == a.left@.skip(1)
    &&& m.run.plan@.len() == a.run.plan@.len() + 1
    &&& a.run.plan@.is_prefix_of(m.run.plan@)
    &&& m.run.plan@.last().view == a.left@[0]
    &&& m.run.plan@.last().tip@ == a.tip@
    &&& string_view(m.run.plan@.last().published) == string_view(a.published)
    &&& m.run.outcomes@ == a.run.outcomes@
}

impl PushFlow {
    /// What every push keeps: while a view is planned there is one, nothing is
    /// sent before everything is planned, and what landed is a prefix.
    pub open spec fn wf(&self) -> bool {
        let planning = match self.stage {
            PushStage::Published
            | PushStage::Survey
            | PushStage::Derive
            | PushStage::Tip
            | PushStage::Record => true,
            _ => false,
        };
        let sending = self.stage == PushStage::Observe || self.stage == PushStage::Send;
        &&& self.run.wf()
        &&& planning ==> self.left@.len() > 0
        &&& planning || self.stage == PushStage::Branch || self.stage == PushStage::Views
            ==> self.run.outcomes@.len() == 0
        &&& sending ==> self.left@.len() == 0 && !self.args.dry_run && self.run.outcomes@.len()
            < self.run.plan@.len() && !has_failed(self.run.outcomes@)
    }

    /// Starts a push of views under a branch.
    pub fn start(args: ViewsPushArgs, branch: String, views: Vec<ViewConfig>) -> (r: (
        PushFlow,
        PushAction,
    ))
        ensures
            r.0.wf(),
            r.0.args == args,
            r.0.branch == branch,
            r.0.left@ == views@,
            r.0.run.plan@.len() == 0,
            r.0.stage == PushStage::Branch,
            r.1 is CheckBranch,
    {
        let flow = PushFlow {
            args,
            branch,
            left: views,
            tip: "".to_owned(),
            published: None,
            run: PushRun::new(Vec::new()),
            stage: PushStage::Branch,
        };
        (flow, PushAction::CheckBranch)
    }

    fn refuse(&mut self, message: String, hint: Option<String>) -> (r: PushAction)
        requires
            old(self).wf(),
        ensures
            final(self).wf(),
            refused(*old(self), *final(self), r, message@, string_view(hint)),
    {
        self.stage = PushStage::Over;
        PushAction::Refuse { message, hint }
    }

    fn go_on(&mut self) -> (r: PushAction)
        requires
            old(self).run.wf(),
            old(self).run.outcomes@.len() == 0,
        ensures
            final(self).wf(),
            goes_on(*old(self), *final(self), r),
    {
        if self.left.len() > 0 {
            self.stage = PushStage::Published;
            return PushAction::LookUp;
        }
        if self.args.dry_run {
            self.stage = PushStage::Over;
            let said = dry_run_lines(&self.run.plan, &self.branch);
            let mut lines: Vec<Line> = Vec::new();
            let mut i: usize = 0;
            while i < said.len()
                invariant
                    i <= said.len(),
                    lines@.len() == i,
                    forall|j: int|
                        0 <= j < i ==> (#[trigger] lines@[j])@ == LineView::Status(
                            strings_view(said@)[j],
                        ),
                decreases said.len() - i,
            {
                lines.push(Line::Status(said[i].clone()));
                i += 1;
            }
            assert(strings_view(said@).len() == said@.len());
            assert(lines_view(lines@) =~= dry_lines(self.run.plan@, self.branch@));
            return PushAction::Finish { lines, verdict: None };
        }
        self.send_next()
    }

    fn send_next(&mut self) -> (r: PushAction)
        requires
            old(self).run.wf(),
            old(self).left@.len() == 0,
            !old(self).args.dry_run,
        ensures
            final(self).wf(),
            sends_next(*old(self), *final(self), r),
    {
        match self.run.advance() {
            Some(i) => {
                self.stage = PushStage::Observe;
                PushAction::Observe(i)
            },
            None => {
                self.stage = PushStage::Over;
                let (lines, verdict) = report(&self.run, &self.branch);
                PushAction::Finish { lines, verdict }
            },
        }
    }

    fn found(&mut self, found: Found) -> (r: PushAction)
        requires
            old(self).wf(),
            old(self).stage == PushStage::Survey || old(self).stage == PushStage::Derive,
        ensures
            final(self).wf(),
            stepped(*old(self), PushEvent::Found(found), *final(self), r),
    {
        let ghost known = found;
        let (tip, published) = match found {
            Found::Surveyed { derived, position, upstream } => (
                derived,
                if position == Position::Current {
                    Some(upstream)
                } else {
                    None
                },
            ),
            Found::Derived { tip } => (tip, None),
        };
        match tip {
            None => {
                let message = no_history(&self.left[0], &self.args);
                self.refuse(message, None)
            },
            Some(tip) => {
                let said = tip.clone();
                self.tip = tip;
                self.published = published;
                if self.args.allow_empty_description {
                    self.stage = PushStage::Record;
                    return PushAction::Record(said);
                }
                self.stage = PushStage::Tip;
                PushAction::ReadTip(said)
            },
        }
    }

    fn described(&mut self, raw: Vec<u8>, wide: bool) -> (r: PushAction)
        requires
            old(self).wf(),
            old(self).stage == PushStage::Tip,
        ensures
            final(self).wf(),
            stepped(*old(self), PushEvent::Tip(raw, wide), *final(self), r),
    {
        let empty = match has_empty_description(&raw, wide) {
            Ok(empty) => empty,
            Err(_) => {
                let mut t = text_of("Could not read the commit ");
                append_str(&mut t, &self.tip);
                return self.refuse(string_of(&t), None);
            },
        };
        match refuse_empty_description(&self.left[0], &self.tip, empty, &self.args) {
            Some(refusal) => self.refuse(refusal.message, Some(refusal.hint)),
            None => {
                self.stage = PushStage::Record;
                PushAction::Record(self.tip.clone())
            },
        }
    }

    fn plan_one(&mut self) -> (r: PushAction)
        requires
            old(self).wf(),
            old(self).stage == PushStage::Record,
        ensures
            final(self).wf(),
            stepped(*old(self), PushEvent::Done, *final(self), r),
    {
        let mut tip = "".to_owned();
        std::mem::swap(&mut tip, &mut self.tip);
        let mut published: Option<String> = None;
        std::mem::swap(&mut published, &mut self.published);
        let view = self.left.remove(0);
        let ghost before = self.run.plan@;
        self.run.plan.push(Planned { view, tip, published });
        let ghost mid = *self;
        proof {
            assert(old(self).left@.remove(0) =~= old(self).left@.skip(1));
            assert(before =~= self.run.plan@.take(before.len() as int));
            assert(planned_one(*old(self), mid));
        }
        self.go_on()
    }

    fn observe(&mut self, seen: Result<Option<String>, String>) -> (r: PushAction)
        requires
            old(self).wf(),
            old(self).stage == PushStage::Observe,
        ensures
            final(self).wf(),
            stepped(*old(self), PushEvent::Observed(seen), *final(self), r),
    {
        let at = self.run.outcomes.len();
        let p = &self.run.plan[at];
        match before_push(&p.view, &p.tip, &self.branch, &seen) {
            None => {
                self.stage = PushStage::Send;
                PushAction::Send(at)
            },
            Some(o) => {
                let ghost said = o;
                self.run.record(o);
                let ghost mid = *self;
                assert(recorded(*old(self), said, mid));
                self.send_next()
            },
        }
    }

    fn sent(&mut self, sent: Result<(), String>) -> (r: PushAction)
        requires
            old(self).wf(),
            old(self).stage == PushStage::Send,
        ensures
            final(self).wf(),
            stepped(*old(self), PushEvent::Sent(sent), *final(self), r),
    {
        let at = self.run.outcomes.len();
        let o = after_push(&self.run.plan[at].view, &self.branch, sent);
        let ghost said = o;
        self.run.record(o);
        let ghost mid = *self;
        assert(recorded(*old(self), said, mid));
        self.send_next()
    }

    /// Takes what came of the last action and says what to do next.
    pub fn step(&mut self, event: PushEvent) -> (r: PushAction)
        requires
            old(self).wf(),
            fits_push(old(self).stage, event),
        ensures
            final(self).wf(),
            stepped(*old(self), event, *final(self), r),
    {
        match event {
            PushEvent::Done => match self.stage {
                PushStage::Branch => {
                    match refuse_default_branch(
                        &self.left,
                        &self.branch,
                        self.args.allow_default_branch,
                    ) {
                        Some(refusal) => self.refuse(refusal.message, Some(refusal.hint)),
                        None => {
                            self.stage = PushStage::Views;
                            PushAction::ValidateViews
                        },
                    }
                },
                PushStage::Views => self.go_on(),
                _ => self.plan_one(),
            },
            PushEvent::Published(yes) => if yes {
                self.stage = PushStage::Survey;
                PushAction::Survey
            } else {
                self.stage = PushStage::Derive;
                PushAction::Derive
            },
            PushEvent::Found(found) => self.found(found),
            PushEvent::Tip(raw, wide) => self.described(raw, wide),
            PushEvent::Observed(seen) => self.observe(seen),
            PushEvent::Sent(sent) => self.sent(sent),
        }
    }
}

/// The views of a push: those that are planned, and then those that are left.
pub open spec fn selection(flow: PushFlow) -> Seq<ViewConfig> {
    Seq::new(flow.run.plan@.len(), |i: int| flow.run.plan@[i].view) + flow.left@
}

proof fn lemma_same_selection(a: PushFlow, b: PushFlow)
    requires
        b.left@ == a.left@,
        b.run.plan@ == a.run.plan@,
    ensures
        selection(b) == selection(a),
{
    assert(selection(b) =~= selection(a));
}

proof fn lemma_planned_one_keeps(a: PushFlow, m: PushFlow)
    requires
        a.left@.len() > 0,
        planned_one(a, m),
    ensures
        selection(m) == selection(a),
{
    let n = a.run.plan@.len() as int;
    assert(a.run.plan@ == m.run.plan@.take(n));
    assert forall|i: int| 0 <= i < n implies m.run.plan@[i] == #[trigger] a.run.plan@[i] by {
        assert(m.run.plan@.take(n)[i] == m.run.plan@[i]);
    }
    assert(selection(m) =~= selection(a));
}

/// No step of a push loses a view, adds one or changes their order.
pub proof fn law_a_step_keeps_the_selection(a: PushFlow, e: PushEvent, b: PushFlow, r: PushAction)
    requires
        a.wf(),
        fits_push(a.stage, e),
        stepped(a, e, b, r),
    ensures
        selection(b) == selection(a),
{
    match a.stage {
        PushStage::Record => {
            let m = choose|m: PushFlow| #[trigger] planned_one(a, m) && goes_on(m, b, r);
            lemma_planned_one_keeps(a, m);
            lemma_same_selection(m, b);
        },
        PushStage::Observe => {
            let p = a.run.plan@[a.run.outcomes@.len() as int];
            let seen = e->Observed_0;
            if !(seen is Ok && !already(seen->Ok_0, p.tip@)) {
                let (m, o) = choose|m: PushFlow, o: Outcome|
                    observed_outcome(p, a.branch@, seen, o) && #[trigger] recorded(a, o, m)
                        && sends_next(m, b, r);
                assert(recorded(a, o, m) && sends_next(m, b, r));
            }
            lemma_same_selection(a, b);
        },
        PushStage::Send => {
            let p = a.run.plan@[a.run.outcomes@.len() as int];
            let (m, o) = choose|m: PushFlow, o: Outcome|
                sent_outcome(p, a.branch@, e->Sent_0, o) && #[trigger] recorded(a, o, m)
                    && sends_next(m, b, r);
            assert(recorded(a, o, m) && sends_next(m, b, r));
            lemma_same_selection(a, b);
        },
        _ => {
            lemma_same_selection(a, b);
        },
    }
}

/// Nothing is sent before everything is planned, and nothing at all in a dry
/// run: while a remote branch is looked up or written, every view of the push
/// has its tip, and no view has failed.
pub proof fn law_planned_before_sent(flow: PushFlow)
    requires
        flow.wf(),
        flow.stage == PushStage::Observe || flow.stage == PushStage::Send,
    ensures
        selection(flow).len() == flow.run.plan@.len(),
        forall|i: int|
            0 <= i < selection(flow).len() ==> #[trigger] selection(flow)[i]
                == flow.run.plan@[i].view,
        !flow.args.dry_run,
        !has_failed(flow.run.outcomes@),
{
}

} // verus!
