//! What checking the anchors of views comes to: none is passed over, none is
//! recorded that is not in the history, and each comes from where it should.
use crate::commands::anchor::{
    first_state, fits, ActionView, AnchorEndpointKind, Event, Plan, RunView, Stage, StatusView,
};
use crate::commands::config::ViewConfig;
use vstd::prelude::*;

verus! {

/// Whether these are the steps of a run: `actions[k]` is what is to be done in
/// `states[k]`, and `events[k]` what came of it.
pub open spec fn is_run(
    p: Plan,
    states: Seq<RunView>,
    events: Seq<Event>,
    actions: Seq<ActionView>,
) -> bool {
    &&& states.len() == events.len() + 1
    &&& actions.len() == states.len()
    &&& (states[0], actions[0]) == first_state().begin(p)
    &&& forall|k: int| 0 <= k < events.len() ==> #[trigger] leads_on(p, states, events, actions, k)
}

pub open spec fn leads_on(
    p: Plan,
    states: Seq<RunView>,
    events: Seq<Event>,
    actions: Seq<ActionView>,
    k: int,
) -> bool {
    &&& fits(states[k].stage, events[k])
    &&& (states[k + 1], actions[k + 1]) == states[k].step(p, events[k])
}

/// Whether a view has an anchor whose source is in the history.
pub open spec fn is_anchored(p: Plan, v: ViewConfig) -> bool {
    v.anchor is Some && p.reachable.contains(v.anchor->0.source@)
}

/// Whether a status is that of a view: its name and the two commits of its
/// anchor.
pub open spec fn is_of(s: StatusView, v: ViewConfig) -> bool {
    &&& s.name == v.name@
    &&& v.anchor is Some
    &&& s.source == v.anchor->0.source@
    &&& s.view == v.anchor->0.view@
    &&& v.root_anchor ==> s.endpoint == AnchorEndpointKind::Local
    &&& s.endpoint == AnchorEndpointKind::Local ==> s.attempts.len() == 0 && s.fetched_commits == 0
    &&& s.endpoint != AnchorEndpointKind::Local ==> s.fetched_commits == 1
    &&& s.endpoint == AnchorEndpointKind::Published ==> s.attempts.len() == 0
    &&& s.endpoint == AnchorEndpointKind::Upstream ==> v.upstream is Some && s.attempts.len() == 1
        && s.attempts[0].endpoint == AnchorEndpointKind::Published
}

/// What holds of a run at every step.
pub open spec fn holds(p: Plan, s: RunView) -> bool {
    let v = p.views[s.at as int];
    &&& s.at <= p.views.len()
    &&& s.statuses.len() == s.at
    &&& forall|j: int|
        0 <= j < s.at ==> is_of(#[trigger] s.statuses[j], p.views[j]) && is_anchored(p, p.views[j])
    &&& s.stage != Stage::Done ==> s.at < p.views.len() && is_anchored(p, v)
    &&& s.stage == Stage::Root ==> v.root_anchor
    &&& s.stage == Stage::Find || s.stage == Stage::Seed || s.stage == Stage::Count || s.stage
        == Stage::Fetch || s.stage == Stage::Validate || s.stage == Stage::History || s.stage
        == Stage::Install ==> !v.root_anchor
    &&& s.stage == Stage::Fetch ==> s.attempts.len() < (if v.upstream is Some {
        2int
    } else {
        1
    }) && (s.attempts.len() == 1 ==> s.attempts[0].endpoint == AnchorEndpointKind::Published)
    &&& s.stage == Stage::Validate || s.stage == Stage::History || s.stage == Stage::Install ==> {
        &&& s.endpoint == AnchorEndpointKind::Published ==> s.attempts.len() == 0
        &&& s.endpoint == AnchorEndpointKind::Upstream ==> v.upstream is Some && s.attempts.len()
            == 1 && s.attempts[0].endpoint == AnchorEndpointKind::Published
        &&& s.endpoint != AnchorEndpointKind::Local
    }
    &&& s.stage == Stage::History ==> s.endpoint == AnchorEndpointKind::Published
    &&& s.stage == Stage::Record ==> is_of(s.recorded(p), v)
}

proof fn lemma_begin(p: Plan, s: RunView)
    requires
        s.at <= p.views.len(),
        s.statuses.len() == s.at,
        forall|j: int|
            0 <= j < s.at ==> is_of(#[trigger] s.statuses[j], p.views[j]) && is_anchored(
                p,
                p.views[j],
            ),
    ensures
        holds(p, s.begin(p).0),
{
}

proof fn lemma_step(p: Plan, s: RunView, e: Event)
    requires
        holds(p, s),
        fits(s.stage, e),
    ensures
        holds(p, s.step(p, e).0),
{
    if s.stage == Stage::Record {
        let next = RunView {
            at: s.at + 1,
            statuses: s.statuses.push(s.recorded(p)),
            attempts: seq![],
            ..s
        };
        assert forall|j: int| 0 <= j < next.at implies is_of(
            #[trigger] next.statuses[j],
            p.views[j],
        ) && is_anchored(p, p.views[j]) by {
            if j < s.at {
                assert(next.statuses[j] == s.statuses[j]);
            }
        }
        lemma_begin(p, next);
    }
}

proof fn lemma_run(
    p: Plan,
    states: Seq<RunView>,
    events: Seq<Event>,
    actions: Seq<ActionView>,
    n: int,
)
    requires
        is_run(p, states, events, actions),
        0 <= n < states.len(),
    ensures
        holds(p, states[n]),
    decreases n,
{
    if n == 0 {
        lemma_begin(p, first_state());
    } else {
        lemma_run(p, states, events, actions, n - 1);
        assert(leads_on(p, states, events, actions, n - 1));
        lemma_step(p, states[n - 1], events[n - 1]);
    }
}

/// A run that finishes has recorded the anchor of every view, in the order of
/// the views: its name and its two commits, the source one in the history. A
/// parentless anchor was made here; one from an upstream was asked for only
/// after the published branch had failed.
pub proof fn law_a_finished_run_recorded_every_anchor(
    p: Plan,
    states: Seq<RunView>,
    events: Seq<Event>,
    actions: Seq<ActionView>,
    n: int,
)
    requires
        is_run(p, states, events, actions),
        0 <= n < states.len(),
        actions[n] is Finish,
    ensures
        states[n].statuses.len() == p.views.len(),
        forall|i: int|
            0 <= i < p.views.len() ==> is_of(#[trigger] states[n].statuses[i], p.views[i])
                && is_anchored(p, p.views[i]),
{
    lemma_run(p, states, events, actions, n);
    if n > 0 {
        lemma_run(p, states, events, actions, n - 1);
        assert(leads_on(p, states, events, actions, n - 1));
        let s = states[n - 1];
        assert(s.stage == Stage::Record);
    }
}

/// A view without an anchor, or whose anchor is not in the history, stops the
/// run before anything is done for it.
pub proof fn law_an_unanchored_view_is_refused(p: Plan, s: RunView)
    requires
        s.at < p.views.len(),
        !is_anchored(p, p.views[s.at as int]),
    ensures
        s.begin(p).1 is Refuse,
        s.begin(p).0.stage == Stage::Done,
        s.begin(p).0.statuses == s.statuses,
{
}

/// An anchor that is in the object store is not fetched, and one that is not
/// is looked for at the published branch first, deep enough to reach it.
pub proof fn law_only_a_missing_anchor_is_fetched(
    p: Plan,
    states: Seq<RunView>,
    events: Seq<Event>,
    actions: Seq<ActionView>,
    n: int,
)
    requires
        is_run(p, states, events, actions),
        0 <= n < states.len() - 1,
        states[n].stage == Stage::Find || states[n].stage == Stage::Count,
    ensures
        ({
            let v = p.views[states[n].at as int];
            &&& states[n].stage == Stage::Find && events[n]->Present_0 ==> actions[n + 1]
                == ActionView::Seed
            &&& states[n].stage == Stage::Find && !events[n]->Present_0 ==> actions[n + 1]
                == ActionView::CountHosts
            &&& states[n].stage == Stage::Count && events[n]->Count_0 < usize::MAX ==> (actions[n
                + 1] matches ActionView::Fetch(from) && from.kind == AnchorEndpointKind::Published
                && from.remote == v.remote@ && from.selector == "refs/heads/"@ + v.branch@
                && from.depth == events[n]->Count_0 + 1)
        }),
{
    assert(leads_on(p, states, events, actions, n));
}

/// Where an endpoint has failed, the upstream is asked for the published
/// commit itself, if there is one that was not asked; else the run is refused.
pub proof fn law_upstream_is_asked_second(
    p: Plan,
    states: Seq<RunView>,
    events: Seq<Event>,
    actions: Seq<ActionView>,
    n: int,
)
    requires
        is_run(p, states, events, actions),
        0 <= n < states.len() - 1,
        states[n].stage == Stage::Fetch,
        events[n]->Fetched_0 is Err,
    ensures
        ({
            let v = p.views[states[n].at as int];
            if states[n].attempts.len() == 0 && v.upstream is Some {
                actions[n + 1] matches ActionView::Fetch(from) && from.kind
                    == AnchorEndpointKind::Upstream && from.remote == v.upstream->0@
                    && from.selector == v.anchor->0.view@ && from.depth == 1
            } else {
                actions[n + 1] is Refuse
            }
        }),
{
    lemma_run(p, states, events, actions, n);
    assert(leads_on(p, states, events, actions, n));
}

/// A fetched anchor is installed only once it was validated, and one that came
/// from the published branch only where the tip that the host derives is the
/// tip that was fetched.
pub proof fn law_an_installed_anchor_was_validated(
    p: Plan,
    states: Seq<RunView>,
    events: Seq<Event>,
    actions: Seq<ActionView>,
    n: int,
)
    requires
        is_run(p, states, events, actions),
        0 < n < states.len(),
        actions[n] is Install,
    ensures
        states[n - 1].stage == Stage::Validate || states[n - 1].stage == Stage::History,
        states[n].endpoint == AnchorEndpointKind::Published ==> states[n - 1].stage
            == Stage::History && events[n - 1]->Tip_0 is Some && events[n - 1]->Tip_0->0@
            == states[n - 1].tip,
{
    lemma_run(p, states, events, actions, n - 1);
    assert(leads_on(p, states, events, actions, n - 1));
}

} // verus!
