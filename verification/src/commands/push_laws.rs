//! What a push comes to: which views are sent, and why one is not.
use crate::commands::github::string_view;
use crate::commands::config::ViewConfig;
use crate::commands::push::{blank_byte, default_of, has_failed, unsent, Found, Outcome, Planned};
use crate::commands::pushing::{
    fits_push, goes_on, observed_outcome, planned_one, recorded, sends_next, sent_outcome, stepped,
    PushAction, PushEvent, PushFlow, PushStage,
};
use crate::commands::status::Position;
use crate::history::commits::{commit_of, is_blank_message};
use vstd::prelude::*;

verus! {

/// Whether the `k`th step of a push leads from one flow to the next.
pub open spec fn leads_on(
    flows: Seq<PushFlow>,
    events: Seq<PushEvent>,
    actions: Seq<PushAction>,
    k: int,
) -> bool {
    &&& flows[k].wf()
    &&& fits_push(flows[k].stage, events[k])
    &&& stepped(flows[k], events[k], flows[k + 1], actions[k])
    &&& flows[k + 1].wf()
}

/// Whether these are the steps of a push from its start: `actions[k]` is what
/// was asked for when `events[k]` had come.
pub open spec fn is_push(
    flows: Seq<PushFlow>,
    events: Seq<PushEvent>,
    actions: Seq<PushAction>,
) -> bool {
    &&& flows.len() == events.len() + 1
    &&& actions.len() == events.len()
    &&& flows[0].wf()
    &&& flows[0].stage == PushStage::Branch
    &&& flows[0].run.plan@.len() == 0
    &&& forall|k: int| 0 <= k < events.len() ==> #[trigger] leads_on(flows, events, actions, k)
}

/// What is to be made of what was found out about a view: its tip is sent,
/// unless it was compared with the published branch and found to be the
/// published tip.
pub open spec fn is_planned_by(
    f: Found,
    tip: Seq<char>,
    published: Option<Seq<char>>,
) -> bool {
    match f {
        Found::Surveyed { derived, position, upstream } => {
            &&& derived is Some && derived->0@ == tip
            &&& position == Position::Current ==> published == Some(upstream@)
            &&& position == Position::LocalAhead ==> published is None
            &&& position == Position::FastForward ==> published is None
            &&& position == Position::Diverged ==> published is None
        },
        Found::Derived { tip: derived } => derived is Some && derived->0@ == tip && published is None,
    }
}

/// A view is passed over only where comparing it with its published branch
/// found its tip to be the published one. In every other position, and where
/// nothing is published, it is left to be sent.
pub proof fn law_only_a_published_tip_is_passed_over(
    a: PushFlow,
    f: Found,
    b: PushFlow,
    r: PushAction,
)
    requires
        a.wf(),
        a.stage == PushStage::Survey || a.stage == PushStage::Derive,
        fits_push(a.stage, PushEvent::Found(f)),
        stepped(a, PushEvent::Found(f), b, r),
    ensures
        r is Refuse || is_planned_by(f, b.tip@, string_view(b.published)),
        r is Refuse <==> match f {
            Found::Surveyed { derived, .. } => derived is None,
            Found::Derived { tip } => tip is None,
        },
        b.left@ == a.left@,
        b.run.plan@ == a.run.plan@,
{
}

// -- the plan ----------------------------------------------------------------

/// Whether an event is what was found out about the view that was the `i`th to
/// be planned.
pub open spec fn found_out(
    flows: Seq<PushFlow>,
    events: Seq<PushEvent>,
    k: int,
    i: int,
    tip: Seq<char>,
    published: Option<Seq<char>>,
) -> bool {
    &&& events[k] is Found
    &&& flows[k].run.plan@.len() == i
    &&& flows[k].left@.len() > 0
    &&& is_planned_by(events[k]->Found_0, tip, published)
}

/// Whether the `i`th planned view was looked into before.
pub open spec fn was_found_out(
    flows: Seq<PushFlow>,
    events: Seq<PushEvent>,
    n: int,
    i: int,
    p: Planned,
) -> bool {
    exists|k: int|
        0 <= k < n && #[trigger] found_out(flows, events, k, i, p.tip@, string_view(p.published))
            && flows[k].left@[0] == p.view
}

spec fn is_in_hand(flows: Seq<PushFlow>, events: Seq<PushEvent>, n: int) -> bool {
    flows[n].stage == PushStage::Tip || flows[n].stage == PushStage::Record ==> exists|k: int|
        0 <= k < n && #[trigger] found_out(
            flows,
            events,
            k,
            flows[n].run.plan@.len() as int,
            flows[n].tip@,
            string_view(flows[n].published),
        ) && flows[k].left@ == flows[n].left@
}

spec fn all_found_out(flows: Seq<PushFlow>, events: Seq<PushEvent>, n: int) -> bool {
    forall|i: int|
        0 <= i < flows[n].run.plan@.len() ==> was_found_out(
            flows,
            events,
            n,
            i,
            #[trigger] flows[n].run.plan@[i],
        )
}

proof fn lemma_plan(
    flows: Seq<PushFlow>,
    events: Seq<PushEvent>,
    actions: Seq<PushAction>,
    n: int,
)
    requires
        is_push(flows, events, actions),
        0 <= n <= events.len(),
    ensures
        all_found_out(flows, events, n),
        is_in_hand(flows, events, n),
    decreases n,
{
    if n > 0 {
        let m = n - 1;
        lemma_plan(flows, events, actions, m);
        assert(leads_on(flows, events, actions, m));
        let a = flows[m];
        let b = flows[n];
        let r = actions[m];
        assert forall|i: int|
            0 <= i < a.run.plan@.len() && b.run.plan@.len() > i && b.run.plan@[i]
                == a.run.plan@[i] implies was_found_out(
            flows,
            events,
            n,
            i,
            #[trigger] b.run.plan@[i],
        ) by {
            let p = a.run.plan@[i];
            assert(was_found_out(flows, events, m, i, p));
            let k = choose|k: int|
                0 <= k < m && #[trigger] found_out(
                    flows,
                    events,
                    k,
                    i,
                    p.tip@,
                    string_view(p.published),
                ) && flows[k].left@[0] == p.view;
            assert(found_out(flows, events, k, i, p.tip@, string_view(p.published)));
        }
        if a.stage == PushStage::Survey || a.stage == PushStage::Derive {
            assert(events[m] == PushEvent::Found(events[m]->Found_0));
            law_only_a_published_tip_is_passed_over(a, events[m]->Found_0, b, r);
            if r !is Refuse {
                assert(found_out(
                    flows,
                    events,
                    m,
                    b.run.plan@.len() as int,
                    b.tip@,
                    string_view(b.published),
                ));
            }
        } else if a.stage == PushStage::Tip {
            assert(b.run.plan@ == a.run.plan@ && b.left@ == a.left@);
            if b.stage == PushStage::Record {
                let k = choose|k: int|
                    0 <= k < m && #[trigger] found_out(
                        flows,
                        events,
                        k,
                        a.run.plan@.len() as int,
                        a.tip@,
                        string_view(a.published),
                    ) && flows[k].left@ == a.left@;
                assert(found_out(
                    flows,
                    events,
                    k,
                    b.run.plan@.len() as int,
                    b.tip@,
                    string_view(b.published),
                ));
            }
        } else if a.stage == PushStage::Record {
            let d = choose|d: PushFlow| #[trigger] planned_one(a, d) && goes_on(d, b, r);
            let last = a.run.plan@.len() as int;
            assert(b.run.plan@ == d.run.plan@);
            assert(d.run.plan@.take(last) == a.run.plan@);
            assert forall|i: int| 0 <= i < last implies #[trigger] b.run.plan@[i]
                == a.run.plan@[i] by {
                assert(d.run.plan@.take(last)[i] == d.run.plan@[i]);
            }
            let k = choose|k: int|
                0 <= k < m && #[trigger] found_out(
                    flows,
                    events,
                    k,
                    last,
                    a.tip@,
                    string_view(a.published),
                ) && flows[k].left@ == a.left@;
            let p = b.run.plan@[last];
            assert(found_out(flows, events, k, last, p.tip@, string_view(p.published)));
            assert(was_found_out(flows, events, n, last, p));
        } else if a.stage == PushStage::Observe {
            lemma_observed(a, events[m], b, r);
        } else if a.stage == PushStage::Send {
            lemma_sent(a, events[m], b, r);
        }
    }
}

/// In the plan of a push every view stands with the tip that was found out
/// about it, and counts as published only where its tip was found to be the
/// published one.
pub proof fn law_the_plan_is_what_was_found_out(
    flows: Seq<PushFlow>,
    events: Seq<PushEvent>,
    actions: Seq<PushAction>,
    n: int,
    i: int,
)
    requires
        is_push(flows, events, actions),
        0 <= n <= events.len(),
        0 <= i < flows[n].run.plan@.len(),
    ensures
        was_found_out(flows, events, n, i, flows[n].run.plan@[i]),
{
    lemma_plan(flows, events, actions, n);
}

// -- what comes of each view -------------------------------------------------

proof fn lemma_observed(a: PushFlow, e: PushEvent, b: PushFlow, r: PushAction)
    requires
        a.wf(),
        a.stage == PushStage::Observe,
        fits_push(a.stage, e),
        stepped(a, e, b, r),
    ensures
        b.run.plan@ == a.run.plan@,
        b.left@ == a.left@,
        a.run.outcomes@.is_prefix_of(b.run.outcomes@),
        b.stage == PushStage::Send || b.run.outcomes@.len() > a.run.outcomes@.len(),
        b.stage == PushStage::Send ==> b.run.outcomes@ == a.run.outcomes@,
        b.stage != PushStage::Tip && b.stage != PushStage::Record,
{
    let p = a.run.plan@[a.run.outcomes@.len() as int];
    let seen = e->Observed_0;
    if b.stage != PushStage::Send || !(seen is Ok) {
        if !(seen is Ok && !crate::commands::push::already(seen->Ok_0, p.tip@)) {
            let (m, o) = choose|m: PushFlow, o: Outcome|
                observed_outcome(p, a.branch@, seen, o) && #[trigger] recorded(a, o, m)
                    && sends_next(m, b, r);
            lemma_longer(a.run.outcomes@, o, b.run.outcomes@);
        }
    } else if !(seen is Ok && !crate::commands::push::already(seen->Ok_0, p.tip@)) {
        let (m, o) = choose|m: PushFlow, o: Outcome|
            observed_outcome(p, a.branch@, seen, o) && #[trigger] recorded(a, o, m) && sends_next(
                m,
                b,
                r,
            );
        assert(recorded(a, o, m) && sends_next(m, b, r));
    }
    assert(a.run.outcomes@.take(a.run.outcomes@.len() as int) =~= a.run.outcomes@);
}

proof fn lemma_sent(a: PushFlow, e: PushEvent, b: PushFlow, r: PushAction)
    requires
        a.wf(),
        a.stage == PushStage::Send,
        fits_push(a.stage, e),
        stepped(a, e, b, r),
    ensures
        b.run.plan@ == a.run.plan@,
        b.left@ == a.left@,
        a.run.outcomes@.is_prefix_of(b.run.outcomes@),
        b.run.outcomes@.len() > a.run.outcomes@.len(),
        b.stage == PushStage::Observe || b.stage == PushStage::Over,
{
    let p = a.run.plan@[a.run.outcomes@.len() as int];
    let (m, o) = choose|m: PushFlow, o: Outcome|
        sent_outcome(p, a.branch@, e->Sent_0, o) && #[trigger] recorded(a, o, m) && sends_next(
            m,
            b,
            r,
        );
    lemma_longer(a.run.outcomes@, o, b.run.outcomes@);
}

proof fn lemma_longer(before: Seq<Outcome>, o: Outcome, after: Seq<Outcome>)
    requires
        before.push(o).is_prefix_of(after),
    ensures
        before.is_prefix_of(after),
        after.len() > before.len(),
        after[before.len() as int] == o,
{
    assert(after.take(before.len() as int + 1) == before.push(o));
    assert(after.take(before.len() as int) =~= before) by {
        assert forall|i: int| 0 <= i < before.len() implies after[i] == before[i] by {
            assert(after.take(before.len() as int + 1)[i] == before.push(o)[i]);
        }
    }
    assert(after[before.len() as int] == after.take(before.len() as int + 1)[before.len() as int]);
}

/// Whether a step settled what came of the `i`th view: it was being looked up
/// or sent, and the answer was this one.
pub open spec fn settled(
    flows: Seq<PushFlow>,
    events: Seq<PushEvent>,
    k: int,
    i: int,
    p: Planned,
    o: Outcome,
) -> bool {
    &&& flows[k].run.outcomes@.len() == i
    &&& match o {
        Outcome::Pushed { .. } => flows[k].stage == PushStage::Send && events[k] is Sent
            && events[k]->Sent_0 is Ok,
        Outcome::Current { .. } => flows[k].stage == PushStage::Observe && events[k] is Observed && (
        events[k]->Observed_0 matches Ok(Some(at)) && at@ == p.tip@),
        Outcome::Failed(m) => if flows[k].stage == PushStage::Send {
            events[k] is Sent && (events[k]->Sent_0 matches Err(x) && x@ == m@)
        } else {
            flows[k].stage == PushStage::Observe && events[k] is Observed && (events[k]->Observed_0
                matches Err(x) && x@ == m@)
        },
        _ => false,
    }
}

/// Whether what is recorded of the `i`th view is what came of it: it was
/// passed over because it adds nothing, or left alone because an earlier one
/// had failed, or the remote settled it.
pub open spec fn told(
    flows: Seq<PushFlow>,
    events: Seq<PushEvent>,
    n: int,
    i: int,
    o: Outcome,
) -> bool {
    let p = flows[n].run.plan@[i];
    match o {
        Outcome::NoChanges { published } => p.published is Some && p.published->0@ == published@,
        Outcome::NotAttempted => has_failed(flows[n].run.outcomes@),
        _ => p.published is None && exists|k: int|
            0 <= k < n && #[trigger] settled(flows, events, k, i, p, o),
    }
}

spec fn all_told(flows: Seq<PushFlow>, events: Seq<PushEvent>, n: int) -> bool {
    forall|i: int|
        0 <= i < flows[n].run.outcomes@.len() ==> told(
            flows,
            events,
            n,
            i,
            #[trigger] flows[n].run.outcomes@[i],
        )
}

/// What is looked up or sent adds something.
spec fn wants_sending(flow: PushFlow) -> bool {
    flow.stage == PushStage::Observe || flow.stage == PushStage::Send
        ==> flow.run.plan@[flow.run.outcomes@.len() as int].published is None
}

proof fn lemma_told_on(
    flows: Seq<PushFlow>,
    events: Seq<PushEvent>,
    m: int,
    i: int,
)
    requires
        0 <= m,
        0 <= i < flows[m].run.outcomes@.len(),
        all_told(flows, events, m),
        flows[m + 1].run.plan@ == flows[m].run.plan@,
        flows[m].run.outcomes@.is_prefix_of(flows[m + 1].run.outcomes@),
    ensures
        told(flows, events, m + 1, i, flows[m + 1].run.outcomes@[i]),
{
    let was = flows[m].run.outcomes@;
    let is = flows[m + 1].run.outcomes@;
    assert(was == is.take(was.len() as int));
    assert(is[i] == is.take(was.len() as int)[i]);
    let o = was[i];
    let p = flows[m].run.plan@[i];
    assert(told(flows, events, m, i, o));
    match o {
        Outcome::NoChanges { .. } => {},
        Outcome::NotAttempted => {
            let j = choose|j: int| 0 <= j < was.len() && #[trigger] was[j] is Failed;
            assert(is[j] == is.take(was.len() as int)[j]);
            assert(is[j] is Failed);
        },
        _ => {
            let k = choose|k: int| 0 <= k < m && #[trigger] settled(flows, events, k, i, p, o);
            assert(settled(flows, events, k, i, p, o));
        },
    }
}

proof fn lemma_outcomes(
    flows: Seq<PushFlow>,
    events: Seq<PushEvent>,
    actions: Seq<PushAction>,
    n: int,
)
    requires
        is_push(flows, events, actions),
        0 <= n <= events.len(),
    ensures
        all_told(flows, events, n),
        wants_sending(flows[n]),
    decreases n,
{
    if n == 0 {
        assert(flows[0].run.outcomes@.len() == 0);
    } else {
        let m = n - 1;
        lemma_outcomes(flows, events, actions, m);
        assert(leads_on(flows, events, actions, m));
        let a = flows[m];
        let b = flows[n];
        let r = actions[m];
        let e = events[m];
        let at = a.run.outcomes@.len() as int;
        let p = a.run.plan@[at];
        if a.stage == PushStage::Observe {
            let seen = e->Observed_0;
            if seen is Ok && !crate::commands::push::already(seen->Ok_0, p.tip@) {
                assert(a.run.outcomes@.take(at) =~= a.run.outcomes@);
                assert forall|i: int| 0 <= i < b.run.outcomes@.len() implies told(
                    flows,
                    events,
                    n,
                    i,
                    #[trigger] b.run.outcomes@[i],
                ) by {
                    lemma_told_on(flows, events, m, i);
                }
            } else {
                let (d, o) = choose|d: PushFlow, o: Outcome|
                    observed_outcome(p, a.branch@, seen, o) && #[trigger] recorded(a, o, d)
                        && sends_next(d, b, r);
                lemma_longer(a.run.outcomes@, o, b.run.outcomes@);
                assert(settled(flows, events, m, at, p, o));
                lemma_next(flows, events, m, d, o, r);
            }
        } else if a.stage == PushStage::Send {
            let (d, o) = choose|d: PushFlow, o: Outcome|
                sent_outcome(p, a.branch@, e->Sent_0, o) && #[trigger] recorded(a, o, d)
                    && sends_next(d, b, r);
            lemma_longer(a.run.outcomes@, o, b.run.outcomes@);
            assert(settled(flows, events, m, at, p, o));
            lemma_next(flows, events, m, d, o, r);
        } else if a.stage == PushStage::Record {
            let d = choose|d: PushFlow| #[trigger] planned_one(a, d) && goes_on(d, b, r);
            if d.left@.len() == 0 && !d.args.dry_run {
                lemma_first_sent(flows, events, m, d, r);
            }
        } else if a.stage == PushStage::Views {
            if a.left@.len() == 0 && !a.args.dry_run {
                lemma_first_sent(flows, events, m, a, r);
            }
        }
    }
}

/// Passing over views after one was settled.
proof fn lemma_next(
    flows: Seq<PushFlow>,
    events: Seq<PushEvent>,
    m: int,
    d: PushFlow,
    o: Outcome,
    r: PushAction,
)
    requires
        0 <= m,
        all_told(flows, events, m),
        wants_sending(flows[m]),
        flows[m].stage == PushStage::Observe || flows[m].stage == PushStage::Send,
        flows[m].wf(),
        recorded(flows[m], o, d),
        sends_next(d, flows[m + 1], r),
        settled(
            flows,
            events,
            m,
            flows[m].run.outcomes@.len() as int,
            flows[m].run.plan@[flows[m].run.outcomes@.len() as int],
            o,
        ),
    ensures
        all_told(flows, events, m + 1),
        wants_sending(flows[m + 1]),
{
    let a = flows[m];
    let b = flows[m + 1];
    let at = a.run.outcomes@.len() as int;
    let p = a.run.plan@[at];
    lemma_longer(a.run.outcomes@, o, b.run.outcomes@);
    assert forall|i: int| 0 <= i < b.run.outcomes@.len() implies told(
        flows,
        events,
        m + 1,
        i,
        #[trigger] b.run.outcomes@[i],
    ) by {
        if i < at {
            lemma_told_on(flows, events, m, i);
        } else if i == at {
            assert(b.run.outcomes@[i] == o);
            assert(settled(flows, events, m, i, p, o));
        } else {
            assert(d.run.outcomes@.len() == at + 1);
            assert(unsent(b.run.plan@[i], has_failed(d.run.outcomes@), b.run.outcomes@[i]));
        }
    }
}

/// Passing over views before any is sent.
proof fn lemma_first_sent(
    flows: Seq<PushFlow>,
    events: Seq<PushEvent>,
    m: int,
    d: PushFlow,
    r: PushAction,
)
    requires
        0 <= m,
        d.run.outcomes@.len() == 0,
        sends_next(d, flows[m + 1], r),
    ensures
        all_told(flows, events, m + 1),
        wants_sending(flows[m + 1]),
{
    let b = flows[m + 1];
    assert(!has_failed(d.run.outcomes@));
    assert forall|i: int| 0 <= i < b.run.outcomes@.len() implies told(
        flows,
        events,
        m + 1,
        i,
        #[trigger] b.run.outcomes@[i],
    ) by {
        assert(unsent(b.run.plan@[i], has_failed(d.run.outcomes@), b.run.outcomes@[i]));
    }
}

/// What a push records of each view is what came of it. A view that adds
/// something counts as pushed only where sending it succeeded, as current only
/// where the remote branch was seen at its tip, and as failed only where
/// looking or sending failed, with what was said.
pub proof fn law_outcomes_are_what_happened(
    flows: Seq<PushFlow>,
    events: Seq<PushEvent>,
    actions: Seq<PushAction>,
    n: int,
    i: int,
)
    requires
        is_push(flows, events, actions),
        0 <= n <= events.len(),
        0 <= i < flows[n].run.outcomes@.len(),
    ensures
        told(flows, events, n, i, flows[n].run.outcomes@[i]),
{
    lemma_outcomes(flows, events, actions, n);
}

/// A push that ends well, and was no dry run, has dealt with every view that it
/// planned: a view that was found ahead of its published branch, behind it or
/// beside it, or that is not published, was sent, or the remote had it.
pub proof fn law_a_push_sends_every_view_that_adds_something(
    flows: Seq<PushFlow>,
    events: Seq<PushEvent>,
    actions: Seq<PushAction>,
    n: int,
    i: int,
)
    requires
        is_push(flows, events, actions),
        0 < n <= events.len(),
        actions[n - 1] is Finish,
        actions[n - 1]->verdict is None,
        !flows[n].args.dry_run,
        0 <= i < flows[n].run.plan@.len(),
    ensures
        flows[n].run.outcomes@.len() == flows[n].run.plan@.len(),
        flows[n].left@.len() == 0,
        flows[n].run.plan@[i].published is None ==> (flows[n].run.outcomes@[i] is Pushed
            || flows[n].run.outcomes@[i] is Current) && exists|k: int|
            0 <= k < n && #[trigger] settled(
                flows,
                events,
                k,
                i,
                flows[n].run.plan@[i],
                flows[n].run.outcomes@[i],
            ),
        flows[n].run.plan@[i].published is Some ==> flows[n].run.outcomes@[i] is NoChanges,
        was_found_out(flows, events, n, i, flows[n].run.plan@[i]),
{
    let m = n - 1;
    lemma_plan(flows, events, actions, n);
    lemma_outcomes(flows, events, actions, n);
    assert(leads_on(flows, events, actions, m));
    let a = flows[m];
    let b = flows[n];
    let r = actions[m];
    let e = events[m];
    assert(b.run.outcomes@.len() == b.run.plan@.len() && !has_failed(b.run.outcomes@)
        && b.left@.len() == 0) by {
        let at = a.run.outcomes@.len() as int;
        let p = a.run.plan@[at];
        if a.stage == PushStage::Observe {
            let seen = e->Observed_0;
            let (d, o) = choose|d: PushFlow, o: Outcome|
                observed_outcome(p, a.branch@, seen, o) && #[trigger] recorded(a, o, d)
                    && sends_next(d, b, r);
            assert(recorded(a, o, d) && sends_next(d, b, r));
        } else if a.stage == PushStage::Send {
            let (d, o) = choose|d: PushFlow, o: Outcome|
                sent_outcome(p, a.branch@, e->Sent_0, o) && #[trigger] recorded(a, o, d)
                    && sends_next(d, b, r);
            assert(recorded(a, o, d) && sends_next(d, b, r));
        } else if a.stage == PushStage::Record {
            let d = choose|d: PushFlow| #[trigger] planned_one(a, d) && goes_on(d, b, r);
            assert(goes_on(d, b, r));
        }
    }
    let o = b.run.outcomes@[i];
    assert(told(flows, events, n, i, o));
    if o is Failed {
        assert(has_failed(b.run.outcomes@));
    }
}

/// Where the next view that adds something is looked up and the remote branch
/// is not at its tip, that view is sent.
pub proof fn law_a_missing_tip_is_sent(
    a: PushFlow,
    at: Option<String>,
    b: PushFlow,
    r: PushAction,
)
    requires
        a.wf(),
        a.stage == PushStage::Observe,
        stepped(a, PushEvent::Observed(Ok(at)), b, r),
        at is None || at->0@ != a.run.plan@[a.run.outcomes@.len() as int].tip@,
    ensures
        r == PushAction::Send(a.run.outcomes@.len() as usize),
        b.stage == PushStage::Send,
        b.run.plan@ == a.run.plan@,
        b.run.outcomes@ == a.run.outcomes@,
{
}

// -- what is refused ---------------------------------------------------------

proof fn lemma_default_of(views: Seq<ViewConfig>, branch: Seq<char>, i: int)
    requires
        0 <= i <= views.len(),
    ensures
        i <= default_of(views, branch, i) <= views.len(),
        default_of(views, branch, i) < views.len() <==> exists|j: int|
            i <= j < views.len() && (#[trigger] views[j]).branch@ == branch,
    decreases views.len() - i,
{
    if i < views.len() && views[i].branch@ != branch {
        lemma_default_of(views, branch, i + 1);
    }
}

/// A push under the name of a view's own default branch is refused before
/// anything is looked at, unless that was asked for as well; under any other
/// name it goes on.
pub proof fn law_default_branch_takes_saying_so(a: PushFlow, b: PushFlow, r: PushAction)
    requires
        a.wf(),
        a.stage == PushStage::Branch,
        stepped(a, PushEvent::Done, b, r),
    ensures
        r is Refuse <==> !a.args.allow_default_branch && exists|i: int|
            0 <= i < a.left@.len() && (#[trigger] a.left@[i]).branch@ == a.branch@,
        r is Refuse || r is ValidateViews,
        b.run.plan@ == a.run.plan@,
        b.left@ == a.left@,
{
    lemma_default_of(a.left@, a.branch@, 0);
}

/// A tip whose message is nothing but white space is refused unless that was
/// allowed, and so is one that cannot be read; any other tip is recorded.
pub proof fn law_undescribed_tip_is_refused(
    a: PushFlow,
    raw: Vec<u8>,
    wide: bool,
    b: PushFlow,
    r: PushAction,
)
    requires
        a.wf(),
        a.stage == PushStage::Tip,
        stepped(a, PushEvent::Tip(raw, wide), b, r),
    ensures
        commit_of(raw@, wide) is None ==> r is Refuse,
        commit_of(raw@, wide) matches Some(c) ==> (r is Refuse <==> !a.args.allow_empty_description
            && forall|i: int|
            0 <= i < c.message.len() ==> (#[trigger] c.message[i] == 32 || c.message[i] == 9
                || c.message[i] == 10 || c.message[i] == 12 || c.message[i] == 13)),
        r is Refuse || (r is Record && r->Record_0@ == a.tip@ && b.tip == a.tip && b.published
            == a.published),
{
    if commit_of(raw@, wide) is Some {
        let m = commit_of(raw@, wide)->0.message;
        assert(is_blank_message(m) <==> forall|i: int|
            0 <= i < m.len() ==> (#[trigger] m[i] == 32 || m[i] == 9 || m[i] == 10 || m[i] == 12
                || m[i] == 13)) by {
            if is_blank_message(m) {
                assert forall|i: int| 0 <= i < m.len() implies (#[trigger] m[i] == 32 || m[i] == 9
                    || m[i] == 10 || m[i] == 12 || m[i] == 13) by {
                    assert(blank_byte(m[i]));
                }
            } else {
                let i = choose|i: int| 0 <= i < m.len() && !blank_byte(#[trigger] m[i]);
                assert(m[i] != 32);
            }
        }
    }
}

} // verus!
