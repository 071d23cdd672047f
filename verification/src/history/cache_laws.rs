//! What reusing a cache keeps: filters do not disturb each other, a commit
//! that was derived costs nothing the next time, and an anchor that was
//! refused leaves no trace.
use crate::history::cache::{slot_from, Memory};
use crate::history::commits::{
    commit_of, head_of, head_text, id_len, lemma_head_of, lemma_rest_of, object_id, CommitView,
};
use crate::history::derive::{rules_of, CacheView, Rules, State};
use crate::history::error::{ErrorView, Kind};
use crate::history::filter::{FilterView, Semantics};
use crate::history::store::{empty_tree, StoreView};
use crate::history::tip_laws::{lemma_step_commits, within};
use crate::history::walk::{step_id, Step};
use vstd::prelude::*;

verus! {

// -- filters -----------------------------------------------------------------

proof fn lemma_slot_found(slots: Seq<(FilterView, CacheView)>, f: FilterView, i: int)
    requires
        0 <= i <= slots.len(),
    ensures
        i <= slot_from(slots, f, i) <= slots.len(),
        slot_from(slots, f, i) < slots.len() ==> slots[slot_from(slots, f, i)].0 == f,
    decreases slots.len() - i,
{
    if i < slots.len() && slots[i].0 != f {
        lemma_slot_found(slots, f, i + 1);
    }
}

/// A change to one filter's slot moves no slot, and one at the end adds none
/// for another filter.
proof fn lemma_slot_moved(
    slots: Seq<(FilterView, CacheView)>,
    more: Seq<(FilterView, CacheView)>,
    g: FilterView,
    i: int,
)
    requires
        0 <= i <= slots.len() <= more.len() <= slots.len() + 1,
        forall|j: int| 0 <= j < slots.len() ==> (#[trigger] more[j]).0 == slots[j].0,
        more.len() == slots.len() + 1 ==> more.last().0 != g,
    ensures
        slot_from(slots, g, i) < slots.len() ==> slot_from(more, g, i) == slot_from(slots, g, i),
        slot_from(slots, g, i) == slots.len() ==> slot_from(more, g, i) == more.len(),
    decreases slots.len() - i,
{
    if i < slots.len() {
        assert(more[i].0 == slots[i].0);
        if slots[i].0 != g {
            lemma_slot_moved(slots, more, g, i + 1);
        }
    } else if more.len() > slots.len() {
        assert(more[i] == more.last());
        assert(slot_from(more, g, i + 1) == i + 1);
    }
}

/// What was learned under a filter is found again, and nothing else changed.
pub proof fn lemma_learned(m: Memory, f: FilterView, c: CacheView, g: FilterView)
    ensures
        m.learned(f, c).under(f) == c,
        g != f ==> m.learned(f, c).under(g) == m.under(g),
        m.learned(f, c).reachable == m.reachable,
{
    lemma_slot_found(m.slots, f, 0);
    lemma_slot_found(m.slots, g, 0);
    let after = m.learned(f, c);
    let at = slot_from(m.slots, f, 0);
    if g != f {
        lemma_slot_moved(m.slots, after.slots, g, 0);
    }
    lemma_slot_same(m.slots, after.slots, f, 0);
    assert(after.slots[at] == (f, c));
}

/// The slot of the filter itself is where it was, or at the end.
proof fn lemma_slot_same(
    slots: Seq<(FilterView, CacheView)>,
    more: Seq<(FilterView, CacheView)>,
    f: FilterView,
    i: int,
)
    requires
        0 <= i <= slots.len() <= more.len() <= slots.len() + 1,
        forall|j: int| 0 <= j < slots.len() ==> (#[trigger] more[j]).0 == slots[j].0,
        more.len() == slots.len() + 1 ==> more.last().0 == f,
        more.len() == slots.len() ==> slot_from(slots, f, i) < slots.len(),
    ensures
        slot_from(more, f, i) == slot_from(slots, f, i),
    decreases slots.len() - i,
{
    if i < slots.len() {
        assert(more[i].0 == slots[i].0);
        if slots[i].0 != f {
            lemma_slot_same(slots, more, f, i + 1);
        }
    } else if more.len() > slots.len() {
        assert(more[i] == more.last());
    }
}

/// Filters do not share what they learn: deriving under one leaves what is
/// known under every other as it was.
pub proof fn law_filters_do_not_share(
    m: Memory,
    store: StoreView,
    f: FilterView,
    prune: bool,
    head: Seq<u8>,
    g: FilterView,
)
    requires
        g != f,
    ensures
        m.derive(store, f, prune, head).0.under(g) == m.under(g),
{
    let out = (State { store, cache: m.under(f) }).derived(rules_of(f), prune, head);
    lemma_learned(m, f, out.0.cache, g);
}

/// A view is the same under every version of the semantics: the version only
/// says where a lifted commit lands.
pub proof fn law_semantics_do_not_change_the_view(
    m: Memory,
    n: Memory,
    store: StoreView,
    f: FilterView,
    other: Semantics,
    prune: bool,
    head: Seq<u8>,
)
    requires
        m.under(f) == n.under((FilterView { semantics: other, ..f })),
    ensures
        ({
            let g = FilterView { semantics: other, ..f };
            let a = m.derive(store, f, prune, head);
            let b = n.derive(store, g, prune, head);
            a.1 == b.1 && a.2 == b.2 && a.0.under(f) == b.0.under(g)
        }),
{
    let g = FilterView { semantics: other, ..f };
    assert(rules_of(f) == rules_of(g));
    let out = (State { store, cache: m.under(f) }).derived(rules_of(f), prune, head);
    lemma_learned(m, f, out.0.cache, f);
    lemma_learned(n, g, out.0.cache, g);
}

// -- deriving again ----------------------------------------------------------

/// A commit that is known costs nothing: nothing is read, written or learned.
pub proof fn law_known_commit_costs_nothing(
    m: Memory,
    store: StoreView,
    f: FilterView,
    prune: bool,
    head: Seq<u8>,
)
    requires
        m.under(f).commits.dom().contains(head),
    ensures
        ({
            let out = m.derive(store, f, prune, head);
            &&& out.0.under(f) == m.under(f)
            &&& out.1 == store
            &&& out.2 == Ok::<Option<Seq<u8>>, ErrorView>(m.under(f).commits[head])
        }),
{
    let s = State { store, cache: m.under(f) };
    let r = rules_of(f);
    let stack = seq![Step::Enter(head)];
    assert(stack.drop_last() =~= Seq::<Step>::empty());
    assert(s.step(r, prune, stack.drop_last(), stack.last()) == (
        s,
        Ok::<Seq<Step>, ErrorView>(stack.drop_last()),
    ));
    assert(s.walk(r, prune, stack.drop_last(), (u64::MAX - 1) as nat) == (
        s,
        Ok::<(), ErrorView>(()),
    ));
    lemma_learned(m, f, m.under(f), f);
}

/// Whether a commit is known, or will be before the steps are done.
spec fn in_hand(s: State, stack: Seq<Step>, head: Seq<u8>) -> bool {
    s.cache.commits.dom().contains(head) || (stack.len() > 0 && step_id(stack[0]) == head)
}

/// Mapping a commit makes it known.
proof fn lemma_mapped_is_known(s: State, r: Rules, id: Seq<u8>, raw: Seq<u8>)
    requires
        s.map_commit(r, id, raw).1 is Ok,
    ensures
        s.map_commit(r, id, raw).0.cache.commits.dom().contains(id),
{
    let c = commit_of(raw, s.store.wide)->0;
    let d = s.descend(r, c.tree, 0);
    let k = d.0.knowing_source(id, c.tree);
    assert(s.map_commit(r, id, raw) == k.decide(r, id, raw, c, d.1->Ok_0));
}

/// A step makes its commit known, or leaves a step about it in its place.
proof fn lemma_step_in_hand(s: State, r: Rules, prune: bool, rest: Seq<Step>, top: Step)
    requires
        s.step(r, prune, rest, top).1 is Ok,
    ensures
        ({
            let (t, next) = s.step(r, prune, rest, top);
            let id = step_id(top);
            ||| t.cache.commits.dom().contains(id)
            ||| next->Ok_0.len() > rest.len() && step_id(next->Ok_0[rest.len() as int]) == id
        }),
        s.step(r, prune, rest, top).1->Ok_0.len() >= rest.len(),
        forall|i: int|
            0 <= i < rest.len() ==> #[trigger] s.step(r, prune, rest, top).1->Ok_0[i] == rest[i],
{
    let id = step_id(top);
    if !s.cache.commits.dom().contains(id) {
        let t = s.reading();
        let raw = t.store.read_commit(id)->Ok_0;
        match top {
            Step::Settle(_) => lemma_mapped_is_known(t, r, id, raw),
            Step::Follow(_, first) => {},
            Step::Enter(_) => {
                let c = commit_of(raw, t.store.wide)->0;
                let u = if prune {
                    t.prunable_first_parent(r, c).0
                } else {
                    t
                };
                if u.expand(r, rest, id, raw, c).1 is Ok && u.pending(
                    c.parents,
                    c.parents.len() as int,
                ).len() == 0 {
                    lemma_mapped_is_known(u, r, id, raw);
                }
            },
        }
    }
}

proof fn lemma_walk_knows(s: State, r: Rules, prune: bool, stack: Seq<Step>, fuel: nat, head: Seq<u8>)
    requires
        in_hand(s, stack, head),
        s.walk(r, prune, stack, fuel).1 is Ok,
    ensures
        s.walk(r, prune, stack, fuel).0.cache.commits.dom().contains(head),
    decreases fuel,
{
    if stack.len() > 0 {
        let rest = stack.drop_last();
        let top = stack.last();
        lemma_step_in_hand(s, r, prune, rest, top);
        lemma_step_commits(s, r, prune, rest, top);
        let (t, next) = s.step(r, prune, rest, top);
        assert(within(s.cache.commits, t.cache.commits));
        assert(in_hand(t, next->Ok_0, head)) by {
            if !s.cache.commits.dom().contains(head) {
                if rest.len() > 0 {
                    assert(next->Ok_0[0] == rest[0]);
                }
            }
        }
        lemma_walk_knows(t, r, prune, next->Ok_0, (fuel - 1) as nat, head);
    }
}

/// Deriving again gives the same view commit, and costs nothing.
pub proof fn law_deriving_again_costs_nothing(
    m: Memory,
    store: StoreView,
    f: FilterView,
    prune: bool,
    head: Seq<u8>,
    again: bool,
)
    requires
        m.derive(store, f, prune, head).2 is Ok,
    ensures
        ({
            let one = m.derive(store, f, prune, head);
            let two = one.0.derive(one.1, f, again, head);
            &&& two.0.under(f) == one.0.under(f)
            &&& two.1 == one.1
            &&& two.2 == one.2
        }),
{
    let s = State { store, cache: m.under(f) };
    let r = rules_of(f);
    let out = s.derived(r, prune, head);
    lemma_walk_knows(s, r, prune, seq![Step::Enter(head)], u64::MAX as nat, head);
    lemma_learned(m, f, out.0.cache, f);
    let one = m.derive(store, f, prune, head);
    law_known_commit_costs_nothing(one.0, one.1, f, again, head);
}

// -- anchors -----------------------------------------------------------------

/// An anchor that is refused leaves no trace under any filter; at most an
/// ancestry was learned.
pub proof fn law_refused_anchor_leaves_no_trace(
    m: Memory,
    store: StoreView,
    revision: Seq<u8>,
    reachable: Seq<Seq<u8>>,
    f: FilterView,
    source: Seq<u8>,
    view: Seq<u8>,
    view_tree: Seq<u8>,
    g: FilterView,
)
    requires
        m.seed(store, revision, reachable, f, source, view, view_tree).1 is Err,
    ensures
        m.seed(store, revision, reachable, f, source, view, view_tree).0 == m.walked(
            revision,
            reachable,
        ),
        m.seed(store, revision, reachable, f, source, view, view_tree).0.under(g) == m.under(g),
{
}

/// An anchor that is accepted joins two commits with the same filtered tree,
/// and its source is from then on known as its view commit.
pub proof fn law_accepted_anchor_matches(
    m: Memory,
    store: StoreView,
    revision: Seq<u8>,
    reachable: Seq<Seq<u8>>,
    f: FilterView,
    source: Seq<u8>,
    view: Seq<u8>,
    view_tree: Seq<u8>,
)
    requires
        m.seed(store, revision, reachable, f, source, view, view_tree).1 is Ok,
    ensures
        ({
            let after = m.seed(store, revision, reachable, f, source, view, view_tree).0;
            &&& after.reachable[revision].contains(source)
            &&& store.commit(source) is Ok
            &&& store.filtered(store.commit(source)->Ok_0.tree, rules_of(f).names) == Ok::<
                Seq<u8>,
                ErrorView,
            >(view_tree)
            &&& after.under(f).commits.dom().contains(source)
            &&& after.under(f).commits[source] == Some(view)
        }),
{
    let walked = m.walked(revision, reachable);
    let c = store.commit(source)->Ok_0;
    lemma_learned(
        walked,
        f,
        walked.under(f).anchored(source, view, c.tree, view_tree),
        f,
    );
}

/// An anchor is accepted exactly when its source is in the history, can be
/// read, and has the published tree at the path. The first history that is
/// given for a revision is the one that counts.
pub proof fn law_anchor_is_accepted_where_it_matches(
    m: Memory,
    store: StoreView,
    revision: Seq<u8>,
    reachable: Seq<Seq<u8>>,
    f: FilterView,
    source: Seq<u8>,
    view: Seq<u8>,
    view_tree: Seq<u8>,
)
    ensures
        ({
            let history = if m.reachable.dom().contains(revision) {
                m.reachable[revision]
            } else {
                reachable
            };
            let at = store.subtree(store.commit(source)->Ok_0.tree, rules_of(f).names, 0);
            m.seed(store, revision, reachable, f, source, view, view_tree).1 is Ok <==> {
                &&& history.contains(source)
                &&& store.commit(source) is Ok
                &&& at == Ok::<Option<Seq<u8>>, ErrorView>(Some(view_tree)) || (at == Ok::<
                    Option<Seq<u8>>,
                    ErrorView,
                >(None) && view_tree == empty_tree(store.wide))
            }
        }),
{
}

/// A parentless anchor is one snapshot: a commit without parents that has the
/// tree at the path, and says what its source says.
pub proof fn law_root_anchor_is_one_snapshot(
    store: StoreView,
    source: Seq<u8>,
    names: Seq<Seq<u8>>,
)
    requires
        store.root_anchor(source, names) is Ok,
        store.root_anchor(source, names)->Ok_0.tree.len() == id_len(store.wide),
    ensures
        ({
            let a = store.root_anchor(source, names)->Ok_0;
            let c = store.commit(source)->Ok_0;
            &&& commit_of(a.bytes, store.wide) == Some(
                CommitView { tree: a.tree, parents: seq![], message: c.message },
            )
            &&& object_id(store.wide, Kind::Commit, a.bytes) == Some(a.id)
            &&& store.subtree(c.tree, names, 0) == Ok::<Option<Seq<u8>>, ErrorView>(Some(a.tree))
                || store.subtree(c.tree, names, 0) == Ok::<Option<Seq<u8>>, ErrorView>(None)
                && a.tree == empty_tree(store.wide)
        }),
{
    let raw = store.objects[source].data;
    let a = store.root_anchor(source, names)->Ok_0;
    let none = Seq::<Seq<u8>>::empty();
    assert(commit_of(raw, store.wide) is Some);
    lemma_rest_of(raw, store.wide);
    let rest = raw.skip(head_of(raw, store.wide)->0.end);
    lemma_head_of(a.tree, none, rest, store.wide);
    assert(a.bytes == head_text(a.tree, none) + rest);
}

/// A commit that was fetched is taken for an anchor only where it hashes to the
/// id that was asked for, and its tree is the one it names.
pub proof fn law_fetched_anchor_is_the_one_asked_for(store: StoreView, view: Seq<u8>, bytes: Seq<u8>)
    ensures
        store.fetched_tree(view, bytes) is Ok <==> object_id(store.wide, Kind::Commit, bytes)
            == Some(view) && commit_of(bytes, store.wide) is Some,
        store.fetched_tree(view, bytes) matches Ok(tree) ==> tree == commit_of(
            bytes,
            store.wide,
        )->0.tree,
{
}

} // verus!
