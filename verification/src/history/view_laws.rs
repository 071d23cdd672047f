//! What a view shows of each commit: a commit that changes nothing at the path
//! is not in it, one that changes something is, and nothing else about the
//! commit decides.
use crate::history::commits::{
    commit_of, head_of, head_text, id_len, lemma_head_of, lemma_rest_of, object_id, CommitView,
};
use crate::history::derive::{empty_cache, Rules, State};
use crate::history::error::Kind;
use crate::history::filter::Elide;
use crate::history::laws::{commit_at, covered, raw_of, rest_of};
use crate::history::store::StoreView;
use crate::history::tip_laws::{
    filtered, first_live, follows, is_dropped, is_gone, is_history, lawful, lemma_derived,
    lemma_first, lemma_full_walk, lemma_live, lemma_map_fails, lemma_mapped, lemma_walk_closed,
    lemma_walk_reaches, mapped_by, memory_of, outcome, parents_in, parents_of, path_tree, readable,
    stack_holds, step_holds, touches, truthful, unclashing, view_id, view_parents, was_empty,
    Mapping,
};
use crate::history::walk::{step_id, Step};
use vstd::prelude::*;

verus! {

/// Whether a parent is in the view and none before it is.
pub open spec fn leads(f: Mapping, ps: Seq<Seq<u8>>, k: int) -> bool {
    &&& 0 <= k < ps.len()
    &&& mapped_by(f, ps[k]) is Some
    &&& forall|j: int| 0 <= j < k ==> mapped_by(f, #[trigger] ps[j]) is None
}

/// Whether a commit has, at the path, what each of its parents in the view has.
pub open spec fn changes_nothing(
    base: StoreView,
    names: Seq<Seq<u8>>,
    f: Mapping,
    id: Seq<u8>,
) -> bool {
    forall|j: int|
        0 <= j < parents_of(base, id).len() && mapped_by(
            f,
            #[trigger] parents_of(base, id)[j],
        ) is Some ==> filtered(base, names, parents_of(base, id)[j]) == filtered(base, names, id)
}

/// Whether a commit has another tree than some parent, before filtering.
pub open spec fn says_something(base: StoreView, id: Seq<u8>) -> bool {
    exists|j: int|
        0 <= j < parents_of(base, id).len() && commit_at(
            base,
            #[trigger] parents_of(base, id)[j],
        ).tree != commit_at(base, id).tree
}

/// Whether two parents stand for different commits of the view.
pub open spec fn joins_two(f: Mapping, ps: Seq<Seq<u8>>) -> bool {
    exists|i: int, j: int|
        0 <= i < ps.len() && 0 <= j < ps.len() && mapped_by(f, #[trigger] ps[i]) is Some
            && mapped_by(f, #[trigger] ps[j]) is Some && mapped_by(f, ps[i]) != mapped_by(f, ps[j])
}

/// The bytes of a commit's counterpart: the filtered tree, the view parents,
/// and every other byte as it was.
pub open spec fn view_bytes(base: StoreView, names: Seq<Seq<u8>>, f: Mapping, id: Seq<u8>) -> Seq<u8> {
    head_text(filtered(base, names, id), view_parents(base, f, id)) + rest_of(base, id)
}

/// Whether a commit is mapped to a counterpart of its own.
pub open spec fn has_counterpart(
    base: StoreView,
    r: Rules,
    f: Mapping,
    id: Seq<u8>,
    to: Option<Seq<u8>>,
) -> bool {
    to is Some && to == object_id(base.wide, Kind::Commit, view_bytes(base, r.names, f, id))
}

/// Whether a commit can be mapped next, and is: it can be read, its parents
/// are mapped, and what is remembered is true.
pub open spec fn maps_next(base: StoreView, s: State, r: Rules, id: Seq<u8>) -> bool {
    &&& truthful(base, s, r.names)
    &&& readable(base, r.names, id)
    &&& object_id(base.wide, Kind::Tree, seq![]) is Some
    &&& !s.cache.commits.dom().contains(id)
    &&& forall|j: int|
        0 <= j < parents_of(base, id).len() ==> s.cache.commits.dom().contains(
            #[trigger] parents_of(base, id)[j],
        )
    &&& s.map_commit(r, id, raw_of(base, id)).1 is Ok
}

// -- the outcome -------------------------------------------------------------

proof fn lemma_lead(f: Mapping, ps: Seq<Seq<u8>>, k: int)
    requires
        leads(f, ps, k),
    ensures
        first_live(f, ps, 0) == k,
        memory_of(f).derived_parents(ps, ps.len() as int).len() > 0,
        Some(memory_of(f).derived_parents(ps, ps.len() as int)[0]) == mapped_by(f, ps[k]),
{
    lemma_live(f, ps, 0);
    lemma_first(memory_of(f), ps, ps.len() as int);
    let q = first_live(f, ps, 0);
    if q < k {
        assert(mapped_by(f, ps[q]) is None);
    }
    if k < q {
        assert(mapped_by(f, ps[k]) is None);
    }
    assert(memory_of(f).mapped(ps[k]) == mapped_by(f, ps[k]));
}

/// Nothing in the view among the parents.
proof fn lemma_no_lead(f: Mapping, ps: Seq<Seq<u8>>)
    requires
        forall|j: int| 0 <= j < ps.len() ==> mapped_by(f, #[trigger] ps[j]) is None,
    ensures
        memory_of(f).derived_parents(ps, ps.len() as int).len() == 0,
{
    lemma_live(f, ps, 0);
    lemma_first(memory_of(f), ps, ps.len() as int);
    let q = first_live(f, ps, 0);
    if q < ps.len() {
        assert(mapped_by(f, ps[q]) is None);
    }
}

proof fn lemma_joined(f: Mapping, ps: Seq<Seq<u8>>)
    ensures
        joins_two(f, ps) ==> memory_of(f).derived_parents(ps, ps.len() as int).len() >= 2,
{
    if joins_two(f, ps) {
        let (i, j) = choose|i: int, j: int|
            0 <= i < ps.len() && 0 <= j < ps.len() && mapped_by(f, #[trigger] ps[i]) is Some
                && mapped_by(f, #[trigger] ps[j]) is Some && mapped_by(f, ps[i]) != mapped_by(
                f,
                ps[j],
            );
        let m = memory_of(f);
        lemma_derived(m, ps, ps.len() as int);
        let vs = m.derived_parents(ps, ps.len() as int);
        let a = mapped_by(f, ps[i])->0;
        let b = mapped_by(f, ps[j])->0;
        assert(m.mapped(ps[i]) == Some(a) && m.mapped(ps[j]) == Some(b));
        assert(vs.contains(a) && vs.contains(b));
        let x = choose|x: int| 0 <= x < vs.len() && vs[x] == a;
        let y = choose|y: int| 0 <= y < vs.len() && vs[y] == b;
        assert(x != y);
    }
}

proof fn lemma_nothing_touched(base: StoreView, names: Seq<Seq<u8>>, f: Mapping, id: Seq<u8>)
    ensures
        changes_nothing(base, names, f, id) == !touches(base, names, f, id),
        says_something(base, id) == !was_empty(base, id),
{
    let ps = parents_of(base, id);
    if touches(base, names, f, id) {
        let j = choose|j: int|
            0 <= j < ps.len() && mapped_by(f, #[trigger] ps[j]) is Some && filtered(
                base,
                names,
                ps[j],
            ) != filtered(base, names, id);
        assert(!changes_nothing(base, names, f, id));
    }
    if !changes_nothing(base, names, f, id) {
        let j = choose|j: int|
            0 <= j < ps.len() && mapped_by(f, #[trigger] ps[j]) is Some && filtered(
                base,
                names,
                ps[j],
            ) != filtered(base, names, id);
        assert(touches(base, names, f, id));
    }
}

/// The bytes that a counterpart is made of.
proof fn lemma_view_bytes(base: StoreView, r: Rules, f: Mapping, id: Seq<u8>)
    requires
        base.commit(id) is Ok,
    ensures
        view_id(base, r, f, id) == object_id(
            base.wide,
            Kind::Commit,
            view_bytes(base, r.names, f, id),
        ),
{
    assert(base.objects.dom().contains(id));
    assert(commit_of(raw_of(base, id), base.wide) is Some);
    assert(head_of(raw_of(base, id), base.wide) is Some);
}

proof fn lemma_unchanged(base: StoreView, r: Rules, f: Mapping, id: Seq<u8>, k: int)
    requires
        leads(f, parents_of(base, id), k),
        changes_nothing(base, r.names, f, id),
        match r.elide {
            Elide::Nothing => false,
            Elide::Unchanged => says_something(base, id),
            Elide::UnchangedIncludingAlreadyEmpty => true,
        },
    ensures
        is_dropped(base, r, f, id),
        outcome(base, r, f, id) == mapped_by(f, parents_of(base, id)[k]),
{
    lemma_lead(f, parents_of(base, id), k);
    lemma_nothing_touched(base, r.names, f, id);
}

proof fn lemma_changed(base: StoreView, r: Rules, f: Mapping, id: Seq<u8>, k: int)
    requires
        base.commit(id) is Ok,
        leads(f, parents_of(base, id), k),
        filtered(base, r.names, parents_of(base, id)[k]) != filtered(base, r.names, id),
        view_id(base, r, f, id) is Some,
    ensures
        !is_dropped(base, r, f, id),
        !is_gone(base, r, f, id),
        has_counterpart(base, r, f, id, outcome(base, r, f, id)),
{
    let ps = parents_of(base, id);
    lemma_lead(f, ps, k);
    lemma_nothing_touched(base, r.names, f, id);
    assert(mapped_by(f, ps[k]) is Some);
    assert(!changes_nothing(base, r.names, f, id));
    lemma_view_bytes(base, r, f, id);
}

proof fn lemma_merged(base: StoreView, r: Rules, f: Mapping, id: Seq<u8>, k: int)
    requires
        base.commit(id) is Ok,
        leads(f, parents_of(base, id), k),
        filtered(base, r.names, parents_of(base, id)[k]) == filtered(base, r.names, id),
        joins_two(f, parents_of(base, id)),
        !r.keep_trivial_merges,
        commit_at(base, parents_of(base, id)[0]).tree != commit_at(base, id).tree,
    ensures
        is_dropped(base, r, f, id),
        outcome(base, r, f, id) == mapped_by(f, parents_of(base, id)[k]),
{
    lemma_lead(f, parents_of(base, id), k);
    lemma_joined(f, parents_of(base, id));
}

/// Whether a commit that has its first view parent's tree is spared: the rules
/// keep such merges, or it was one before filtering, or it is no merge in the
/// view.
pub open spec fn is_no_new_merge(base: StoreView, r: Rules, f: Mapping, id: Seq<u8>) -> bool {
    ||| r.keep_trivial_merges
    ||| commit_at(base, parents_of(base, id)[0]).tree == commit_at(base, id).tree
    ||| view_parents(base, f, id).len() < 2
}

proof fn lemma_spared(base: StoreView, r: Rules, f: Mapping, id: Seq<u8>)
    requires
        base.commit(id) is Ok,
        parents_of(base, id).len() > 0,
        is_no_new_merge(base, r, f, id),
        match r.elide {
            Elide::Nothing => true,
            Elide::Unchanged => !changes_nothing(base, r.names, f, id) || !says_something(base, id),
            Elide::UnchangedIncludingAlreadyEmpty => !changes_nothing(base, r.names, f, id),
        },
        path_tree(base, r.names, id) is Some || exists|k: int|
            leads(f, parents_of(base, id), k),
        view_id(base, r, f, id) is Some,
    ensures
        !is_dropped(base, r, f, id),
        !is_gone(base, r, f, id),
        has_counterpart(base, r, f, id, outcome(base, r, f, id)),
{
    lemma_nothing_touched(base, r.names, f, id);
    lemma_view_bytes(base, r, f, id);
    if path_tree(base, r.names, id) is None {
        let k = choose|k: int| leads(f, parents_of(base, id), k);
        lemma_lead(f, parents_of(base, id), k);
    }
}

proof fn lemma_outside(base: StoreView, r: Rules, f: Mapping, id: Seq<u8>)
    requires
        base.commit(id) is Ok,
        forall|j: int|
            0 <= j < parents_of(base, id).len() ==> mapped_by(
                f,
                #[trigger] parents_of(base, id)[j],
            ) is None,
        is_gone(base, r, f, id) || view_id(base, r, f, id) is Some,
    ensures
        !is_dropped(base, r, f, id),
        is_gone(base, r, f, id) <==> path_tree(base, r.names, id) is None,
        path_tree(base, r.names, id) is None ==> outcome(base, r, f, id) is None,
        path_tree(base, r.names, id) is Some ==> has_counterpart(
            base,
            r,
            f,
            id,
            outcome(base, r, f, id),
        ),
        view_parents(base, f, id).len() == 0,
{
    lemma_no_lead(f, parents_of(base, id));
    lemma_view_bytes(base, r, f, id);
}

// -- mapping one commit ------------------------------------------------------

/// A commit that changes nothing at the path, seen from those of its parents
/// that are in the view, and that was not empty before filtering, is dropped:
/// its first parent in the view stands for it, and nothing is written. Which of
/// its other parents are in the view does not matter. The rules can say that
/// empty commits are dropped too.
pub proof fn law_unchanged_commit_is_dropped(
    base: StoreView,
    s: State,
    r: Rules,
    id: Seq<u8>,
    k: int,
)
    requires
        maps_next(base, s, r, id),
        leads(s.cache.commits, parents_of(base, id), k),
        changes_nothing(base, r.names, s.cache.commits, id),
        match r.elide {
            Elide::Nothing => false,
            Elide::Unchanged => says_something(base, id),
            Elide::UnchangedIncludingAlreadyEmpty => true,
        },
    ensures
        s.map_commit(r, id, raw_of(base, id)).0.cache.commits == s.cache.commits.insert(
            id,
            s.cache.commits[parents_of(base, id)[k]],
        ),
        s.map_commit(r, id, raw_of(base, id)).0.store == s.store,
{
    lemma_map_fails(base, s, r, id);
    lemma_mapped(base, s, r, id);
    lemma_unchanged(base, r, s.cache.commits, id, k);
}

/// A commit that changes the path, seen from its first parent in the view, has
/// a counterpart of its own: the filtered tree, the view parents, and every
/// other byte as it was.
pub proof fn law_changed_commit_is_kept(base: StoreView, s: State, r: Rules, id: Seq<u8>, k: int)
    requires
        maps_next(base, s, r, id),
        leads(s.cache.commits, parents_of(base, id), k),
        filtered(base, r.names, parents_of(base, id)[k]) != filtered(base, r.names, id),
    ensures
        ({
            let t = s.map_commit(r, id, raw_of(base, id)).0;
            &&& t.cache.commits == s.cache.commits.insert(id, t.cache.commits[id])
            &&& has_counterpart(base, r, s.cache.commits, id, t.cache.commits[id])
            &&& t.store.objects.dom().contains(t.cache.commits[id]->0)
        }),
{
    let f = s.cache.commits;
    lemma_map_fails(base, s, r, id);
    lemma_mapped(base, s, r, id);
    lemma_lead(f, parents_of(base, id), k);
    assert(!is_gone(base, r, f, id));
    lemma_changed(base, r, f, id, k);
}

/// A merge of two commits of the view that has its first view parent's tree at
/// the path is dropped, unless the rules keep such merges or it had its first
/// parent's tree before filtering.
pub proof fn law_trivial_merge_is_dropped(base: StoreView, s: State, r: Rules, id: Seq<u8>, k: int)
    requires
        maps_next(base, s, r, id),
        leads(s.cache.commits, parents_of(base, id), k),
        joins_two(s.cache.commits, parents_of(base, id)),
        filtered(base, r.names, parents_of(base, id)[k]) == filtered(base, r.names, id),
        !r.keep_trivial_merges,
        commit_at(base, parents_of(base, id)[0]).tree != commit_at(base, id).tree,
    ensures
        s.map_commit(r, id, raw_of(base, id)).0.cache.commits == s.cache.commits.insert(
            id,
            s.cache.commits[parents_of(base, id)[k]],
        ),
        s.map_commit(r, id, raw_of(base, id)).0.store == s.store,
{
    lemma_map_fails(base, s, r, id);
    lemma_mapped(base, s, r, id);
    lemma_merged(base, r, s.cache.commits, id, k);
}

/// What neither changes nothing nor is a new trivial merge is kept: under the
/// rules that drop nothing every commit, under the others a commit that some
/// parent in the view differs from, and one that was empty before filtering
/// where only those that became empty are dropped.
pub proof fn law_spared_commit_is_kept(base: StoreView, s: State, r: Rules, id: Seq<u8>)
    requires
        maps_next(base, s, r, id),
        parents_of(base, id).len() > 0,
        is_no_new_merge(base, r, s.cache.commits, id),
        match r.elide {
            Elide::Nothing => true,
            Elide::Unchanged => !changes_nothing(base, r.names, s.cache.commits, id)
                || !says_something(base, id),
            Elide::UnchangedIncludingAlreadyEmpty => !changes_nothing(
                base,
                r.names,
                s.cache.commits,
                id,
            ),
        },
        path_tree(base, r.names, id) is Some || exists|k: int|
            leads(s.cache.commits, parents_of(base, id), k),
    ensures
        ({
            let t = s.map_commit(r, id, raw_of(base, id)).0;
            &&& t.cache.commits == s.cache.commits.insert(id, t.cache.commits[id])
            &&& has_counterpart(base, r, s.cache.commits, id, t.cache.commits[id])
            &&& t.store.objects.dom().contains(t.cache.commits[id]->0)
        }),
{
    let f = s.cache.commits;
    lemma_map_fails(base, s, r, id);
    lemma_mapped(base, s, r, id);
    if path_tree(base, r.names, id) is None {
        let k = choose|k: int| leads(f, parents_of(base, id), k);
        lemma_lead(f, parents_of(base, id), k);
    }
    assert(!is_gone(base, r, f, id));
    lemma_spared(base, r, f, id);
}

/// A commit none of whose parents is in the view is where the view begins if
/// it has the path, and has no counterpart, nor anything written for it, if it
/// has not.
pub proof fn law_view_begins_where_the_path_does(base: StoreView, s: State, r: Rules, id: Seq<u8>)
    requires
        maps_next(base, s, r, id),
        forall|j: int|
            0 <= j < parents_of(base, id).len() ==> mapped_by(
                s.cache.commits,
                #[trigger] parents_of(base, id)[j],
            ) is None,
    ensures
        ({
            let t = s.map_commit(r, id, raw_of(base, id)).0;
            &&& t.cache.commits == s.cache.commits.insert(id, t.cache.commits[id])
            &&& path_tree(base, r.names, id) is None ==> t.cache.commits[id] is None && t.store
                == s.store
            &&& path_tree(base, r.names, id) is Some ==> t.cache.commits[id] == object_id(
                base.wide,
                Kind::Commit,
                head_text(path_tree(base, r.names, id)->0, seq![]) + rest_of(base, id),
            ) && t.cache.commits[id] is Some
        }),
{
    let f = s.cache.commits;
    lemma_map_fails(base, s, r, id);
    lemma_mapped(base, s, r, id);
    lemma_outside(base, r, f, id);
    assert(view_parents(base, f, id) =~= seq![]);
}

/// The view parents of a commit are what its parents in the view stand for, in
/// their order: nothing is missing and nothing is added. Two different parents
/// that stand for one commit count once; where no two do, each counts as often
/// as the commit has it.
pub proof fn law_view_parents_are_the_parents(base: StoreView, f: Mapping, id: Seq<u8>)
    ensures
        ({
            let ps = parents_of(base, id);
            let vs = view_parents(base, f, id);
            &&& forall|v: Seq<u8>| #[trigger]
                vs.contains(v) <==> exists|j: int|
                    0 <= j < ps.len() && mapped_by(f, #[trigger] ps[j]) == Some(v)
            &&& ps.no_duplicates() ==> vs.no_duplicates()
            &&& (forall|i: int, j: int|
                0 <= i < j < ps.len() && mapped_by(f, #[trigger] ps[i]) == mapped_by(
                    f,
                    #[trigger] ps[j],
                ) && mapped_by(f, ps[i]) is Some ==> ps[i] == ps[j]) && (forall|j: int|
                0 <= j < ps.len() ==> mapped_by(f, #[trigger] ps[j]) is Some) ==> vs == Seq::new(
                ps.len(),
                |j: int| mapped_by(f, ps[j])->0,
            )
        }),
{
    let ps = parents_of(base, id);
    let m = memory_of(f);
    let n = ps.len() as int;
    let vs = view_parents(base, f, id);
    lemma_derived(m, ps, n);
    assert forall|v: Seq<u8>| #[trigger] vs.contains(v) <==> exists|j: int|
        0 <= j < ps.len() && mapped_by(f, #[trigger] ps[j]) == Some(v) by {
        if vs.contains(v) {
            let j = choose|j: int| 0 <= j < n && m.mapped(#[trigger] ps[j]) == Some(v);
            assert(mapped_by(f, ps[j]) == Some(v));
        }
        if exists|j: int| 0 <= j < ps.len() && mapped_by(f, #[trigger] ps[j]) == Some(v) {
            let j = choose|j: int| 0 <= j < ps.len() && mapped_by(f, #[trigger] ps[j]) == Some(v);
            assert(m.mapped(ps[j]) == Some(v));
        }
    }
    if ps.no_duplicates() {
        lemma_once(f, ps, n);
    }
    if (forall|i: int, j: int|
        0 <= i < j < ps.len() && mapped_by(f, #[trigger] ps[i]) == mapped_by(f, #[trigger] ps[j])
            && mapped_by(f, ps[i]) is Some ==> ps[i] == ps[j]) && (forall|j: int|
        0 <= j < ps.len() ==> mapped_by(f, #[trigger] ps[j]) is Some) {
        lemma_each(f, ps, n);
        assert(vs =~= Seq::new(ps.len(), |j: int| mapped_by(f, ps[j])->0));
    }
}

proof fn lemma_once(f: Mapping, ps: Seq<Seq<u8>>, n: int)
    requires
        ps.no_duplicates(),
        0 <= n <= ps.len(),
    ensures
        memory_of(f).derived_parents(ps, n).no_duplicates(),
    decreases n,
{
    if n > 0 {
        let m = memory_of(f);
        lemma_once(f, ps, n - 1);
        lemma_derived(m, ps, n - 1);
        let before = m.derived_parents(ps, n - 1);
        if m.mapped(ps[n - 1]) is Some && !m.introduced(ps, n - 1) {
            let v = m.mapped(ps[n - 1])->0;
            if before.contains(v) {
                let j = choose|j: int| 0 <= j < n - 1 && m.mapped(#[trigger] ps[j]) == Some(v);
                assert(ps[j] != ps[n - 1]);
                assert(m.introduced(ps, n - 1));
            }
            assert forall|i: int, j: int|
                0 <= i < before.push(v).len() && 0 <= j < before.push(v).len() && i != j implies
                before.push(v)[i] != before.push(v)[j] by {
                if i < before.len() && j < before.len() {
                    assert(before[i] != before[j]);
                } else if i < before.len() {
                    assert(before.contains(before[i]));
                } else {
                    assert(before.contains(before[j]));
                }
            }
        }
    }
}

proof fn lemma_each(f: Mapping, ps: Seq<Seq<u8>>, n: int)
    requires
        0 <= n <= ps.len(),
        forall|i: int, j: int|
            0 <= i < j < ps.len() && mapped_by(f, #[trigger] ps[i]) == mapped_by(
                f,
                #[trigger] ps[j],
            ) && mapped_by(f, ps[i]) is Some ==> ps[i] == ps[j],
        forall|j: int| 0 <= j < ps.len() ==> mapped_by(f, #[trigger] ps[j]) is Some,
    ensures
        memory_of(f).derived_parents(ps, n) =~= Seq::new(
            n as nat,
            |j: int| mapped_by(f, ps[j])->0,
        ),
    decreases n,
{
    if n > 0 {
        let m = memory_of(f);
        lemma_each(f, ps, n - 1);
        assert(mapped_by(f, ps[n - 1]) is Some);
        assert(m.mapped(ps[n - 1]) == mapped_by(f, ps[n - 1]));
        if m.introduced(ps, n - 1) {
            let j = choose|j: int|
                0 <= j < n - 1 && #[trigger] ps[j] != ps[n - 1] && m.mapped(ps[j]) == m.mapped(
                    ps[n - 1],
                );
            assert(mapped_by(f, ps[j]) == mapped_by(f, ps[n - 1]));
            assert(ps[j] == ps[n - 1]);
        }
    }
}

/// A counterpart is read back as what it was made of: the filtered tree, the
/// view parents, and the message of the commit it stands for.
pub proof fn law_counterpart_says_what_is_shown(
    base: StoreView,
    names: Seq<Seq<u8>>,
    f: Mapping,
    id: Seq<u8>,
)
    requires
        base.commit(id) is Ok,
        filtered(base, names, id).len() == id_len(base.wide),
        forall|j: int|
            0 <= j < view_parents(base, f, id).len() ==> (#[trigger] view_parents(
                base,
                f,
                id,
            )[j]).len() == id_len(base.wide),
    ensures
        commit_of(view_bytes(base, names, f, id), base.wide) == Some(
            CommitView {
                tree: filtered(base, names, id),
                parents: view_parents(base, f, id),
                message: commit_at(base, id).message,
            },
        ),
{
    let raw = raw_of(base, id);
    assert(commit_of(raw, base.wide) == Some(commit_at(base, id)));
    lemma_rest_of(raw, base.wide);
    lemma_head_of(
        filtered(base, names, id),
        view_parents(base, f, id),
        rest_of(base, id),
        base.wide,
    );
}

// -- a whole history ---------------------------------------------------------

/// What deriving everything under the rules maps, from nothing.
pub open spec fn whole_view(store: StoreView, r: Rules, head: Seq<u8>) -> Mapping {
    (State { store, cache: empty_cache() }).derived(r, false, head).0.cache.commits
}

/// Whether deriving everything succeeds, on commits that could be read from
/// the start, and no two view commits share an id.
pub open spec fn derives(store: StoreView, r: Rules, head: Seq<u8>) -> bool {
    &&& (State { store, cache: empty_cache() }).derived(r, false, head).1 is Ok
    &&& object_id(store.wide, Kind::Tree, seq![]) is Some
    &&& forall|id: Seq<u8>| #[trigger]
        whole_view(store, r, head).dom().contains(id) ==> readable(store, r.names, id)
    &&& unclashing(store, r.names, whole_view(store, r, head))
}

/// The mapping is closed under parents and follows the rules everywhere.
proof fn lemma_whole_view(store: StoreView, r: Rules, head: Seq<u8>)
    requires
        derives(store, r, head),
    ensures
        whole_view(store, r, head).dom().contains(head),
        lawful(store, r, Set::empty(), whole_view(store, r, head)),
        is_history(store, r.names, Set::empty(), whole_view(store, r, head).dom()),
{
    let s = State { store, cache: empty_cache() };
    let stack = seq![Step::Enter(head)];
    let f = whole_view(store, r, head);
    let h = f.dom();
    let none = Map::<Seq<u8>, Option<Seq<u8>>>::empty();
    let fuel = u64::MAX as nat;
    lemma_walk_reaches(s, r, stack, fuel);
    assert(h.contains(step_id(stack[0])));
    lemma_walk_closed(store, s, r, stack, fuel);
    assert(is_history(store, r.names, Set::empty(), h)) by {
        assert forall|id: Seq<u8>| #[trigger] h.contains(id) implies forall|j: int|
            0 <= j < parents_of(store, id).len() ==> h.contains(
                #[trigger] parents_of(store, id)[j],
            ) by {
            assert(parents_in(store, id, h));
        }
    }
    assert(covered(s, stack, 0, head)) by {
        assert(step_id(stack[0]) == head);
    }
    assert(truthful(store, s, r.names));
    assert(step_holds(store, h, none, s, stack, 0));
    assert(stack_holds(store, h, none, s, stack));
    lemma_full_walk(store, r, Set::empty(), h, s, stack, head, fuel);
}

/// Of every commit in a history: the parents' counterparts are known, and if
/// it changes nothing at the path seen from its parents in the view, and was
/// not empty before filtering, then its first parent in the view stands for
/// it. So a view holds no commit with exactly its parents' tree, other than one
/// that was empty before filtering.
pub proof fn law_view_drops_what_changes_nothing(
    store: StoreView,
    r: Rules,
    head: Seq<u8>,
    id: Seq<u8>,
    k: int,
)
    requires
        derives(store, r, head),
        whole_view(store, r, head).dom().contains(id),
        leads(whole_view(store, r, head), parents_of(store, id), k),
        changes_nothing(store, r.names, whole_view(store, r, head), id),
        match r.elide {
            Elide::Nothing => false,
            Elide::Unchanged => says_something(store, id),
            Elide::UnchangedIncludingAlreadyEmpty => true,
        },
    ensures
        whole_view(store, r, head)[id] == whole_view(store, r, head)[parents_of(store, id)[k]],
{
    let f = whole_view(store, r, head);
    lemma_whole_view(store, r, head);
    assert(follows(store, r, f, id));
    lemma_unchanged(store, r, f, id, k);
}

/// Of every commit in a history: if it changes the path seen from its first
/// parent in the view, it has a counterpart of its own.
pub proof fn law_view_keeps_what_changes(
    store: StoreView,
    r: Rules,
    head: Seq<u8>,
    id: Seq<u8>,
    k: int,
)
    requires
        derives(store, r, head),
        whole_view(store, r, head).dom().contains(id),
        leads(whole_view(store, r, head), parents_of(store, id), k),
        filtered(store, r.names, parents_of(store, id)[k]) != filtered(store, r.names, id),
    ensures
        has_counterpart(
            store,
            r,
            whole_view(store, r, head),
            id,
            whole_view(store, r, head)[id],
        ),
{
    let f = whole_view(store, r, head);
    lemma_whole_view(store, r, head);
    assert(follows(store, r, f, id));
    lemma_lead(f, parents_of(store, id), k);
    assert(!is_gone(store, r, f, id));
    lemma_changed(store, r, f, id, k);
}

/// A commit of a history has a counterpart exactly when it has the path or a
/// parent has one: a view ends nowhere.
pub proof fn law_view_never_ends(store: StoreView, r: Rules, head: Seq<u8>, id: Seq<u8>)
    requires
        derives(store, r, head),
        whole_view(store, r, head).dom().contains(id),
    ensures
        whole_view(store, r, head)[id] is Some <==> path_tree(store, r.names, id) is Some || exists|
            j: int,
        |
            0 <= j < parents_of(store, id).len() && whole_view(
                store,
                r,
                head,
            )[#[trigger] parents_of(store, id)[j]] is Some,
        forall|j: int|
            0 <= j < parents_of(store, id).len() ==> whole_view(
                store,
                r,
                head,
            ).dom().contains(#[trigger] parents_of(store, id)[j]),
        whole_view(store, r, head).dom().contains(head),
{
    let f = whole_view(store, r, head);
    let ps = parents_of(store, id);
    lemma_whole_view(store, r, head);
    assert(follows(store, r, f, id));
    if exists|j: int| 0 <= j < ps.len() && f[#[trigger] ps[j]] is Some {
        let j = choose|j: int| 0 <= j < ps.len() && f[#[trigger] ps[j]] is Some;
        assert(mapped_by(f, ps[j]) is Some);
        lemma_derived(memory_of(f), ps, ps.len() as int);
        assert(memory_of(f).mapped(ps[j]) == Some(f[ps[j]]->0));
        assert(view_parents(store, f, id).contains(f[ps[j]]->0));
    } else {
        assert forall|j: int| 0 <= j < ps.len() implies mapped_by(f, #[trigger] ps[j]) is None by {
            assert(f.dom().contains(ps[j]));
        }
        lemma_outside(store, r, f, id);
    }
}

} // verus!
