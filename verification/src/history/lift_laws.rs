//! What lifting keeps: a grafted tree is found where it was put, and a lifted
//! commit is the original with its tree moved there.
use crate::history::commits::{
    commit_of, head_of, head_text, id_len, lemma_head_of, lemma_rest_of, object_id, replaced,
    CommitView,
};
use crate::history::derive::{Rules, State};
use crate::history::error::{ErrorView, Kind};
use crate::history::filter::Semantics;
use crate::history::laws::{
    commit_at, grown, lemma_commit_kept, lemma_descend, lemma_lookups_kept, lemma_subtree_kept,
    lookups_hold, raw_of, rest_of, Injection,
};
use crate::history::store::{
    empty_tree, entry_from, in_tree_order, placed, precedes, tree_bytes, tree_entries, tree_entry,
    with_entry, EntryView, ObjectView, StoreView,
};
use crate::history::tip_laws::{
    filtered, follows, is_dropped, mapped_by, memory_of, outcome, parents_of, path_tree, readable,
    touches, truthful, view_id, view_parents,
};
use crate::history::walk::Step;
use vstd::prelude::*;

verus! {

/// Whether no two entries have the same name.
pub open spec fn names_differ(es: Seq<EntryView>) -> bool {
    forall|i: int, j: int|
        0 <= i < j < es.len() ==> (#[trigger] es[i]).name != (#[trigger] es[j]).name
}

/// Sorting keeps the entries.
proof fn lemma_placed(s: Seq<EntryView>, e: EntryView)
    ensures
        forall|x: EntryView| #[trigger] placed(s, e).contains(x) <==> s.contains(x) || x == e,
        placed(s, e).len() == s.len() + 1,
    decreases s.len(),
{
    if s.len() == 0 || !precedes(e, s.last()) {
        let out = s.push(e);
        assert forall|x: EntryView| #[trigger] out.contains(x) <==> s.contains(x) || x == e by {
            if s.contains(x) {
                let k = choose|k: int| 0 <= k < s.len() && s[k] == x;
                assert(out[k] == x);
            }
            assert(out[s.len() as int] == e);
        }
    } else {
        let below = placed(s.drop_last(), e);
        let out = below.push(s.last());
        lemma_placed(s.drop_last(), e);
        assert forall|x: EntryView| #[trigger] out.contains(x) <==> s.contains(x) || x == e by {
            if s.contains(x) {
                let k = choose|k: int| 0 <= k < s.len() && s[k] == x;
                if k < s.len() - 1 {
                    assert(s.drop_last()[k] == x);
                    assert(s.drop_last().contains(x));
                    assert(below.contains(x));
                    let m = choose|m: int| 0 <= m < below.len() && below[m] == x;
                    assert(out[m] == x);
                } else {
                    assert(out[below.len() as int] == x);
                }
            }
            if x == e {
                assert(below.contains(e));
                let m = choose|m: int| 0 <= m < below.len() && below[m] == e;
                assert(out[m] == e);
            }
            if out.contains(x) {
                let m = choose|m: int| 0 <= m < out.len() && out[m] == x;
                if m < below.len() {
                    assert(below[m] == x);
                    assert(below.contains(x));
                    if s.drop_last().contains(x) {
                        let k = choose|k: int|
                            0 <= k < s.drop_last().len() && s.drop_last()[k] == x;
                        assert(s[k] == x);
                    }
                } else {
                    assert(s[s.len() - 1] == x);
                }
            }
        }
    }
}

/// Sorting keeps names different.
proof fn lemma_placed_differ(s: Seq<EntryView>, e: EntryView)
    requires
        names_differ(s),
        forall|i: int| 0 <= i < s.len() ==> (#[trigger] s[i]).name != e.name,
    ensures
        names_differ(placed(s, e)),
    decreases s.len(),
{
    if !(s.len() == 0 || !precedes(e, s.last())) {
        let low = s.drop_last();
        assert forall|i: int| 0 <= i < low.len() implies (#[trigger] low[i]).name != e.name by {
            assert(low[i] == s[i]);
        }
        assert(names_differ(low)) by {
            assert forall|i: int, j: int| 0 <= i < j < low.len() implies (#[trigger] low[i]).name
                != (#[trigger] low[j]).name by {
                assert(low[i] == s[i] && low[j] == s[j]);
            }
        }
        lemma_placed_differ(low, e);
        lemma_placed(low, e);
        let below = placed(low, e);
        let last = s.last();
        let out = below.push(last);
        assert forall|i: int, j: int| 0 <= i < j < out.len() implies (#[trigger] out[i]).name != (
        #[trigger] out[j]).name by {
            if j == below.len() {
                assert(below.contains(out[i])) by {
                    assert(below[i] == out[i]);
                }
                if out[i] != e {
                    let k = choose|k: int| 0 <= k < low.len() && low[k] == out[i];
                    assert(s[k] == out[i]);
                    assert(s[k].name != s[s.len() - 1].name);
                } else {
                    assert(s[s.len() - 1].name != e.name);
                }
            } else {
                assert(below[i] == out[i] && below[j] == out[j]);
            }
        }
    }
}

pub proof fn lemma_in_tree_order(es: Seq<EntryView>)
    ensures
        forall|x: EntryView| #[trigger] in_tree_order(es).contains(x) <==> es.contains(x),
        names_differ(es) ==> names_differ(in_tree_order(es)),
    decreases es.len(),
{
    if es.len() > 0 {
        let low = es.drop_last();
        let e = es.last();
        lemma_in_tree_order(low);
        lemma_placed(in_tree_order(low), e);
        assert forall|x: EntryView| #[trigger] in_tree_order(es).contains(x) <==> es.contains(
            x,
        ) by {
            if es.contains(x) {
                let k = choose|k: int| 0 <= k < es.len() && es[k] == x;
                if k < low.len() {
                    assert(low[k] == x);
                }
            }
            if low.contains(x) {
                let k = choose|k: int| 0 <= k < low.len() && low[k] == x;
                assert(es[k] == x);
            }
            assert(es[es.len() - 1] == e);
        }
        if names_differ(es) {
            assert(names_differ(low)) by {
                assert forall|i: int, j: int| 0 <= i < j < low.len() implies (#[trigger]
                low[i]).name != (#[trigger] low[j]).name by {
                    assert(low[i] == es[i] && low[j] == es[j]);
                }
            }
            let sorted = in_tree_order(low);
            assert forall|i: int| 0 <= i < sorted.len() implies (#[trigger] sorted[i]).name
                != e.name by {
                assert(sorted.contains(sorted[i]));
                let k = choose|k: int| 0 <= k < low.len() && low[k] == sorted[i];
                assert(es[k].name != es[es.len() - 1].name);
            }
            lemma_placed_differ(sorted, e);
        }
    }
}

pub proof fn lemma_entry_from(es: Seq<EntryView>, name: Seq<u8>, i: int)
    requires
        0 <= i <= es.len(),
    ensures
        i <= entry_from(es, name, i) <= es.len(),
        entry_from(es, name, i) < es.len() ==> es[entry_from(es, name, i)].name == name,
        forall|j: int| i <= j < entry_from(es, name, i) ==> (#[trigger] es[j]).name != name,
    decreases es.len() - i,
{
    if !(i >= es.len() || es[i].name == name) {
        lemma_entry_from(es, name, i + 1);
    }
}

/// The entry that was put into a tree is the one that its name finds.
proof fn lemma_put_then_found(es: Seq<EntryView>, name: Seq<u8>, id: Seq<u8>)
    requires
        names_differ(es),
    ensures
        ({
            let sorted = in_tree_order(with_entry(es, name, id));
            let at = entry_from(sorted, name, 0);
            at < sorted.len() && sorted[at] == tree_entry(name, id)
        }),
{
    let e = tree_entry(name, id);
    let all = with_entry(es, name, id);
    lemma_entry_from(es, name, 0);
    let at = entry_from(es, name, 0);
    assert(all.contains(e)) by {
        if at < es.len() {
            assert(all[at] == e);
        } else {
            assert(all[es.len() as int] == e);
        }
    }
    assert(names_differ(all)) by {
        assert forall|i: int, j: int| 0 <= i < j < all.len() implies (#[trigger] all[i]).name != (
        #[trigger] all[j]).name by {
            if at < es.len() {
                assert(es[i].name != es[j].name);
                assert(all[i].name == es[i].name && all[j].name == es[j].name);
            } else if j == es.len() {
                assert(all[i] == es[i]);
            } else {
                assert(all[i] == es[i] && all[j] == es[j]);
            }
        }
    }
    lemma_in_tree_order(all);
    let sorted = in_tree_order(all);
    lemma_entry_from(sorted, name, 0);
    assert(sorted.contains(e));
    let k = choose|k: int| 0 <= k < sorted.len() && sorted[k] == e;
    let found = entry_from(sorted, name, 0);
    assert(found <= k) by {
        if k < found {
            assert(sorted[k].name != name);
        }
    }
    if found < k {
        assert(sorted[found].name != sorted[k].name);
    }
}

/// Whether an object that is written can be read back: its id can be computed,
/// and no other object has it.
pub open spec fn lands(store: StoreView, kind: Kind, data: Seq<u8>) -> bool {
    match object_id(store.wide, kind, data) {
        None => false,
        Some(id) => store.objects.dom().contains(id) ==> store.objects[id] == (ObjectView {
            kind,
            data,
        }),
    }
}

/// Whether a graft meets trees as they should be: no name twice, and every
/// tree that is written can be read back.
pub open spec fn graftable(
    store: StoreView,
    base: Seq<u8>,
    names: Seq<Seq<u8>>,
    i: int,
    sub: Seq<u8>,
) -> bool
    decreases names.len() - i,
{
    if i >= names.len() {
        true
    } else {
        let es = store.entries(base)->Ok_0;
        let at = entry_from(es, names[i], 0);
        let below = if at < es.len() && es[at].directory {
            es[at].id
        } else {
            empty_tree(store.wide)
        };
        let (s, child) = store.graft(below, names, i + 1, sub);
        let sorted = in_tree_order(with_entry(es, names[i], child->Ok_0));
        &&& store.entries(base) is Ok
        &&& names_differ(es)
        &&& graftable(store, below, names, i + 1, sub)
        &&& lands(s, Kind::Tree, tree_bytes(sorted))
        &&& object_id(s.wide, Kind::Tree, tree_bytes(sorted)) != Some(empty_tree(s.wide))
        &&& tree_entries(s.wide, tree_bytes(sorted)) == Some(sorted)
    }
}

/// Writing an object leaves the others alone.
pub proof fn lemma_written(store: StoreView, kind: Kind, data: Seq<u8>)
    requires
        lands(store, kind, data),
    ensures
        store.write(kind, data).1 is Ok,
        grown(store, store.write(kind, data).0),
        store.write(kind, data).0.objects.dom().contains(store.write(kind, data).1->Ok_0),
        store.write(kind, data).0.objects[store.write(kind, data).1->Ok_0] == (ObjectView {
            kind,
            data,
        }),
{
}

/// A subtree that was grafted at a path is what the path selects.
pub proof fn law_grafted_path_is_found(
    store: StoreView,
    base: Seq<u8>,
    names: Seq<Seq<u8>>,
    i: int,
    sub: Seq<u8>,
)
    requires
        graftable(store, base, names, i, sub),
        0 <= i,
    ensures
        store.graft(base, names, i, sub).1 is Ok,
        grown(store, store.graft(base, names, i, sub).0),
        store.graft(base, names, i, sub).0.subtree(
            store.graft(base, names, i, sub).1->Ok_0,
            names,
            i,
        ) == Ok::<Option<Seq<u8>>, ErrorView>(Some(sub)),
    decreases names.len() - i,
{
    if i < names.len() {
        let es = store.entries(base)->Ok_0;
        let at = entry_from(es, names[i], 0);
        let below = if at < es.len() && es[at].directory {
            es[at].id
        } else {
            empty_tree(store.wide)
        };
        law_grafted_path_is_found(store, below, names, i + 1, sub);
        let (s, child) = store.graft(below, names, i + 1, sub);
        let c = child->Ok_0;
        let sorted = in_tree_order(with_entry(es, names[i], c));
        lemma_put_then_found(es, names[i], c);
        lemma_written(s, Kind::Tree, tree_bytes(sorted));
        let (t, id) = s.write(Kind::Tree, tree_bytes(sorted));
        assert(t.entries(id->Ok_0) == Ok::<Seq<EntryView>, ErrorView>(sorted));
        assert(t.child(id->Ok_0, names[i]) == Ok::<Option<Seq<u8>>, ErrorView>(Some(c)));
        lemma_subtree_kept(s, t, c, names, i + 1);
    }
}

/// Whether a commit can be lifted: its parents have counterparts, the trees
/// are as they should be, and what is written can be read back.
pub open spec fn liftable(
    s: State,
    names: Seq<Seq<u8>>,
    semantics: Semantics,
    id: Seq<u8>,
    onto: Seq<u8>,
) -> bool {
    let c = commit_at(s.store, id);
    let found = s.cache.counterparts(semantics, onto, c.parents, 0, seq![]);
    let parents = found->Ok_0;
    let base = if parents.len() > 0 {
        parents[0]
    } else {
        onto
    };
    let base_tree = s.store.commit_tree(base)->Ok_0;
    let (t, tree) = s.store.graft(base_tree, names, 0, c.tree);
    &&& s.store.commit(id) is Ok
    &&& found is Ok
    &&& s.store.commit_tree(base) is Ok
    &&& graftable(s.store, base_tree, names, 0, c.tree)
    &&& tree->Ok_0.len() == id_len(s.store.wide)
    &&& forall|i: int|
        0 <= i < parents.len() ==> (#[trigger] parents[i]).len() == id_len(s.store.wide)
    &&& lands(
        t,
        Kind::Commit,
        replaced(raw_of(s.store, id), t.wide, tree->Ok_0, parents)->Ok_0,
    )
}

/// A lifted commit is the original with its parents' counterparts for parents
/// and its tree moved under the path, and every other byte as it was. Its
/// place is remembered.
pub proof fn law_lifted_commit_is_the_original_moved(
    s: State,
    names: Seq<Seq<u8>>,
    semantics: Semantics,
    id: Seq<u8>,
    onto: Seq<u8>,
)
    requires
        liftable(s, names, semantics, id, onto),
    ensures
        ({
            let c = commit_at(s.store, id);
            let (t, lifted) = s.lift(names, semantics, id, onto);
            let l = commit_at(t.store, lifted->Ok_0);
            &&& lifted is Ok
            &&& grown(s.store, t.store)
            &&& t.store.commit(lifted->Ok_0) is Ok
            &&& Ok::<Seq<Seq<u8>>, ErrorView>(l.parents) == s.cache.counterparts(
                semantics,
                onto,
                c.parents,
                0,
                seq![],
            )
            &&& l.message == c.message
            &&& rest_of(t.store, lifted->Ok_0) == rest_of(s.store, id)
            &&& t.store.subtree(l.tree, names, 0) == Ok::<Option<Seq<u8>>, ErrorView>(Some(c.tree))
            &&& t.cache.grafts[id] == lifted->Ok_0
            &&& t.cache.grafts.dom().contains(id)
        }),
{
    let c = commit_at(s.store, id);
    let raw = raw_of(s.store, id);
    let parents = s.cache.counterparts(semantics, onto, c.parents, 0, seq![])->Ok_0;
    let base = if parents.len() > 0 {
        parents[0]
    } else {
        onto
    };
    let base_tree = s.store.commit_tree(base)->Ok_0;
    law_grafted_path_is_found(s.store, base_tree, names, 0, c.tree);
    let (g, grafted) = s.store.graft(base_tree, names, 0, c.tree);
    let tree = grafted->Ok_0;
    assert(commit_of(raw, s.store.wide) == Some(c));
    assert(head_of(raw, s.store.wide) is Some);
    let rest = raw.skip(head_of(raw, s.store.wide)->0.end);
    lemma_rest_of(raw, s.store.wide);
    lemma_head_of(tree, parents, rest, s.store.wide);
    let bytes = head_text(tree, parents) + rest;
    assert(replaced(raw, g.wide, tree, parents) == Ok::<Seq<u8>, ErrorView>(bytes));
    lemma_written(g, Kind::Commit, bytes);
    let (w, lifted) = g.write(Kind::Commit, bytes);
    assert(commit_of(bytes, w.wide) == Some(
        CommitView { tree, parents, message: c.message },
    ));
    lemma_subtree_kept(g, w, tree, names, 0);
    let (t, out) = s.lift(names, semantics, id, onto);
    assert(t.store == w);
    assert(out == lifted);
}

/// The tree of a lifted commit is the grafted one.
pub proof fn lemma_lifted_tree(
    s: State,
    names: Seq<Seq<u8>>,
    semantics: Semantics,
    id: Seq<u8>,
    onto: Seq<u8>,
)
    requires
        liftable(s, names, semantics, id, onto),
    ensures
        ({
            let c = commit_at(s.store, id);
            let (t, lifted) = s.lift(names, semantics, id, onto);
            let l = commit_at(t.store, lifted->Ok_0);
            let below = if l.parents.len() > 0 {
                l.parents[0]
            } else {
                onto
            };
            let (g, grafted) = s.store.graft(commit_at(s.store, below).tree, names, 0, c.tree);
            &&& grafted == Ok::<Seq<u8>, ErrorView>(l.tree)
            &&& grown(g, t.store)
        }),
{
    let c = commit_at(s.store, id);
    let raw = raw_of(s.store, id);
    let parents = s.cache.counterparts(semantics, onto, c.parents, 0, seq![])->Ok_0;
    let base = if parents.len() > 0 {
        parents[0]
    } else {
        onto
    };
    let base_tree = s.store.commit_tree(base)->Ok_0;
    law_grafted_path_is_found(s.store, base_tree, names, 0, c.tree);
    let (g, grafted) = s.store.graft(base_tree, names, 0, c.tree);
    let tree = grafted->Ok_0;
    assert(commit_of(raw, s.store.wide) == Some(c));
    let rest = raw.skip(head_of(raw, s.store.wide)->0.end);
    lemma_rest_of(raw, s.store.wide);
    lemma_head_of(tree, parents, rest, s.store.wide);
    let bytes = head_text(tree, parents) + rest;
    assert(replaced(raw, g.wide, tree, parents) == Ok::<Seq<u8>, ErrorView>(bytes));
    lemma_written(g, Kind::Commit, bytes);
    let (w, lifted) = g.write(Kind::Commit, bytes);
    assert(commit_of(bytes, w.wide) == Some(
        CommitView { tree, parents, message: c.message },
    ));
    let (t, out) = s.lift(names, semantics, id, onto);
    assert(t.store == w);
    assert(out == lifted);
}

/// Lifting commits of a history leaves what is remembered of it true: that a
/// lifted commit derives back is not taken for granted.
pub proof fn law_lifting_keeps_memory_true(
    inj: Injection,
    base: StoreView,
    s: State,
    names: Seq<Seq<u8>>,
    semantics: Semantics,
    i: int,
    onto: Seq<u8>,
)
    requires
        inj.holds(base, names),
        inj.remembered(base, s, names),
        0 <= i < inj.original.len(),
        liftable(s, names, semantics, inj.original[i], onto),
    ensures
        inj.remembered(base, s.lift(names, semantics, inj.original[i], onto).0, names),
{
    let id = inj.original[i];
    let t = s.lift(names, semantics, id, onto).0;
    law_lifted_commit_is_the_original_moved(s, names, semantics, id, onto);
    assert(inj.injected_holds(base, names, i));
    lemma_commit_kept(base, s.store, id);
    lemma_lookups_kept(s, t, names);
    assert forall|j: int| 0 <= j < inj.injected.len() implies #[trigger] inj.remembered_at(
        base,
        t,
        j,
    ) by {
        assert(inj.remembered_at(base, s, j));
    }
}

/// Whether a commit of the view is the next one on top of what `onto` derives
/// to, and changes the path.
pub open spec fn sits_on(s: State, r: Rules, id: Seq<u8>, onto: Seq<u8>) -> bool {
    let c = commit_at(s.store, id);
    &&& c.parents.len() == 1
    &&& s.cache.commits.dom().contains(onto)
    &&& s.cache.commits[onto] == Some(c.parents[0])
    &&& s.cache.view_trees.dom().contains(c.parents[0])
    &&& s.cache.view_trees[c.parents[0]] != c.tree
    &&& c.parents[0] != id
}

/// A lifted commit that the memory does not know derives back.
proof fn lemma_new_lift_derives_back(s: State, r: Rules, id: Seq<u8>, onto: Seq<u8>)
    requires
        liftable(s, r.names, Semantics::V2, id, onto),
        sits_on(s, r, id, onto),
        lookups_hold(s, r.names),
        raw_of(s.store, id) == head_text(
            commit_at(s.store, id).tree,
            commit_at(s.store, id).parents,
        ) + rest_of(s.store, id),
        object_id(s.store.wide, Kind::Commit, raw_of(s.store, id)) == Some(id),
        object_id(s.store.wide, Kind::Tree, seq![]) is Some,
        !s.cache.commits.dom().contains(s.lift(r.names, Semantics::V2, id, onto).1->Ok_0),
    ensures
        ({
            let (t, lifted) = s.lift(r.names, Semantics::V2, id, onto);
            &&& commit_at(t.store, lifted->Ok_0).parents == seq![onto]
            &&& t.derived(r, false, lifted->Ok_0).1 == Ok::<Option<Seq<u8>>, ErrorView>(Some(id))
        }),
{
    let c = commit_at(s.store, id);
    let (t, out) = s.lift(r.names, Semantics::V2, id, onto);
    let lifted = out->Ok_0;
    let p = c.parents[0];
    law_lifted_commit_is_the_original_moved(s, r.names, Semantics::V2, id, onto);
    let none = Seq::<Seq<u8>>::empty();
    assert(s.cache.counterpart(Semantics::V2, onto, p, true) == Some(onto));
    assert(s.cache.counterparts(Semantics::V2, onto, c.parents, 1, none.push(onto)) == Ok::<
        Seq<Seq<u8>>,
        ErrorView,
    >(none.push(onto)));
    assert(none.push(onto) =~= seq![onto]);
    let l = commit_at(t.store, lifted);
    assert(l.parents == seq![onto]);
    // Walking: the one parent is mapped, so the commit is mapped at once.
    let stack = seq![Step::Enter(lifted)];
    let rest = stack.drop_last();
    assert(rest =~= seq![]);
    let w = t.reading();
    let raw = raw_of(t.store, lifted);
    assert(w.pending(l.parents, 0) =~= seq![]);
    assert(w.pending(l.parents, 1) =~= seq![]);
    // Mapping: the filtered tree is the original's, and so is the parent.
    lemma_lookups_kept(s, w, r.names);
    lemma_descend(w, r, l.tree, 0);
    let d = w.descend(r, l.tree, 0).0;
    let k = d.knowing_source(lifted, l.tree);
    assert(k.cache.mapped(onto) == Some(p));
    assert(k.cache.derived_parents(l.parents, 0) =~= seq![]);
    assert(!k.cache.introduced(l.parents, 0));
    assert(k.cache.derived_parents(l.parents, 1) =~= seq![p]);
    assert(c.parents =~= seq![p]);
    assert(k.view_tree(p) == (k, Ok::<Seq<u8>, ErrorView>(s.cache.view_trees[p])));
    assert(k.affects(seq![p], 0, c.tree) == (k, Ok::<bool, ErrorView>(true)));
    assert(k.trivial_merge_target(r, l, c.tree, seq![p]) == (
        k,
        Ok::<Option<Seq<u8>>, ErrorView>(None),
    ));
    assert(replaced(raw, k.store.wide, c.tree, seq![p]) == Ok::<Seq<u8>, ErrorView>(
        raw_of(s.store, id),
    ));
    let (m, done) = w.map_commit(r, lifted, raw);
    assert(done == Ok::<(), ErrorView>(()));
    assert(m.cache.commits[lifted] == Some(id));
    assert(t.step(r, false, rest, stack.last()) == (m, Ok::<Seq<Step>, ErrorView>(rest)));
    assert(m.walk(r, false, rest, (u64::MAX - 1) as nat) == (m, Ok::<(), ErrorView>(())));
}

/// Whether what a memory says of a commit that it knows is what deriving it
/// gives, and the memory is true of the objects.
pub open spec fn rightly_known(s: State, r: Rules, id: Seq<u8>) -> bool {
    truthful(s.store, s, r.names) && follows(s.store, r, s.cache.commits, id)
}

/// A lifted commit that the memory knows, and rightly, derives back.
proof fn lemma_known_lift_derives_back(s: State, r: Rules, id: Seq<u8>, onto: Seq<u8>)
    requires
        liftable(s, r.names, Semantics::V2, id, onto),
        sits_on(s, r, id, onto),
        raw_of(s.store, id) == head_text(
            commit_at(s.store, id).tree,
            commit_at(s.store, id).parents,
        ) + rest_of(s.store, id),
        object_id(s.store.wide, Kind::Commit, raw_of(s.store, id)) == Some(id),
        s.cache.commits.dom().contains(s.lift(r.names, Semantics::V2, id, onto).1->Ok_0),
        rightly_known(s, r, s.lift(r.names, Semantics::V2, id, onto).1->Ok_0),
    ensures
        ({
            let (t, lifted) = s.lift(r.names, Semantics::V2, id, onto);
            &&& commit_at(t.store, lifted->Ok_0).parents == seq![onto]
            &&& t.derived(r, false, lifted->Ok_0).1 == Ok::<Option<Seq<u8>>, ErrorView>(Some(id))
        }),
{
    let c = commit_at(s.store, id);
    let (t, out) = s.lift(r.names, Semantics::V2, id, onto);
    let lifted = out->Ok_0;
    let p = c.parents[0];
    let f = s.cache.commits;
    let base = s.store;
    law_lifted_commit_is_the_original_moved(s, r.names, Semantics::V2, id, onto);
    let none = Seq::<Seq<u8>>::empty();
    assert(s.cache.counterpart(Semantics::V2, onto, p, true) == Some(onto));
    assert(s.cache.counterparts(Semantics::V2, onto, c.parents, 1, none.push(onto)) == Ok::<
        Seq<Seq<u8>>,
        ErrorView,
    >(none.push(onto)));
    assert(none.push(onto) =~= seq![onto]);
    assert(c.parents =~= seq![p]);
    // The objects had the lifted commit already, and it is the one that was
    // written.
    assert(readable(base, r.names, lifted));
    lemma_commit_kept(base, t.store, lifted);
    let l = commit_at(base, lifted);
    assert(l == commit_at(t.store, lifted));
    assert(raw_of(base, lifted) == raw_of(t.store, lifted));
    lemma_subtree_kept(base, t.store, l.tree, r.names, 0);
    assert(path_tree(base, r.names, lifted) == Some(c.tree));
    assert(filtered(base, r.names, lifted) == c.tree);
    // It changes the path, and its one view parent is the original's.
    assert(filtered(base, r.names, onto) == s.cache.view_trees[p]);
    assert(parents_of(base, lifted) == seq![onto]);
    assert(mapped_by(f, parents_of(base, lifted)[0]) is Some);
    assert(touches(base, r.names, f, lifted));
    let m = memory_of(f);
    assert(m.mapped(onto) == Some(p));
    assert(m.derived_parents(seq![onto], 0) =~= seq![]);
    assert(!m.introduced(seq![onto], 0));
    assert(m.derived_parents(seq![onto], 1) =~= seq![p]);
    assert(view_parents(base, f, lifted) == seq![p]);
    let raw = raw_of(base, lifted);
    assert(commit_of(raw, base.wide) == Some(l));
    lemma_rest_of(raw, base.wide);
    assert(replaced(raw, base.wide, c.tree, seq![p]) == Ok::<Seq<u8>, ErrorView>(
        raw_of(base, id),
    ));
    assert(view_id(base, r, f, lifted) == Some(id));
    assert(!is_dropped(base, r, f, lifted));
    assert(outcome(base, r, f, lifted) == Some(id));
    assert(f[lifted] == Some(id));
    // Walking: there is nothing left to do.
    let stack = seq![Step::Enter(lifted)];
    let rest = stack.drop_last();
    assert(rest =~= seq![]);
    assert(t.cache.commits == f);
    assert(t.step(r, false, rest, stack.last()) == (t, Ok::<Seq<Step>, ErrorView>(rest)));
    assert(t.walk(r, false, rest, (u64::MAX - 1) as nat) == (t, Ok::<(), ErrorView>(())));
}

/// A commit that was lifted onto the tip it was made on derives back to itself,
/// byte for byte: a round trip adds nothing. Where the memory knows the lifted
/// commit already, what it says of it has to be what deriving it gives.
pub proof fn law_lifted_tip_derives_back(s: State, r: Rules, id: Seq<u8>, onto: Seq<u8>)
    requires
        liftable(s, r.names, Semantics::V2, id, onto),
        sits_on(s, r, id, onto),
        lookups_hold(s, r.names),
        raw_of(s.store, id) == head_text(
            commit_at(s.store, id).tree,
            commit_at(s.store, id).parents,
        ) + rest_of(s.store, id),
        object_id(s.store.wide, Kind::Commit, raw_of(s.store, id)) == Some(id),
        object_id(s.store.wide, Kind::Tree, seq![]) is Some,
        ({
            let lifted = s.lift(r.names, Semantics::V2, id, onto).1->Ok_0;
            s.cache.commits.dom().contains(lifted) ==> rightly_known(s, r, lifted)
        }),
    ensures
        ({
            let (t, lifted) = s.lift(r.names, Semantics::V2, id, onto);
            &&& commit_at(t.store, lifted->Ok_0).parents == seq![onto]
            &&& t.derived(r, false, lifted->Ok_0).1 == Ok::<Option<Seq<u8>>, ErrorView>(Some(id))
        }),
{
    if s.cache.commits.dom().contains(s.lift(r.names, Semantics::V2, id, onto).1->Ok_0) {
        lemma_known_lift_derives_back(s, r, id, onto);
    } else {
        lemma_new_lift_derives_back(s, r, id, onto);
    }
}

} // verus!
