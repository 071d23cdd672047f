//! What a graft leaves alone: everything that is not at its path. And what a
//! path leads to, said of the entries alone.
use crate::history::derive::{CacheView, State};
use crate::history::error::{ErrorView, Kind};
use crate::history::filter::Semantics;
use crate::history::laws::{commit_at, grown};
use crate::history::lift_laws::{
    graftable, law_grafted_path_is_found, law_lifted_commit_is_the_original_moved, lemma_entry_from,
    lemma_in_tree_order, lemma_lifted_tree, lemma_written, liftable, names_differ,
};
use crate::history::store::{
    differ_from, empty_tree, entry_from, in_tree_order, placed, precedes, tree_bytes, tree_entry,
    with_entry, EntryView, StoreView,
};
use vstd::prelude::*;

verus! {

/// Whether an entry stands at a path below a tree.
pub open spec fn stands_at(store: StoreView, tree: Seq<u8>, path: Seq<Seq<u8>>, e: EntryView) -> bool
    decreases path.len(),
{
    &&& path.len() > 0
    &&& store.entries(tree) is Ok
    &&& if path.len() == 1 {
        store.entries(tree)->Ok_0.contains(e) && e.name == path[0]
    } else {
        exists|d: EntryView| #[trigger]
            store.entries(tree)->Ok_0.contains(d) && d.name == path[0] && d.directory && stands_at(
                store,
                d.id,
                path.drop_first(),
                e,
            )
    }
}

/// Whether the trees on the way along a path can be read, and have no name
/// twice.
pub open spec fn walkable(store: StoreView, tree: Seq<u8>, path: Seq<Seq<u8>>) -> bool
    decreases path.len(),
{
    path.len() > 0 ==> {
        &&& store.entries(tree) is Ok
        &&& names_differ(store.entries(tree)->Ok_0)
        &&& path.len() > 1 ==> forall|d: EntryView| #[trigger]
            store.entries(tree)->Ok_0.contains(d) && d.name == path[0] && d.directory ==> walkable(
                store,
                d.id,
                path.drop_first(),
            )
    }
}

/// What stands at a path stands there in every store that has more.
proof fn lemma_kept(a: StoreView, b: StoreView, tree: Seq<u8>, path: Seq<Seq<u8>>, e: EntryView)
    requires
        grown(a, b),
        walkable(a, tree, path),
    ensures
        walkable(b, tree, path),
        stands_at(a, tree, path, e) <==> stands_at(b, tree, path, e),
    decreases path.len(),
{
    if path.len() > 0 {
        assert(b.entries(tree) == a.entries(tree));
        let es = a.entries(tree)->Ok_0;
        let tail = path.drop_first();
        if path.len() > 1 {
            assert forall|d: EntryView| #[trigger] es.contains(d) && d.name == path[0] && d.directory implies walkable(
                b,
                d.id,
                tail,
            ) && (stands_at(a, d.id, tail, e) <==> stands_at(b, d.id, tail, e)) by {
                lemma_kept(a, b, d.id, tail, e);
            }
        }
    }
}

/// The entries of a tree into which one was put: that one under its name, and
/// the others as they were.
proof fn lemma_put(es: Seq<EntryView>, name: Seq<u8>, id: Seq<u8>)
    requires
        names_differ(es),
    ensures
        ({
            let out = in_tree_order(with_entry(es, name, id));
            &&& names_differ(out)
            &&& forall|x: EntryView| #[trigger]
                out.contains(x) <==> if x.name == name {
                    x == tree_entry(name, id)
                } else {
                    es.contains(x)
                }
        }),
{
    let e = tree_entry(name, id);
    let all = with_entry(es, name, id);
    let at = entry_from(es, name, 0);
    lemma_entry_from(es, name, 0);
    assert(names_differ(all)) by {
        assert forall|i: int, j: int| 0 <= i < j < all.len() implies (#[trigger] all[i]).name != (
        #[trigger] all[j]).name by {
            if at < es.len() {
                assert(es[i].name != es[j].name);
                assert(all[i].name == es[i].name && all[j].name == es[j].name);
            } else if j == es.len() {
                assert(all[i] == es[i]);
            } else {
                assert(all[i] == es[i] && all[j] == es[j]);
            }
        }
    }
    lemma_in_tree_order(all);
    assert forall|x: EntryView| #[trigger] all.contains(x) <==> if x.name == name {
        x == e
    } else {
        es.contains(x)
    } by {
        if all.contains(x) {
            let k = choose|k: int| 0 <= k < all.len() && all[k] == x;
            if x.name == name {
                if at < es.len() {
                    if k != at {
                        assert(es[k].name == name);
                        assert(k < at || es[at].name != es[k].name);
                        assert(false);
                    }
                } else if k < es.len() {
                    assert(es[k].name != name);
                }
            } else {
                if at < es.len() {
                    assert(all[at] == e);
                    assert(k != at);
                }
                assert(es[k] == x);
            }
        }
        if x.name != name && es.contains(x) {
            let k = choose|k: int| 0 <= k < es.len() && es[k] == x;
            assert(k != at);
            assert(all[k] == x);
        }
        if x == e {
            if at < es.len() {
                assert(all[at] == e);
            } else {
                assert(all[es.len() as int] == e);
            }
        }
    }
    let out = in_tree_order(all);
    assert forall|x: EntryView| #[trigger] out.contains(x) <==> if x.name == name {
        x == e
    } else {
        es.contains(x)
    } by {
        assert(out.contains(x) <==> all.contains(x));
    }
}

/// A tree with one entry put into it: that one under its name, and every entry
/// of another name as it was, none missing and none added.
pub proof fn law_one_entry_changes(es: Seq<EntryView>, name: Seq<u8>, id: Seq<u8>)
    requires
        names_differ(es),
    ensures
        ({
            let out = in_tree_order(with_entry(es, name, id));
            &&& names_differ(out)
            &&& forall|x: EntryView| #[trigger]
                out.contains(x) && x.name != name <==> es.contains(x) && x.name != name
            &&& forall|x: EntryView| #[trigger]
                out.contains(x) && x.name == name <==> x.name == name && x.id == id && x.directory
                    && x.mode == seq![52u8, 48, 48, 48, 48]
        }),
{
    lemma_put(es, name, id);
    let out = in_tree_order(with_entry(es, name, id));
    assert forall|x: EntryView| #[trigger]
        out.contains(x) && x.name == name <==> x.name == name && x.id == id && x.directory && x.mode
            == seq![52u8, 48, 48, 48, 48] by {
        if x.name == name && x.id == id && x.directory && x.mode == seq![52u8, 48, 48, 48, 48] {
            assert(x =~= tree_entry(name, id));
        }
    }
}

/// A graft changes nothing that is not at its path: whatever stands at a path
/// that neither begins the grafted one nor lies below it stands there
/// afterwards, with the same mode and id, and nothing else does.
pub proof fn law_graft_leaves_the_rest(
    store: StoreView,
    base: Seq<u8>,
    names: Seq<Seq<u8>>,
    i: int,
    sub: Seq<u8>,
    path: Seq<Seq<u8>>,
    e: EntryView,
)
    requires
        graftable(store, base, names, i, sub),
        0 <= i <= names.len(),
        walkable(store, base, path),
        !path.is_prefix_of(names.skip(i)),
        !names.skip(i).is_prefix_of(path),
    ensures
        store.graft(base, names, i, sub).1 is Ok,
        walkable(
            store.graft(base, names, i, sub).0,
            store.graft(base, names, i, sub).1->Ok_0,
            path,
        ),
        stands_at(
            store.graft(base, names, i, sub).0,
            store.graft(base, names, i, sub).1->Ok_0,
            path,
            e,
        ) <==> stands_at(store, base, path, e),
    decreases path.len(),
{
    let rest = names.skip(i);
    if path.len() == 0 {
        assert(path.is_prefix_of(rest));
    }
    if i == names.len() {
        assert(rest.is_prefix_of(path));
    }
    let es = store.entries(base)->Ok_0;
    let name = names[i];
    let at = entry_from(es, name, 0);
    lemma_entry_from(es, name, 0);
    let below = if at < es.len() && es[at].directory {
        es[at].id
    } else {
        empty_tree(store.wide)
    };
    law_grafted_path_is_found(store, base, names, i, sub);
    law_grafted_path_is_found(store, below, names, i + 1, sub);
    let (s, out) = store.graft(below, names, i + 1, sub);
    let child = out->Ok_0;
    let sorted = in_tree_order(with_entry(es, name, child));
    lemma_put(es, name, child);
    lemma_written(s, Kind::Tree, tree_bytes(sorted));
    let (t, id) = s.write(Kind::Tree, tree_bytes(sorted));
    assert(t.entries(id->Ok_0) == Ok::<Seq<EntryView>, ErrorView>(sorted));
    let tail = path.drop_first();
    if path[0] != name {
        if path.len() > 1 {
            assert forall|d: EntryView| #[trigger]
                sorted.contains(d) && d.name == path[0] && d.directory implies walkable(
                t,
                d.id,
                tail,
            ) by {
                assert(es.contains(d));
                lemma_kept(store, t, d.id, tail, e);
            }
            assert forall|d: EntryView| #[trigger]
                es.contains(d) && d.name == path[0] && d.directory implies (stands_at(
                store,
                d.id,
                tail,
                e,
            ) <==> stands_at(t, d.id, tail, e)) && sorted.contains(d) by {
                lemma_kept(store, t, d.id, tail, e);
            }
            assert forall|d: EntryView| #[trigger]
                sorted.contains(d) && d.name == path[0] && d.directory implies es.contains(d) by {}
            if stands_at(store, base, path, e) {
                let d = choose|d: EntryView| #[trigger]
                    es.contains(d) && d.name == path[0] && d.directory && stands_at(
                        store,
                        d.id,
                        tail,
                        e,
                    );
                assert(sorted.contains(d));
            }
            if stands_at(t, id->Ok_0, path, e) {
                let d = choose|d: EntryView| #[trigger]
                    sorted.contains(d) && d.name == path[0] && d.directory && stands_at(
                        t,
                        d.id,
                        tail,
                        e,
                    );
                assert(es.contains(d));
            }
        } else if e.name == path[0] {
            assert(sorted.contains(e) <==> es.contains(e));
        }
    } else {
        assert(rest[0] == name);
        if path.len() == 1 {
            assert(path.is_prefix_of(rest)) by {
                assert(rest.take(1) =~= path);
            }
        }
        if rest.len() == 1 {
            assert(rest.is_prefix_of(path)) by {
                assert(path.take(1) =~= rest);
            }
        }
        let down = names.skip(i + 1);
        assert(down =~= rest.drop_first());
        assert(!tail.is_prefix_of(down)) by {
            if tail.is_prefix_of(down) {
                assert(rest.take(path.len() as int) =~= path) by {
                    assert forall|q: int| 0 <= q < path.len() implies rest[q] == path[q] by {
                        if q > 0 {
                            assert(tail[q - 1] == down[q - 1]);
                        }
                    }
                }
                assert(path.is_prefix_of(rest));
            }
        }
        assert(!down.is_prefix_of(tail)) by {
            if down.is_prefix_of(tail) {
                assert(path.take(rest.len() as int) =~= rest) by {
                    assert forall|q: int| 0 <= q < rest.len() implies rest[q] == path[q] by {
                        if q > 0 {
                            assert(tail[q - 1] == down[q - 1]);
                        }
                    }
                }
                assert(rest.is_prefix_of(path));
            }
        }
        assert(walkable(store, below, tail)) by {
            if at < es.len() && es[at].directory {
                assert(es.contains(es[at]));
            } else {
                lemma_empty_walks(store, tail, e);
            }
        }
        law_graft_leaves_the_rest(store, below, names, i + 1, sub, tail, e);
        lemma_kept(s, t, child, tail, e);
        let put = tree_entry(name, child);
        assert(sorted.contains(put));
        assert forall|d: EntryView| #[trigger]
            sorted.contains(d) && d.name == path[0] && d.directory implies d == put && walkable(
            t,
            d.id,
            tail,
        ) by {}
        assert(stands_at(t, id->Ok_0, path, e) <==> stands_at(t, child, tail, e));
        if at < es.len() && es[at].directory {
            assert(es.contains(es[at]));
            assert forall|d: EntryView| #[trigger] es.contains(d) && d.name == name implies d == es[at] by {
                let k = choose|k: int| 0 <= k < es.len() && es[k] == d;
                if k < at {
                    assert(es[k].name != name);
                } else if at < k {
                    assert(es[at].name != es[k].name);
                }
            }
            assert(stands_at(store, base, path, e) <==> stands_at(store, below, tail, e));
        } else {
            lemma_empty_walks(store, tail, e);
            assert forall|d: EntryView| #[trigger] es.contains(d) && d.name == name implies !d.directory by {
                let k = choose|k: int| 0 <= k < es.len() && es[k] == d;
                if k < at {
                    assert(es[k].name != name);
                } else if at < k {
                    assert(es[at].name != es[k].name);
                }
            }
            assert(!stands_at(store, base, path, e));
        }
    }
}

proof fn lemma_empty_walks(store: StoreView, path: Seq<Seq<u8>>, e: EntryView)
    ensures
        walkable(store, empty_tree(store.wide), path),
        !stands_at(store, empty_tree(store.wide), path, e),
{
    let none = Seq::<EntryView>::empty();
    assert(store.entries(empty_tree(store.wide)) == Ok::<Seq<EntryView>, ErrorView>(none));
    assert(forall|d: EntryView| !none.contains(d));
}

/// What stands below the path of a graft is what stands in the tree that was
/// grafted.
pub proof fn law_graft_shows_what_was_grafted(
    store: StoreView,
    base: Seq<u8>,
    names: Seq<Seq<u8>>,
    i: int,
    sub: Seq<u8>,
    path: Seq<Seq<u8>>,
    e: EntryView,
)
    requires
        graftable(store, base, names, i, sub),
        0 <= i <= names.len(),
        walkable(store, sub, path),
        path.len() > 0,
    ensures
        stands_at(
            store.graft(base, names, i, sub).0,
            store.graft(base, names, i, sub).1->Ok_0,
            names.skip(i) + path,
            e,
        ) <==> stands_at(store, sub, path, e),
    decreases names.len() - i,
{
    if i == names.len() {
        assert(names.skip(i) + path =~= path);
    } else {
        let es = store.entries(base)->Ok_0;
        let name = names[i];
        let at = entry_from(es, name, 0);
        let below = if at < es.len() && es[at].directory {
            es[at].id
        } else {
            empty_tree(store.wide)
        };
        law_grafted_path_is_found(store, below, names, i + 1, sub);
        law_graft_shows_what_was_grafted(store, below, names, i + 1, sub, path, e);
        let (s, out) = store.graft(below, names, i + 1, sub);
        let child = out->Ok_0;
        let sorted = in_tree_order(with_entry(es, name, child));
        lemma_put(es, name, child);
        lemma_written(s, Kind::Tree, tree_bytes(sorted));
        let (t, id) = s.write(Kind::Tree, tree_bytes(sorted));
        assert(t.entries(id->Ok_0) == Ok::<Seq<EntryView>, ErrorView>(sorted));
        let whole = names.skip(i) + path;
        let tail = names.skip(i + 1) + path;
        assert(whole.drop_first() =~= tail);
        lemma_graft_walks(store, below, names, i + 1, sub, path);
        lemma_kept(s, t, child, tail, e);
        let put = tree_entry(name, child);
        assert(sorted.contains(put));
        assert(whole.len() > 1 && whole[0] == name);
        assert(store.graft(base, names, i, sub) == (t, id));
        assert(stands_at(s, child, tail, e) <==> stands_at(store, sub, path, e));
        assert(put.id == child && put.directory && put.name == name);
        if stands_at(t, child, tail, e) {
            assert(t.entries(id->Ok_0)->Ok_0.contains(put));
            assert(stands_at(t, put.id, whole.drop_first(), e));
            assert(stands_at(t, id->Ok_0, whole, e));
        }
        if stands_at(t, id->Ok_0, whole, e) {
            let d = choose|d: EntryView| #[trigger]
                sorted.contains(d) && d.name == whole[0] && d.directory && stands_at(
                    t,
                    d.id,
                    whole.drop_first(),
                    e,
                );
            assert(d == put);
        }
    }
}

/// The way to what was grafted, and on, can be walked.
proof fn lemma_graft_walks(
    store: StoreView,
    base: Seq<u8>,
    names: Seq<Seq<u8>>,
    i: int,
    sub: Seq<u8>,
    path: Seq<Seq<u8>>,
)
    requires
        graftable(store, base, names, i, sub),
        0 <= i <= names.len(),
        walkable(store, sub, path),
        path.len() > 0,
    ensures
        walkable(
            store.graft(base, names, i, sub).0,
            store.graft(base, names, i, sub).1->Ok_0,
            names.skip(i) + path,
        ),
    decreases names.len() - i,
{
    if i == names.len() {
        assert(names.skip(i) + path =~= path);
    } else {
        let es = store.entries(base)->Ok_0;
        let name = names[i];
        let at = entry_from(es, name, 0);
        let below = if at < es.len() && es[at].directory {
            es[at].id
        } else {
            empty_tree(store.wide)
        };
        law_grafted_path_is_found(store, below, names, i + 1, sub);
        lemma_graft_walks(store, below, names, i + 1, sub, path);
        let (s, out) = store.graft(below, names, i + 1, sub);
        let child = out->Ok_0;
        let sorted = in_tree_order(with_entry(es, name, child));
        lemma_put(es, name, child);
        lemma_written(s, Kind::Tree, tree_bytes(sorted));
        let (t, id) = s.write(Kind::Tree, tree_bytes(sorted));
        assert(t.entries(id->Ok_0) == Ok::<Seq<EntryView>, ErrorView>(sorted));
        let whole = names.skip(i) + path;
        let tail = names.skip(i + 1) + path;
        assert(whole.drop_first() =~= tail);
        lemma_kept(s, t, child, tail, tree_entry(name, child));
        assert forall|d: EntryView| #[trigger]
            sorted.contains(d) && d.name == whole[0] && d.directory implies walkable(
            t,
            d.id,
            tail,
        ) by {
            assert(d == tree_entry(name, child));
        }
    }
}

/// The tree that a path selects is the directory that stands at it, and there
/// is none where no directory stands there.
pub proof fn law_path_selects_the_directory(
    store: StoreView,
    tree: Seq<u8>,
    names: Seq<Seq<u8>>,
    i: int,
    sub: Seq<u8>,
)
    requires
        0 <= i < names.len(),
        walkable(store, tree, names.skip(i)),
    ensures
        store.subtree(tree, names, i) is Ok,
        store.subtree(tree, names, i)->Ok_0 == Some(sub) <==> exists|e: EntryView| #[trigger]
            stands_at(store, tree, names.skip(i), e) && e.directory && e.id == sub,
    decreases names.len() - i,
{
    let path = names.skip(i);
    let es = store.entries(tree)->Ok_0;
    let at = entry_from(es, names[i], 0);
    lemma_entry_from(es, names[i], 0);
    assert(path[0] == names[i]);
    assert(path.drop_first() =~= names.skip(i + 1));
    assert forall|d: EntryView| #[trigger] es.contains(d) && d.name == names[i] implies at
        < es.len() && d == es[at] by {
        let k = choose|k: int| 0 <= k < es.len() && es[k] == d;
        if k < at {
            assert(es[k].name != names[i]);
        } else if at < k {
            assert(es[at].name != es[k].name);
        }
    }
    let got = store.subtree(tree, names, i);
    if i + 1 == names.len() {
        if at < es.len() {
            assert(es.contains(es[at]));
            if es[at].directory {
                assert(store.subtree(es[at].id, names, i + 1) == Ok::<Option<Seq<u8>>, ErrorView>(
                    Some(es[at].id),
                ));
                assert(stands_at(store, tree, path, es[at]));
            }
        }
        if exists|e: EntryView| #[trigger]
            stands_at(store, tree, path, e) && e.directory && e.id == sub {
            let e = choose|e: EntryView| #[trigger]
                stands_at(store, tree, path, e) && e.directory && e.id == sub;
            assert(e == es[at]);
        }
    } else if at < es.len() && es[at].directory {
        let d = es[at];
        assert(es.contains(d));
        law_path_selects_the_directory(store, d.id, names, i + 1, sub);
        assert forall|e: EntryView| #[trigger]
            stands_at(store, tree, path, e) <==> stands_at(store, d.id, names.skip(i + 1), e) by {}
        if got->Ok_0 == Some(sub) {
            let e = choose|e: EntryView| #[trigger]
                stands_at(store, d.id, names.skip(i + 1), e) && e.directory && e.id == sub;
            assert(stands_at(store, tree, path, e));
        }
        if exists|e: EntryView| #[trigger]
            stands_at(store, tree, path, e) && e.directory && e.id == sub {
            let e = choose|e: EntryView| #[trigger]
                stands_at(store, tree, path, e) && e.directory && e.id == sub;
            assert(stands_at(store, d.id, names.skip(i + 1), e));
        }
    } else {
        assert(forall|e: EntryView| !stands_at(store, tree, path, e));
    }
}

/// A lifted commit changes nothing outside the path: whatever stands at a path
/// that neither begins the filtered one nor lies below it stands in the lifted
/// commit as it does in the commit that was lifted onto, which is its first
/// parent, or `onto` where it has none.
pub proof fn law_lifted_commit_leaves_the_rest(
    s: State,
    names: Seq<Seq<u8>>,
    semantics: Semantics,
    id: Seq<u8>,
    onto: Seq<u8>,
    path: Seq<Seq<u8>>,
    e: EntryView,
)
    requires
        liftable(s, names, semantics, id, onto),
        !path.is_prefix_of(names),
        !names.is_prefix_of(path),
        ({
            let (t, lifted) = s.lift(names, semantics, id, onto);
            let l = commit_at(t.store, lifted->Ok_0);
            walkable(
                s.store,
                commit_at(
                    s.store,
                    if l.parents.len() > 0 {
                        l.parents[0]
                    } else {
                        onto
                    },
                ).tree,
                path,
            )
        }),
    ensures
        ({
            let (t, lifted) = s.lift(names, semantics, id, onto);
            let l = commit_at(t.store, lifted->Ok_0);
            let below = if l.parents.len() > 0 {
                l.parents[0]
            } else {
                onto
            };
            stands_at(t.store, l.tree, path, e) <==> stands_at(
                s.store,
                commit_at(s.store, below).tree,
                path,
                e,
            )
        }),
{
    let c = commit_at(s.store, id);
    law_lifted_commit_is_the_original_moved(s, names, semantics, id, onto);
    let (t, lifted) = s.lift(names, semantics, id, onto);
    let l = commit_at(t.store, lifted->Ok_0);
    let below = if l.parents.len() > 0 {
        l.parents[0]
    } else {
        onto
    };
    let base_tree = commit_at(s.store, below).tree;
    let (g, grafted) = s.store.graft(base_tree, names, 0, c.tree);
    assert(names.skip(0) =~= names);
    law_graft_leaves_the_rest(s.store, base_tree, names, 0, c.tree, path, e);
    assert(grafted->Ok_0 == l.tree) by {
        lemma_lifted_tree(s, names, semantics, id, onto);
    }
    assert(grown(g, t.store)) by {
        lemma_lifted_tree(s, names, semantics, id, onto);
    }
    lemma_kept(g, t.store, l.tree, path, e);
}

// -- the parents of what is lifted -------------------------------------------

/// Whether a parent's place in the larger history is known: `onto` derives to
/// it, or it was derived or lifted before.
pub open spec fn has_place(c: CacheView, semantics: Semantics, onto: Seq<u8>, parent: Seq<u8>) -> bool {
    (semantics is V2 && c.mapped(onto) == Some(parent)) || c.grafts.dom().contains(parent)
}

proof fn lemma_counterparts(
    c: CacheView,
    semantics: Semantics,
    onto: Seq<u8>,
    parents: Seq<Seq<u8>>,
    i: int,
    found: Seq<Seq<u8>>,
)
    requires
        0 <= i <= parents.len(),
        found.len() == i,
    ensures
        ({
            let got = c.counterparts(semantics, onto, parents, i, found);
            &&& got is Ok ==> got->Ok_0.len() == parents.len() && found.is_prefix_of(got->Ok_0)
                && forall|j: int|
                i <= j < parents.len() ==> Some(#[trigger] got->Ok_0[j]) == c.counterpart(
                    semantics,
                    onto,
                    parents[j],
                    parents.len() == 1,
                )
            &&& got is Ok <==> forall|j: int|
                i <= j < parents.len() ==> c.counterpart(
                    semantics,
                    onto,
                    #[trigger] parents[j],
                    parents.len() == 1,
                ) is Some
            &&& got is Err ==> exists|j: int|
                i <= j < parents.len() && got == Err::<Seq<Seq<u8>>, ErrorView>(
                    ErrorView::Ungrafted { id: #[trigger] parents[j] },
                ) && c.counterpart(semantics, onto, parents[j], parents.len() == 1) is None
        }),
    decreases parents.len() - i,
{
    if i < parents.len() {
        match c.counterpart(semantics, onto, parents[i], parents.len() == 1) {
            Some(p) => {
                lemma_counterparts(c, semantics, onto, parents, i + 1, found.push(p));
                let got = c.counterparts(semantics, onto, parents, i + 1, found.push(p));
                if got is Ok {
                    let out = got->Ok_0;
                    assert(found.push(p).is_prefix_of(out));
                    assert(out[i] == found.push(p)[i]);
                    assert(found.is_prefix_of(out)) by {
                        assert forall|q: int| 0 <= q < found.len() implies found[q] == out[q] by {
                            assert(found.push(p)[q] == out[q]);
                        }
                        assert(out.take(found.len() as int) =~= found);
                    }
                }
            },
            None => {
                assert(c.counterpart(semantics, onto, parents[i], parents.len() == 1) is None);
            },
        }
    }
}

/// A lifted commit has as many parents as the original, in its order: `onto`
/// for one that `onto` derives to, else the place that is known, else, for an
/// only parent, `onto`.
pub proof fn law_lifted_commit_keeps_its_parents(
    s: State,
    names: Seq<Seq<u8>>,
    semantics: Semantics,
    id: Seq<u8>,
    onto: Seq<u8>,
)
    requires
        liftable(s, names, semantics, id, onto),
    ensures
        ({
            let c = commit_at(s.store, id);
            let (t, lifted) = s.lift(names, semantics, id, onto);
            let l = commit_at(t.store, lifted->Ok_0);
            &&& l.parents.len() == c.parents.len()
            &&& forall|j: int|
                #![trigger l.parents[j]]
                0 <= j < c.parents.len() ==> {
                    let p = c.parents[j];
                    &&& semantics is V2 && s.cache.mapped(onto) == Some(p) ==> l.parents[j] == onto
                    &&& !(semantics is V2 && s.cache.mapped(onto) == Some(p))
                        && s.cache.grafts.dom().contains(p) ==> l.parents[j] == s.cache.grafts[p]
                    &&& !has_place(s.cache, semantics, onto, p) ==> l.parents == seq![onto]
                }
        }),
{
    let c = commit_at(s.store, id);
    law_lifted_commit_is_the_original_moved(s, names, semantics, id, onto);
    lemma_counterparts(s.cache, semantics, onto, c.parents, 0, seq![]);
    let (t, lifted) = s.lift(names, semantics, id, onto);
    let l = commit_at(t.store, lifted->Ok_0);
    assert forall|j: int|
        #![trigger l.parents[j]]
        0 <= j < c.parents.len() && !has_place(
            s.cache,
            semantics,
            onto,
            c.parents[j],
        ) implies l.parents == seq![onto] by {
        assert(Some(l.parents[j]) == s.cache.counterpart(
            semantics,
            onto,
            c.parents[j],
            c.parents.len() == 1,
        ));
        assert(l.parents =~= seq![onto]);
    }
}

/// A merge one of whose parents has no known place is refused, with such a
/// parent named, and nothing is written or remembered.
pub proof fn law_merge_without_a_place_is_refused(
    s: State,
    names: Seq<Seq<u8>>,
    semantics: Semantics,
    id: Seq<u8>,
    onto: Seq<u8>,
    j: int,
)
    requires
        s.store.commit(id) is Ok,
        commit_at(s.store, id).parents.len() > 1,
        0 <= j < commit_at(s.store, id).parents.len(),
        !has_place(s.cache, semantics, onto, commit_at(s.store, id).parents[j]),
    ensures
        s.lift(names, semantics, id, onto).0 == s,
        exists|k: int|
            0 <= k < commit_at(s.store, id).parents.len() && s.lift(names, semantics, id, onto).1
                == Err::<Seq<u8>, ErrorView>(
                ErrorView::Ungrafted { id: #[trigger] commit_at(s.store, id).parents[k] },
            ) && !has_place(s.cache, semantics, onto, commit_at(s.store, id).parents[k]),
{
    let c = commit_at(s.store, id);
    lemma_counterparts(s.cache, semantics, onto, c.parents, 0, seq![]);
    assert(s.cache.counterpart(semantics, onto, c.parents[j], false) is None);
    let got = s.cache.counterparts(semantics, onto, c.parents, 0, seq![]);
    let k = choose|k: int|
        0 <= k < c.parents.len() && got == Err::<Seq<Seq<u8>>, ErrorView>(
            ErrorView::Ungrafted { id: #[trigger] c.parents[k] },
        ) && s.cache.counterpart(semantics, onto, c.parents[k], c.parents.len() == 1) is None;
    assert(!has_place(s.cache, semantics, onto, commit_at(s.store, id).parents[k]));
}

// -- the order of a tree -----------------------------------------------------

/// The name by which an entry is sorted: that of a directory ends in a slash.
pub open spec fn sort_name(e: EntryView) -> Seq<u8> {
    if e.directory {
        e.name.push(47)
    } else {
        e.name
    }
}

/// Whether bytes agree up to a place, and there the first ends or is lower.
pub open spec fn below_at(a: Seq<u8>, b: Seq<u8>, k: int) -> bool {
    &&& 0 <= k <= a.len()
    &&& k < b.len()
    &&& forall|i: int| 0 <= i < k ==> a[i] == b[i]
    &&& k == a.len() || a[k] < b[k]
}

/// Whether bytes come before others.
pub open spec fn is_below(a: Seq<u8>, b: Seq<u8>) -> bool {
    exists|k: int| below_at(a, b, k)
}

/// Whether a name could be that of an entry: it has no slash.
pub open spec fn is_entry_name(name: Seq<u8>) -> bool {
    forall|i: int| 0 <= i < name.len() ==> #[trigger] name[i] != 47
}

proof fn lemma_below_follows(a: Seq<u8>, b: Seq<u8>, c: Seq<u8>)
    requires
        is_below(a, b),
        is_below(b, c),
    ensures
        is_below(a, c),
{
    let j = choose|j: int| below_at(a, b, j);
    let k = choose|k: int| below_at(b, c, k);
    let m = if j <= k {
        j
    } else {
        k
    };
    assert(below_at(a, c, m));
}

proof fn lemma_differ(a: Seq<u8>, b: Seq<u8>, i: int)
    requires
        0 <= i <= a.len(),
        i <= b.len(),
        forall|j: int| 0 <= j < i ==> a[j] == b[j],
    ensures
        ({
            let k = differ_from(a, b, i);
            &&& i <= k <= a.len()
            &&& k <= b.len()
            &&& forall|j: int| 0 <= j < k ==> a[j] == b[j]
            &&& k < a.len() && k < b.len() ==> a[k] != b[k]
        }),
    decreases a.len() - i,
{
    if !(i >= a.len() || i >= b.len() || a[i] != b[i]) {
        lemma_differ(a, b, i + 1);
    }
}

/// Two entries of different names are sorted by their names.
proof fn lemma_sorted_by_name(a: EntryView, b: EntryView)
    requires
        a.name != b.name,
        is_entry_name(a.name),
        is_entry_name(b.name),
    ensures
        precedes(a, b) ==> is_below(sort_name(a), sort_name(b)),
        !precedes(a, b) ==> is_below(sort_name(b), sort_name(a)),
{
    lemma_differ(a.name, b.name, 0);
    lemma_differ_turned(a.name, b.name, 0);
    let k = differ_from(a.name, b.name, 0);
    let x = sort_name(a);
    let y = sort_name(b);
    if k == a.name.len() && k == b.name.len() {
        assert(a.name =~= b.name);
    }
    assert(forall|j: int| 0 <= j < k ==> x[j] == y[j]);
    if precedes(a, b) {
        assert(below_at(x, y, k));
    } else {
        assert(below_at(y, x, k));
    }
}

proof fn lemma_differ_turned(a: Seq<u8>, b: Seq<u8>, i: int)
    requires
        0 <= i,
    ensures
        differ_from(a, b, i) == differ_from(b, a, i),
    decreases a.len() - i,
{
    if !(i >= a.len() || i >= b.len() || a[i] != b[i]) {
        lemma_differ_turned(a, b, i + 1);
    }
}

/// Whether entries are in the order that a tree has.
pub open spec fn are_sorted(es: Seq<EntryView>) -> bool {
    forall|i: int, j: int|
        0 <= i < j < es.len() ==> is_below(sort_name(#[trigger] es[i]), sort_name(#[trigger] es[j]))
}

/// Whether the names of entries could be those of a tree, and none occurs
/// twice.
pub open spec fn are_named(es: Seq<EntryView>) -> bool {
    names_differ(es) && forall|i: int|
        0 <= i < es.len() ==> is_entry_name((#[trigger] es[i]).name)
}

proof fn lemma_placed_sorted(s: Seq<EntryView>, e: EntryView)
    requires
        are_sorted(s),
        forall|i: int|
            0 <= i < s.len() ==> is_entry_name((#[trigger] s[i]).name) && s[i].name != e.name,
        is_entry_name(e.name),
    ensures
        are_sorted(placed(s, e)),
        forall|i: int|
            0 <= i < placed(s, e).len() ==> #[trigger] placed(s, e)[i] == e || s.contains(
                placed(s, e)[i],
            ),
    decreases s.len(),
{
    let out = placed(s, e);
    if s.len() == 0 || !precedes(e, s.last()) {
        assert forall|i: int, j: int| 0 <= i < j < out.len() implies is_below(
            sort_name(#[trigger] out[i]),
            sort_name(#[trigger] out[j]),
        ) by {
            if j == s.len() {
                lemma_sorted_by_name(e, s.last());
                if i < s.len() - 1 {
                    assert(is_below(sort_name(s[i]), sort_name(s[s.len() - 1])));
                    lemma_below_follows(sort_name(s[i]), sort_name(s.last()), sort_name(e));
                }
            } else {
                assert(out[i] == s[i] && out[j] == s[j]);
            }
        }
        assert forall|i: int| 0 <= i < out.len() implies #[trigger] out[i] == e || s.contains(
            out[i],
        ) by {
            if i < s.len() {
                assert(out[i] == s[i]);
            }
        }
    } else {
        let low = s.drop_last();
        let last = s.last();
        assert(are_sorted(low)) by {
            assert forall|i: int, j: int| 0 <= i < j < low.len() implies is_below(
                sort_name(#[trigger] low[i]),
                sort_name(#[trigger] low[j]),
            ) by {
                assert(low[i] == s[i] && low[j] == s[j]);
            }
        }
        assert forall|i: int| 0 <= i < low.len() implies is_entry_name((#[trigger] low[i]).name)
            && low[i].name != e.name by {
            assert(low[i] == s[i]);
        }
        lemma_placed_sorted(low, e);
        let below = placed(low, e);
        assert(out == below.push(last));
        assert forall|i: int| 0 <= i < below.len() implies is_below(
            sort_name(#[trigger] below[i]),
            sort_name(last),
        ) by {
            if below[i] == e {
                lemma_sorted_by_name(e, last);
            } else {
                assert(low.contains(below[i]));
                let k = choose|k: int| 0 <= k < low.len() && low[k] == below[i];
                assert(s[k] == below[i]);
                assert(is_below(sort_name(s[k]), sort_name(s[s.len() - 1])));
            }
        }
        assert forall|i: int, j: int| 0 <= i < j < out.len() implies is_below(
            sort_name(#[trigger] out[i]),
            sort_name(#[trigger] out[j]),
        ) by {
            if j < below.len() {
                assert(out[i] == below[i] && out[j] == below[j]);
            } else {
                assert(out[i] == below[i]);
            }
        }
        assert forall|i: int| 0 <= i < out.len() implies #[trigger] out[i] == e || s.contains(
            out[i],
        ) by {
            if i < below.len() {
                assert(out[i] == below[i]);
                if below[i] != e {
                    let k = choose|k: int| 0 <= k < low.len() && low[k] == below[i];
                    assert(s[k] == out[i]);
                }
            } else {
                assert(s[s.len() - 1] == out[i]);
            }
        }
    }
}

/// A tree is written in the order of its names, those of directories compared
/// as if they ended in a slash.
pub proof fn law_trees_are_written_in_order(es: Seq<EntryView>)
    requires
        are_named(es),
    ensures
        are_sorted(in_tree_order(es)),
        forall|x: EntryView| #[trigger] in_tree_order(es).contains(x) <==> es.contains(x),
    decreases es.len(),
{
    lemma_in_tree_order(es);
    if es.len() > 0 {
        let low = es.drop_last();
        let e = es.last();
        assert(are_named(low)) by {
            assert forall|i: int, j: int| 0 <= i < j < low.len() implies (#[trigger] low[i]).name
                != (#[trigger] low[j]).name by {
                assert(low[i] == es[i] && low[j] == es[j]);
            }
            assert forall|i: int| 0 <= i < low.len() implies is_entry_name(
                (#[trigger] low[i]).name,
            ) by {
                assert(low[i] == es[i]);
            }
        }
        law_trees_are_written_in_order(low);
        let sorted = in_tree_order(low);
        assert forall|i: int| 0 <= i < sorted.len() implies is_entry_name(
            (#[trigger] sorted[i]).name,
        ) && sorted[i].name != e.name by {
            assert(sorted.contains(sorted[i]));
            let k = choose|k: int| 0 <= k < low.len() && low[k] == sorted[i];
            assert(es[k] == sorted[i]);
            assert(es[k].name != es[es.len() - 1].name);
        }
        assert(es[es.len() - 1] == e);
        lemma_placed_sorted(sorted, e);
    }
}

} // verus!
