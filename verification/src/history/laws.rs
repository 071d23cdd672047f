//! What deriving keeps: a history that was injected under a path comes back
//! out with the ids it had.
use crate::history::commits::{commit_of, head_of, head_text, object_id, replaced, CommitView};
use crate::history::derive::{counted, CacheView, Rules, State};
use crate::history::error::{ErrorView, Kind};
use crate::history::filter::Elide;
use crate::history::store::StoreView;
use crate::history::walk::{step_id, Step};
use vstd::prelude::*;

verus! {

// -- stores that grow --------------------------------------------------------

/// Whether a store has everything another one has.
pub open spec fn grown(old_store: StoreView, store: StoreView) -> bool {
    &&& store.wide == old_store.wide
    &&& forall|id: Seq<u8>| #[trigger]
        old_store.objects.dom().contains(id) ==> store.objects.dom().contains(id)
            && store.objects[id] == old_store.objects[id]
}

/// A path that leads to a tree leads to it in every store that has more.
pub proof fn lemma_subtree_kept(a: StoreView, b: StoreView, tree: Seq<u8>, names: Seq<Seq<u8>>, i: int)
    requires
        grown(a, b),
        a.subtree(tree, names, i) is Ok,
    ensures
        b.subtree(tree, names, i) == a.subtree(tree, names, i),
    decreases names.len() - i,
{
    if i < names.len() {
        assert(a.entries(tree) is Ok);
        assert(b.entries(tree) == a.entries(tree));
        assert(b.child(tree, names[i]) == a.child(tree, names[i]));
        match a.child(tree, names[i]) {
            Ok(Some(next)) => lemma_subtree_kept(a, b, next, names, i + 1),
            _ => {},
        }
    }
}

/// Whether the remembered lookups are what looking again would find.
pub open spec fn lookups_hold(s: State, names: Seq<Seq<u8>>) -> bool {
    forall|k: (Seq<u8>, int)| #[trigger]
        s.cache.trees.dom().contains(k) ==> s.store.subtree(k.0, names, k.1) == Ok::<
            Option<Seq<u8>>,
            ErrorView,
        >(s.cache.trees[k])
}

/// Everything but the remembered lookups and the counts.
pub open spec fn same_but_lookups(a: State, b: State) -> bool {
    &&& a.store == b.store
    &&& a.cache.commits == b.cache.commits
    &&& a.cache.view_trees == b.cache.view_trees
    &&& a.cache.source_trees == b.cache.source_trees
    &&& a.cache.grafts == b.cache.grafts
    &&& a.cache.elided == b.cache.elided
}

/// Remembering does not change what is found.
pub proof fn lemma_descend(s: State, r: Rules, tree: Seq<u8>, depth: int)
    requires
        lookups_hold(s, r.names),
        s.store.subtree(tree, r.names, depth) is Ok,
        0 <= depth <= r.names.len(),
    ensures
        s.descend(r, tree, depth).1 == s.store.subtree(tree, r.names, depth),
        lookups_hold(s.descend(r, tree, depth).0, r.names),
        same_but_lookups(s, s.descend(r, tree, depth).0),
    decreases r.names.len() - depth,
{
    if depth < r.names.len() && !s.cache.trees.dom().contains((tree, depth)) {
        let t = s.with_cache(CacheView { tree_reads: counted(s.cache.tree_reads), ..s.cache });
        assert(lookups_hold(t, r.names));
        match t.store.child(tree, r.names[depth]) {
            Ok(Some(next)) => lemma_descend(t, r, next, depth + 1),
            _ => {},
        }
    } else if depth < r.names.len() {
        assert(s.cache.trees.dom().contains((tree, depth)));
    }
}

// -- injected histories ------------------------------------------------------

/// A history twice: as it was, and as it was injected under a path. Both are
/// listed parents first.
pub struct Injection {
    pub original: Seq<Seq<u8>>,
    pub injected: Seq<Seq<u8>>,
}

/// What an object's bytes are.
pub open spec fn raw_of(store: StoreView, id: Seq<u8>) -> Seq<u8> {
    store.objects[id].data
}

/// What stands behind the lines a commit begins with.
pub open spec fn rest_of(store: StoreView, id: Seq<u8>) -> Seq<u8> {
    raw_of(store, id).skip(head_of(raw_of(store, id), store.wide)->0.end)
}

/// The commit of an id that is known to be one.
pub open spec fn commit_at(store: StoreView, id: Seq<u8>) -> CommitView {
    store.commit(id)->Ok_0
}

impl Injection {
    /// Whether the `i`th original is a commit under its own id, written the
    /// way commits are written.
    pub open spec fn original_holds(self, store: StoreView, i: int) -> bool {
        let id = self.original[i];
        let c = commit_at(store, id);
        &&& store.commit(id) is Ok
        &&& raw_of(store, id) == head_text(c.tree, c.parents) + rest_of(store, id)
        &&& object_id(store.wide, Kind::Commit, raw_of(store, id)) == Some(id)
    }

    /// Whether the parents of the `i`th pair are earlier pairs, one by one.
    pub open spec fn parents_hold(self, store: StoreView, i: int) -> bool {
        let a = commit_at(store, self.original[i]).parents;
        let b = commit_at(store, self.injected[i]).parents;
        &&& a.len() == b.len()
        &&& forall|j: int|
            0 <= j < a.len() ==> exists|k: int|
                0 <= k < i && a[j] == #[trigger] self.original[k] && #[trigger] b[j]
                    == self.injected[k]
    }

    /// Whether the `i`th injected commit is the original with its tree moved
    /// under the path and every other byte as it was.
    pub open spec fn injected_holds(self, store: StoreView, names: Seq<Seq<u8>>, i: int) -> bool {
        let id = self.injected[i];
        &&& store.commit(id) is Ok
        &&& rest_of(store, id) == rest_of(store, self.original[i])
        &&& self.parents_hold(store, i)
        &&& store.subtree(commit_at(store, id).tree, names, 0) == Ok::<
            Option<Seq<u8>>,
            ErrorView,
        >(Some(commit_at(store, self.original[i]).tree))
    }

    /// Whether two pairs agree: the same commit was injected once, and the
    /// trees around the path are the same for all.
    pub open spec fn pair_holds(self, store: StoreView, i: int, j: int) -> bool {
        &&& self.original[i] == self.original[j] <==> self.injected[i] == self.injected[j]
        &&& commit_at(store, self.original[i]).tree == commit_at(store, self.original[j]).tree
            <==> commit_at(store, self.injected[i]).tree == commit_at(store, self.injected[j]).tree
    }

    /// Whether a history was injected under a path.
    pub open spec fn holds(self, store: StoreView, names: Seq<Seq<u8>>) -> bool {
        &&& self.original.len() == self.injected.len()
        &&& forall|i: int|
            0 <= i < self.original.len() ==> self.original_holds(store, i) && #[trigger]
            self.injected_holds(store, names, i)
        &&& forall|i: int, j: int|
            0 <= i < self.original.len() && 0 <= j < self.original.len() ==> #[trigger]
            self.pair_holds(store, i, j)
    }

    /// Whether what is remembered of a history agrees with it. An empty
    /// memory does, and so does one that only lifted the history.
    pub open spec fn remembered(self, base: StoreView, s: State, names: Seq<Seq<u8>>) -> bool {
        &&& grown(base, s.store)
        &&& lookups_hold(s, names)
        &&& forall|i: int|
            0 <= i < self.injected.len() ==> #[trigger] self.remembered_at(base, s, i)
    }

    pub open spec fn remembered_at(self, base: StoreView, s: State, i: int) -> bool {
        let id = self.injected[i];
        let v = self.original[i];
        &&& s.cache.commits.dom().contains(id) ==> s.cache.commits[id] == Some(v)
            && s.cache.source_trees.dom().contains(id)
        &&& s.cache.source_trees.dom().contains(id) ==> s.cache.source_trees[id] == commit_at(
            base,
            id,
        ).tree
        &&& s.cache.view_trees.dom().contains(v) ==> s.cache.view_trees[v] == commit_at(base, v).tree
    }
}

/// Reading a commit that was there before.
pub proof fn lemma_commit_kept(a: StoreView, b: StoreView, id: Seq<u8>)
    requires
        grown(a, b),
        a.commit(id) is Ok,
    ensures
        b.commit(id) == a.commit(id),
        b.read_commit(id) == Ok::<Seq<u8>, ErrorView>(raw_of(a, id)),
        commit_of(raw_of(a, id), b.wide) == Some(commit_at(a, id)),
        raw_of(b, id) == raw_of(a, id),
{
    assert(a.objects.dom().contains(id));
}

/// The view parents of an injected commit are the original's parents.
proof fn lemma_parents(inj: Injection, base: StoreView, s: State, names: Seq<Seq<u8>>, i: int, n: int)
    requires
        inj.holds(base, names),
        inj.remembered(base, s, names),
        0 <= i < inj.injected.len(),
        0 <= n <= commit_at(base, inj.injected[i]).parents.len(),
        forall|j: int|
            0 <= j < commit_at(base, inj.injected[i]).parents.len()
                ==> s.cache.commits.dom().contains(
                #[trigger] commit_at(base, inj.injected[i]).parents[j],
            ),
    ensures
        s.cache.derived_parents(commit_at(base, inj.injected[i]).parents, n) == commit_at(
            base,
            inj.original[i],
        ).parents.take(n),
    decreases n,
{
    let a = commit_at(base, inj.original[i]).parents;
    let b = commit_at(base, inj.injected[i]).parents;
    assert(inj.injected_holds(base, names, i));
    if n > 0 {
        lemma_parents(inj, base, s, names, i, n - 1);
        let k = choose|k: int|
            0 <= k < i && a[n - 1] == #[trigger] inj.original[k] && b[n - 1] == inj.injected[k];
        assert(b[n - 1] == b[n - 1] && exists|k: int|
            0 <= k < i && a[n - 1] == #[trigger] inj.original[k] && b[n - 1] == inj.injected[k]);
        assert(inj.remembered_at(base, s, k));
        assert(s.cache.mapped(b[n - 1]) == Some(a[n - 1]));
        if s.cache.introduced(b, n - 1) {
            let j = choose|j: int|
                0 <= j < n - 1 && #[trigger] b[j] != b[n - 1] && s.cache.mapped(b[j])
                    == s.cache.mapped(b[n - 1]);
            assert(exists|m: int|
                0 <= m < i && a[j] == #[trigger] inj.original[m] && b[j] == inj.injected[m]);
            let m = choose|m: int|
                0 <= m < i && a[j] == #[trigger] inj.original[m] && b[j] == inj.injected[m];
            assert(inj.remembered_at(base, s, m));
            assert(inj.pair_holds(base, m, k));
            assert(false);
        }
        assert(a.take(n) =~= a.take(n - 1).push(a[n - 1]));
    } else {
        assert(a.take(0) =~= seq![]);
    }
}

/// The tree of an original, seen in the view.
proof fn lemma_view_tree(inj: Injection, base: StoreView, s: State, names: Seq<Seq<u8>>, k: int)
    requires
        inj.holds(base, names),
        inj.remembered(base, s, names),
        0 <= k < inj.original.len(),
    ensures
        s.view_tree(inj.original[k]).1 == Ok::<Seq<u8>, ErrorView>(
            commit_at(base, inj.original[k]).tree,
        ),
        inj.remembered(base, s.view_tree(inj.original[k]).0, names),
        s.view_tree(inj.original[k]).0.cache.commits == s.cache.commits,
        s.view_tree(inj.original[k]).0.cache.source_trees == s.cache.source_trees,
        s.view_tree(inj.original[k]).0.store == s.store,
{
    let v = inj.original[k];
    let t = s.view_tree(v).0;
    assert(inj.remembered_at(base, s, k));
    assert(inj.injected_holds(base, names, k));
    lemma_commit_kept(base, s.store, v);
    assert forall|i: int| 0 <= i < inj.injected.len() implies #[trigger] inj.remembered_at(
        base,
        t,
        i,
    ) by {
        assert(inj.remembered_at(base, s, i));
    }
}

/// Which of the originals a parent is.
proof fn lemma_parent_place(inj: Injection, base: StoreView, names: Seq<Seq<u8>>, i: int, j: int) -> (k: int)
    requires
        inj.holds(base, names),
        0 <= i < inj.injected.len(),
        0 <= j < commit_at(base, inj.injected[i]).parents.len(),
    ensures
        0 <= k < i,
        commit_at(base, inj.original[i]).parents[j] == inj.original[k],
        commit_at(base, inj.injected[i]).parents[j] == inj.injected[k],
{
    let a = commit_at(base, inj.original[i]).parents;
    let b = commit_at(base, inj.injected[i]).parents;
    assert(inj.injected_holds(base, names, i));
    assert(inj.parents_hold(base, i));
    let id = b[j];
    assert(exists|k: int|
        0 <= k < i && a[j] == #[trigger] inj.original[k] && id == inj.injected[k]);
    choose|k: int| 0 <= k < i && a[j] == #[trigger] inj.original[k] && id == inj.injected[k]
}

/// Whether some parent of the original has another tree.
pub open spec fn changes(base: StoreView, v: Seq<u8>, from: int) -> bool {
    exists|j: int|
        from <= j < commit_at(base, v).parents.len() && commit_at(
            base,
            #[trigger] commit_at(base, v).parents[j],
        ).tree != commit_at(base, v).tree
}

proof fn lemma_affects(inj: Injection, base: StoreView, s: State, names: Seq<Seq<u8>>, i: int, j: int)
    requires
        inj.holds(base, names),
        inj.remembered(base, s, names),
        0 <= i < inj.original.len(),
        0 <= j <= commit_at(base, inj.original[i]).parents.len(),
    ensures
        ({
            let c = commit_at(base, inj.original[i]);
            let out = s.affects(c.parents, j, c.tree);
            &&& out.1 == Ok::<bool, ErrorView>(changes(base, inj.original[i], j))
            &&& inj.remembered(base, out.0, names)
            &&& out.0.cache.commits == s.cache.commits
            &&& out.0.cache.source_trees == s.cache.source_trees
            &&& out.0.store == s.store
        }),
    decreases commit_at(base, inj.original[i]).parents.len() - j,
{
    let v = inj.original[i];
    let c = commit_at(base, v);
    assert(inj.injected_holds(base, names, i));
    if j < c.parents.len() {
        let k = lemma_parent_place(inj, base, names, i, j);
        lemma_view_tree(inj, base, s, names, k);
        let (t, _) = s.view_tree(c.parents[j]);
        if commit_at(base, c.parents[j]).tree == c.tree {
            lemma_affects(inj, base, t, names, i, j + 1);
            if changes(base, v, j) {
                let m = choose|m: int|
                    j <= m < c.parents.len() && commit_at(
                        base,
                        #[trigger] c.parents[m],
                    ).tree != c.tree;
                assert(m != j);
                assert(commit_at(base, c.parents[m]).tree != c.tree);
                assert(changes(base, v, j + 1));
            }
            if changes(base, v, j + 1) {
                let m = choose|m: int|
                    j + 1 <= m < c.parents.len() && commit_at(
                        base,
                        #[trigger] c.parents[m],
                    ).tree != c.tree;
                assert(commit_at(base, c.parents[m]).tree != c.tree);
                assert(changes(base, v, j));
            }
        } else {
            assert(changes(base, v, j));
        }
    }
}

/// An injected commit was empty before filtering exactly when the original is
/// empty.
proof fn lemma_already_empty(inj: Injection, base: StoreView, s: State, names: Seq<Seq<u8>>, i: int)
    requires
        inj.holds(base, names),
        inj.remembered(base, s, names),
        0 <= i < inj.original.len(),
        forall|j: int|
            0 <= j < commit_at(base, inj.injected[i]).parents.len()
                ==> s.cache.commits.dom().contains(
                #[trigger] commit_at(base, inj.injected[i]).parents[j],
            ),
    ensures
        s.cache.already_empty(
            commit_at(base, inj.injected[i]).parents,
            commit_at(base, inj.injected[i]).tree,
        ) == !changes(base, inj.original[i], 0),
        s.cache.was_trivial(commit_at(base, inj.injected[i])) == (commit_at(
            base,
            inj.injected[i],
        ).parents.len() > 0 && commit_at(
            base,
            commit_at(base, inj.original[i]).parents[0],
        ).tree == commit_at(base, inj.original[i]).tree),
{
    let v = inj.original[i];
    let a = commit_at(base, v);
    let b = commit_at(base, inj.injected[i]);
    assert(inj.injected_holds(base, names, i));
    assert forall|j: int| 0 <= j < b.parents.len() implies (s.cache.source_trees.dom().contains(
        #[trigger] b.parents[j],
    ) && (s.cache.source_trees[b.parents[j]] == b.tree <==> commit_at(base, a.parents[j]).tree
        == a.tree)) by {
        let k = lemma_parent_place(inj, base, names, i, j);
        assert(inj.remembered_at(base, s, k));
        assert(inj.pair_holds(base, k, i));
    }
    if changes(base, v, 0) {
        let m = choose|m: int|
            0 <= m < a.parents.len() && commit_at(base, #[trigger] a.parents[m]).tree != a.tree;
        assert(b.parents[m] == b.parents[m]);
    } else {
        assert forall|j: int| 0 <= j < b.parents.len() implies s.cache.source_trees.dom().contains(
            #[trigger] b.parents[j],
        ) && s.cache.source_trees[b.parents[j]] == b.tree by {
            assert(a.parents[j] == a.parents[j]);
        }
    }
    if b.parents.len() > 0 {
        assert(b.parents[0] == b.parents[0]);
    }
}

/// The rules that keep hashes.
pub open spec fn keeps_hashes(r: Rules) -> bool {
    r.elide != Elide::UnchangedIncludingAlreadyEmpty
}

/// Making an injected commit again makes the original.
proof fn lemma_build(inj: Injection, base: StoreView, s: State, names: Seq<Seq<u8>>, i: int)
    requires
        inj.holds(base, names),
        inj.remembered(base, s, names),
        0 <= i < inj.original.len(),
        object_id(base.wide, Kind::Tree, seq![]) is Some,
        s.cache.source_trees.dom().contains(inj.injected[i]),
    ensures
        ({
            let c = commit_at(base, inj.original[i]);
            let out = s.kept(inj.injected[i], raw_of(base, inj.injected[i]), c.tree, c.parents);
            &&& out.1 == Ok::<(), ErrorView>(())
            &&& inj.remembered(base, out.0, names)
            &&& out.0.cache.commits == s.cache.commits.insert(
                inj.injected[i],
                Some(inj.original[i]),
            )
        }),
{
    let v = inj.original[i];
    let id = inj.injected[i];
    let c = commit_at(base, v);
    let raw = raw_of(base, id);
    assert(inj.injected_holds(base, names, i));
    assert(inj.original_holds(base, i));
    lemma_commit_kept(base, s.store, v);
    lemma_commit_kept(base, s.store, id);
    assert(replaced(raw, s.store.wide, c.tree, c.parents) == Ok::<Seq<u8>, ErrorView>(
        raw_of(base, v),
    ));
    let (g, _) = s.grounded(c.tree);
    assert(grown(s.store, g.store));
    assert(grown(base, g.store));
    lemma_lookups_kept(s, g, names);
    let out = s.kept(id, raw, c.tree, c.parents).0;
    assert(g.store.objects.dom().contains(v));
    assert(out.store.objects == g.store.objects);
    assert(grown(base, out.store));
    lemma_lookups_kept(g, out, names);
    assert forall|j: int| 0 <= j < inj.injected.len() implies #[trigger] inj.remembered_at(
        base,
        out,
        j,
    ) by {
        assert(inj.remembered_at(base, s, j));
        assert(inj.pair_holds(base, i, j));
    }
}

pub proof fn lemma_lookups_kept(a: State, b: State, names: Seq<Seq<u8>>)
    requires
        lookups_hold(a, names),
        grown(a.store, b.store),
        b.cache.trees == a.cache.trees,
    ensures
        lookups_hold(b, names),
{
    assert forall|k: (Seq<u8>, int)| #[trigger] b.cache.trees.dom().contains(k) implies b.store.subtree(
        k.0,
        names,
        k.1,
    ) == Ok::<Option<Seq<u8>>, ErrorView>(b.cache.trees[k]) by {
        assert(a.cache.trees.dom().contains(k));
        lemma_subtree_kept(a.store, b.store, k.0, names, k.1);
    }
}

/// An injected commit whose parents are mapped maps to the original.
proof fn lemma_map_commit(inj: Injection, base: StoreView, s: State, r: Rules, i: int)
    requires
        inj.holds(base, r.names),
        inj.remembered(base, s, r.names),
        keeps_hashes(r),
        object_id(base.wide, Kind::Tree, seq![]) is Some,
        0 <= i < inj.injected.len(),
        forall|j: int|
            0 <= j < commit_at(base, inj.injected[i]).parents.len()
                ==> s.cache.commits.dom().contains(
                #[trigger] commit_at(base, inj.injected[i]).parents[j],
            ),
    ensures
        ({
            let out = s.map_commit(r, inj.injected[i], raw_of(base, inj.injected[i]));
            &&& out.1 == Ok::<(), ErrorView>(())
            &&& inj.remembered(base, out.0, r.names)
            &&& out.0.cache.commits == s.cache.commits.insert(
                inj.injected[i],
                Some(inj.original[i]),
            )
        }),
{
    let v = inj.original[i];
    let id = inj.injected[i];
    let a = commit_at(base, v);
    let b = commit_at(base, id);
    let raw = raw_of(base, id);
    assert(inj.injected_holds(base, r.names, i));
    lemma_commit_kept(base, s.store, id);
    lemma_subtree_kept(base, s.store, b.tree, r.names, 0);
    lemma_descend(s, r, b.tree, 0);
    let d = s.descend(r, b.tree, 0).0;
    let k = d.knowing_source(id, b.tree);
    assert(inj.remembered(base, k, r.names)) by {
        assert forall|j: int| 0 <= j < inj.injected.len() implies #[trigger] inj.remembered_at(
            base,
            k,
            j,
        ) by {
            assert(inj.remembered_at(base, s, j));
            assert(inj.pair_holds(base, i, j));
        }
    }
    lemma_parents(inj, base, k, r.names, i, b.parents.len() as int);
    assert(a.parents.take(b.parents.len() as int) =~= a.parents);
    lemma_affects(inj, base, k, r.names, i, 0);
    let (f, _) = k.affects(a.parents, 0, a.tree);
    lemma_already_empty(inj, base, f, r.names, i);
    let (t, target) = f.trivial_merge_target(r, b, a.tree, a.parents);
    assert(target == Ok::<Option<Seq<u8>>, ErrorView>(None) && inj.remembered(base, t, r.names)
        && t.cache.commits == f.cache.commits && t.cache.source_trees == f.cache.source_trees) by {
        if !(r.keep_trivial_merges || a.parents.len() < 2) {
            let q = lemma_parent_place(inj, base, r.names, i, 0);
            lemma_view_tree(inj, base, f, r.names, q);
            let w = f.view_tree(a.parents[0]).0;
            lemma_already_empty(inj, base, w, r.names, i);
        }
    }
    lemma_build(inj, base, t, r.names, i);
}

// -- walking an injected history ---------------------------------------------

/// Whether a commit is mapped, or will be by a step from `from` on.
pub open spec fn covered(s: State, stack: Seq<Step>, from: int, id: Seq<u8>) -> bool {
    s.cache.commits.dom().contains(id) || exists|k: int|
        from <= k < stack.len() && step_id(#[trigger] stack[k]) == id
}

/// Whether every parent of a commit is covered.
pub open spec fn parents_covered(
    base: StoreView,
    s: State,
    stack: Seq<Step>,
    from: int,
    id: Seq<u8>,
) -> bool {
    forall|j: int|
        0 <= j < commit_at(base, id).parents.len() ==> covered(
            s,
            stack,
            from,
            #[trigger] commit_at(base, id).parents[j],
        )
}

impl Injection {
    pub open spec fn lists(self, id: Seq<u8>) -> bool {
        exists|i: int| 0 <= i < self.injected.len() && #[trigger] self.injected[i] == id
    }

    /// Whether one step of a stack is about the history, and comes behind the
    /// steps that it needs.
    pub open spec fn step_holds(self, base: StoreView, s: State, stack: Seq<Step>, j: int) -> bool {
        &&& self.lists(step_id(stack[j]))
        &&& stack[j] !is Follow
        &&& stack[j] is Settle ==> parents_covered(base, s, stack, j + 1, step_id(stack[j]))
    }

    pub open spec fn stack_holds(self, base: StoreView, s: State, stack: Seq<Step>) -> bool {
        forall|j: int| 0 <= j < stack.len() ==> #[trigger] self.step_holds(base, s, stack, j)
    }
}

/// What is covered stays covered when the top step is done.
pub proof fn lemma_covered_done(
    s: State,
    t: State,
    stack: Seq<Step>,
    from: int,
    id: Seq<u8>,
)
    requires
        stack.len() > 0,
        0 <= from,
        covered(s, stack, from, id),
        forall|x: Seq<u8>| #[trigger]
            s.cache.commits.dom().contains(x) ==> t.cache.commits.dom().contains(x),
        t.cache.commits.dom().contains(step_id(stack.last())),
    ensures
        covered(t, stack.drop_last(), from, id),
{
    if !s.cache.commits.dom().contains(id) {
        let k = choose|k: int| from <= k < stack.len() && step_id(#[trigger] stack[k]) == id;
        if k < stack.len() - 1 {
            assert(stack.drop_last()[k] == stack[k]);
        }
    }
}

proof fn lemma_stack_done(inj: Injection, base: StoreView, s: State, t: State, stack: Seq<Step>)
    requires
        stack.len() > 0,
        inj.stack_holds(base, s, stack),
        forall|x: Seq<u8>| #[trigger]
            s.cache.commits.dom().contains(x) ==> t.cache.commits.dom().contains(x),
        t.cache.commits.dom().contains(step_id(stack.last())),
    ensures
        inj.stack_holds(base, t, stack.drop_last()),
{
    let rest = stack.drop_last();
    assert forall|j: int| 0 <= j < rest.len() implies #[trigger] inj.step_holds(
        base,
        t,
        rest,
        j,
    ) by {
        assert(inj.step_holds(base, s, stack, j));
        assert(rest[j] == stack[j]);
        if stack[j] is Settle {
            let ps = commit_at(base, step_id(stack[j])).parents;
            assert forall|m: int| 0 <= m < ps.len() implies covered(
                t,
                rest,
                j + 1,
                #[trigger] ps[m],
            ) by {
                lemma_covered_done(s, t, stack, j + 1, ps[m]);
            }
        }
    }
}

/// The parents that wait are those that are not mapped.
pub proof fn lemma_pending(s: State, parents: Seq<Seq<u8>>, n: int)
    requires
        0 <= n <= parents.len(),
    ensures
        forall|k: int|
            0 <= k < s.pending(parents, n).len() ==> (#[trigger] s.pending(parents, n)[k]) is Enter
                && parents.contains(step_id(s.pending(parents, n)[k])),
        forall|j: int|
            0 <= j < n ==> s.cache.commits.dom().contains(#[trigger] parents[j]) || exists|k: int|
                0 <= k < s.pending(parents, n).len() && step_id(
                    #[trigger] s.pending(parents, n)[k],
                ) == parents[j],
    decreases n,
{
    if n > 0 {
        lemma_pending(s, parents, n - 1);
        let before = s.pending(parents, n - 1);
        let all = s.pending(parents, n);
        assert forall|k: int| 0 <= k < all.len() implies (#[trigger] all[k]) is Enter
            && parents.contains(step_id(all[k])) by {
            if k < before.len() {
                assert(all[k] == before[k]);
            } else {
                assert(parents[n - 1] == parents[n - 1]);
            }
        }
        assert forall|j: int| 0 <= j < n implies s.cache.commits.dom().contains(
            #[trigger] parents[j],
        ) || exists|k: int| 0 <= k < all.len() && step_id(#[trigger] all[k]) == parents[j] by {
            if !s.cache.commits.dom().contains(parents[j]) {
                if j == n - 1 {
                    assert(step_id(all[all.len() - 1]) == parents[j]);
                } else {
                    let k = choose|k: int|
                        0 <= k < before.len() && step_id(#[trigger] before[k]) == parents[j];
                    assert(all[k] == before[k]);
                }
            }
        }
    }
}

/// What is covered stays covered when the top step makes room for the steps
/// it needs.
pub proof fn lemma_covered_expanded(
    s: State,
    t: State,
    stack: Seq<Step>,
    more: Seq<Step>,
    from: int,
    id: Seq<u8>,
)
    requires
        stack.len() > 0,
        0 <= from,
        covered(s, stack, from, id),
        t.cache.commits == s.cache.commits,
        more.len() >= stack.len(),
        step_id(more[stack.len() - 1]) == step_id(stack.last()),
        forall|k: int| 0 <= k < stack.len() - 1 ==> #[trigger] more[k] == stack[k],
    ensures
        covered(t, more, from, id),
{
    if !s.cache.commits.dom().contains(id) {
        let k = choose|k: int| from <= k < stack.len() && step_id(#[trigger] stack[k]) == id;
        if k < stack.len() - 1 {
            assert(more[k] == stack[k]);
        }
        assert(step_id(more[k]) == id);
    }
}

proof fn lemma_stack_expanded(
    inj: Injection,
    base: StoreView,
    s: State,
    t: State,
    stack: Seq<Step>,
    i: int,
)
    requires
        stack.len() > 0,
        0 <= i < inj.injected.len(),
        step_id(stack.last()) == inj.injected[i],
        inj.stack_holds(base, s, stack),
        t.cache.commits == s.cache.commits,
        forall|j: int|
            0 <= j < commit_at(base, inj.injected[i]).parents.len() ==> inj.lists(
                #[trigger] commit_at(base, inj.injected[i]).parents[j],
            ),
    ensures
        ({
            let ps = commit_at(base, inj.injected[i]).parents;
            let next = stack.drop_last().push(Step::Settle(inj.injected[i])) + t.pending(
                ps,
                ps.len() as int,
            );
            inj.stack_holds(base, t, next)
        }),
{
    let id = inj.injected[i];
    let ps = commit_at(base, id).parents;
    let pending = t.pending(ps, ps.len() as int);
    let next = stack.drop_last().push(Step::Settle(id)) + pending;
    let at = stack.len() - 1;
    lemma_pending(t, ps, ps.len() as int);
    assert forall|j: int| 0 <= j < next.len() implies #[trigger] inj.step_holds(
        base,
        t,
        next,
        j,
    ) by {
        if j < at {
            assert(inj.step_holds(base, s, stack, j));
            assert(next[j] == stack[j]);
            if stack[j] is Settle {
                let qs = commit_at(base, step_id(stack[j])).parents;
                assert forall|m: int| 0 <= m < qs.len() implies covered(
                    t,
                    next,
                    j + 1,
                    #[trigger] qs[m],
                ) by {
                    lemma_covered_expanded(s, t, stack, next, j + 1, qs[m]);
                }
            }
        } else if j == at {
            assert(inj.injected[i] == id);
            assert forall|m: int| 0 <= m < ps.len() implies covered(
                t,
                next,
                at + 1,
                #[trigger] ps[m],
            ) by {
                if !t.cache.commits.dom().contains(ps[m]) {
                    let k = choose|k: int|
                        0 <= k < pending.len() && step_id(#[trigger] pending[k]) == ps[m];
                    assert(next[at + 1 + k] == pending[k]);
                }
            }
        } else {
            assert(next[j] == pending[j - at - 1]);
            let q = step_id(pending[j - at - 1]);
            assert(ps.contains(q));
            let m = choose|m: int| 0 <= m < ps.len() && ps[m] == q;
            assert(inj.lists(ps[m]));
        }
    }
}

/// Reading does not change what is remembered.
proof fn lemma_reading(inj: Injection, base: StoreView, s: State, names: Seq<Seq<u8>>)
    requires
        inj.remembered(base, s, names),
    ensures
        inj.remembered(base, s.reading(), names),
{
    let t = s.reading();
    assert(lookups_hold(t, names)) by {
        lemma_lookups_kept(s, t, names);
    }
    assert forall|i: int| 0 <= i < inj.injected.len() implies #[trigger] inj.remembered_at(
        base,
        t,
        i,
    ) by {
        assert(inj.remembered_at(base, s, i));
    }
}

/// One step of walking an injected history succeeds and keeps everything.
proof fn lemma_step(
    inj: Injection,
    base: StoreView,
    s: State,
    r: Rules,
    stack: Seq<Step>,
    head: Seq<u8>,
)
    requires
        inj.holds(base, r.names),
        inj.remembered(base, s, r.names),
        keeps_hashes(r),
        object_id(base.wide, Kind::Tree, seq![]) is Some,
        stack.len() > 0,
        inj.stack_holds(base, s, stack),
        covered(s, stack, 0, head),
    ensures
        ({
            let out = s.step(r, false, stack.drop_last(), stack.last());
            &&& out.1 is Ok
            &&& inj.remembered(base, out.0, r.names)
            &&& inj.stack_holds(base, out.0, out.1->Ok_0)
            &&& covered(out.0, out.1->Ok_0, 0, head)
        }),
{
    let top = stack.last();
    let id = step_id(top);
    assert(inj.step_holds(base, s, stack, stack.len() - 1));
    if s.cache.commits.dom().contains(id) {
        lemma_stack_done(inj, base, s, s, stack);
        lemma_covered_done(s, s, stack, 0, head);
    } else {
        let i = choose|i: int| 0 <= i < inj.injected.len() && #[trigger] inj.injected[i] == id;
        assert(inj.injected_holds(base, r.names, i));
        let t = s.reading();
        lemma_reading(inj, base, s, r.names);
        lemma_commit_kept(base, t.store, id);
        let ps = commit_at(base, id).parents;
        let pending = t.pending(ps, ps.len() as int);
        lemma_pending(t, ps, ps.len() as int);
        if top is Settle || pending.len() == 0 {
            assert forall|j: int| 0 <= j < ps.len() implies t.cache.commits.dom().contains(
                #[trigger] ps[j],
            ) by {
                if top is Settle {
                    assert(covered(s, stack, stack.len() as int, ps[j]));
                }
            }
            lemma_map_commit(inj, base, t, r, i);
            let u = t.map_commit(r, id, raw_of(base, id)).0;
            lemma_stack_done(inj, base, s, u, stack);
            lemma_covered_done(s, u, stack, 0, head);
        } else {
            assert forall|j: int| 0 <= j < ps.len() implies inj.lists(#[trigger] ps[j]) by {
                let k = lemma_parent_place(inj, base, r.names, i, j);
                assert(inj.injected[k] == ps[j]);
            }
            lemma_stack_expanded(inj, base, s, t, stack, i);
            let next = stack.drop_last().push(Step::Settle(id)) + pending;
            lemma_covered_expanded(s, t, stack, next, 0, head);
        }
    }
}

proof fn lemma_walk(
    inj: Injection,
    base: StoreView,
    s: State,
    r: Rules,
    stack: Seq<Step>,
    head: Seq<u8>,
    fuel: nat,
)
    requires
        inj.holds(base, r.names),
        inj.remembered(base, s, r.names),
        keeps_hashes(r),
        object_id(base.wide, Kind::Tree, seq![]) is Some,
        inj.stack_holds(base, s, stack),
        covered(s, stack, 0, head),
    ensures
        ({
            let out = s.walk(r, false, stack, fuel);
            &&& out.1 is Ok || out.1 == Err::<(), ErrorView>(ErrorView::TooLong)
            &&& inj.remembered(base, out.0, r.names)
            &&& out.1 is Ok ==> out.0.cache.commits.dom().contains(head)
        }),
    decreases fuel,
{
    if stack.len() > 0 && fuel > 0 {
        lemma_step(inj, base, s, r, stack, head);
        let (t, next) = s.step(r, false, stack.drop_last(), stack.last());
        lemma_walk(inj, base, t, r, next->Ok_0, head, (fuel - 1) as nat);
    }
}

/// Round trip hash identity. Where a history was injected under a path, by
/// moving every tree there and copying every other byte, deriving the path
/// gives every commit the id it had.
///
/// This holds of every filter but one that also drops commits which were
/// empty before filtering, and of whatever was remembered of the history
/// before. The one error there is comes of a history that takes more steps
/// to walk than can be counted.
pub proof fn law_injected_history_comes_back(
    inj: Injection,
    store: StoreView,
    cache: CacheView,
    r: Rules,
    i: int,
)
    requires
        inj.holds(store, r.names),
        inj.remembered(store, State { store, cache }, r.names),
        keeps_hashes(r),
        object_id(store.wide, Kind::Tree, seq![]) is Some,
        0 <= i < inj.injected.len(),
    ensures
        ({
            let out = State { store, cache }.derived(r, false, inj.injected[i]).1;
            out == Ok::<Option<Seq<u8>>, ErrorView>(Some(inj.original[i])) || out == Err::<
                Option<Seq<u8>>,
                ErrorView,
            >(ErrorView::TooLong)
        }),
{
    let s = State { store, cache };
    let head = inj.injected[i];
    let stack = seq![Step::Enter(head)];
    assert(inj.stack_holds(store, s, stack)) by {
        assert(inj.lists(head));
    }
    assert(covered(s, stack, 0, head)) by {
        assert(step_id(stack[0]) == head);
    }
    lemma_walk(inj, store, s, r, stack, head, u64::MAX as nat);
    let t = s.walk(r, false, stack, u64::MAX as nat).0;
    assert(inj.remembered_at(store, t, i));
}

/// A memory that has nothing on a history agrees with it.
pub proof fn law_fresh_memory_agrees(inj: Injection, store: StoreView, names: Seq<Seq<u8>>)
    ensures
        inj.remembered(
            store,
            State { store, cache: crate::history::derive::empty_cache() },
            names,
        ),
{
    let s = State { store, cache: crate::history::derive::empty_cache() };
    assert forall|i: int| 0 <= i < inj.injected.len() implies #[trigger] inj.remembered_at(
        store,
        s,
        i,
    ) by {}
}

} // verus!
