//! What looking only at the histories that matter keeps: the tip.
use crate::history::commits::{commit_of, object_id, replaced, CommitView};
use crate::history::derive::{counted, drops, empty_cache, CacheView, Rules, State};
use crate::history::error::{ErrorView, Kind};
use crate::history::laws::{
    commit_at, covered, grown, lemma_commit_kept, lemma_covered_done, lemma_covered_expanded,
    lemma_descend, lemma_lookups_kept, lemma_pending, lemma_subtree_kept, lookups_hold, raw_of,
};
use crate::history::store::{empty_tree, StoreView};
use crate::history::walk::{first_decides, step_id, Gathered, Step};
use vstd::prelude::*;

verus! {

/// Which view commit each source commit maps to.
pub type Mapping = Map<Seq<u8>, Option<Seq<u8>>>;

/// Whether a commit and the path in it can be read.
pub open spec fn readable(base: StoreView, names: Seq<Seq<u8>>, id: Seq<u8>) -> bool {
    base.commit(id) is Ok && base.subtree(commit_at(base, id).tree, names, 0) is Ok
}

/// The tree at the path, if a commit has one.
pub open spec fn path_tree(base: StoreView, names: Seq<Seq<u8>>, id: Seq<u8>) -> Option<Seq<u8>> {
    base.subtree(commit_at(base, id).tree, names, 0)->Ok_0
}

/// A commit's tree after filtering.
pub open spec fn filtered(base: StoreView, names: Seq<Seq<u8>>, id: Seq<u8>) -> Seq<u8> {
    match path_tree(base, names, id) {
        Some(t) => t,
        None => empty_tree(base.wide),
    }
}

pub open spec fn parents_of(base: StoreView, id: Seq<u8>) -> Seq<Seq<u8>> {
    commit_at(base, id).parents
}

pub open spec fn mapped_by(f: Mapping, id: Seq<u8>) -> Option<Seq<u8>> {
    if f.dom().contains(id) {
        f[id]
    } else {
        None
    }
}

/// A memory of nothing but a mapping.
pub open spec fn memory_of(f: Mapping) -> CacheView {
    CacheView { commits: f, ..empty_cache() }
}

/// The view parents of a commit.
pub open spec fn view_parents(base: StoreView, f: Mapping, id: Seq<u8>) -> Seq<Seq<u8>> {
    memory_of(f).derived_parents(parents_of(base, id), parents_of(base, id).len() as int)
}

/// Whether a commit changes the path relative to a parent that is in the view.
pub open spec fn touches(base: StoreView, names: Seq<Seq<u8>>, f: Mapping, id: Seq<u8>) -> bool {
    exists|j: int|
        0 <= j < parents_of(base, id).len() && mapped_by(
            f,
            #[trigger] parents_of(base, id)[j],
        ) is Some && filtered(base, names, parents_of(base, id)[j]) != filtered(base, names, id)
}

/// Whether a commit was empty before filtering.
pub open spec fn was_empty(base: StoreView, id: Seq<u8>) -> bool {
    forall|j: int|
        0 <= j < parents_of(base, id).len() ==> commit_at(
            base,
            #[trigger] parents_of(base, id)[j],
        ).tree == commit_at(base, id).tree
}

/// The first parent from `i` on that is in the view.
pub open spec fn first_live(f: Mapping, ps: Seq<Seq<u8>>, i: int) -> int
    decreases ps.len() - i,
{
    if i >= ps.len() || mapped_by(f, ps[i]) is Some {
        i
    } else {
        first_live(f, ps, i + 1)
    }
}

/// Whether a merge says nothing about the path, and did say something before.
pub open spec fn collapses(base: StoreView, r: Rules, f: Mapping, id: Seq<u8>) -> bool {
    let ps = parents_of(base, id);
    &&& !r.keep_trivial_merges
    &&& view_parents(base, f, id).len() >= 2
    &&& filtered(base, r.names, ps[first_live(f, ps, 0)]) == filtered(base, r.names, id)
    &&& !(ps.len() > 0 && commit_at(base, ps[0]).tree == commit_at(base, id).tree)
}

/// Whether a commit is dropped, and its first view parent stands for it.
pub open spec fn is_dropped(base: StoreView, r: Rules, f: Mapping, id: Seq<u8>) -> bool {
    collapses(base, r, f, id) || (drops(
        r.elide,
        !touches(base, r.names, f, id),
        was_empty(base, id),
    ) && view_parents(base, f, id).len() > 0)
}

/// Whether a commit has no counterpart.
pub open spec fn is_gone(base: StoreView, r: Rules, f: Mapping, id: Seq<u8>) -> bool {
    !is_dropped(base, r, f, id) && path_tree(base, r.names, id) is None && view_parents(
        base,
        f,
        id,
    ).len() == 0
}

/// The id of the view commit that a commit is, or would have been.
pub open spec fn view_id(base: StoreView, r: Rules, f: Mapping, id: Seq<u8>) -> Option<Seq<u8>> {
    object_id(
        base.wide,
        Kind::Commit,
        replaced(
            raw_of(base, id),
            base.wide,
            filtered(base, r.names, id),
            view_parents(base, f, id),
        )->Ok_0,
    )
}

/// What a commit maps to, by what its parents map to.
pub open spec fn outcome(base: StoreView, r: Rules, f: Mapping, id: Seq<u8>) -> Option<Seq<u8>> {
    if is_dropped(base, r, f, id) {
        Some(view_parents(base, f, id)[0])
    } else if is_gone(base, r, f, id) {
        None
    } else {
        view_id(base, r, f, id)
    }
}

/// Whether a mapping follows the rules at a commit.
pub open spec fn follows(base: StoreView, r: Rules, f: Mapping, id: Seq<u8>) -> bool {
    &&& forall|j: int|
        0 <= j < parents_of(base, id).len() ==> f.dom().contains(
            #[trigger] parents_of(base, id)[j],
        )
    &&& is_gone(base, r, f, id) || view_id(base, r, f, id) is Some
    &&& f[id] == outcome(base, r, f, id)
}

/// Whether a mapping follows the rules everywhere but at anchors, which stand
/// for some view commit.
pub open spec fn lawful(base: StoreView, r: Rules, anchors: Set<Seq<u8>>, f: Mapping) -> bool {
    forall|id: Seq<u8>| #[trigger]
        f.dom().contains(id) ==> readable(base, r.names, id) && if anchors.contains(id) {
            f[id] is Some
        } else {
            follows(base, r, f, id)
        }
}

/// Whether commits that map to one view commit have one filtered tree: no two
/// view commits share an id.
pub open spec fn unclashing(base: StoreView, names: Seq<Seq<u8>>, f: Mapping) -> bool {
    forall|a: Seq<u8>, b: Seq<u8>| #[trigger]
        f.dom().contains(a) && #[trigger] f.dom().contains(b) && f[a] is Some && f[a] == f[b]
            ==> filtered(base, names, a) == filtered(base, names, b)
}

/// Whether a mapping says no more than another one.
pub open spec fn within(f: Mapping, g: Mapping) -> bool {
    forall|id: Seq<u8>| #[trigger]
        f.dom().contains(id) ==> g.dom().contains(id) && g[id] == f[id]
}

/// Whether a memory is true of the objects.
pub open spec fn truthful(base: StoreView, s: State, names: Seq<Seq<u8>>) -> bool {
    &&& grown(base, s.store)
    &&& lookups_hold(s, names)
    &&& forall|id: Seq<u8>| #[trigger]
        s.cache.commits.dom().contains(id) ==> readable(base, names, id)
            && s.cache.source_trees.dom().contains(id) && (s.cache.commits[id] matches Some(v)
            ==> s.cache.view_trees.dom().contains(v) && s.cache.view_trees[v] == filtered(
            base,
            names,
            id,
        ))
    &&& forall|id: Seq<u8>| #[trigger]
        s.cache.source_trees.dom().contains(id) ==> base.commit(id) is Ok
            && s.cache.source_trees[id] == commit_at(base, id).tree
}

// -- the view parents --------------------------------------------------------

pub proof fn lemma_derived(c: CacheView, ps: Seq<Seq<u8>>, n: int)
    requires
        0 <= n <= ps.len(),
    ensures
        forall|v: Seq<u8>| #[trigger]
            c.derived_parents(ps, n).contains(v) <==> exists|j: int|
                0 <= j < n && c.mapped(#[trigger] ps[j]) == Some(v),
        c.derived_parents(ps, n) == memory_of(c.commits).derived_parents(ps, n),
    decreases n,
{
    if n > 0 {
        lemma_derived(c, ps, n - 1);
        let before = c.derived_parents(ps, n - 1);
        let all = c.derived_parents(ps, n);
        let m = memory_of(c.commits);
        assert(m.mapped(ps[n - 1]) == c.mapped(ps[n - 1]));
        assert(m.introduced(ps, n - 1) == c.introduced(ps, n - 1)) by {
            if c.introduced(ps, n - 1) {
                let j = choose|j: int|
                    0 <= j < n - 1 && #[trigger] ps[j] != ps[n - 1] && c.mapped(ps[j])
                        == c.mapped(ps[n - 1]);
                assert(m.mapped(ps[j]) == m.mapped(ps[n - 1]));
            }
            if m.introduced(ps, n - 1) {
                let j = choose|j: int|
                    0 <= j < n - 1 && #[trigger] ps[j] != ps[n - 1] && m.mapped(ps[j])
                        == m.mapped(ps[n - 1]);
                assert(c.mapped(ps[j]) == c.mapped(ps[n - 1]));
            }
        }
        assert forall|v: Seq<u8>| #[trigger] all.contains(v) <==> exists|j: int|
            0 <= j < n && c.mapped(#[trigger] ps[j]) == Some(v) by {
            if all.contains(v) {
                let k = choose|k: int| 0 <= k < all.len() && all[k] == v;
                if k < before.len() {
                    assert(before[k] == v);
                    assert(before.contains(v));
                    let j = choose|j: int| 0 <= j < n - 1 && c.mapped(#[trigger] ps[j]) == Some(v);
                    assert(c.mapped(ps[j]) == Some(v));
                } else {
                    assert(c.mapped(ps[n - 1]) == Some(v));
                }
            }
            if exists|j: int| 0 <= j < n && c.mapped(#[trigger] ps[j]) == Some(v) {
                let j = choose|j: int| 0 <= j < n && c.mapped(#[trigger] ps[j]) == Some(v);
                if j < n - 1 {
                    assert(before.contains(v));
                } else if c.introduced(ps, n - 1) {
                    let q = choose|q: int|
                        0 <= q < n - 1 && #[trigger] ps[q] != ps[n - 1] && c.mapped(ps[q])
                            == c.mapped(ps[n - 1]);
                    assert(c.mapped(ps[q]) == Some(v));
                    assert(before.contains(v));
                } else {
                    assert(all[before.len() as int] == v);
                }
                if before.contains(v) {
                    let k = choose|k: int| 0 <= k < before.len() && before[k] == v;
                    assert(all[k] == v);
                }
            }
        }
    }
}

/// The first view parent is that of the first parent in the view.
pub proof fn lemma_first(c: CacheView, ps: Seq<Seq<u8>>, n: int)
    requires
        0 <= n <= ps.len(),
    ensures
        0 <= first_live(c.commits, ps, 0) <= ps.len(),
        first_live(c.commits, ps, 0) < n ==> c.derived_parents(ps, n).len() > 0 && Some(
            c.derived_parents(ps, n)[0],
        ) == c.mapped(ps[first_live(c.commits, ps, 0)]),
        first_live(c.commits, ps, 0) >= n ==> c.derived_parents(ps, n).len() == 0,
    decreases n,
{
    lemma_live(c.commits, ps, 0);
    let k = first_live(c.commits, ps, 0);
    if n > 0 {
        lemma_first(c, ps, n - 1);
        assert(c.mapped(ps[n - 1]) == mapped_by(c.commits, ps[n - 1]));
        if k == n - 1 {
            if c.introduced(ps, n - 1) {
                let j = choose|j: int|
                    0 <= j < n - 1 && #[trigger] ps[j] != ps[n - 1] && c.mapped(ps[j])
                        == c.mapped(ps[n - 1]);
                assert(mapped_by(c.commits, ps[j]) is None);
                assert(false);
            }
        }
    }
}

pub proof fn lemma_live(f: Mapping, ps: Seq<Seq<u8>>, i: int)
    requires
        0 <= i <= ps.len(),
    ensures
        i <= first_live(f, ps, i) <= ps.len(),
        forall|j: int| i <= j < first_live(f, ps, i) ==> mapped_by(f, #[trigger] ps[j]) is None,
        first_live(f, ps, i) < ps.len() ==> mapped_by(f, ps[first_live(f, ps, i)]) is Some,
    decreases ps.len() - i,
{
    if !(i >= ps.len() || mapped_by(f, ps[i]) is Some) {
        lemma_live(f, ps, i + 1);
    }
}

/// What a commit maps to depends on what its parents map to alone.
proof fn lemma_same_outcome(base: StoreView, r: Rules, f: Mapping, g: Mapping, id: Seq<u8>)
    requires
        forall|j: int|
            0 <= j < parents_of(base, id).len() ==> mapped_by(
                f,
                #[trigger] parents_of(base, id)[j],
            ) == mapped_by(g, parents_of(base, id)[j]),
    ensures
        outcome(base, r, f, id) == outcome(base, r, g, id),
        view_id(base, r, f, id) == view_id(base, r, g, id),
        is_gone(base, r, f, id) == is_gone(base, r, g, id),
        is_dropped(base, r, f, id) == is_dropped(base, r, g, id),
        view_parents(base, f, id) == view_parents(base, g, id),
{
    let ps = parents_of(base, id);
    lemma_same_derived(f, g, ps, ps.len() as int);
    lemma_same_live(f, g, ps, 0);
    assert(touches(base, r.names, f, id) == touches(base, r.names, g, id)) by {
        if touches(base, r.names, f, id) {
            let j = choose|j: int|
                0 <= j < ps.len() && mapped_by(f, #[trigger] ps[j]) is Some && filtered(
                    base,
                    r.names,
                    ps[j],
                ) != filtered(base, r.names, id);
            assert(mapped_by(g, ps[j]) is Some);
        }
        if touches(base, r.names, g, id) {
            let j = choose|j: int|
                0 <= j < ps.len() && mapped_by(g, #[trigger] ps[j]) is Some && filtered(
                    base,
                    r.names,
                    ps[j],
                ) != filtered(base, r.names, id);
            assert(mapped_by(f, ps[j]) is Some);
        }
    }
}

proof fn lemma_same_live(f: Mapping, g: Mapping, ps: Seq<Seq<u8>>, i: int)
    requires
        0 <= i,
        forall|j: int|
            0 <= j < ps.len() ==> mapped_by(f, #[trigger] ps[j]) == mapped_by(g, ps[j]),
    ensures
        first_live(f, ps, i) == first_live(g, ps, i),
    decreases ps.len() - i,
{
    if i < ps.len() {
        assert(mapped_by(f, ps[i]) == mapped_by(g, ps[i]));
        lemma_same_live(f, g, ps, i + 1);
    }
}

proof fn lemma_same_derived(f: Mapping, g: Mapping, ps: Seq<Seq<u8>>, n: int)
    requires
        0 <= n <= ps.len(),
        forall|j: int|
            0 <= j < ps.len() ==> mapped_by(f, #[trigger] ps[j]) == mapped_by(g, ps[j]),
    ensures
        memory_of(f).derived_parents(ps, n) == memory_of(g).derived_parents(ps, n),
    decreases n,
{
    if n > 0 {
        lemma_same_derived(f, g, ps, n - 1);
        let a = memory_of(f);
        let b = memory_of(g);
        assert(a.mapped(ps[n - 1]) == mapped_by(f, ps[n - 1]));
        assert(b.mapped(ps[n - 1]) == mapped_by(g, ps[n - 1]));
        assert(a.introduced(ps, n - 1) == b.introduced(ps, n - 1)) by {
            if a.introduced(ps, n - 1) {
                let j = choose|j: int|
                    0 <= j < n - 1 && #[trigger] ps[j] != ps[n - 1] && a.mapped(ps[j]) == a.mapped(
                        ps[n - 1],
                    );
                assert(b.mapped(ps[j]) == b.mapped(ps[n - 1]));
            }
            if b.introduced(ps, n - 1) {
                let j = choose|j: int|
                    0 <= j < n - 1 && #[trigger] ps[j] != ps[n - 1] && b.mapped(ps[j]) == b.mapped(
                        ps[n - 1],
                    );
                assert(a.mapped(ps[j]) == a.mapped(ps[n - 1]));
            }
        }
    }
}

// -- one commit --------------------------------------------------------------

/// The tree of a view commit that something maps to.
proof fn lemma_known_tree(base: StoreView, s: State, names: Seq<Seq<u8>>, p: Seq<u8>, v: Seq<u8>)
    requires
        truthful(base, s, names),
        s.cache.mapped(p) == Some(v),
    ensures
        s.view_tree(v) == (s, Ok::<Seq<u8>, ErrorView>(filtered(base, names, p))),
{
    assert(s.cache.commits.dom().contains(p));
}

/// Whether the view parents from `k` on have another tree is decided by the
/// parents.
proof fn lemma_affects_all(
    base: StoreView,
    s: State,
    names: Seq<Seq<u8>>,
    id: Seq<u8>,
    vs: Seq<Seq<u8>>,
    k: int,
)
    requires
        truthful(base, s, names),
        0 <= k <= vs.len(),
        forall|m: int|
            0 <= m < vs.len() ==> exists|j: int|
                0 <= j < parents_of(base, id).len() && s.cache.mapped(
                    #[trigger] parents_of(base, id)[j],
                ) == Some(#[trigger] vs[m]),
    ensures
        s.affects(vs, k, filtered(base, names, id)).0 == s,
        s.affects(vs, k, filtered(base, names, id)).1 == Ok::<bool, ErrorView>(
            exists|m: int|
                k <= m < vs.len() && s.cache.view_trees[#[trigger] vs[m]] != filtered(
                    base,
                    names,
                    id,
                ),
        ),
    decreases vs.len() - k,
{
    let tree = filtered(base, names, id);
    if k < vs.len() {
        let v = vs[k];
        let j = choose|j: int|
            0 <= j < parents_of(base, id).len() && s.cache.mapped(
                #[trigger] parents_of(base, id)[j],
            ) == Some(v);
        lemma_known_tree(base, s, names, parents_of(base, id)[j], v);
        lemma_affects_all(base, s, names, id, vs, k + 1);
        if s.cache.view_trees[v] != tree {
            assert(s.cache.view_trees[vs[k]] != tree);
        } else {
            assert((exists|m: int|
                k <= m < vs.len() && s.cache.view_trees[#[trigger] vs[m]] != tree) == (exists|
                m: int,
            |
                k + 1 <= m < vs.len() && s.cache.view_trees[#[trigger] vs[m]] != tree)) by {
                if exists|m: int|
                    k <= m < vs.len() && s.cache.view_trees[#[trigger] vs[m]] != tree {
                    let m = choose|m: int|
                        k <= m < vs.len() && s.cache.view_trees[#[trigger] vs[m]] != tree;
                    assert(s.cache.view_trees[vs[m]] != tree);
                }
                if exists|m: int|
                    k + 1 <= m < vs.len() && s.cache.view_trees[#[trigger] vs[m]] != tree {
                    let m = choose|m: int|
                        k + 1 <= m < vs.len() && s.cache.view_trees[#[trigger] vs[m]] != tree;
                    assert(s.cache.view_trees[vs[m]] != tree);
                }
            }
        }
    }
}

proof fn lemma_affects(base: StoreView, s: State, names: Seq<Seq<u8>>, id: Seq<u8>)
    requires
        truthful(base, s, names),
    ensures
        ({
            let vs = view_parents(base, s.cache.commits, id);
            let out = s.affects(vs, 0, filtered(base, names, id));
            &&& out.0 == s
            &&& out.1 == Ok::<bool, ErrorView>(touches(base, names, s.cache.commits, id))
            &&& vs == s.cache.derived_parents(
                parents_of(base, id),
                parents_of(base, id).len() as int,
            )
        }),
{
    let ps = parents_of(base, id);
    let f = s.cache.commits;
    let vs = view_parents(base, f, id);
    let tree = filtered(base, names, id);
    lemma_derived(s.cache, ps, ps.len() as int);
    assert forall|m: int| 0 <= m < vs.len() implies exists|j: int|
        0 <= j < ps.len() && s.cache.mapped(#[trigger] ps[j]) == Some(#[trigger] vs[m]) by {
        assert(vs.contains(vs[m]));
    }
    lemma_affects_all(base, s, names, id, vs, 0);
    if exists|m: int| 0 <= m < vs.len() && s.cache.view_trees[#[trigger] vs[m]] != tree {
        let m = choose|m: int| 0 <= m < vs.len() && s.cache.view_trees[#[trigger] vs[m]] != tree;
        assert(vs.contains(vs[m]));
        let j = choose|j: int| 0 <= j < ps.len() && s.cache.mapped(#[trigger] ps[j]) == Some(vs[m]);
        lemma_known_tree(base, s, names, ps[j], vs[m]);
        assert(mapped_by(f, ps[j]) is Some);
        assert(touches(base, names, f, id));
    }
    if touches(base, names, f, id) {
        let j = choose|j: int|
            0 <= j < ps.len() && mapped_by(f, #[trigger] ps[j]) is Some && filtered(
                base,
                names,
                ps[j],
            ) != tree;
        let v = mapped_by(f, ps[j])->0;
        assert(s.cache.mapped(ps[j]) == Some(v));
        lemma_known_tree(base, s, names, ps[j], v);
        assert(vs.contains(v));
        let m = choose|m: int| 0 <= m < vs.len() && vs[m] == v;
        assert(s.cache.view_trees[vs[m]] != tree);
    }
}

/// What deciding about a commit does: it maps it to the outcome, or its id
/// cannot be computed.
proof fn lemma_decide(base: StoreView, s: State, r: Rules, id: Seq<u8>)
    requires
        truthful(base, s, r.names),
        readable(base, r.names, id),
        object_id(base.wide, Kind::Tree, seq![]) is Some,
        !s.cache.commits.dom().contains(id),
        s.cache.source_trees.dom().contains(id),
        forall|j: int|
            0 <= j < parents_of(base, id).len() ==> s.cache.commits.dom().contains(
                #[trigger] parents_of(base, id)[j],
            ),
        is_gone(base, r, s.cache.commits, id) || view_id(base, r, s.cache.commits, id) is Some,
    ensures
        ({
            let c = commit_at(base, id);
            let f = s.cache.commits;
            let out = s.decide(r, id, raw_of(base, id), c, path_tree(base, r.names, id));
            &&& out.1 == Ok::<(), ErrorView>(())
            &&& out.0.cache.commits == f.insert(id, outcome(base, r, f, id))
            &&& grown(base, out.0.store)
            &&& lookups_hold(out.0, r.names)
            &&& out.0.cache.source_trees == s.cache.source_trees
            &&& !is_dropped(base, r, f, id) && !is_gone(base, r, f, id)
                ==> out.0.cache.view_trees == s.cache.view_trees.insert(
                view_id(base, r, f, id)->0,
                filtered(base, r.names, id),
            )
            &&& is_dropped(base, r, f, id) || is_gone(base, r, f, id) ==> out.0.cache.view_trees
                == s.cache.view_trees
            &&& is_dropped(base, r, f, id) || is_gone(base, r, f, id) ==> out.0.store == s.store
            &&& !is_dropped(base, r, f, id) && !is_gone(base, r, f, id)
                ==> out.0.store.objects.dom().contains(view_id(base, r, f, id)->0)
        }),
{
    let c = commit_at(base, id);
    let f = s.cache.commits;
    let ps = c.parents;
    let raw = raw_of(base, id);
    let tree = filtered(base, r.names, id);
    let vs = view_parents(base, f, id);
    lemma_commit_kept(base, s.store, id);
    lemma_affects(base, s, r.names, id);
    lemma_first(s.cache, ps, ps.len() as int);
    assert(s.cache.already_empty(ps, c.tree) == was_empty(base, id)) by {
        assert forall|j: int| 0 <= j < ps.len() implies s.cache.source_trees.dom().contains(
            #[trigger] ps[j],
        ) && s.cache.source_trees[ps[j]] == commit_at(base, ps[j]).tree by {
            assert(s.cache.commits.dom().contains(ps[j]));
        }
    }
    let (t, target) = s.trivial_merge_target(r, c, tree, vs);
    assert(t == s && target == Ok::<Option<Seq<u8>>, ErrorView>(
        if collapses(base, r, f, id) {
            Some(vs[0])
        } else {
            None
        },
    )) by {
        if !(r.keep_trivial_merges || vs.len() < 2) {
            let k = first_live(f, ps, 0);
            lemma_live(f, ps, 0);
            lemma_known_tree(base, s, r.names, ps[k], vs[0]);
            assert(s.cache.commits.dom().contains(ps[0]));
            assert(s.cache.was_trivial(c) == (commit_at(base, ps[0]).tree == c.tree));
        }
    }
    if is_dropped(base, r, f, id) {
    } else if is_gone(base, r, f, id) {
    } else {
        let (g, _) = s.grounded(tree);
        assert(grown(s.store, g.store));
        lemma_lookups_kept(s, g, r.names);
        let out = s.kept(id, raw, tree, vs);
        assert(grown(g.store, out.0.store));
        lemma_lookups_kept(g, out.0, r.names);
    }
}

/// A memory stays true when a commit was mapped to its outcome.
proof fn lemma_map_commit(base: StoreView, s: State, r: Rules, id: Seq<u8>)
    requires
        truthful(base, s, r.names),
        readable(base, r.names, id),
        object_id(base.wide, Kind::Tree, seq![]) is Some,
        !s.cache.commits.dom().contains(id),
        forall|j: int|
            0 <= j < parents_of(base, id).len() ==> s.cache.commits.dom().contains(
                #[trigger] parents_of(base, id)[j],
            ),
        is_gone(base, r, s.cache.commits, id) || view_id(base, r, s.cache.commits, id) is Some,
        unclashing(
            base,
            r.names,
            s.cache.commits.insert(id, outcome(base, r, s.cache.commits, id)),
        ),
    ensures
        ({
            let out = s.map_commit(r, id, raw_of(base, id));
            &&& out.1 == Ok::<(), ErrorView>(())
            &&& out.0.cache.commits == s.cache.commits.insert(
                id,
                outcome(base, r, s.cache.commits, id),
            )
            &&& truthful(base, out.0, r.names)
        }),
{
    let c = commit_at(base, id);
    let f = s.cache.commits;
    let tree = filtered(base, r.names, id);
    lemma_commit_kept(base, s.store, id);
    lemma_subtree_kept(base, s.store, c.tree, r.names, 0);
    lemma_descend(s, r, c.tree, 0);
    let d = s.descend(r, c.tree, 0).0;
    let k = d.knowing_source(id, c.tree);
    assert(truthful(base, k, r.names)) by {
        lemma_lookups_kept(d, k, r.names);
    }
    lemma_decide(base, k, r, id);
    let out = s.map_commit(r, id, raw_of(base, id)).0;
    let g = out.cache.commits;
    assert forall|x: Seq<u8>| #[trigger] g.dom().contains(x) implies readable(base, r.names, x)
        && out.cache.source_trees.dom().contains(x) && (g[x] matches Some(v)
        ==> out.cache.view_trees.dom().contains(v) && out.cache.view_trees[v] == filtered(
        base,
        r.names,
        x,
    )) by {
        assert(g.dom().contains(id));
        if x != id {
            assert(f.dom().contains(x));
        } else if is_dropped(base, r, f, id) {
            lemma_dropped_tree(base, k, r, id);
        }
    }
}

/// The commit that stands for a dropped one has its tree.
proof fn lemma_dropped_tree(base: StoreView, s: State, r: Rules, id: Seq<u8>)
    requires
        truthful(base, s, r.names),
        is_dropped(base, r, s.cache.commits, id),
    ensures
        ({
            let v = view_parents(base, s.cache.commits, id)[0];
            s.cache.view_trees.dom().contains(v) && s.cache.view_trees[v] == filtered(
                base,
                r.names,
                id,
            )
        }),
{
    let f = s.cache.commits;
    let ps = parents_of(base, id);
    lemma_derived(s.cache, ps, ps.len() as int);
    lemma_first(s.cache, ps, ps.len() as int);
    lemma_live(f, ps, 0);
    let k = first_live(f, ps, 0);
    lemma_known_tree(base, s, r.names, ps[k], view_parents(base, f, id)[0]);
    assert(s.cache.commits.dom().contains(ps[k]));
    if !collapses(base, r, f, id) {
        assert(mapped_by(f, ps[k]) is Some);
    }
}

/// Where an id cannot be computed, mapping fails.
pub proof fn lemma_map_fails(base: StoreView, s: State, r: Rules, id: Seq<u8>)
    requires
        truthful(base, s, r.names),
        readable(base, r.names, id),
        object_id(base.wide, Kind::Tree, seq![]) is Some,
        forall|j: int|
            0 <= j < parents_of(base, id).len() ==> s.cache.commits.dom().contains(
                #[trigger] parents_of(base, id)[j],
            ),
        s.map_commit(r, id, raw_of(base, id)).1 is Ok,
    ensures
        is_gone(base, r, s.cache.commits, id) || view_id(base, r, s.cache.commits, id) is Some,
{
    let c = commit_at(base, id);
    let ps = c.parents;
    let f = s.cache.commits;
    let tree = filtered(base, r.names, id);
    let vs = view_parents(base, f, id);
    lemma_commit_kept(base, s.store, id);
    lemma_subtree_kept(base, s.store, c.tree, r.names, 0);
    lemma_descend(s, r, c.tree, 0);
    let d = s.descend(r, c.tree, 0).0;
    let k = d.knowing_source(id, c.tree);
    assert(truthful(base, k, r.names)) by {
        lemma_lookups_kept(d, k, r.names);
    }
    lemma_affects(base, k, r.names, id);
    lemma_first(k.cache, ps, ps.len() as int);
    assert(k.cache.already_empty(ps, c.tree) == was_empty(base, id)) by {
        assert forall|j: int| 0 <= j < ps.len() implies k.cache.source_trees.dom().contains(
            #[trigger] ps[j],
        ) && k.cache.source_trees[ps[j]] == commit_at(base, ps[j]).tree by {
            assert(k.cache.commits.dom().contains(ps[j]));
        }
    }
    let (t, target) = k.trivial_merge_target(r, c, tree, vs);
    assert(t == k && target == Ok::<Option<Seq<u8>>, ErrorView>(
        if collapses(base, r, f, id) {
            Some(vs[0])
        } else {
            None
        },
    )) by {
        if !(r.keep_trivial_merges || vs.len() < 2) {
            let q = first_live(f, ps, 0);
            lemma_live(f, ps, 0);
            lemma_known_tree(base, k, r.names, ps[q], vs[0]);
            assert(k.cache.commits.dom().contains(ps[0]));
            assert(k.cache.was_trivial(c) == (commit_at(base, ps[0]).tree == c.tree));
        }
    }
}

// -- mappings only grow ------------------------------------------------------

proof fn lemma_descend_commits(s: State, r: Rules, tree: Seq<u8>, depth: int)
    ensures
        s.descend(r, tree, depth).0.cache.commits == s.cache.commits,
    decreases r.names.len() - depth,
{
    if depth < r.names.len() && !s.cache.trees.dom().contains((tree, depth)) {
        let t = s.with_cache(CacheView { tree_reads: counted(s.cache.tree_reads), ..s.cache });
        match t.store.child(tree, r.names[depth]) {
            Ok(Some(next)) => lemma_descend_commits(t, r, next, depth + 1),
            _ => {},
        }
    }
}

proof fn lemma_affects_commits(s: State, vs: Seq<Seq<u8>>, k: int, tree: Seq<u8>)
    ensures
        s.affects(vs, k, tree).0.cache.commits == s.cache.commits,
    decreases vs.len() - k,
{
    if k < vs.len() {
        let (t, out) = s.view_tree(vs[k]);
        if out is Ok && out->Ok_0 == tree {
            lemma_affects_commits(t, vs, k + 1, tree);
        }
    }
}

/// Whether at most one commit was mapped.
spec fn maps_one(f: Mapping, g: Mapping, id: Seq<u8>) -> bool {
    g == f || exists|v: Option<Seq<u8>>| g == #[trigger] f.insert(id, v)
}

proof fn lemma_dropped_commits(
    s: State,
    id: Seq<u8>,
    raw: Seq<u8>,
    tree: Seq<u8>,
    parents: Seq<Seq<u8>>,
    target: Seq<u8>,
)
    ensures
        maps_one(
            s.cache.commits,
            s.dropped(id, raw, tree, parents, target).0.cache.commits,
            id,
        ),
{
}

proof fn lemma_kept_commits(
    s: State,
    id: Seq<u8>,
    raw: Seq<u8>,
    tree: Seq<u8>,
    parents: Seq<Seq<u8>>,
)
    ensures
        maps_one(s.cache.commits, s.kept(id, raw, tree, parents).0.cache.commits, id),
{
    let (b, v) = s.build(id, raw, tree, parents);
    assert(b.cache.commits == s.cache.commits);
}

proof fn lemma_decide_commits(
    s: State,
    r: Rules,
    id: Seq<u8>,
    raw: Seq<u8>,
    c: CommitView,
    subtree: Option<Seq<u8>>,
)
    ensures
        maps_one(s.cache.commits, s.decide(r, id, raw, c, subtree).0.cache.commits, id),
{
    let tree = match subtree {
        Some(t) => t,
        None => empty_tree(s.store.wide),
    };
    let parents = s.cache.derived_parents(c.parents, c.parents.len() as int);
    lemma_affects_commits(s, parents, 0, tree);
    let (a, affects) = s.affects(parents, 0, tree);
    let (t, target) = a.trivial_merge_target(r, c, tree, parents);
    assert(t.cache.commits == a.cache.commits);
    if target is Ok && target->Ok_0 is Some {
        lemma_dropped_commits(t, id, raw, tree, parents, target->Ok_0->0);
    }
    lemma_dropped_commits(t, id, raw, tree, parents, parents[0]);
    lemma_kept_commits(t, id, raw, tree, parents);
    assert(maps_one(t.cache.commits, t.settled(id, None).cache.commits, id));
}

proof fn lemma_map_commits(s: State, r: Rules, id: Seq<u8>, raw: Seq<u8>)
    requires
        !s.cache.commits.dom().contains(id),
    ensures
        within(s.cache.commits, s.map_commit(r, id, raw).0.cache.commits),
{
    match commit_of(raw, s.store.wide) {
        None => {},
        Some(c) => {
            lemma_descend_commits(s, r, c.tree, 0);
            let (d, subtree) = s.descend(r, c.tree, 0);
            if subtree is Ok {
                lemma_decide_commits(d.knowing_source(id, c.tree), r, id, raw, c, subtree->Ok_0);
            }
        },
    }
}

proof fn lemma_gather_commits(s: State, r: Rules, sources: Seq<Seq<u8>>, i: int, g: Gathered)
    ensures
        s.gather(r, sources, i, g).0.cache.commits == s.cache.commits,
    decreases sources.len() - i,
{
    if i < sources.len() {
        let t = s.reading();
        match t.store.commit(sources[i]) {
            Ok(c) => {
                lemma_descend_commits(t, r, c.tree, 0);
                let (d, f) = t.descend(r, c.tree, 0);
                if f is Ok {
                    lemma_gather_commits(
                        d.knowing_source(sources[i], c.tree),
                        r,
                        sources,
                        i + 1,
                        Gathered {
                            trees: g.trees.push(c.tree),
                            filtered: g.filtered.push(f->Ok_0),
                        },
                    );
                }
            },
            Err(_) => {},
        }
    }
}

pub proof fn lemma_step_commits(s: State, r: Rules, prune: bool, rest: Seq<Step>, top: Step)
    ensures
        within(s.cache.commits, s.step(r, prune, rest, top).0.cache.commits),
{
    let id = step_id(top);
    if !s.cache.commits.dom().contains(id) {
        let t = s.reading();
        match t.store.read_commit(id) {
            Err(_) => {},
            Ok(raw) => {
                lemma_map_commits(t, r, id, raw);
                match commit_of(raw, t.store.wide) {
                    None => {},
                    Some(c) => {
                        lemma_descend_commits(t, r, c.tree, 0);
                        let d = t.descend(r, c.tree, 0).0;
                        lemma_gather_commits(
                            d,
                            r,
                            c.parents,
                            0,
                            Gathered { trees: seq![], filtered: seq![] },
                        );
                        let u = t.prunable_first_parent(r, c).0;
                        assert(u.cache.commits == t.cache.commits);
                        lemma_map_commits(u, r, id, raw);
                    },
                }
            },
        }
    }
}

pub proof fn lemma_walk_commits(s: State, r: Rules, prune: bool, stack: Seq<Step>, fuel: nat)
    ensures
        within(s.cache.commits, s.walk(r, prune, stack, fuel).0.cache.commits),
    decreases fuel,
{
    if stack.len() > 0 && fuel > 0 {
        lemma_step_commits(s, r, prune, stack.drop_last(), stack.last());
        let (t, next) = s.step(r, prune, stack.drop_last(), stack.last());
        if next is Ok {
            lemma_walk_commits(t, r, prune, next->Ok_0, (fuel - 1) as nat);
        }
    }
}

// -- walking everything ------------------------------------------------------

/// Whether a set of commits holds the parents of all but the anchors in it.
pub open spec fn is_history(
    base: StoreView,
    names: Seq<Seq<u8>>,
    anchors: Set<Seq<u8>>,
    h: Set<Seq<u8>>,
) -> bool {
    forall|id: Seq<u8>| #[trigger]
        h.contains(id) ==> readable(base, names, id) && (anchors.contains(id) || forall|j: int|
            0 <= j < parents_of(base, id).len() ==> h.contains(
                #[trigger] parents_of(base, id)[j],
            ))
}

/// Whether one step of a stack is about a history, and comes behind the steps
/// that it needs.
pub open spec fn step_holds(
    base: StoreView,
    h: Set<Seq<u8>>,
    f: Mapping,
    s: State,
    stack: Seq<Step>,
    j: int,
) -> bool {
    &&& h.contains(step_id(stack[j]))
    &&& match stack[j] {
        Step::Enter(_) => true,
        Step::Settle(id) => forall|m: int|
            0 <= m < parents_of(base, id).len() ==> covered(
                s,
                stack,
                j + 1,
                #[trigger] parents_of(base, id)[m],
            ),
        Step::Follow(id, first) => h.contains(first) && mapped_by(f, id) == mapped_by(f, first)
            && covered(s, stack, j + 1, first),
    }
}

pub open spec fn stack_holds(
    base: StoreView,
    h: Set<Seq<u8>>,
    f: Mapping,
    s: State,
    stack: Seq<Step>,
) -> bool {
    forall|j: int| 0 <= j < stack.len() ==> #[trigger] step_holds(base, h, f, s, stack, j)
}

proof fn lemma_done(
    base: StoreView,
    h: Set<Seq<u8>>,
    f: Mapping,
    s: State,
    t: State,
    stack: Seq<Step>,
)
    requires
        stack.len() > 0,
        stack_holds(base, h, f, s, stack),
        within(s.cache.commits, t.cache.commits),
        t.cache.commits.dom().contains(step_id(stack.last())),
    ensures
        stack_holds(base, h, f, t, stack.drop_last()),
{
    let rest = stack.drop_last();
    assert forall|j: int| 0 <= j < rest.len() implies #[trigger] step_holds(
        base,
        h,
        f,
        t,
        rest,
        j,
    ) by {
        assert(step_holds(base, h, f, s, stack, j));
        assert(rest[j] == stack[j]);
        match stack[j] {
            Step::Enter(_) => {},
            Step::Settle(id) => {
                let ps = parents_of(base, id);
                assert forall|m: int| 0 <= m < ps.len() implies covered(
                    t,
                    rest,
                    j + 1,
                    #[trigger] ps[m],
                ) by {
                    lemma_covered_done(s, t, stack, j + 1, ps[m]);
                }
            },
            Step::Follow(id, first) => lemma_covered_done(s, t, stack, j + 1, first),
        }
    }
}

/// Everything below the top stays as it was when the top makes room.
proof fn lemma_below(
    base: StoreView,
    h: Set<Seq<u8>>,
    f: Mapping,
    s: State,
    t: State,
    stack: Seq<Step>,
    more: Seq<Step>,
    j: int,
)
    requires
        stack_holds(base, h, f, s, stack),
        0 <= j < stack.len() - 1,
        t.cache.commits == s.cache.commits,
        more.len() >= stack.len(),
        step_id(more[stack.len() - 1]) == step_id(stack.last()),
        forall|k: int| 0 <= k < stack.len() - 1 ==> #[trigger] more[k] == stack[k],
    ensures
        step_holds(base, h, f, t, more, j),
{
    assert(step_holds(base, h, f, s, stack, j));
    assert(more[j] == stack[j]);
    match stack[j] {
        Step::Enter(_) => {},
        Step::Settle(id) => {
            let ps = parents_of(base, id);
            assert forall|m: int| 0 <= m < ps.len() implies covered(
                t,
                more,
                j + 1,
                #[trigger] ps[m],
            ) by {
                lemma_covered_expanded(s, t, stack, more, j + 1, ps[m]);
            }
        },
        Step::Follow(id, first) => lemma_covered_expanded(s, t, stack, more, j + 1, first),
    }
}

proof fn lemma_expanded(
    base: StoreView,
    h: Set<Seq<u8>>,
    f: Mapping,
    s: State,
    t: State,
    stack: Seq<Step>,
)
    requires
        stack.len() > 0,
        stack_holds(base, h, f, s, stack),
        t.cache.commits == s.cache.commits,
        forall|j: int|
            0 <= j < parents_of(base, step_id(stack.last())).len() ==> h.contains(
                #[trigger] parents_of(base, step_id(stack.last()))[j],
            ),
    ensures
        ({
            let id = step_id(stack.last());
            let ps = parents_of(base, id);
            stack_holds(
                base,
                h,
                f,
                t,
                stack.drop_last().push(Step::Settle(id)) + t.pending(ps, ps.len() as int),
            )
        }),
{
    let id = step_id(stack.last());
    let ps = parents_of(base, id);
    let pending = t.pending(ps, ps.len() as int);
    let next = stack.drop_last().push(Step::Settle(id)) + pending;
    let at = stack.len() - 1;
    lemma_pending(t, ps, ps.len() as int);
    assert(step_holds(base, h, f, s, stack, at));
    assert forall|j: int| 0 <= j < next.len() implies #[trigger] step_holds(
        base,
        h,
        f,
        t,
        next,
        j,
    ) by {
        if j < at {
            lemma_below(base, h, f, s, t, stack, next, j);
        } else if j == at {
            assert forall|m: int| 0 <= m < ps.len() implies covered(
                t,
                next,
                at + 1,
                #[trigger] ps[m],
            ) by {
                if !t.cache.commits.dom().contains(ps[m]) {
                    let k = choose|k: int|
                        0 <= k < pending.len() && step_id(#[trigger] pending[k]) == ps[m];
                    assert(next[at + 1 + k] == pending[k]);
                }
            }
        } else {
            assert(next[j] == pending[j - at - 1]);
            let q = step_id(pending[j - at - 1]);
            assert(ps.contains(q));
            let m = choose|m: int| 0 <= m < ps.len() && ps[m] == q;
            assert(h.contains(ps[m]));
        }
    }
}

proof fn lemma_read(base: StoreView, s: State, names: Seq<Seq<u8>>)
    requires
        truthful(base, s, names),
    ensures
        truthful(base, s.reading(), names),
{
    lemma_lookups_kept(s, s.reading(), names);
}

/// A mapping stays lawful when one commit follows the rules too.
proof fn lemma_lawful_more(
    base: StoreView,
    r: Rules,
    anchors: Set<Seq<u8>>,
    f: Mapping,
    id: Seq<u8>,
)
    requires
        lawful(base, r, anchors, f),
        readable(base, r.names, id),
        !f.dom().contains(id),
        !anchors.contains(id),
        forall|j: int|
            0 <= j < parents_of(base, id).len() ==> f.dom().contains(
                #[trigger] parents_of(base, id)[j],
            ),
        is_gone(base, r, f, id) || view_id(base, r, f, id) is Some,
    ensures
        lawful(base, r, anchors, f.insert(id, outcome(base, r, f, id))),
{
    let g = f.insert(id, outcome(base, r, f, id));
    assert forall|x: Seq<u8>| #[trigger] g.dom().contains(x) implies readable(base, r.names, x)
        && if anchors.contains(x) {
        g[x] is Some
    } else {
        follows(base, r, g, x)
    } by {
        let ps = parents_of(base, x);
        if x != id {
            assert(f.dom().contains(x));
        }
        if !anchors.contains(x) {
            assert forall|j: int| 0 <= j < ps.len() implies g.dom().contains(#[trigger] ps[j])
                && mapped_by(f, ps[j]) == mapped_by(g, ps[j]) by {
                assert(f.dom().contains(ps[j]));
            }
            lemma_same_outcome(base, r, f, g, x);
        }
    }
}

/// What holds while everything is walked.
pub open spec fn walking(
    base: StoreView,
    r: Rules,
    anchors: Set<Seq<u8>>,
    h: Set<Seq<u8>>,
    s: State,
) -> bool {
    &&& truthful(base, s, r.names)
    &&& lawful(base, r, anchors, s.cache.commits)
    &&& is_history(base, r.names, anchors, h)
    &&& forall|id: Seq<u8>| #[trigger]
        anchors.contains(id) ==> s.cache.commits.dom().contains(id)
    &&& object_id(base.wide, Kind::Tree, seq![]) is Some
}

proof fn lemma_full_step(
    base: StoreView,
    r: Rules,
    anchors: Set<Seq<u8>>,
    h: Set<Seq<u8>>,
    s: State,
    stack: Seq<Step>,
    head: Seq<u8>,
)
    requires
        walking(base, r, anchors, h, s),
        stack.len() > 0,
        stack_holds(base, h, Map::empty(), s, stack),
        forall|j: int| 0 <= j < stack.len() ==> (#[trigger] stack[j]) !is Follow,
        covered(s, stack, 0, head),
        s.step(r, false, stack.drop_last(), stack.last()).1 is Ok,
        unclashing(
            base,
            r.names,
            s.step(r, false, stack.drop_last(), stack.last()).0.cache.commits,
        ),
    ensures
        ({
            let (t, next) = s.step(r, false, stack.drop_last(), stack.last());
            &&& walking(base, r, anchors, h, t)
            &&& stack_holds(base, h, Map::empty(), t, next->Ok_0)
            &&& forall|j: int| 0 <= j < next->Ok_0.len() ==> (#[trigger] next->Ok_0[j]) !is Follow
            &&& covered(t, next->Ok_0, 0, head)
        }),
{
    let top = stack.last();
    let id = step_id(top);
    let at = stack.len() - 1;
    let none = Map::<Seq<u8>, Option<Seq<u8>>>::empty();
    assert(step_holds(base, h, none, s, stack, at));
    if s.cache.commits.dom().contains(id) {
        lemma_done(base, h, none, s, s, stack);
        lemma_covered_done(s, s, stack, 0, head);
    } else {
        assert(!anchors.contains(id));
        let t = s.reading();
        lemma_read(base, s, r.names);
        lemma_commit_kept(base, t.store, id);
        let ps = parents_of(base, id);
        let pending = t.pending(ps, ps.len() as int);
        lemma_pending(t, ps, ps.len() as int);
        if top is Settle || pending.len() == 0 {
            assert forall|j: int| 0 <= j < ps.len() implies t.cache.commits.dom().contains(
                #[trigger] ps[j],
            ) by {
                if top is Settle {
                    assert(covered(s, stack, at + 1, ps[j]));
                }
            }
            lemma_map_fails(base, t, r, id);
            let f = s.cache.commits;
            let out = t.map_commit(r, id, raw_of(base, id)).0;
            let k = outcome(base, r, f, id);
            lemma_mapped(base, t, r, id);
            assert(out.cache.commits == f.insert(id, k));
            lemma_map_commit(base, t, r, id);
            lemma_lawful_more(base, r, anchors, f, id);
            lemma_done(base, h, none, s, out, stack);
            lemma_covered_done(s, out, stack, 0, head);
        } else {
            lemma_expanded(base, h, none, s, t, stack);
            let next = stack.drop_last().push(Step::Settle(id)) + pending;
            lemma_covered_expanded(s, t, stack, next, 0, head);
            assert forall|j: int| 0 <= j < next.len() implies (#[trigger] next[j]) !is Follow by {
                if j < at {
                    assert(next[j] == stack[j]);
                } else if j > at {
                    assert(next[j] == pending[j - at - 1]);
                }
            }
        }
    }
}

/// What a commit was mapped to, whatever else maps to the same.
pub proof fn lemma_mapped(base: StoreView, s: State, r: Rules, id: Seq<u8>)
    requires
        truthful(base, s, r.names),
        readable(base, r.names, id),
        object_id(base.wide, Kind::Tree, seq![]) is Some,
        !s.cache.commits.dom().contains(id),
        forall|j: int|
            0 <= j < parents_of(base, id).len() ==> s.cache.commits.dom().contains(
                #[trigger] parents_of(base, id)[j],
            ),
        is_gone(base, r, s.cache.commits, id) || view_id(base, r, s.cache.commits, id) is Some,
    ensures
        s.map_commit(r, id, raw_of(base, id)).1 == Ok::<(), ErrorView>(()),
        s.map_commit(r, id, raw_of(base, id)).0.cache.commits == s.cache.commits.insert(
            id,
            outcome(base, r, s.cache.commits, id),
        ),
        is_dropped(base, r, s.cache.commits, id) || is_gone(base, r, s.cache.commits, id)
            ==> s.map_commit(r, id, raw_of(base, id)).0.store == s.store,
        !is_dropped(base, r, s.cache.commits, id) && !is_gone(base, r, s.cache.commits, id)
            ==> s.map_commit(r, id, raw_of(base, id)).0.store.objects.dom().contains(
            view_id(base, r, s.cache.commits, id)->0,
        ),
{
    let c = commit_at(base, id);
    lemma_commit_kept(base, s.store, id);
    lemma_subtree_kept(base, s.store, c.tree, r.names, 0);
    lemma_descend(s, r, c.tree, 0);
    let d = s.descend(r, c.tree, 0).0;
    let k = d.knowing_source(id, c.tree);
    assert(truthful(base, k, r.names)) by {
        lemma_lookups_kept(d, k, r.names);
    }
    lemma_decide(base, k, r, id);
}

pub proof fn lemma_full_walk(
    base: StoreView,
    r: Rules,
    anchors: Set<Seq<u8>>,
    h: Set<Seq<u8>>,
    s: State,
    stack: Seq<Step>,
    head: Seq<u8>,
    fuel: nat,
)
    requires
        walking(base, r, anchors, h, s),
        stack_holds(base, h, Map::empty(), s, stack),
        forall|j: int| 0 <= j < stack.len() ==> (#[trigger] stack[j]) !is Follow,
        covered(s, stack, 0, head),
        s.walk(r, false, stack, fuel).1 is Ok,
        unclashing(base, r.names, s.walk(r, false, stack, fuel).0.cache.commits),
    ensures
        walking(base, r, anchors, h, s.walk(r, false, stack, fuel).0),
        s.walk(r, false, stack, fuel).0.cache.commits.dom().contains(head),
    decreases fuel,
{
    if stack.len() > 0 {
        let (t, next) = s.step(r, false, stack.drop_last(), stack.last());
        let end = s.walk(r, false, stack, fuel).0;
        lemma_walk_commits(t, r, false, next->Ok_0, (fuel - 1) as nat);
        assert(unclashing(base, r.names, t.cache.commits)) by {
            let f = t.cache.commits;
            let g = end.cache.commits;
            assert forall|a: Seq<u8>, b: Seq<u8>| #[trigger]
                f.dom().contains(a) && #[trigger] f.dom().contains(b) && f[a] is Some && f[a]
                    == f[b] implies filtered(base, r.names, a) == filtered(base, r.names, b) by {
                assert(g.dom().contains(a) && g.dom().contains(b));
            }
        }
        lemma_full_step(base, r, anchors, h, s, stack, head);
        lemma_full_walk(base, r, anchors, h, t, next->Ok_0, head, (fuel - 1) as nat);
    }
}

// -- walking what matters ----------------------------------------------------

/// What the parents look like is what is gathered.
proof fn lemma_gather(
    base: StoreView,
    s: State,
    r: Rules,
    ps: Seq<Seq<u8>>,
    i: int,
    g: Gathered,
)
    requires
        truthful(base, s, r.names),
        0 <= i <= ps.len(),
        g.trees.len() == i,
        g.filtered.len() == i,
        forall|j: int| 0 <= j < ps.len() ==> readable(base, r.names, #[trigger] ps[j]),
        forall|j: int|
            0 <= j < i ==> g.trees[j] == commit_at(base, #[trigger] ps[j]).tree && g.filtered[j]
                == path_tree(base, r.names, ps[j]),
    ensures
        ({
            let (t, out) = s.gather(r, ps, i, g);
            &&& out is Ok
            &&& truthful(base, t, r.names)
            &&& t.cache.commits == s.cache.commits
            &&& out->Ok_0.trees.len() == ps.len()
            &&& out->Ok_0.filtered.len() == ps.len()
            &&& forall|j: int|
                0 <= j < ps.len() ==> out->Ok_0.trees[j] == commit_at(base, #[trigger] ps[j]).tree
                    && out->Ok_0.filtered[j] == path_tree(base, r.names, ps[j])
        }),
    decreases ps.len() - i,
{
    if i < ps.len() {
        let t = s.reading();
        lemma_read(base, s, r.names);
        assert(readable(base, r.names, ps[i]));
        lemma_commit_kept(base, t.store, ps[i]);
        let c = commit_at(base, ps[i]);
        lemma_subtree_kept(base, t.store, c.tree, r.names, 0);
        lemma_descend(t, r, c.tree, 0);
        let (d, found) = t.descend(r, c.tree, 0);
        let k = d.knowing_source(ps[i], c.tree);
        assert(truthful(base, k, r.names)) by {
            lemma_lookups_kept(d, k, r.names);
        }
        lemma_gather(
            base,
            k,
            r,
            ps,
            i + 1,
            Gathered { trees: g.trees.push(c.tree), filtered: g.filtered.push(found->Ok_0) },
        );
    }
}

/// A commit that has the path is in the view.
proof fn lemma_live_path(
    base: StoreView,
    r: Rules,
    anchors: Set<Seq<u8>>,
    f: Mapping,
    id: Seq<u8>,
)
    requires
        lawful(base, r, anchors, f),
        f.dom().contains(id),
        path_tree(base, r.names, id) is Some,
    ensures
        f[id] is Some,
{
}

/// A merge that is pruned maps to what its first parent maps to.
proof fn lemma_pruned(
    base: StoreView,
    r: Rules,
    anchors: Set<Seq<u8>>,
    f: Mapping,
    id: Seq<u8>,
    tree: Seq<u8>,
    g: Gathered,
)
    requires
        lawful(base, r, anchors, f),
        unclashing(base, r.names, f),
        f.dom().contains(id),
        !anchors.contains(id),
        !r.keep_trivial_merges,
        path_tree(base, r.names, id) == Some(tree),
        g.trees.len() == parents_of(base, id).len(),
        g.filtered.len() == parents_of(base, id).len(),
        forall|j: int|
            0 <= j < parents_of(base, id).len() ==> g.trees[j] == commit_at(
                base,
                #[trigger] parents_of(base, id)[j],
            ).tree && g.filtered[j] == path_tree(base, r.names, parents_of(base, id)[j]),
        first_decides(r, commit_at(base, id), tree, g),
    ensures
        f[id] == f[parents_of(base, id)[0]],
{
    let ps = parents_of(base, id);
    let c = commit_at(base, id);
    let n = ps.len() as int;
    assert(follows(base, r, f, id));
    assert forall|j: int| 0 <= j < n && g.filtered[j] is Some implies f.dom().contains(
        #[trigger] ps[j],
    ) && f[ps[j]] is Some by {
        lemma_live_path(base, r, anchors, f, ps[j]);
    }
    assert(f[ps[0]] is Some);
    let m = memory_of(f);
    lemma_first(m, ps, n);
    lemma_derived(m, ps, n);
    let vs = view_parents(base, f, id);
    assert(first_live(f, ps, 0) == 0);
    assert(vs.len() > 0 && Some(vs[0]) == f[ps[0]]);
    if g.trees[0] != c.tree && exists|i: int|
        1 <= i < n && #[trigger] g.filtered[i] is Some && g.filtered[i] != Some(tree) {
        let i = choose|i: int|
            1 <= i < n && #[trigger] g.filtered[i] is Some && g.filtered[i] != Some(tree);
        assert(f.dom().contains(ps[i]) && f[ps[i]] is Some);
        assert(filtered(base, r.names, ps[i]) != filtered(base, r.names, ps[0]));
        assert(f[ps[i]] != f[ps[0]]) by {
            assert(f.dom().contains(ps[i]) && f.dom().contains(ps[0]));
        }
        let v = f[ps[i]]->0;
        assert(m.mapped(ps[i]) == Some(v));
        assert(vs.contains(v));
        let k = choose|k: int| 0 <= k < vs.len() && vs[k] == v;
        assert(k != 0);
        assert(collapses(base, r, f, id));
    } else {
        assert(forall|i: int| 0 <= i < n ==> #[trigger] g.filtered[i] == Some(tree));
        assert(!touches(base, r.names, f, id)) by {
            if touches(base, r.names, f, id) {
                let j = choose|j: int|
                    0 <= j < n && mapped_by(f, #[trigger] ps[j]) is Some && filtered(
                        base,
                        r.names,
                        ps[j],
                    ) != filtered(base, r.names, id);
                assert(g.filtered[j] == Some(tree));
            }
        }
        assert(was_empty(base, id) == (forall|i: int|
            0 <= i < n ==> #[trigger] g.trees[i] == c.tree)) by {
            if was_empty(base, id) {
                assert forall|i: int| 0 <= i < n implies #[trigger] g.trees[i] == c.tree by {
                    assert(commit_at(base, ps[i]).tree == c.tree);
                }
            }
            if forall|i: int| 0 <= i < n ==> #[trigger] g.trees[i] == c.tree {
                assert forall|j: int| 0 <= j < n implies commit_at(base, #[trigger] ps[j]).tree
                    == c.tree by {
                    assert(g.trees[j] == c.tree);
                }
            }
        }
    }
}

/// Pruning finds the first parent only where it maps to the same.
proof fn lemma_prunable(
    base: StoreView,
    r: Rules,
    anchors: Set<Seq<u8>>,
    f: Mapping,
    s: State,
    id: Seq<u8>,
)
    requires
        truthful(base, s, r.names),
        lawful(base, r, anchors, f),
        unclashing(base, r.names, f),
        f.dom().contains(id),
        !anchors.contains(id),
    ensures
        ({
            let (t, first) = s.prunable_first_parent(r, commit_at(base, id));
            &&& first is Ok
            &&& truthful(base, t, r.names)
            &&& t.cache.commits == s.cache.commits
            &&& first->Ok_0 matches Some(p) ==> f.dom().contains(p) && f[id] == f[p]
        }),
{
    let c = commit_at(base, id);
    let ps = c.parents;
    assert(readable(base, r.names, id));
    assert(follows(base, r, f, id));
    if !(ps.len() < 2 || r.keep_trivial_merges) {
        lemma_commit_kept(base, s.store, id);
        lemma_subtree_kept(base, s.store, c.tree, r.names, 0);
        lemma_descend(s, r, c.tree, 0);
        let (d, found) = s.descend(r, c.tree, 0);
        assert(truthful(base, d, r.names));
        if found->Ok_0 is Some {
            let none = Gathered { trees: seq![], filtered: seq![] };
            assert forall|j: int| 0 <= j < ps.len() implies readable(
                base,
                r.names,
                #[trigger] ps[j],
            ) by {
                assert(f.dom().contains(parents_of(base, id)[j]));
            }
            lemma_gather(base, d, r, ps, 0, none);
            let (t, g) = d.gather(r, ps, 0, none);
            if first_decides(r, c, found->Ok_0->0, g->Ok_0) {
                lemma_pruned(base, r, anchors, f, id, found->Ok_0->0, g->Ok_0);
                assert(f.dom().contains(parents_of(base, id)[0]));
            }
        }
    }
}

/// What holds while what matters is walked: nothing is said that walking
/// everything did not say.
pub open spec fn pruning(
    base: StoreView,
    r: Rules,
    anchors: Set<Seq<u8>>,
    f: Mapping,
    s: State,
) -> bool {
    &&& truthful(base, s, r.names)
    &&& lawful(base, r, anchors, f)
    &&& unclashing(base, r.names, f)
    &&& within(s.cache.commits, f)
    &&& forall|id: Seq<u8>| #[trigger]
        anchors.contains(id) ==> s.cache.commits.dom().contains(id)
    &&& object_id(base.wide, Kind::Tree, seq![]) is Some
}

/// Mapping a commit whose parents are mapped says what walking everything
/// said.
proof fn lemma_tip_map(
    base: StoreView,
    r: Rules,
    anchors: Set<Seq<u8>>,
    f: Mapping,
    s: State,
    id: Seq<u8>,
)
    requires
        pruning(base, r, anchors, f, s),
        f.dom().contains(id),
        !s.cache.commits.dom().contains(id),
        forall|j: int|
            0 <= j < parents_of(base, id).len() ==> s.cache.commits.dom().contains(
                #[trigger] parents_of(base, id)[j],
            ),
    ensures
        ({
            let (t, out) = s.map_commit(r, id, raw_of(base, id));
            &&& out is Ok
            &&& pruning(base, r, anchors, f, t)
            &&& t.cache.commits == s.cache.commits.insert(id, f[id])
        }),
{
    let ps = parents_of(base, id);
    let g = s.cache.commits;
    assert(!anchors.contains(id));
    assert(follows(base, r, f, id));
    assert forall|j: int| 0 <= j < ps.len() implies mapped_by(g, #[trigger] ps[j]) == mapped_by(
        f,
        ps[j],
    ) by {
        assert(g.dom().contains(ps[j]));
    }
    lemma_same_outcome(base, r, g, f, id);
    let more = g.insert(id, f[id]);
    assert(unclashing(base, r.names, more)) by {
        assert forall|a: Seq<u8>, b: Seq<u8>| #[trigger]
            more.dom().contains(a) && #[trigger] more.dom().contains(b) && more[a] is Some
                && more[a] == more[b] implies filtered(base, r.names, a) == filtered(
            base,
            r.names,
            b,
        ) by {
            assert(f.dom().contains(a) && f.dom().contains(b));
            assert(f[a] == more[a]) by {
                if a != id {
                    assert(g.dom().contains(a));
                }
            }
            assert(f[b] == more[b]) by {
                if b != id {
                    assert(g.dom().contains(b));
                }
            }
        }
    }
    lemma_map_commit(base, s, r, id);
}

/// Following the first parent says what walking everything said.
proof fn lemma_tip_follow(
    base: StoreView,
    r: Rules,
    anchors: Set<Seq<u8>>,
    f: Mapping,
    s: State,
    id: Seq<u8>,
    first: Seq<u8>,
)
    requires
        pruning(base, r, anchors, f, s),
        f.dom().contains(id),
        f.dom().contains(first),
        f[id] == f[first],
        !s.cache.commits.dom().contains(id),
        s.cache.commits.dom().contains(first),
    ensures
        ({
            let (t, out) = s.follow(id, raw_of(base, id), first);
            &&& out is Ok
            &&& pruning(base, r, anchors, f, t)
            &&& t.cache.commits == s.cache.commits.insert(id, f[id])
        }),
{
    assert(readable(base, r.names, id));
    lemma_commit_kept(base, s.store, id);
    let t = s.follow(id, raw_of(base, id), first).0;
    lemma_lookups_kept(s, t, r.names);
    let g = t.cache.commits;
    assert forall|x: Seq<u8>| #[trigger] g.dom().contains(x) implies readable(base, r.names, x)
        && t.cache.source_trees.dom().contains(x) && (g[x] matches Some(v)
        ==> t.cache.view_trees.dom().contains(v) && t.cache.view_trees[v] == filtered(
        base,
        r.names,
        x,
    )) by {
        if x != id {
            assert(s.cache.commits.dom().contains(x));
        }
    }
}

proof fn lemma_tip_step(
    base: StoreView,
    r: Rules,
    anchors: Set<Seq<u8>>,
    f: Mapping,
    s: State,
    stack: Seq<Step>,
    head: Seq<u8>,
)
    requires
        pruning(base, r, anchors, f, s),
        stack.len() > 0,
        stack_holds(base, f.dom(), f, s, stack),
        covered(s, stack, 0, head),
    ensures
        ({
            let (t, next) = s.step(r, true, stack.drop_last(), stack.last());
            &&& next is Ok
            &&& pruning(base, r, anchors, f, t)
            &&& stack_holds(base, f.dom(), f, t, next->Ok_0)
            &&& covered(t, next->Ok_0, 0, head)
        }),
{
    let top = stack.last();
    let id = step_id(top);
    let at = stack.len() - 1;
    let h = f.dom();
    assert(step_holds(base, h, f, s, stack, at));
    if s.cache.commits.dom().contains(id) {
        lemma_done(base, h, f, s, s, stack);
        lemma_covered_done(s, s, stack, 0, head);
    } else {
        assert(!anchors.contains(id));
        assert(follows(base, r, f, id));
        let t = s.reading();
        lemma_read(base, s, r.names);
        assert(readable(base, r.names, id));
        lemma_commit_kept(base, t.store, id);
        let raw = raw_of(base, id);
        let ps = parents_of(base, id);
        match top {
            Step::Settle(_) => {
                assert forall|j: int| 0 <= j < ps.len() implies t.cache.commits.dom().contains(
                    #[trigger] ps[j],
                ) by {
                    assert(covered(s, stack, at + 1, ps[j]));
                }
                lemma_tip_map(base, r, anchors, f, t, id);
                let u = t.map_commit(r, id, raw).0;
                lemma_done(base, h, f, s, u, stack);
                lemma_covered_done(s, u, stack, 0, head);
            },
            Step::Follow(_, first) => {
                lemma_tip_follow(base, r, anchors, f, t, id, first);
                let u = t.follow(id, raw, first).0;
                lemma_done(base, h, f, s, u, stack);
                lemma_covered_done(s, u, stack, 0, head);
            },
            Step::Enter(_) => {
                lemma_prunable(base, r, anchors, f, t, id);
                let (p, found) = t.prunable_first_parent(r, commit_at(base, id));
                assert(pruning(base, r, anchors, f, p));
                match found->Ok_0 {
                    Some(first) => {
                        if p.cache.commits.dom().contains(first) {
                            lemma_tip_follow(base, r, anchors, f, p, id, first);
                            let u = p.follow(id, raw, first).0;
                            lemma_done(base, h, f, s, u, stack);
                            lemma_covered_done(s, u, stack, 0, head);
                        } else {
                            let next = stack.drop_last().push(Step::Follow(id, first)).push(
                                Step::Enter(first),
                            );
                            assert forall|j: int| 0 <= j < next.len() implies #[trigger] step_holds(
                                base,
                                h,
                                f,
                                p,
                                next,
                                j,
                            ) by {
                                if j < at {
                                    lemma_below(base, h, f, s, p, stack, next, j);
                                } else if j == at {
                                    assert(step_id(next[at + 1]) == first);
                                }
                            }
                            lemma_covered_expanded(s, p, stack, next, 0, head);
                        }
                    },
                    None => {
                        let pending = p.pending(ps, ps.len() as int);
                        lemma_pending(p, ps, ps.len() as int);
                        if pending.len() == 0 {
                            assert forall|j: int|
                                0 <= j < ps.len() implies p.cache.commits.dom().contains(
                                #[trigger] ps[j],
                            ) by {}
                            lemma_tip_map(base, r, anchors, f, p, id);
                            let u = p.map_commit(r, id, raw).0;
                            lemma_done(base, h, f, s, u, stack);
                            lemma_covered_done(s, u, stack, 0, head);
                        } else {
                            lemma_expanded(base, h, f, s, p, stack);
                            let next = stack.drop_last().push(Step::Settle(id)) + pending;
                            lemma_covered_expanded(s, p, stack, next, 0, head);
                        }
                    },
                }
            },
        }
    }
}

proof fn lemma_tip_walk(
    base: StoreView,
    r: Rules,
    anchors: Set<Seq<u8>>,
    f: Mapping,
    s: State,
    stack: Seq<Step>,
    head: Seq<u8>,
    fuel: nat,
)
    requires
        pruning(base, r, anchors, f, s),
        stack_holds(base, f.dom(), f, s, stack),
        covered(s, stack, 0, head),
    ensures
        ({
            let (t, out) = s.walk(r, true, stack, fuel);
            &&& out is Ok || out == Err::<(), ErrorView>(ErrorView::TooLong)
            &&& within(t.cache.commits, f)
            &&& out is Ok ==> t.cache.commits.dom().contains(head)
        }),
    decreases fuel,
{
    if stack.len() > 0 && fuel > 0 {
        lemma_tip_step(base, r, anchors, f, s, stack, head);
        let (t, next) = s.step(r, true, stack.drop_last(), stack.last());
        lemma_tip_walk(base, r, anchors, f, t, next->Ok_0, head, (fuel - 1) as nat);
    }
}

/// The tip is the same where the history is known.
proof fn lemma_tip_is_the_same(
    store: StoreView,
    cache: CacheView,
    r: Rules,
    anchors: Set<Seq<u8>>,
    history: Set<Seq<u8>>,
    head: Seq<u8>,
)
    requires
        truthful(store, (State { store, cache }), r.names),
        lawful(store, r, anchors, cache.commits),
        forall|id: Seq<u8>| #[trigger] anchors.contains(id) ==> cache.commits.dom().contains(id),
        is_history(store, r.names, anchors, history),
        history.contains(head),
        object_id(store.wide, Kind::Tree, seq![]) is Some,
        (State { store, cache }).derived(r, false, head).1 is Ok,
        unclashing(
            store,
            r.names,
            (State { store, cache }).derived(r, false, head).0.cache.commits,
        ),
    ensures
        ({
            let s = (State { store, cache });
            let tip = s.derived(r, true, head).1;
            tip == s.derived(r, false, head).1 || tip == Err::<Option<Seq<u8>>, ErrorView>(
                ErrorView::TooLong,
            )
        }),
{
    let s = State { store, cache };
    let stack = seq![Step::Enter(head)];
    let none = Map::<Seq<u8>, Option<Seq<u8>>>::empty();
    assert(covered(s, stack, 0, head)) by {
        assert(step_id(stack[0]) == head);
    }
    assert(stack_holds(store, history, none, s, stack));
    lemma_full_walk(store, r, anchors, history, s, stack, head, u64::MAX as nat);
    let full = s.walk(r, false, stack, u64::MAX as nat).0;
    let f = full.cache.commits;
    lemma_walk_commits(s, r, false, stack, u64::MAX as nat);
    assert(pruning(store, r, anchors, f, s));
    assert(stack_holds(store, f.dom(), f, s, stack));
    lemma_tip_walk(store, r, anchors, f, s, stack, head, u64::MAX as nat);
    let tip = s.walk(r, true, stack, u64::MAX as nat).0;
    if s.walk(r, true, stack, u64::MAX as nat).1 is Ok {
        assert(tip.cache.commits.dom().contains(head));
    }
}

// -- what deriving everything reads ------------------------------------------

proof fn lemma_descend_store(s: State, r: Rules, tree: Seq<u8>, depth: int)
    ensures
        s.descend(r, tree, depth).0.store == s.store,
    decreases r.names.len() - depth,
{
    if depth < r.names.len() && !s.cache.trees.dom().contains((tree, depth)) {
        let t = s.with_cache(CacheView { tree_reads: counted(s.cache.tree_reads), ..s.cache });
        match t.store.child(tree, r.names[depth]) {
            Ok(Some(next)) => lemma_descend_store(t, r, next, depth + 1),
            _ => {},
        }
    }
}

proof fn lemma_affects_store(s: State, vs: Seq<Seq<u8>>, k: int, tree: Seq<u8>)
    ensures
        s.affects(vs, k, tree).0.store == s.store,
    decreases vs.len() - k,
{
    if k < vs.len() {
        let (t, out) = s.view_tree(vs[k]);
        if out is Ok && out->Ok_0 == tree {
            lemma_affects_store(t, vs, k + 1, tree);
        }
    }
}

/// Mapping a commit adds that commit to the memory, and keeps the objects.
proof fn lemma_map_adds(s: State, r: Rules, id: Seq<u8>, raw: Seq<u8>)
    requires
        s.map_commit(r, id, raw).1 is Ok,
    ensures
        s.map_commit(r, id, raw).0.cache.commits.dom() == s.cache.commits.dom().insert(id),
        grown(s.store, s.map_commit(r, id, raw).0.store),
{
    let c = commit_of(raw, s.store.wide)->0;
    lemma_descend_commits(s, r, c.tree, 0);
    lemma_descend_store(s, r, c.tree, 0);
    let (d, subtree) = s.descend(r, c.tree, 0);
    let k = d.knowing_source(id, c.tree);
    let tree = match subtree->Ok_0 {
        Some(t) => t,
        None => empty_tree(k.store.wide),
    };
    let parents = k.cache.derived_parents(c.parents, c.parents.len() as int);
    lemma_affects_commits(k, parents, 0, tree);
    lemma_affects_store(k, parents, 0, tree);
    let (a, _) = k.affects(parents, 0, tree);
    let (t, _) = a.trivial_merge_target(r, c, tree, parents);
    assert(t.cache.commits == s.cache.commits);
    assert(t.store == s.store);
    let (b, _) = t.build(id, raw, tree, parents);
    assert(b.cache.commits == t.cache.commits);
    assert(grown(t.store, b.store));
    let end = s.map_commit(r, id, raw).0;
    assert(end.cache.commits.dom() =~= s.cache.commits.dom().insert(id));
}

/// Whether a stack only enters and settles commits.
pub open spec fn plain_steps(stack: Seq<Step>) -> bool {
    forall|j: int| 0 <= j < stack.len() ==> (#[trigger] stack[j]) !is Follow
}

/// Whether the parents of a commit are among some commits.
pub open spec fn parents_in(base: StoreView, id: Seq<u8>, among: Set<Seq<u8>>) -> bool {
    forall|j: int|
        0 <= j < parents_of(base, id).len() ==> among.contains(#[trigger] parents_of(base, id)[j])
}

/// What one step of deriving everything does to the stack: what it does not
/// finish stays on it, behind the parents that are missing.
proof fn lemma_plain_step(s: State, r: Rules, rest: Seq<Step>, top: Step)
    requires
        top !is Follow,
        plain_steps(rest),
        s.step(r, false, rest, top).1 is Ok,
    ensures
        ({
            let (t, out) = s.step(r, false, rest, top);
            let next = out->Ok_0;
            let id = step_id(top);
            &&& grown(s.store, t.store)
            &&& plain_steps(next)
            &&& rest.len() <= next.len()
            &&& forall|j: int| 0 <= j < rest.len() ==> next[j] == #[trigger] rest[j]
            &&& forall|j: int|
                rest.len() <= j < next.len() && (#[trigger] next[j]) is Settle ==> step_id(next[j])
                    == id && top is Enter
            &&& t.cache.commits.dom() == s.cache.commits.dom() || t.cache.commits.dom()
                == s.cache.commits.dom().insert(id)
            &&& t.cache.commits.dom().contains(id) || (rest.len() < next.len()
                && next[rest.len() as int] == Step::Settle(id))
        }),
{
    let id = step_id(top);
    if !s.cache.commits.dom().contains(id) {
        let w = s.reading();
        let raw = w.store.read_commit(id)->Ok_0;
        if w.map_commit(r, id, raw).1 is Ok {
            lemma_map_adds(w, r, id, raw);
        }
        if top is Enter {
            let c = commit_of(raw, w.store.wide)->0;
            let pending = w.pending(c.parents, c.parents.len() as int);
            lemma_pending(w, c.parents, c.parents.len() as int);
            let next = s.step(r, false, rest, top).1->Ok_0;
            if pending.len() > 0 {
                assert(next == rest.push(Step::Settle(id)) + pending);
                assert forall|j: int| rest.len() < j < next.len() implies (
                #[trigger] next[j]) is Enter by {
                    assert(next[j] == pending[j - rest.len() - 1]);
                }
                assert forall|j: int| 0 <= j < next.len() implies (#[trigger] next[j]) !is Follow by {
                    if j < rest.len() {
                        assert(next[j] == rest[j]);
                    }
                }
            }
        }
    }
}

/// A walk that comes to its end has mapped every commit on its stack.
pub proof fn lemma_walk_reaches(s: State, r: Rules, stack: Seq<Step>, fuel: nat)
    requires
        plain_steps(stack),
        s.walk(r, false, stack, fuel).1 is Ok,
    ensures
        forall|j: int|
            0 <= j < stack.len() ==> s.walk(
                r,
                false,
                stack,
                fuel,
            ).0.cache.commits.dom().contains(step_id(#[trigger] stack[j])),
    decreases fuel,
{
    if stack.len() > 0 {
        let rest = stack.drop_last();
        let top = stack.last();
        assert(top == stack[stack.len() - 1]);
        assert forall|j: int| 0 <= j < rest.len() implies (#[trigger] rest[j]) !is Follow by {
            assert(rest[j] == stack[j]);
        }
        lemma_plain_step(s, r, rest, top);
        let (t, out) = s.step(r, false, rest, top);
        let next = out->Ok_0;
        lemma_walk_reaches(t, r, next, (fuel - 1) as nat);
        lemma_walk_commits(t, r, false, next, (fuel - 1) as nat);
        let end = s.walk(r, false, stack, fuel).0.cache.commits;
        assert forall|j: int| 0 <= j < stack.len() implies end.dom().contains(
            step_id(#[trigger] stack[j]),
        ) by {
            if j < rest.len() {
                assert(next[j] == rest[j]);
                assert(end.dom().contains(step_id(next[j])));
            } else if !t.cache.commits.dom().contains(step_id(top)) {
                assert(end.dom().contains(step_id(next[rest.len() as int])));
            }
        }
    }
}

/// The parents of what a walk maps are mapped in the end.
pub proof fn lemma_walk_closed(base: StoreView, s: State, r: Rules, stack: Seq<Step>, fuel: nat)
    requires
        plain_steps(stack),
        s.walk(r, false, stack, fuel).1 is Ok,
        grown(base, s.store),
        forall|id: Seq<u8>| #[trigger]
            s.walk(r, false, stack, fuel).0.cache.commits.dom().contains(id) ==> base.commit(
                id,
            ) is Ok,
        forall|j: int|
            0 <= j < stack.len() && (#[trigger] stack[j]) is Settle ==> parents_in(
                base,
                step_id(stack[j]),
                s.walk(r, false, stack, fuel).0.cache.commits.dom(),
            ),
    ensures
        forall|id: Seq<u8>| #[trigger]
            s.walk(r, false, stack, fuel).0.cache.commits.dom().contains(id)
                && !s.cache.commits.dom().contains(id) ==> parents_in(
                base,
                id,
                s.walk(r, false, stack, fuel).0.cache.commits.dom(),
            ),
    decreases fuel,
{
    if stack.len() > 0 {
        let rest = stack.drop_last();
        let top = stack.last();
        let id = step_id(top);
        let all = s.walk(r, false, stack, fuel).0.cache.commits.dom();
        assert(top == stack[stack.len() - 1]);
        assert forall|j: int| 0 <= j < rest.len() implies (#[trigger] rest[j]) !is Follow by {
            assert(rest[j] == stack[j]);
        }
        lemma_plain_step(s, r, rest, top);
        let (t, out) = s.step(r, false, rest, top);
        let next = out->Ok_0;
        let left = (fuel - 1) as nat;
        assert(t.walk(r, false, next, left).0.cache.commits.dom() == all);
        lemma_walk_reaches(s, r, stack, fuel);
        lemma_walk_reaches(t, r, next, left);
        lemma_walk_commits(s, r, false, stack, fuel);
        assert(all.contains(id));
        if !s.cache.commits.dom().contains(id) {
            assert(parents_in(base, id, all)) by {
                if top is Enter {
                    lemma_entered_parents(base, s, r, rest, id, all, next);
                }
            }
        }
        assert forall|j: int|
            0 <= j < next.len() && (#[trigger] next[j]) is Settle implies parents_in(
            base,
            step_id(next[j]),
            all,
        ) by {
            if j < rest.len() {
                assert(next[j] == rest[j]);
                assert(stack[j] is Settle);
            } else if s.cache.commits.dom().contains(id) {
                assert(next.len() == rest.len());
            }
        }
        lemma_walk_closed(base, t, r, next, left);
        assert forall|x: Seq<u8>| #[trigger]
            all.contains(x) && !s.cache.commits.dom().contains(x) implies parents_in(
            base,
            x,
            all,
        ) by {
            if t.cache.commits.dom().contains(x) {
                assert(x == id);
            }
        }
    }
}

/// The parents of a commit that is entered are mapped, or entered next.
proof fn lemma_entered_parents(
    base: StoreView,
    s: State,
    r: Rules,
    rest: Seq<Step>,
    id: Seq<u8>,
    all: Set<Seq<u8>>,
    next: Seq<Step>,
)
    requires
        grown(base, s.store),
        base.commit(id) is Ok,
        !s.cache.commits.dom().contains(id),
        s.step(r, false, rest, Step::Enter(id)).1 == Ok::<Seq<Step>, ErrorView>(next),
        forall|x: Seq<u8>| #[trigger] s.cache.commits.dom().contains(x) ==> all.contains(x),
        forall|j: int| 0 <= j < next.len() ==> all.contains(step_id(#[trigger] next[j])),
    ensures
        parents_in(base, id, all),
{
    let w = s.reading();
    lemma_commit_kept(base, w.store, id);
    let c = commit_at(base, id);
    let n = c.parents.len() as int;
    let pending = w.pending(c.parents, n);
    lemma_pending(w, c.parents, n);
    assert forall|j: int| 0 <= j < parents_of(base, id).len() implies all.contains(
        #[trigger] parents_of(base, id)[j],
    ) by {
        let p = c.parents[j];
        if !w.cache.commits.dom().contains(p) {
            let k = choose|k: int| 0 <= k < pending.len() && step_id(#[trigger] pending[k]) == p;
            assert(next == rest.push(Step::Settle(id)) + pending);
            assert(next[rest.len() + 1 + k] == pending[k]);
        }
    }
}

/// Deriving only the tip gives the same commit as deriving everything.
///
/// Both start from the same objects and the same memory, which may hold
/// anchors and anything derived before. The one error there is comes of a
/// history that takes more steps to walk than can be counted. Of what deriving
/// everything maps it is asked that it can be read from the start, and that no
/// two view commits share an id.
pub proof fn law_tip_is_the_same(
    store: StoreView,
    cache: CacheView,
    r: Rules,
    anchors: Set<Seq<u8>>,
    head: Seq<u8>,
)
    requires
        truthful(store, (State { store, cache }), r.names),
        lawful(store, r, anchors, cache.commits),
        forall|id: Seq<u8>| #[trigger] anchors.contains(id) ==> cache.commits.dom().contains(id),
        object_id(store.wide, Kind::Tree, seq![]) is Some,
        (State { store, cache }).derived(r, false, head).1 is Ok,
        forall|id: Seq<u8>| #[trigger]
            (State { store, cache }).derived(r, false, head).0.cache.commits.dom().contains(id)
                ==> readable(store, r.names, id),
        unclashing(
            store,
            r.names,
            (State { store, cache }).derived(r, false, head).0.cache.commits,
        ),
    ensures
        ({
            let s = (State { store, cache });
            let tip = s.derived(r, true, head).1;
            tip == s.derived(r, false, head).1 || tip == Err::<Option<Seq<u8>>, ErrorView>(
                ErrorView::TooLong,
            )
        }),
{
    let s = State { store, cache };
    let stack = seq![Step::Enter(head)];
    let h = s.derived(r, false, head).0.cache.commits.dom();
    lemma_walk_reaches(s, r, stack, u64::MAX as nat);
    assert(h.contains(step_id(stack[0])));
    lemma_walk_closed(store, s, r, stack, u64::MAX as nat);
    lemma_walk_commits(s, r, false, stack, u64::MAX as nat);
    assert(is_history(store, r.names, anchors, h)) by {
        assert forall|id: Seq<u8>| #[trigger] h.contains(id) && !anchors.contains(id) implies
            forall|j: int|
            0 <= j < parents_of(store, id).len() ==> h.contains(
                #[trigger] parents_of(store, id)[j],
            ) by {
            if cache.commits.dom().contains(id) {
                assert(follows(store, r, cache.commits, id));
            } else {
                assert(parents_in(store, id, h));
            }
        }
    }
    lemma_tip_is_the_same(store, cache, r, anchors, h, head);
}

/// Where nothing is remembered yet and both ways of deriving succeed, they give
/// the same commit: skipping the histories of parents never changes the tip.
///
/// What deriving everything maps can be read from the start, and no two view
/// commits share an id.
pub proof fn law_fresh_tip_is_the_same(store: StoreView, r: Rules, head: Seq<u8>)
    requires
        forall|id: Seq<u8>| #[trigger]
            (State { store, cache: empty_cache() }).derived(
                r,
                false,
                head,
            ).0.cache.commits.dom().contains(id) ==> readable(store, r.names, id),
        object_id(store.wide, Kind::Tree, seq![]) is Some,
        (State { store, cache: empty_cache() }).derived(r, false, head).1 is Ok,
        (State { store, cache: empty_cache() }).derived(r, true, head).1 is Ok,
        unclashing(
            store,
            r.names,
            (State { store, cache: empty_cache() }).derived(r, false, head).0.cache.commits,
        ),
    ensures
        (State { store, cache: empty_cache() }).derived(r, true, head).1 == (State {
            store,
            cache: empty_cache(),
        }).derived(r, false, head).1,
{
    law_tip_is_the_same(store, empty_cache(), r, Set::empty(), head);
}

} // verus!
