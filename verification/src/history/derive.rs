//! Deriving the history of a path.
use crate::history::commits::{
    commit_of, hash_of, object_id, parse_commit, replace_ids, replaced, Commit, CommitView,
};
use crate::history::error::{Error, ErrorView, Id, Kind};
use crate::history::filter::{names_view, Elide, Filter, FilterView, component_names};
use crate::history::store::{
    empty_tree, empty_tree_id, id_result, option_result, Store, StoreView,
};
use crate::history::tables::{
    copy_id, id_view, ids_of, ids_view, lemma_ids_put, lemma_options_put, options_of, same_id,
    Table,
};
use crate::text::copy_of;
use vstd::prelude::*;

verus! {

// -- what is remembered ------------------------------------------------------

/// What deriving under one filter has learned.
pub struct FilterCache {
    /// Subtree lookups by tree, one table for each number of path components
    /// already consumed. Nothing where the path is absent below the tree.
    pub trees: Vec<Table<Option<Id>>>,
    /// Source commit to view commit. Nothing where nothing of the path exists
    /// in its ancestry.
    pub commits: Table<Option<Id>>,
    /// View commit to its own tree.
    pub view_trees: Table<Id>,
    /// Source commit to its own unfiltered tree.
    pub source_trees: Table<Id>,
    /// View commit back to the source commit it came from.
    pub grafts: Table<Id>,
    /// Source commit to the view commit it would have been, for a commit the
    /// view drops.
    pub elided: Table<Id>,
    /// How many trees were read.
    pub tree_reads: usize,
    /// How many source commits were read.
    pub commit_reads: usize,
}

#[verifier::ext_equal]
pub struct CacheView {
    pub trees: Map<(Seq<u8>, int), Option<Seq<u8>>>,
    pub commits: Map<Seq<u8>, Option<Seq<u8>>>,
    pub view_trees: Map<Seq<u8>, Seq<u8>>,
    pub source_trees: Map<Seq<u8>, Seq<u8>>,
    pub grafts: Map<Seq<u8>, Seq<u8>>,
    pub elided: Map<Seq<u8>, Seq<u8>>,
    pub tree_reads: usize,
    pub commit_reads: usize,
}

/// Subtree lookups as one map.
pub open spec fn trees_of(v: Seq<Table<Option<Id>>>) -> Map<(Seq<u8>, int), Option<Seq<u8>>> {
    Map::new(
        |k: (Seq<u8>, int)| 0 <= k.1 < v.len() && v[k.1]@.dom().contains(k.0),
        |k: (Seq<u8>, int)| id_view(v[k.1]@[k.0]),
    )
}

/// One more level of lookups is as many more lookups.
pub proof fn lemma_trees_level(v: Seq<Table<Option<Id>>>, k: int)
    requires
        0 <= k < v.len(),
        trees_of(v.take(k)).dom().finite(),
        v[k]@.dom().finite(),
    ensures
        trees_of(v.take(k + 1)).dom().finite(),
        trees_of(v.take(k + 1)).dom().len() == trees_of(v.take(k)).dom().len() + v[k]@.dom().len(),
{
    let below = trees_of(v.take(k)).dom();
    let here = v[k]@.dom();
    let at = |id: Seq<u8>| (id, k);
    let level = here.map(at);
    assert(vstd::relations::injective_on(at, here));
    vstd::set_lib::lemma_map_size(here, level, at);
    assert forall|key: (Seq<u8>, int)| #[trigger]
        trees_of(v.take(k + 1)).dom().contains(key) <==> below.union(level).contains(key) by {
        if key.1 == k && here.contains(key.0) {
            assert(at(key.0) == key);
            assert(level.contains(key));
        }
        if level.contains(key) {
            let id = choose|id: Seq<u8>| here.contains(id) && key == at(id);
            assert(key.1 == k);
        }
        if 0 <= key.1 < k {
            assert(v.take(k + 1)[key.1] == v.take(k)[key.1]);
        }
    }
    assert(trees_of(v.take(k + 1)).dom() =~= below.union(level));
    assert(below.disjoint(level)) by {
        assert forall|key: (Seq<u8>, int)| below.contains(key) implies !level.contains(key) by {
            if level.contains(key) {
                let id = choose|id: Seq<u8>| here.contains(id) && key == at(id);
                assert(key.1 == k);
            }
        }
    }
    vstd::set_lib::lemma_set_disjoint_lens(below, level);
}

impl View for FilterCache {
    type V = CacheView;

    open spec fn view(&self) -> CacheView {
        CacheView {
            trees: trees_of(self.trees@),
            commits: options_of(self.commits),
            view_trees: ids_of(self.view_trees),
            source_trees: ids_of(self.source_trees),
            grafts: ids_of(self.grafts),
            elided: ids_of(self.elided),
            tree_reads: self.tree_reads,
            commit_reads: self.commit_reads,
        }
    }
}

/// One more, up to the largest count.
pub open spec fn counted(n: usize) -> usize {
    if n < usize::MAX {
        (n + 1) as usize
    } else {
        n
    }
}

pub fn count(n: usize) -> (r: usize)
    ensures
        r == counted(n),
{
    if n < usize::MAX {
        n + 1
    } else {
        n
    }
}

/// Nothing learned yet.
pub open spec fn empty_cache() -> CacheView {
    CacheView {
        trees: Map::empty(),
        commits: Map::empty(),
        view_trees: Map::empty(),
        source_trees: Map::empty(),
        grafts: Map::empty(),
        elided: Map::empty(),
        tree_reads: 0,
        commit_reads: 0,
    }
}

impl CacheView {
    /// The view commit that a source commit was mapped to.
    pub open spec fn mapped(self, id: Seq<u8>) -> Option<Seq<u8>> {
        if self.commits.dom().contains(id) {
            self.commits[id]
        } else {
            None
        }
    }
}

impl FilterCache {
    pub fn new() -> (r: FilterCache)
        ensures
            r@ == empty_cache(),
    {
        let r = FilterCache {
            trees: Vec::new(),
            commits: Table::new(),
            view_trees: Table::new(),
            source_trees: Table::new(),
            grafts: Table::new(),
            elided: Table::new(),
            tree_reads: 0,
            commit_reads: 0,
        };
        assert(r@ =~= empty_cache());
        r
    }

    fn tree_at(&self, tree: &Id, depth: usize) -> (r: Option<Option<Id>>)
        ensures
            match r {
                Some(v) => self@.trees.dom().contains((tree@, depth as int)) && id_view(v)
                    == self@.trees[(tree@, depth as int)],
                None => !self@.trees.dom().contains((tree@, depth as int)),
            },
    {
        if depth >= self.trees.len() {
            return None;
        }
        match self.trees[depth].get(tree) {
            Some(v) => Some(copy_id(v)),
            None => None,
        }
    }

    fn put_tree(&mut self, tree: &Id, depth: usize, v: Option<Id>)
        requires
            depth < usize::MAX,
        ensures
            final(self)@ == (CacheView {
                trees: old(self)@.trees.insert((tree@, depth as int), id_view(v)),
                ..old(self)@
            }),
    {
        while self.trees.len() <= depth
            invariant
                self@ == old(self)@,
                depth < usize::MAX,
            decreases depth + 1 - self.trees.len(),
        {
            let ghost before = self.trees@;
            self.trees.push(Table::new());
            assert(trees_of(self.trees@) =~= trees_of(before));
            assert(self@ =~= old(self)@);
        }
        let ghost before = self.trees@;
        self.trees[depth].put(copy_of(tree), v);
        proof {
            let after = self.trees@;
            assert(after[depth as int]@ == before[depth as int]@.insert(tree@, v));
            assert forall|k: (Seq<u8>, int)| trees_of(after).dom().contains(k) <==> trees_of(
                before,
            ).insert((tree@, depth as int), id_view(v)).dom().contains(k) by {
                if 0 <= k.1 < after.len() && k.1 != depth {
                    assert(after[k.1] == before[k.1]);
                }
            }
            assert forall|k: (Seq<u8>, int)| #[trigger]
                trees_of(after).dom().contains(k) implies trees_of(after)[k] == trees_of(
                before,
            ).insert((tree@, depth as int), id_view(v))[k] by {
                if k.1 != depth {
                    assert(after[k.1] == before[k.1]);
                }
            }
            assert(trees_of(after) =~= trees_of(before).insert((tree@, depth as int), id_view(v)));
        }
    }

    /// The view commit that a source commit was mapped to.
    pub fn mapped(&self, id: &Id) -> (r: Option<Id>)
        ensures
            id_view(r) == self@.mapped(id@),
    {
        match self.commits.get(id) {
            Some(v) => copy_id(v),
            None => None,
        }
    }

    fn put_commit(&mut self, id: &Id, v: Option<Id>)
        ensures
            final(self)@ == (CacheView {
                commits: old(self)@.commits.insert(id@, id_view(v)),
                ..old(self)@
            }),
    {
        let ghost before = self.commits;
        self.commits.put(copy_of(id), v);
        proof {
            lemma_options_put(before, self.commits, id@, v);
        }
    }

    fn put_view_tree(&mut self, id: &Id, v: Id)
        ensures
            final(self)@ == (CacheView {
                view_trees: old(self)@.view_trees.insert(id@, v@),
                ..old(self)@
            }),
    {
        let ghost before = self.view_trees;
        self.view_trees.put(copy_of(id), v);
        proof {
            lemma_ids_put(before, self.view_trees, id@, v);
        }
    }

    pub fn put_source_tree(&mut self, id: &Id, v: Id)
        ensures
            final(self)@ == (CacheView {
                source_trees: old(self)@.source_trees.insert(id@, v@),
                ..old(self)@
            }),
    {
        let ghost before = self.source_trees;
        self.source_trees.put(copy_of(id), v);
        proof {
            lemma_ids_put(before, self.source_trees, id@, v);
        }
    }

    fn put_graft(&mut self, id: &Id, v: Id)
        ensures
            final(self)@ == (CacheView {
                grafts: old(self)@.grafts.insert(id@, v@),
                ..old(self)@
            }),
    {
        let ghost before = self.grafts;
        self.grafts.put(copy_of(id), v);
        proof {
            lemma_ids_put(before, self.grafts, id@, v);
        }
    }

    fn put_elided(&mut self, id: &Id, v: Id)
        ensures
            final(self)@ == (CacheView {
                elided: old(self)@.elided.insert(id@, v@),
                ..old(self)@
            }),
    {
        let ghost before = self.elided;
        self.elided.put(copy_of(id), v);
        proof {
            lemma_ids_put(before, self.elided, id@, v);
        }
    }

    /// Whether the tree of a source commit is known to be this one.
    fn has_source_tree(&self, id: &Id, tree: &Id) -> (r: bool)
        ensures
            r == (self@.source_trees.dom().contains(id@) && self@.source_trees[id@] == tree@),
    {
        match self.source_trees.get(id) {
            Some(t) => same_id(t, tree),
            None => false,
        }
    }

    /// Learns an anchor that was checked.
    pub fn learn_anchor(&mut self, source: &Id, view: &Id, source_tree: Id, view_tree: Id)
        ensures
            final(self)@ == old(self)@.anchored(source@, view@, source_tree@, view_tree@),
    {
        self.put_commit(source, Some(copy_of(view)));
        self.put_source_tree(source, source_tree);
        self.put_view_tree(view, view_tree);
        self.put_graft(view, copy_of(source));
    }

    /// Learns that a view commit was lifted.
    pub fn learn_lift(&mut self, view: &Id, lifted: &Id, view_tree: Id)
        ensures
            final(self)@ == old(self)@.lifted(view@, lifted@, view_tree@),
    {
        self.put_graft(view, copy_of(lifted));
        self.put_view_tree(view, view_tree);
    }
}

impl CacheView {
    /// What is known once an anchor was checked.
    pub open spec fn anchored(
        self,
        source: Seq<u8>,
        view: Seq<u8>,
        source_tree: Seq<u8>,
        view_tree: Seq<u8>,
    ) -> CacheView {
        CacheView {
            commits: self.commits.insert(source, Some(view)),
            source_trees: self.source_trees.insert(source, source_tree),
            view_trees: self.view_trees.insert(view, view_tree),
            grafts: self.grafts.insert(view, source),
            ..self
        }
    }

    /// What is known once a view commit was lifted. That the lifted commit
    /// derives back is not taken for granted.
    pub open spec fn lifted(self, view: Seq<u8>, lifted: Seq<u8>, view_tree: Seq<u8>) -> CacheView {
        CacheView {
            grafts: self.grafts.insert(view, lifted),
            view_trees: self.view_trees.insert(view, view_tree),
            ..self
        }
    }
}

// -- one commit --------------------------------------------------------------

/// The objects and what was learned about them.
#[verifier::ext_equal]
pub struct State {
    pub store: StoreView,
    pub cache: CacheView,
}

pub open spec fn state_of(store: Store, cache: FilterCache) -> State {
    State { store: store@, cache: cache@ }
}

/// The rules that a filter sets.
pub struct Rules {
    pub names: Seq<Seq<u8>>,
    pub elide: Elide,
    pub keep_trivial_merges: bool,
}

pub open spec fn rules_of(f: FilterView) -> Rules {
    Rules {
        names: component_names(f),
        elide: f.elide,
        keep_trivial_merges: f.keep_trivial_merges,
    }
}

/// The rules as they are held.
pub struct Policy {
    pub names: Vec<Vec<u8>>,
    pub elide: Elide,
    pub keep_trivial_merges: bool,
}

impl Policy {
    pub open spec fn rules(&self) -> Rules {
        Rules {
            names: names_view(self.names@),
            elide: self.elide,
            keep_trivial_merges: self.keep_trivial_merges,
        }
    }

    pub fn of(f: &Filter) -> (r: Policy)
        ensures
            r.rules() == rules_of(f@),
    {
        Policy { names: f.names(), elide: f.elide, keep_trivial_merges: f.keep_trivial_merges }
    }
}

/// Whether a commit that changed nothing is dropped.
pub open spec fn drops(elide: Elide, unchanged: bool, already_empty: bool) -> bool {
    match elide {
        Elide::Nothing => false,
        Elide::Unchanged => unchanged && !already_empty,
        Elide::UnchangedIncludingAlreadyEmpty => unchanged,
    }
}

fn is_dropped(elide: Elide, unchanged: bool, already_empty: bool) -> (r: bool)
    ensures
        r == drops(elide, unchanged, already_empty),
{
    match elide {
        Elide::Nothing => false,
        Elide::Unchanged => unchanged && !already_empty,
        Elide::UnchangedIncludingAlreadyEmpty => unchanged,
    }
}

impl CacheView {
    /// Whether an earlier, different parent maps to the same view commit.
    pub open spec fn introduced(self, sources: Seq<Seq<u8>>, at: int) -> bool {
        exists|j: int|
            0 <= j < at && #[trigger] sources[j] != sources[at] && self.mapped(sources[j])
                == self.mapped(sources[at])
    }

    /// The view commits that the first `n` parents map to, in order. A
    /// duplicate that the source commit already had is kept; one that comes
    /// of two different parents mapping to one view commit is dropped.
    pub open spec fn derived_parents(self, sources: Seq<Seq<u8>>, n: int) -> Seq<Seq<u8>>
        decreases n,
    {
        if n <= 0 {
            seq![]
        } else {
            let before = self.derived_parents(sources, n - 1);
            match self.mapped(sources[n - 1]) {
                Some(m) => if self.introduced(sources, n - 1) {
                    before
                } else {
                    before.push(m)
                },
                None => before,
            }
        }
    }

    /// Whether every parent had this tree before filtering.
    pub open spec fn already_empty(self, sources: Seq<Seq<u8>>, tree: Seq<u8>) -> bool {
        forall|i: int|
            0 <= i < sources.len() ==> self.source_trees.dom().contains(#[trigger] sources[i])
                && self.source_trees[sources[i]] == tree
    }
}

impl FilterCache {
    fn is_introduced(&self, sources: &Vec<Id>, at: usize, mapped: &Id) -> (r: bool)
        requires
            at < sources.len(),
            self@.mapped(sources@[at as int]@) == Some(mapped@),
        ensures
            r == self@.introduced(ids_view(sources@), at as int),
    {
        let ghost all = ids_view(sources@);
        let mut j: usize = 0;
        while j < at
            invariant
                j <= at < sources.len(),
                all == ids_view(sources@),
                self@.mapped(all[at as int]) == Some(mapped@),
                forall|k: int|
                    0 <= k < j ==> !(#[trigger] all[k] != all[at as int] && self@.mapped(all[k])
                        == self@.mapped(all[at as int])),
            decreases at - j,
        {
            assert(all[j as int] == sources@[j as int]@);
            assert(all[at as int] == sources@[at as int]@);
            if !same_id(&sources[j], &sources[at]) {
                if let Some(other) = self.mapped(&sources[j]) {
                    if same_id(&other, mapped) {
                        return true;
                    }
                }
            }
            j += 1;
        }
        false
    }

    /// The view commits that a commit's parents map to.
    pub fn derived_parents(&self, sources: &Vec<Id>) -> (r: Vec<Id>)
        ensures
            ids_view(r@) == self@.derived_parents(ids_view(sources@), sources@.len() as int),
    {
        let ghost all = ids_view(sources@);
        let mut out: Vec<Id> = Vec::new();
        let mut n: usize = 0;
        assert(ids_view(out@) =~= seq![]);
        while n < sources.len()
            invariant
                n <= sources.len(),
                all == ids_view(sources@),
                ids_view(out@) == self@.derived_parents(all, n as int),
            decreases sources.len() - n,
        {
            assert(all[n as int] == sources@[n as int]@);
            if let Some(m) = self.mapped(&sources[n]) {
                if !self.is_introduced(sources, n, &m) {
                    let ghost before = out@;
                    let ghost id = m@;
                    out.push(m);
                    assert(ids_view(out@) =~= ids_view(before).push(id));
                }
            }
            n += 1;
        }
        out
    }

    /// Whether every parent had this tree before filtering.
    pub fn already_empty(&self, sources: &Vec<Id>, tree: &Id) -> (r: bool)
        ensures
            r == self@.already_empty(ids_view(sources@), tree@),
    {
        let ghost all = ids_view(sources@);
        let mut i: usize = 0;
        while i < sources.len()
            invariant
                i <= sources.len(),
                all == ids_view(sources@),
                forall|k: int|
                    0 <= k < i ==> self@.source_trees.dom().contains(#[trigger] all[k])
                        && self@.source_trees[all[k]] == tree@,
            decreases sources.len() - i,
        {
            assert(all[i as int] == sources@[i as int]@);
            if !self.has_source_tree(&sources[i], tree) {
                return false;
            }
            i += 1;
        }
        true
    }
}

impl State {
    pub open spec fn with_cache(self, cache: CacheView) -> State {
        State { cache, ..self }
    }

    /// The subtree at the filter's path, memoized at every level.
    pub open spec fn descend(self, r: Rules, tree: Seq<u8>, depth: int) -> (
        State,
        Result<Option<Seq<u8>>, ErrorView>,
    )
        decreases r.names.len() - depth,
    {
        if depth >= r.names.len() {
            (self, Ok(Some(tree)))
        } else if self.cache.trees.dom().contains((tree, depth)) {
            (self, Ok(self.cache.trees[(tree, depth)]))
        } else {
            let s = self.with_cache(
                CacheView { tree_reads: counted(self.cache.tree_reads), ..self.cache },
            );
            match s.store.child(tree, r.names[depth]) {
                Err(e) => (s, Err(e)),
                Ok(None) => (s.remembering(tree, depth, None), Ok(None)),
                Ok(Some(next)) => match s.descend(r, next, depth + 1) {
                    (t, Err(e)) => (t, Err(e)),
                    (t, Ok(found)) => (t.remembering(tree, depth, found), Ok(found)),
                },
            }
        }
    }

    pub open spec fn remembering(self, tree: Seq<u8>, depth: int, found: Option<Seq<u8>>) -> State {
        self.with_cache(
            CacheView { trees: self.cache.trees.insert((tree, depth), found), ..self.cache },
        )
    }

    pub open spec fn reading(self) -> State {
        self.with_cache(
            CacheView { commit_reads: counted(self.cache.commit_reads), ..self.cache },
        )
    }

    pub open spec fn knowing_source(self, id: Seq<u8>, tree: Seq<u8>) -> State {
        self.with_cache(
            CacheView { source_trees: self.cache.source_trees.insert(id, tree), ..self.cache },
        )
    }

    pub open spec fn settled(self, id: Seq<u8>, v: Option<Seq<u8>>) -> State {
        self.with_cache(CacheView { commits: self.cache.commits.insert(id, v), ..self.cache })
    }

    /// The tree of a view commit.
    pub open spec fn view_tree(self, view: Seq<u8>) -> (State, Result<Seq<u8>, ErrorView>) {
        if self.cache.view_trees.dom().contains(view) {
            (self, Ok(self.cache.view_trees[view]))
        } else {
            match self.store.commit_tree(view) {
                Err(e) => (self, Err(e)),
                Ok(tree) => (
                    self.with_cache(
                        CacheView {
                            view_trees: self.cache.view_trees.insert(view, tree),
                            ..self.cache
                        },
                    ),
                    Ok(tree),
                ),
            }
        }
    }

    /// Whether a parent from `i` on has another tree in the view.
    pub open spec fn affects(self, parents: Seq<Seq<u8>>, i: int, tree: Seq<u8>) -> (
        State,
        Result<bool, ErrorView>,
    )
        decreases parents.len() - i,
    {
        if i >= parents.len() {
            (self, Ok(false))
        } else {
            match self.view_tree(parents[i]) {
                (s, Err(e)) => (s, Err(e)),
                (s, Ok(t)) => if t != tree {
                    (s, Ok(true))
                } else {
                    s.affects(parents, i + 1, tree)
                },
            }
        }
    }

    /// The view commit a trivial merge collapses onto, if it collapses: a
    /// merge whose filtered tree equals its first filtered parent's, unless
    /// it was trivial before filtering.
    pub open spec fn trivial_merge_target(
        self,
        r: Rules,
        c: CommitView,
        tree: Seq<u8>,
        parents: Seq<Seq<u8>>,
    ) -> (State, Result<Option<Seq<u8>>, ErrorView>) {
        if r.keep_trivial_merges || parents.len() < 2 {
            (self, Ok(None))
        } else {
            match self.view_tree(parents[0]) {
                (s, Err(e)) => (s, Err(e)),
                (s, Ok(t)) => if t != tree || s.cache.was_trivial(c) {
                    (s, Ok(None))
                } else {
                    (s, Ok(Some(parents[0])))
                },
            }
        }
    }

    /// Records the view commit that a dropped commit would have been.
    pub open spec fn record_elided(
        self,
        id: Seq<u8>,
        raw: Seq<u8>,
        tree: Seq<u8>,
        parents: Seq<Seq<u8>>,
    ) -> (State, Result<(), ErrorView>) {
        match replaced(raw, self.store.wide, tree, parents) {
            Err(e) => (self, Err(e)),
            Ok(bytes) => match object_id(self.store.wide, Kind::Commit, bytes) {
                None => (self, Err(ErrorView::Hash)),
                Some(would_be) => (
                    self.with_cache(
                        CacheView {
                            elided: self.cache.elided.insert(id, would_be),
                            ..self.cache
                        },
                    ),
                    Ok(()),
                ),
            },
        }
    }

    /// Makes sure that the empty tree is there before something refers to it.
    pub open spec fn grounded(self, tree: Seq<u8>) -> (State, Result<(), ErrorView>) {
        if tree == empty_tree(self.store.wide) {
            match self.store.write(Kind::Tree, seq![]) {
                (s, Err(e)) => (State { store: s, ..self }, Err(e)),
                (s, Ok(_)) => (State { store: s, ..self }, Ok(())),
            }
        } else {
            (self, Ok(()))
        }
    }

    /// Makes the view commit of a source commit.
    pub open spec fn build(
        self,
        source: Seq<u8>,
        raw: Seq<u8>,
        tree: Seq<u8>,
        parents: Seq<Seq<u8>>,
    ) -> (State, Result<Seq<u8>, ErrorView>) {
        match self.grounded(tree) {
            (s, Err(e)) => (s, Err(e)),
            (s, Ok(_)) => match replaced(raw, s.store.wide, tree, parents) {
                Err(e) => (s, Err(e)),
                Ok(bytes) => match s.store.write(Kind::Commit, bytes) {
                    (t, Err(e)) => (State { store: t, ..s }, Err(e)),
                    (t, Ok(id)) => (
                        State {
                            store: t,
                            cache: CacheView {
                                view_trees: s.cache.view_trees.insert(id, tree),
                                grafts: if s.cache.grafts.dom().contains(id) {
                                    s.cache.grafts
                                } else {
                                    s.cache.grafts.insert(id, source)
                                },
                                ..s.cache
                            },
                        },
                        Ok(id),
                    ),
                },
            },
        }
    }

    /// A commit is dropped, and another stands in its place.
    pub open spec fn dropped(
        self,
        id: Seq<u8>,
        raw: Seq<u8>,
        tree: Seq<u8>,
        parents: Seq<Seq<u8>>,
        target: Seq<u8>,
    ) -> (State, Result<(), ErrorView>) {
        match self.record_elided(id, raw, tree, parents) {
            (s, Err(e)) => (s, Err(e)),
            (s, Ok(_)) => (s.settled(id, Some(target)), Ok(())),
        }
    }

    /// A commit is kept.
    pub open spec fn kept(
        self,
        id: Seq<u8>,
        raw: Seq<u8>,
        tree: Seq<u8>,
        parents: Seq<Seq<u8>>,
    ) -> (State, Result<(), ErrorView>) {
        match self.build(id, raw, tree, parents) {
            (s, Err(e)) => (s, Err(e)),
            (s, Ok(v)) => (s.settled(id, Some(v)), Ok(())),
        }
    }

    /// Decides about a commit whose filtered tree and view parents are known.
    pub open spec fn decide(
        self,
        r: Rules,
        id: Seq<u8>,
        raw: Seq<u8>,
        c: CommitView,
        subtree: Option<Seq<u8>>,
    ) -> (State, Result<(), ErrorView>) {
        let tree = match subtree {
            Some(t) => t,
            None => empty_tree(self.store.wide),
        };
        let parents = self.cache.derived_parents(c.parents, c.parents.len() as int);
        match self.affects(parents, 0, tree) {
            (s, Err(e)) => (s, Err(e)),
            (s, Ok(affects)) => {
                let already_empty = s.cache.already_empty(c.parents, c.tree);
                match s.trivial_merge_target(r, c, tree, parents) {
                    (t, Err(e)) => (t, Err(e)),
                    (t, Ok(Some(target))) => t.dropped(id, raw, tree, parents, target),
                    (t, Ok(None)) => if drops(r.elide, !affects, already_empty) && parents.len()
                        > 0 {
                        t.dropped(id, raw, tree, parents, parents[0])
                    } else if subtree is None && parents.len() == 0 {
                        (t.settled(id, None), Ok(()))
                    } else {
                        t.kept(id, raw, tree, parents)
                    },
                }
            },
        }
    }

    /// Maps one commit whose parents are mapped.
    pub open spec fn map_commit(self, r: Rules, id: Seq<u8>, raw: Seq<u8>) -> (
        State,
        Result<(), ErrorView>,
    ) {
        match commit_of(raw, self.store.wide) {
            None => (self, Err(ErrorView::MalformedCommit)),
            Some(c) => match self.descend(r, c.tree, 0) {
                (s, Err(e)) => (s, Err(e)),
                (s, Ok(subtree)) => s.knowing_source(id, c.tree).decide(r, id, raw, c, subtree),
            },
        }
    }

    /// Maps a commit to what its first parent maps to.
    pub open spec fn follow(self, id: Seq<u8>, raw: Seq<u8>, first: Seq<u8>) -> (
        State,
        Result<(), ErrorView>,
    ) {
        match commit_of(raw, self.store.wide) {
            None => (self, Err(ErrorView::MalformedCommit)),
            Some(c) => {
                let s = self.knowing_source(id, c.tree);
                (s.settled(id, s.cache.mapped(first)), Ok(()))
            },
        }
    }
}

impl CacheView {
    /// Whether a merge already had its first parent's tree.
    pub open spec fn was_trivial(self, c: CommitView) -> bool {
        c.parents.len() > 0 && self.source_trees.dom().contains(c.parents[0])
            && self.source_trees[c.parents[0]] == c.tree
    }
}

/// An outcome as its model.
pub open spec fn done_result(r: Result<(), Error>) -> Result<(), ErrorView> {
    match r {
        Ok(_) => Ok(()),
        Err(e) => Err(e@),
    }
}

pub open spec fn bool_result(r: Result<bool, Error>) -> Result<bool, ErrorView> {
    match r {
        Ok(b) => Ok(b),
        Err(e) => Err(e@),
    }
}

impl FilterCache {
    pub fn descend(&mut self, store: &Store, p: &Policy, tree: &Id, depth: usize) -> (r: Result<
        Option<Id>,
        Error,
    >)
        requires
            depth <= p.names.len(),
        ensures
            (state_of(*store, *final(self)), option_result(r)) == state_of(
                *store,
                *old(self),
            ).descend(p.rules(), tree@, depth as int),
        decreases p.names.len() - depth,
    {
        if depth >= p.names.len() {
            return Ok(Some(copy_of(tree)));
        }
        if let Some(hit) = self.tree_at(tree, depth) {
            return Ok(hit);
        }
        self.tree_reads = count(self.tree_reads);
        let found = match store.child(tree, &p.names[depth]) {
            Err(e) => return Err(e),
            Ok(None) => None,
            Ok(Some(next)) => match self.descend(store, p, &next, depth + 1) {
                Err(e) => return Err(e),
                Ok(found) => found,
            },
        };
        self.put_tree(tree, depth, copy_id(&found));
        Ok(found)
    }

    fn view_tree(&mut self, store: &Store, view: &Id) -> (r: Result<Id, Error>)
        ensures
            (state_of(*store, *final(self)), id_result(r)) == state_of(
                *store,
                *old(self),
            ).view_tree(view@),
    {
        if let Some(hit) = self.view_trees.get(view) {
            return Ok(copy_of(hit));
        }
        match store.commit_tree(view) {
            Err(e) => Err(e),
            Ok(tree) => {
                self.put_view_tree(view, copy_of(&tree));
                Ok(tree)
            },
        }
    }

    fn affects(&mut self, store: &Store, parents: &Vec<Id>, tree: &Id) -> (r: Result<bool, Error>)
        ensures
            (state_of(*store, *final(self)), bool_result(r)) == state_of(
                *store,
                *old(self),
            ).affects(ids_view(parents@), 0, tree@),
    {
        let ghost all = ids_view(parents@);
        let mut i: usize = 0;
        while i < parents.len()
            invariant
                i <= parents.len(),
                all == ids_view(parents@),
                state_of(*store, *old(self)).affects(all, 0, tree@) == state_of(
                    *store,
                    *self,
                ).affects(all, i as int, tree@),
            decreases parents.len() - i,
        {
            assert(all[i as int] == parents@[i as int]@);
            match self.view_tree(store, &parents[i]) {
                Err(e) => return Err(e),
                Ok(t) => {
                    if !same_id(&t, tree) {
                        return Ok(true);
                    }
                },
            }
            i += 1;
        }
        Ok(false)
    }

    fn trivial_merge_target(
        &mut self,
        store: &Store,
        p: &Policy,
        c: &Commit,
        tree: &Id,
        parents: &Vec<Id>,
    ) -> (r: Result<Option<Id>, Error>)
        ensures
            (state_of(*store, *final(self)), option_result(r)) == state_of(
                *store,
                *old(self),
            ).trivial_merge_target(p.rules(), c@, tree@, ids_view(parents@)),
    {
        if p.keep_trivial_merges || parents.len() < 2 {
            return Ok(None);
        }
        match self.view_tree(store, &parents[0]) {
            Err(e) => Err(e),
            Ok(t) => {
                if !same_id(&t, tree) {
                    return Ok(None);
                }
                if c.parents.len() > 0 && self.has_source_tree(&c.parents[0], &c.tree) {
                    return Ok(None);
                }
                Ok(Some(copy_of(&parents[0])))
            },
        }
    }

    fn record_elided(
        &mut self,
        store: &Store,
        id: &Id,
        raw: &Vec<u8>,
        tree: &Id,
        parents: &Vec<Id>,
    ) -> (r: Result<(), Error>)
        ensures
            (state_of(*store, *final(self)), done_result(r)) == state_of(
                *store,
                *old(self),
            ).record_elided(id@, raw@, tree@, ids_view(parents@)),
    {
        let bytes = match replace_ids(raw, store.wide, tree, parents) {
            Ok(b) => b,
            Err(e) => return Err(e),
        };
        match hash_of(store.wide, Kind::Commit, &bytes) {
            None => Err(Error::Hash),
            Some(would_be) => {
                self.put_elided(id, would_be);
                Ok(())
            },
        }
    }

    fn build(
        &mut self,
        store: &mut Store,
        source: &Id,
        raw: &Vec<u8>,
        tree: &Id,
        parents: &Vec<Id>,
    ) -> (r: Result<Id, Error>)
        ensures
            (state_of(*final(store), *final(self)), id_result(r)) == state_of(
                *old(store),
                *old(self),
            ).build(source@, raw@, tree@, ids_view(parents@)),
    {
        if same_id(tree, &empty_tree_id(store.wide)) {
            let none: Vec<u8> = Vec::new();
            assert(none@ =~= seq![]);
            match store.write(Kind::Tree, none) {
                Ok(_) => {},
                Err(e) => return Err(e),
            }
        }
        let bytes = match replace_ids(raw, store.wide, tree, parents) {
            Ok(b) => b,
            Err(e) => return Err(e),
        };
        match store.write(Kind::Commit, bytes) {
            Err(e) => Err(e),
            Ok(id) => {
                self.put_view_tree(&id, copy_of(tree));
                if !self.grafts.has(&id) {
                    self.put_graft(&id, copy_of(source));
                }
                Ok(id)
            },
        }
    }

    fn decide(
        &mut self,
        store: &mut Store,
        p: &Policy,
        id: &Id,
        raw: &Vec<u8>,
        c: &Commit,
        subtree: Option<Id>,
    ) -> (r: Result<(), Error>)
        ensures
            (state_of(*final(store), *final(self)), done_result(r)) == state_of(
                *old(store),
                *old(self),
            ).decide(p.rules(), id@, raw@, c@, id_view(subtree)),
    {
        let absent = subtree.is_none();
        let tree = match subtree {
            Some(t) => t,
            None => empty_tree_id(store.wide),
        };
        let parents = self.derived_parents(&c.parents);
        let affects = match self.affects(store, &parents, &tree) {
            Ok(b) => b,
            Err(e) => return Err(e),
        };
        let already_empty = self.already_empty(&c.parents, &c.tree);
        let target = match self.trivial_merge_target(store, p, c, &tree, &parents) {
            Ok(t) => t,
            Err(e) => return Err(e),
        };
        let target = match target {
            Some(t) => Some(t),
            None => if is_dropped(p.elide, !affects, already_empty) && parents.len() > 0 {
                Some(copy_of(&parents[0]))
            } else {
                None
            },
        };
        match target {
            Some(t) => {
                match self.record_elided(store, id, raw, &tree, &parents) {
                    Ok(_) => {},
                    Err(e) => return Err(e),
                }
                self.put_commit(id, Some(t));
            },
            None => {
                if absent && parents.len() == 0 {
                    self.put_commit(id, None);
                } else {
                    match self.build(store, id, raw, &tree, &parents) {
                        Ok(v) => self.put_commit(id, Some(v)),
                        Err(e) => return Err(e),
                    }
                }
            },
        }
        Ok(())
    }

    pub fn map_commit(&mut self, store: &mut Store, p: &Policy, id: &Id, raw: &Vec<u8>) -> (r: Result<
        (),
        Error,
    >)
        ensures
            (state_of(*final(store), *final(self)), done_result(r)) == state_of(
                *old(store),
                *old(self),
            ).map_commit(p.rules(), id@, raw@),
    {
        let c = match parse_commit(raw, store.wide) {
            Some(c) => c,
            None => return Err(Error::MalformedCommit),
        };
        let subtree = match self.descend(store, p, &c.tree, 0) {
            Ok(s) => s,
            Err(e) => return Err(e),
        };
        self.put_source_tree(id, copy_of(&c.tree));
        self.decide(store, p, id, raw, &c, subtree)
    }

    pub fn follow(&mut self, store: &Store, id: &Id, raw: &Vec<u8>, first: &Id) -> (r: Result<(), Error>)
        ensures
            (state_of(*store, *final(self)), done_result(r)) == state_of(
                *store,
                *old(self),
            ).follow(id@, raw@, first@),
    {
        let c = match parse_commit(raw, store.wide) {
            Some(c) => c,
            None => return Err(Error::MalformedCommit),
        };
        self.put_source_tree(id, c.tree);
        let mapped = self.mapped(first);
        self.put_commit(id, mapped);
        Ok(())
    }
}

} // verus!
