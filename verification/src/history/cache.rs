//! What deriving has learned, over all filters, and the checks an anchor has
//! to pass before it is learned.
use crate::history::commits::{
    commit_of, hash_of, object_id, parse_commit, replace_ids, replaced,
};
use crate::history::derive::{
    count, counted, done_result, empty_cache, lemma_trees_level, rules_of, trees_of, CacheView,
    FilterCache, Policy, State,
};
use crate::history::error::{Error, ErrorView, Id, Kind};
use crate::history::filter::{component_names, Filter, FilterView};
use crate::history::store::{
    empty_tree, empty_tree_id, id_result, option_result, Store, StoreView,
};
use crate::history::tables::{
    copy_id, copy_ids, has_id, id_view, ids_view, options_of, same_id, Table,
};
use crate::lang::heap::same_text;
use crate::text::{copy_of, Text};
use vstd::prelude::*;

verus! {

/// What was learned under one filter.
pub struct Slot {
    pub filter: Filter,
    pub cache: FilterCache,
}

/// Memoized results, safe to reuse across calls and across filters.
pub struct Cache {
    pub per_filter: Vec<Slot>,
    pub reachable: Table<Vec<Id>>,
    pub ancestry_walks: usize,
    pub exhaustive_derivations: usize,
}

#[verifier::ext_equal]
pub struct Memory {
    /// The filters in the order they were first used.
    pub slots: Seq<(FilterView, CacheView)>,
    /// The commits that are reachable from a revision.
    pub reachable: Map<Seq<u8>, Seq<Seq<u8>>>,
    pub ancestry_walks: usize,
    pub exhaustive_derivations: usize,
}

pub open spec fn slots_of(v: Seq<Slot>) -> Seq<(FilterView, CacheView)> {
    Seq::new(v.len(), |i: int| (v[i].filter@, v[i].cache@))
}

impl View for Cache {
    type V = Memory;

    open spec fn view(&self) -> Memory {
        Memory {
            slots: slots_of(self.per_filter@),
            reachable: self.reachable@.map_values(|v: Vec<Id>| ids_view(v@)),
            ancestry_walks: self.ancestry_walks,
            exhaustive_derivations: self.exhaustive_derivations,
        }
    }
}

/// The first slot from `i` on of a filter, or the end.
pub open spec fn slot_from(slots: Seq<(FilterView, CacheView)>, f: FilterView, i: int) -> int
    decreases slots.len() - i,
{
    if i >= slots.len() || slots[i].0 == f {
        i
    } else {
        slot_from(slots, f, i + 1)
    }
}

proof fn lemma_slot(slots: Seq<(FilterView, CacheView)>, f: FilterView, i: int)
    requires
        0 <= i <= slots.len(),
    ensures
        i <= slot_from(slots, f, i) <= slots.len(),
        slot_from(slots, f, i) < slots.len() ==> slots[slot_from(slots, f, i)].0 == f,
        slot_from(slots, f, i) == slots.len() ==> slot_from(
            slots.push((f, empty_cache())),
            f,
            i,
        ) == slots.len(),
    decreases slots.len() - i,
{
    let more = slots.push((f, empty_cache()));
    if i < slots.len() && slots[i].0 != f {
        lemma_slot(slots, f, i + 1);
        assert(more[i] == slots[i]);
    } else if i == slots.len() {
        assert(more[i].0 == f);
    }
}

/// A sum, up to the largest count.
pub open spec fn capped(a: usize, b: int) -> usize {
    if a + b <= usize::MAX {
        (a + b) as usize
    } else {
        usize::MAX
    }
}

/// The memoized tree lookups of the filters from `i` on, added up.
pub open spec fn tree_entries_from(slots: Seq<(FilterView, CacheView)>, i: int, sum: usize) -> usize
    decreases slots.len() - i,
{
    if i >= slots.len() {
        sum
    } else {
        tree_entries_from(slots, i + 1, capped(sum, slots[i].1.trees.dom().len() as int))
    }
}

/// The memoized commits of the filters from `i` on, added up.
pub open spec fn commit_entries_from(
    slots: Seq<(FilterView, CacheView)>,
    i: int,
    sum: usize,
) -> usize
    decreases slots.len() - i,
{
    if i >= slots.len() {
        sum
    } else {
        commit_entries_from(slots, i + 1, capped(sum, slots[i].1.commits.dom().len() as int))
    }
}

/// The trees read under the filters from `i` on, added up.
pub open spec fn tree_reads_from(slots: Seq<(FilterView, CacheView)>, i: int, sum: usize) -> usize
    decreases slots.len() - i,
{
    if i >= slots.len() {
        sum
    } else {
        tree_reads_from(slots, i + 1, capped(sum, slots[i].1.tree_reads as int))
    }
}

/// The commits read under the filters from `i` on, added up.
pub open spec fn commit_reads_from(slots: Seq<(FilterView, CacheView)>, i: int, sum: usize) -> usize
    decreases slots.len() - i,
{
    if i >= slots.len() {
        sum
    } else {
        commit_reads_from(slots, i + 1, capped(sum, slots[i].1.commit_reads as int))
    }
}

impl Memory {
    /// What was learned under a filter.
    pub open spec fn under(self, f: FilterView) -> CacheView {
        let at = slot_from(self.slots, f, 0);
        if at < self.slots.len() {
            self.slots[at].1
        } else {
            empty_cache()
        }
    }

    /// What is known once this was learned under a filter.
    pub open spec fn learned(self, f: FilterView, c: CacheView) -> Memory {
        let at = slot_from(self.slots, f, 0);
        if at < self.slots.len() {
            Memory { slots: self.slots.update(at, (f, c)), ..self }
        } else {
            Memory { slots: self.slots.push((f, c)), ..self }
        }
    }
}

fn same_filter(a: &Filter, b: &Filter) -> (r: bool)
    ensures
        r == (a@ == b@),
{
    if a.elide != b.elide || a.keep_trivial_merges != b.keep_trivial_merges || a.semantics
        != b.semantics || a.components.len() != b.components.len() {
        assert(a@.components.len() == a.components@.len());
        assert(b@.components.len() == b.components@.len());
        return false;
    }
    let mut i: usize = 0;
    while i < a.components.len()
        invariant
            i <= a.components.len() == b.components.len(),
            forall|j: int| 0 <= j < i ==> a.components@[j]@ == b.components@[j]@,
        decreases a.components.len() - i,
    {
        if !same_text(&a.components[i], &b.components[i]) {
            assert(a@.components[i as int] != b@.components[i as int]);
            return false;
        }
        i += 1;
    }
    assert(a@ =~= b@);
    true
}

fn copy_filter(f: &Filter) -> (r: Filter)
    ensures
        r@ == f@,
{
    let mut components: Vec<Text> = Vec::new();
    let mut i: usize = 0;
    while i < f.components.len()
        invariant
            i <= f.components.len(),
            components@.len() == i,
            forall|j: int| 0 <= j < i ==> components@[j]@ == f.components@[j]@,
        decreases f.components.len() - i,
    {
        components.push(copy_of(&f.components[i]));
        i += 1;
    }
    let r = Filter {
        components,
        elide: f.elide,
        keep_trivial_merges: f.keep_trivial_merges,
        semantics: f.semantics,
    };
    assert(r@ =~= f@);
    r
}

/// A checked starting point for an incremental derivation: a commit of the
/// larger history, and the published view commit of the same snapshot.
#[derive(Debug)]
pub struct DeriveAnchor {
    pub source: Id,
    pub view: Id,
}

/// A parentless view anchor.
pub struct RootAnchor {
    pub bytes: Vec<u8>,
    pub id: Id,
    pub tree: Id,
}

#[verifier::ext_equal]
pub struct RootView {
    pub bytes: Seq<u8>,
    pub id: Seq<u8>,
    pub tree: Seq<u8>,
}

impl StoreView {
    /// The tree at a path, or the empty tree.
    pub open spec fn filtered(self, tree: Seq<u8>, names: Seq<Seq<u8>>) -> Result<
        Seq<u8>,
        ErrorView,
    > {
        match self.subtree(tree, names, 0) {
            Err(e) => Err(e),
            Ok(Some(t)) => Ok(t),
            Ok(None) => Ok(empty_tree(self.wide)),
        }
    }

    /// The parentless commit of one snapshot: the source commit with the
    /// filtered tree, without parents, and every other byte as it was.
    pub open spec fn root_anchor(self, source: Seq<u8>, names: Seq<Seq<u8>>) -> Result<
        RootView,
        ErrorView,
    > {
        match self.commit(source) {
            Err(e) => Err(e),
            Ok(c) => match self.filtered(c.tree, names) {
                Err(e) => Err(e),
                Ok(tree) => match replaced(self.objects[source].data, self.wide, tree, seq![]) {
                    Err(e) => Err(e),
                    Ok(bytes) => match object_id(self.wide, Kind::Commit, bytes) {
                        None => Err(ErrorView::Hash),
                        Some(id) => Ok(RootView { bytes, id, tree }),
                    },
                },
            },
        }
    }

    /// The view tree of a fetched commit that hashes to what is expected.
    pub open spec fn fetched_tree(self, view: Seq<u8>, bytes: Seq<u8>) -> Result<
        Seq<u8>,
        ErrorView,
    > {
        match object_id(self.wide, Kind::Commit, bytes) {
            None => Err(ErrorView::Hash),
            Some(actual) => if actual != view {
                Err(ErrorView::AnchorObjectMismatch { expected: view, actual })
            } else {
                match commit_of(bytes, self.wide) {
                    None => Err(ErrorView::MalformedCommit),
                    Some(c) => Ok(c.tree),
                }
            },
        }
    }
}

impl Memory {
    /// Learns an anchor whose two sides have the same tree.
    pub open spec fn store_anchor(
        self,
        store: StoreView,
        f: FilterView,
        source: Seq<u8>,
        view: Seq<u8>,
        view_tree: Seq<u8>,
    ) -> (Memory, Result<(), ErrorView>) {
        match store.commit(source) {
            Err(e) => (self, Err(e)),
            Ok(c) => match store.filtered(c.tree, component_names(f)) {
                Err(e) => (self, Err(e)),
                Ok(tree) => if tree != view_tree {
                    (
                        self,
                        Err(
                            ErrorView::AnchorTreeMismatch {
                                anchor_source: source,
                                view,
                                source_tree: tree,
                                view_tree,
                            },
                        ),
                    )
                } else {
                    (
                        self.learned(f, self.under(f).anchored(source, view, c.tree, view_tree)),
                        Ok(()),
                    )
                },
            },
        }
    }

    /// Learns what is reachable from a revision, the first time.
    pub open spec fn walked(self, revision: Seq<u8>, reachable: Seq<Seq<u8>>) -> Memory {
        if self.reachable.dom().contains(revision) {
            self
        } else {
            Memory {
                reachable: self.reachable.insert(revision, reachable),
                ancestry_walks: counted(self.ancestry_walks),
                ..self
            }
        }
    }

    /// Learns an anchor whose source is an ancestor of the revision.
    pub open spec fn seed(
        self,
        store: StoreView,
        revision: Seq<u8>,
        reachable: Seq<Seq<u8>>,
        f: FilterView,
        source: Seq<u8>,
        view: Seq<u8>,
        view_tree: Seq<u8>,
    ) -> (Memory, Result<(), ErrorView>) {
        let m = self.walked(revision, reachable);
        if !m.reachable[revision].contains(source) {
            (m, Err(ErrorView::AnchorNotAncestor { anchor_source: source, revision }))
        } else {
            m.store_anchor(store, f, source, view, view_tree)
        }
    }
}

fn filtered(store: &Store, tree: &Id, filter: &Filter) -> (r: Result<Id, Error>)
    ensures
        id_result(r) == store@.filtered(tree@, component_names(filter@)),
{
    match store.filtered_tree(tree, &filter.names()) {
        Err(e) => Err(e),
        Ok(Some(t)) => Ok(t),
        Ok(None) => Ok(empty_tree_id(store.wide)),
    }
}

pub open spec fn root_result(r: Result<RootAnchor, Error>) -> Result<RootView, ErrorView> {
    match r {
        Ok(a) => Ok(RootView { bytes: a.bytes@, id: a.id@, tree: a.tree@ }),
        Err(e) => Err(e@),
    }
}

/// Computes the parentless view anchor for one source snapshot.
pub fn root_anchor(store: &Store, source: &Id, filter: &Filter) -> (r: Result<RootAnchor, Error>)
    ensures
        root_result(r) == store@.root_anchor(source@, component_names(filter@)),
{
    let raw = match store.read_commit(source) {
        Ok(raw) => raw,
        Err(e) => return Err(e),
    };
    let c = match parse_commit(raw, store.wide) {
        Some(c) => c,
        None => return Err(Error::MalformedCommit),
    };
    let tree = match filtered(store, &c.tree, filter) {
        Ok(t) => t,
        Err(e) => return Err(e),
    };
    let none: Vec<Id> = Vec::new();
    assert(ids_view(none@) =~= seq![]);
    let bytes = match replace_ids(raw, store.wide, &tree, &none) {
        Ok(b) => b,
        Err(e) => return Err(e),
    };
    match hash_of(store.wide, Kind::Commit, &bytes) {
        None => Err(Error::Hash),
        Some(id) => Ok(RootAnchor { bytes, id, tree }),
    }
}

/// The id of the parentless view anchor for one source snapshot.
pub fn root_anchor_id(store: &Store, source: &Id, filter: &Filter) -> (r: Result<Id, Error>)
    ensures
        match store@.root_anchor(source@, component_names(filter@)) {
            Ok(a) => r is Ok && r->Ok_0@ == a.id,
            Err(e) => r is Err && r->Err_0@ == e,
        },
{
    match root_anchor(store, source, filter) {
        Ok(a) => Ok(a.id),
        Err(e) => Err(e),
    }
}

fn fetched_tree(store: &Store, view: &Id, bytes: &Vec<u8>) -> (r: Result<Id, Error>)
    ensures
        id_result(r) == store@.fetched_tree(view@, bytes@),
{
    let actual = match hash_of(store.wide, Kind::Commit, bytes) {
        Some(id) => id,
        None => return Err(Error::Hash),
    };
    if !same_id(&actual, view) {
        return Err(Error::AnchorObjectMismatch { expected: copy_of(view), actual });
    }
    match parse_commit(bytes, store.wide) {
        Some(c) => Ok(c.tree),
        None => Err(Error::MalformedCommit),
    }
}

impl Cache {
    /// An empty cache.
    pub fn new() -> (r: Cache)
        ensures
            r@.slots == Seq::<(FilterView, CacheView)>::empty(),
            r@.reachable == Map::<Seq<u8>, Seq<Seq<u8>>>::empty(),
            r@.ancestry_walks == 0,
            r@.exhaustive_derivations == 0,
    {
        let r = Cache {
            per_filter: Vec::new(),
            reachable: Table::new(),
            ancestry_walks: 0,
            exhaustive_derivations: 0,
        };
        assert(r@.slots =~= Seq::<(FilterView, CacheView)>::empty());
        assert(r@.reachable =~= Map::<Seq<u8>, Seq<Seq<u8>>>::empty());
        r
    }

    fn find(&self, filter: &Filter) -> (r: usize)
        ensures
            r == slot_from(self@.slots, filter@, 0),
            r <= self.per_filter.len(),
    {
        let mut i: usize = 0;
        while i < self.per_filter.len() && !same_filter(&self.per_filter[i].filter, filter)
            invariant
                i <= self.per_filter.len(),
                slot_from(self@.slots, filter@, 0) == slot_from(self@.slots, filter@, i as int),
            decreases self.per_filter.len() - i,
        {
            assert(self@.slots[i as int].0 == self.per_filter@[i as int].filter@);
            i += 1;
        }
        proof {
            if i < self.per_filter.len() {
                assert(self@.slots[i as int].0 == self.per_filter@[i as int].filter@);
            }
        }
        i
    }

    /// The slot of a filter, made where there is none.
    pub fn slot(&mut self, filter: &Filter) -> (r: usize)
        ensures
            r < final(self).per_filter.len(),
            r == slot_from(final(self)@.slots, filter@, 0),
            final(self)@ == old(self)@.learned(filter@, old(self)@.under(filter@)),
            final(self).per_filter@[r as int].cache@ == old(self)@.under(filter@),
            final(self).per_filter@[r as int].filter@ == filter@,
            forall|c: CacheView| #[trigger]
                final(self)@.learned(filter@, c) == old(self)@.learned(filter@, c),
    {
        let at = self.find(filter);
        let ghost before = self@;
        proof {
            lemma_slot(before.slots, filter@, 0);
        }
        if at >= self.per_filter.len() {
            self.per_filter.push(Slot { filter: copy_filter(filter), cache: FilterCache::new() });
            assert(self@.slots =~= before.slots.push((filter@, empty_cache())));
        } else {
            assert(self@.slots[at as int].0 == self.per_filter@[at as int].filter@);
        }
        proof {
            assert(self@ =~= before.learned(filter@, before.under(filter@)));
            assert forall|c: CacheView| #[trigger]
                self@.learned(filter@, c) == before.learned(filter@, c) by {
                assert(self@.learned(filter@, c) =~= before.learned(filter@, c));
            }
            assert(self@.slots[at as int] == (filter@, before.under(filter@)));
        }
        at
    }

    /// How many tree lookups are memoized, over all filters.
    pub fn tree_entries(&self) -> (r: usize)
        ensures
            r == tree_entries_from(self@.slots, 0, 0),
    {
        let mut sum: usize = 0;
        let mut i: usize = 0;
        while i < self.per_filter.len()
            invariant
                i <= self.per_filter.len(),
                tree_entries_from(self@.slots, i as int, sum) == tree_entries_from(
                    self@.slots,
                    0,
                    0,
                ),
            decreases self.per_filter.len() - i,
        {
            let trees = &self.per_filter[i].cache.trees;
            let mut k: usize = 0;
            let ghost start = sum;
            proof {
                assert(trees_of(trees@.take(0)).dom() =~= Set::empty());
            }
            while k < trees.len()
                invariant
                    k <= trees.len(),
                    trees_of(trees@.take(k as int)).dom().finite(),
                    sum == capped(start, trees_of(trees@.take(k as int)).dom().len() as int),
                decreases trees.len() - k,
            {
                sum = sum.saturating_add(trees[k].len());
                proof {
                    lemma_trees_level(trees@, k as int);
                }
                k += 1;
            }
            assert(trees@.take(k as int) =~= trees@);
            assert(self@.slots[i as int].1 == self.per_filter@[i as int].cache@);
            i += 1;
        }
        sum
    }

    /// How many commits are memoized, over all filters.
    pub fn commit_entries(&self) -> (r: usize)
        ensures
            r == commit_entries_from(self@.slots, 0, 0),
    {
        let mut sum: usize = 0;
        let mut i: usize = 0;
        while i < self.per_filter.len()
            invariant
                i <= self.per_filter.len(),
                commit_entries_from(self@.slots, i as int, sum) == commit_entries_from(
                    self@.slots,
                    0,
                    0,
                ),
            decreases self.per_filter.len() - i,
        {
            let commits = &self.per_filter[i].cache.commits;
            sum = sum.saturating_add(commits.len());
            assert(self@.slots[i as int].1 == self.per_filter@[i as int].cache@);
            assert(options_of(*commits).dom() =~= commits@.dom());
            i += 1;
        }
        sum
    }

    /// How many trees have been read, over all filters.
    pub fn tree_reads(&self) -> (r: usize)
        ensures
            r == tree_reads_from(self@.slots, 0, 0),
    {
        let mut sum: usize = 0;
        let mut i: usize = 0;
        while i < self.per_filter.len()
            invariant
                i <= self.per_filter.len(),
                tree_reads_from(self@.slots, i as int, sum) == tree_reads_from(self@.slots, 0, 0),
            decreases self.per_filter.len() - i,
        {
            assert(self@.slots[i as int].1 == self.per_filter@[i as int].cache@);
            sum = sum.saturating_add(self.per_filter[i].cache.tree_reads);
            i += 1;
        }
        sum
    }

    /// How many source commits deriving has read, over all filters.
    pub fn commit_reads(&self) -> (r: usize)
        ensures
            r == commit_reads_from(self@.slots, 0, 0),
    {
        let mut sum: usize = 0;
        let mut i: usize = 0;
        while i < self.per_filter.len()
            invariant
                i <= self.per_filter.len(),
                commit_reads_from(self@.slots, i as int, sum) == commit_reads_from(
                    self@.slots,
                    0,
                    0,
                ),
            decreases self.per_filter.len() - i,
        {
            assert(self@.slots[i as int].1 == self.per_filter@[i as int].cache@);
            sum = sum.saturating_add(self.per_filter[i].cache.commit_reads);
            i += 1;
        }
        sum
    }

    /// How many ancestries have been learned.
    pub fn ancestry_walks(&self) -> (r: usize)
        ensures
            r == self@.ancestry_walks,
    {
        self.ancestry_walks
    }

    /// How many exhaustive derivations have been requested.
    pub fn exhaustive_derivations(&self) -> (r: usize)
        ensures
            r == self@.exhaustive_derivations,
    {
        self.exhaustive_derivations
    }

    /// Discards what was learned under a filter, and keeps what is known of
    /// ancestry.
    pub fn discard_filter(&mut self, filter: &Filter)
        ensures
            final(self)@ == (Memory {
                slots: if slot_from(old(self)@.slots, filter@, 0) < old(self)@.slots.len() {
                    old(self)@.slots.remove(slot_from(old(self)@.slots, filter@, 0))
                } else {
                    old(self)@.slots
                },
                ..old(self)@
            }),
    {
        let at = self.find(filter);
        if at < self.per_filter.len() {
            let ghost before = self@.slots;
            let _ = self.per_filter.remove(at);
            assert(self@.slots =~= before.remove(at as int));
        }
    }

    /// The view commit that a commit maps to, if it was derived. A derived
    /// commit has no counterpart where nothing of the path exists in its
    /// ancestry.
    pub fn derived(&self, commit: &Id, filter: &Filter) -> (r: Option<Option<Id>>)
        ensures
            match r {
                Some(v) => self@.under(filter@).commits.dom().contains(commit@) && id_view(v)
                    == self@.under(filter@).commits[commit@],
                None => !self@.under(filter@).commits.dom().contains(commit@),
            },
    {
        let at = self.find(filter);
        if at >= self.per_filter.len() {
            return None;
        }
        assert(self@.slots[at as int].1 == self.per_filter@[at as int].cache@);
        match self.per_filter[at].cache.commits.get(commit) {
            Some(v) => Some(copy_id(v)),
            None => None,
        }
    }

    /// The view commit that a commit would have been, had the view not dropped
    /// it.
    pub fn elided(&self, commit: &Id, filter: &Filter) -> (r: Option<Id>)
        ensures
            match r {
                Some(v) => self@.under(filter@).elided.dom().contains(commit@) && v@
                    == self@.under(filter@).elided[commit@],
                None => !self@.under(filter@).elided.dom().contains(commit@),
            },
    {
        let at = self.find(filter);
        if at >= self.per_filter.len() {
            return None;
        }
        assert(self@.slots[at as int].1 == self.per_filter@[at as int].cache@);
        match self.per_filter[at].cache.elided.get(commit) {
            Some(v) => Some(copy_of(v)),
            None => None,
        }
    }

    fn store_anchor(
        &mut self,
        store: &Store,
        filter: &Filter,
        anchor: &DeriveAnchor,
        view_tree: Id,
    ) -> (r: Result<(), Error>)
        ensures
            (final(self)@, done_result(r)) == old(self)@.store_anchor(
                store@,
                filter@,
                anchor.source@,
                anchor.view@,
                view_tree@,
            ),
    {
        let source_tree = match store.commit_tree(&anchor.source) {
            Ok(t) => t,
            Err(e) => return Err(e),
        };
        let tree = match filtered(store, &source_tree, filter) {
            Ok(t) => t,
            Err(e) => return Err(e),
        };
        if !same_id(&tree, &view_tree) {
            return Err(
                Error::AnchorTreeMismatch {
                    anchor_source: copy_of(&anchor.source),
                    view: copy_of(&anchor.view),
                    source_tree: tree,
                    view_tree,
                },
            );
        }
        let ghost before = self@;
        let at = self.slot(filter);
        let ghost mid = self@;
        let ghost c = before.under(filter@).anchored(
            anchor.source@,
            anchor.view@,
            source_tree@,
            view_tree@,
        );
        self.per_filter[at].cache.learn_anchor(&anchor.source, &anchor.view, source_tree, view_tree);
        proof {
            assert(self@.slots =~= mid.slots.update(at as int, (filter@, c)));
            assert(self@ =~= mid.learned(filter@, c));
        }
        Ok(())
    }

    /// Whether the commits reachable from a revision are known.
    pub fn knows_ancestry(&self, revision: &Id) -> (r: bool)
        ensures
            r == self@.reachable.dom().contains(revision@),
    {
        self.reachable.has(revision)
    }

    fn learn_reachable(&mut self, revision: &Id, reachable: &Vec<Id>)
        ensures
            final(self)@ == old(self)@.walked(revision@, ids_view(reachable@)),
    {
        if !self.reachable.has(revision) {
            let ghost before = self@;
            let all = copy_ids(reachable);
            self.reachable.put(copy_of(revision), all);
            self.ancestry_walks = count(self.ancestry_walks);
            assert(self@.reachable =~= before.reachable.insert(
                revision@,
                ids_view(reachable@),
            ));
        }
    }

    fn seed_with_tree(
        &mut self,
        store: &Store,
        revision: &Id,
        reachable: &Vec<Id>,
        filter: &Filter,
        anchor: &DeriveAnchor,
        view_tree: Id,
    ) -> (r: Result<(), Error>)
        ensures
            (final(self)@, done_result(r)) == old(self)@.seed(
                store@,
                revision@,
                ids_view(reachable@),
                filter@,
                anchor.source@,
                anchor.view@,
                view_tree@,
            ),
    {
        self.learn_reachable(revision, reachable);
        assert(self@.reachable.dom().contains(revision@));
        assert(self.reachable@.dom().contains(revision@));
        assert(self@.reachable[revision@] == ids_view(self.reachable@[revision@]@));
        let ancestor = match self.reachable.get(revision) {
            Some(all) => has_id(all, &anchor.source),
            None => false,
        };
        if !ancestor {
            return Err(
                Error::AnchorNotAncestor {
                    anchor_source: copy_of(&anchor.source),
                    revision: copy_of(revision),
                },
            );
        }
        self.store_anchor(store, filter, anchor, view_tree)
    }

    /// Validates and learns an anchor for an incremental derivation.
    ///
    /// Both commits must be there, the source must be an ancestor of the
    /// revision, and its filtered tree must be the view commit's tree.
    /// `reachable` is what a walk from the revision visits; it is only looked
    /// at where that is not [known](Self::knows_ancestry).
    pub fn seed_anchor(
        &mut self,
        store: &Store,
        revision: &Id,
        reachable: &Vec<Id>,
        filter: &Filter,
        anchor: &DeriveAnchor,
    ) -> (r: Result<(), Error>)
        ensures
            (final(self)@, done_result(r)) == match store@.commit_tree(anchor.view@) {
                Err(e) => (old(self)@, Err(e)),
                Ok(view_tree) => old(self)@.seed(
                    store@,
                    revision@,
                    ids_view(reachable@),
                    filter@,
                    anchor.source@,
                    anchor.view@,
                    view_tree,
                ),
            },
    {
        match store.commit_tree(&anchor.view) {
            Err(e) => Err(e),
            Ok(view_tree) => self.seed_with_tree(
                store,
                revision,
                reachable,
                filter,
                anchor,
                view_tree,
            ),
        }
    }

    /// Learns an anchor whose source is known to be an ancestor of the exact
    /// revision that is derived. Everything else is still checked.
    pub fn seed_anchor_after_ancestry_check(
        &mut self,
        store: &Store,
        filter: &Filter,
        anchor: &DeriveAnchor,
    ) -> (r: Result<(), Error>)
        ensures
            (final(self)@, done_result(r)) == match store@.commit_tree(anchor.view@) {
                Err(e) => (old(self)@, Err(e)),
                Ok(view_tree) => old(self)@.store_anchor(
                    store@,
                    filter@,
                    anchor.source@,
                    anchor.view@,
                    view_tree,
                ),
            },
    {
        match store.commit_tree(&anchor.view) {
            Err(e) => Err(e),
            Ok(view_tree) => self.store_anchor(store, filter, anchor, view_tree),
        }
    }

    /// Validates and learns an anchor that was fetched without its ancestry.
    /// Its bytes are hashed before they are trusted.
    pub fn validate_fetched_anchor(
        &mut self,
        store: &Store,
        revision: &Id,
        reachable: &Vec<Id>,
        filter: &Filter,
        anchor: &DeriveAnchor,
        view_commit: &Vec<u8>,
    ) -> (r: Result<(), Error>)
        ensures
            (final(self)@, done_result(r)) == match store@.fetched_tree(
                anchor.view@,
                view_commit@,
            ) {
                Err(e) => (old(self)@, Err(e)),
                Ok(view_tree) => old(self)@.seed(
                    store@,
                    revision@,
                    ids_view(reachable@),
                    filter@,
                    anchor.source@,
                    anchor.view@,
                    view_tree,
                ),
            },
    {
        match fetched_tree(store, &anchor.view, view_commit) {
            Err(e) => Err(e),
            Ok(view_tree) => self.seed_with_tree(
                store,
                revision,
                reachable,
                filter,
                anchor,
                view_tree,
            ),
        }
    }

    /// Validates and learns fetched anchor bytes whose source is known to be
    /// an ancestor of the exact revision that is derived.
    pub fn validate_fetched_anchor_after_ancestry_check(
        &mut self,
        store: &Store,
        filter: &Filter,
        anchor: &DeriveAnchor,
        view_commit: &Vec<u8>,
    ) -> (r: Result<(), Error>)
        ensures
            (final(self)@, done_result(r)) == match store@.fetched_tree(
                anchor.view@,
                view_commit@,
            ) {
                Err(e) => (old(self)@, Err(e)),
                Ok(view_tree) => old(self)@.store_anchor(
                    store@,
                    filter@,
                    anchor.source@,
                    anchor.view@,
                    view_tree,
                ),
            },
    {
        match fetched_tree(store, &anchor.view, view_commit) {
            Err(e) => Err(e),
            Ok(view_tree) => self.store_anchor(store, filter, anchor, view_tree),
        }
    }

    /// Creates a parentless anchor whose source is known to be an ancestor of
    /// the exact revision that is derived. The expected id is checked before
    /// anything is written.
    pub fn create_root_anchor_after_ancestry_check(
        &mut self,
        store: &mut Store,
        filter: &Filter,
        anchor: &DeriveAnchor,
    ) -> (r: Result<(), Error>)
        ensures
            (final(self)@, final(store)@, done_result(r)) == old(self)@.create_root(
                old(store)@,
                filter@,
                anchor.source@,
                anchor.view@,
            ),
    {
        let root = match root_anchor(store, &anchor.source, filter) {
            Ok(a) => a,
            Err(e) => return Err(e),
        };
        if !same_id(&root.id, &anchor.view) {
            return Err(
                Error::AnchorObjectMismatch { expected: copy_of(&anchor.view), actual: root.id },
            );
        }
        match self.store_anchor(store, filter, anchor, root.tree) {
            Ok(_) => {},
            Err(e) => return Err(e),
        }
        match store.write(Kind::Commit, root.bytes) {
            Ok(_) => Ok(()),
            Err(e) => Err(e),
        }
    }
}

impl Memory {
    /// Creates a parentless anchor.
    pub open spec fn create_root(
        self,
        store: StoreView,
        f: FilterView,
        source: Seq<u8>,
        view: Seq<u8>,
    ) -> (Memory, StoreView, Result<(), ErrorView>) {
        match store.root_anchor(source, component_names(f)) {
            Err(e) => (self, store, Err(e)),
            Ok(a) => if a.id != view {
                (
                    self,
                    store,
                    Err(ErrorView::AnchorObjectMismatch { expected: view, actual: a.id }),
                )
            } else {
                match self.store_anchor(store, f, source, view, a.tree) {
                    (m, Err(e)) => (m, store, Err(e)),
                    (m, Ok(_)) => match store.write(Kind::Commit, a.bytes) {
                        (s, Err(e)) => (m, s, Err(e)),
                        (s, Ok(_)) => (m, s, Ok(())),
                    },
                }
            },
        }
    }

    /// Derives the view commit of a source commit.
    pub open spec fn derive(self, store: StoreView, f: FilterView, prune: bool, head: Seq<u8>) -> (
        Memory,
        StoreView,
        Result<Option<Seq<u8>>, ErrorView>,
    ) {
        let out = State { store, cache: self.under(f) }.derived(rules_of(f), prune, head);
        (self.learned(f, out.0.cache), out.0.store, out.1)
    }
}

fn derive_with(store: &mut Store, commit: &Id, filter: &Filter, cache: &mut Cache, prune: bool) -> (r: Result<
    Option<Id>,
    Error,
>)
    ensures
        (final(cache)@, final(store)@, option_result(r)) == old(cache)@.derive(
            old(store)@,
            filter@,
            prune,
            commit@,
        ),
{
    let ghost before = cache@;
    let p = Policy::of(filter);
    let at = cache.slot(filter);
    let ghost mid = cache@;
    let r = cache.per_filter[at].cache.run(store, &p, prune, commit);
    proof {
        let c = cache.per_filter@[at as int].cache@;
        assert(cache@.slots =~= mid.slots.update(at as int, (filter@, c)));
        assert(cache@ =~= mid.learned(filter@, c));
    }
    r
}

/// Derives the view commit for a commit under a filter.
///
/// There is none when no commit reachable from it contains the filtered path
/// at all. This is a function of the commit, the filter and the objects; what
/// it produces is written to the store.
pub fn derive(store: &mut Store, commit: &Id, filter: &Filter, cache: &mut Cache) -> (r: Result<
    Option<Id>,
    Error,
>)
    ensures
        (final(cache)@, final(store)@, option_result(r)) == (Memory {
            exhaustive_derivations: counted(old(cache)@.exhaustive_derivations),
            ..old(cache)@
        }).derive(old(store)@, filter@, false, commit@),
{
    cache.exhaustive_derivations = count(cache.exhaustive_derivations);
    derive_with(store, commit, filter, cache, false)
}

/// Derives only the requested view tip, without looking at histories which
/// cannot affect it.
pub fn derive_tip(store: &mut Store, commit: &Id, filter: &Filter, cache: &mut Cache) -> (r: Result<
    Option<Id>,
    Error,
>)
    ensures
        (final(cache)@, final(store)@, option_result(r)) == old(cache)@.derive(
            old(store)@,
            filter@,
            true,
            commit@,
        ),
{
    derive_with(store, commit, filter, cache, true)
}

} // verus!
