//! Lifting a commit of a view back into the larger history.
use crate::history::cache::{Cache, Memory};
use crate::history::commits::{parse_commit, replace_ids, replaced};
use crate::history::derive::{CacheView, FilterCache, State};
use crate::history::error::{Error, ErrorView, Id, Kind};
use crate::history::filter::{component_names, names_view, Filter, FilterView, Semantics};
use crate::history::store::{id_result, Store, StoreView};
use crate::history::tables::{id_view, ids_view, same_id};
use crate::text::copy_of;
use vstd::prelude::*;

verus! {

impl CacheView {
    /// The view commit that `onto` stands for, where the rules say that it is
    /// preferred to other counterparts.
    pub open spec fn onto_view(self, semantics: Semantics, onto: Seq<u8>) -> Option<Seq<u8>> {
        match semantics {
            Semantics::V1 => None,
            Semantics::V2 => self.mapped(onto),
        }
    }

    /// The counterpart of one parent: `onto` where it stands for the parent,
    /// else the one that is known. A single unknown parent lands on `onto`.
    pub open spec fn counterpart(
        self,
        semantics: Semantics,
        onto: Seq<u8>,
        parent: Seq<u8>,
        single: bool,
    ) -> Option<Seq<u8>> {
        if self.onto_view(semantics, onto) == Some(parent) {
            Some(onto)
        } else if self.grafts.dom().contains(parent) {
            Some(self.grafts[parent])
        } else if single {
            Some(onto)
        } else {
            None
        }
    }

    /// The counterparts of the parents from `i` on, behind those already
    /// found.
    pub open spec fn counterparts(
        self,
        semantics: Semantics,
        onto: Seq<u8>,
        parents: Seq<Seq<u8>>,
        i: int,
        found: Seq<Seq<u8>>,
    ) -> Result<Seq<Seq<u8>>, ErrorView>
        decreases parents.len() - i,
    {
        if i >= parents.len() {
            Ok(found)
        } else {
            match self.counterpart(semantics, onto, parents[i], parents.len() == 1) {
                Some(p) => self.counterparts(semantics, onto, parents, i + 1, found.push(p)),
                None => Err(ErrorView::Ungrafted { id: parents[i] }),
            }
        }
    }
}

impl State {
    /// Lifts a commit of the view on top of `onto`.
    ///
    /// Its parents are its parents' counterparts, and its tree is the first
    /// parent's with the filtered path replaced, or `onto`'s where it has no
    /// parents. Every other byte is kept.
    pub open spec fn lift(
        self,
        names: Seq<Seq<u8>>,
        semantics: Semantics,
        id: Seq<u8>,
        onto: Seq<u8>,
    ) -> (State, Result<Seq<u8>, ErrorView>) {
        match self.store.commit(id) {
            Err(e) => (self, Err(e)),
            Ok(c) => match self.cache.counterparts(semantics, onto, c.parents, 0, seq![]) {
                Err(e) => (self, Err(e)),
                Ok(parents) => {
                    let base = if parents.len() > 0 {
                        parents[0]
                    } else {
                        onto
                    };
                    match self.store.commit_tree(base) {
                        Err(e) => (self, Err(e)),
                        Ok(base_tree) => self.place(
                            id,
                            self.store.objects[id].data,
                            c.tree,
                            parents,
                            self.store.graft(base_tree, names, 0, c.tree),
                        ),
                    }
                },
            },
        }
    }

    /// Writes a lifted commit once its tree was grafted.
    pub open spec fn place(
        self,
        id: Seq<u8>,
        raw: Seq<u8>,
        view_tree: Seq<u8>,
        parents: Seq<Seq<u8>>,
        grafted: (StoreView, Result<Seq<u8>, ErrorView>),
    ) -> (State, Result<Seq<u8>, ErrorView>) {
        match grafted {
            (s, Err(e)) => (State { store: s, ..self }, Err(e)),
            (s, Ok(tree)) => match replaced(raw, s.wide, tree, parents) {
                Err(e) => (State { store: s, ..self }, Err(e)),
                Ok(bytes) => match s.write(Kind::Commit, bytes) {
                    (t, Err(e)) => (State { store: t, ..self }, Err(e)),
                    (t, Ok(lifted)) => (
                        State { store: t, cache: self.cache.lifted(id, lifted, view_tree) },
                        Ok(lifted),
                    ),
                },
            },
        }
    }
}

impl Memory {
    pub open spec fn unfilter(self, store: StoreView, f: FilterView, id: Seq<u8>, onto: Seq<u8>) -> (
        Memory,
        StoreView,
        Result<Seq<u8>, ErrorView>,
    ) {
        let out = State { store, cache: self.under(f) }.lift(
            component_names(f),
            f.semantics,
            id,
            onto,
        );
        (self.learned(f, out.0.cache), out.0.store, out.1)
    }
}

impl FilterCache {
    fn counterparts(&self, semantics: Semantics, onto: &Id, parents: &Vec<Id>) -> (r: Result<
        Vec<Id>,
        Error,
    >)
        ensures
            match r {
                Ok(v) => self@.counterparts(semantics, onto@, ids_view(parents@), 0, seq![]) == Ok::<
                    Seq<Seq<u8>>,
                    ErrorView,
                >(ids_view(v@)),
                Err(e) => self@.counterparts(semantics, onto@, ids_view(parents@), 0, seq![])
                    == Err::<Seq<Seq<u8>>, ErrorView>(e@),
            },
    {
        let ghost all = ids_view(parents@);
        let preferred = match semantics {
            Semantics::V1 => None,
            Semantics::V2 => self.mapped(onto),
        };
        let mut out: Vec<Id> = Vec::new();
        let mut i: usize = 0;
        assert(ids_view(out@) =~= seq![]);
        while i < parents.len()
            invariant
                i <= parents.len(),
                all == ids_view(parents@),
                id_view(preferred) == self@.onto_view(semantics, onto@),
                self@.counterparts(semantics, onto@, all, 0, seq![]) == self@.counterparts(
                    semantics,
                    onto@,
                    all,
                    i as int,
                    ids_view(out@),
                ),
            decreases parents.len() - i,
        {
            assert(all[i as int] == parents@[i as int]@);
            let on = match &preferred {
                Some(v) => same_id(v, &parents[i]),
                None => false,
            };
            let p = if on {
                copy_of(onto)
            } else {
                match self.grafts.get(&parents[i]) {
                    Some(g) => copy_of(g),
                    None => {
                        if parents.len() != 1 {
                            return Err(Error::Ungrafted { id: copy_of(&parents[i]) });
                        }
                        copy_of(onto)
                    },
                }
            };
            let ghost before = out@;
            let ghost id = p@;
            out.push(p);
            assert(ids_view(out@) =~= ids_view(before).push(id));
            i += 1;
        }
        Ok(out)
    }

    fn lift(
        &mut self,
        store: &mut Store,
        names: &Vec<Vec<u8>>,
        semantics: Semantics,
        id: &Id,
        onto: &Id,
    ) -> (r: Result<Id, Error>)
        ensures
            ((State { store: final(store)@, cache: final(self)@ }), id_result(r)) == (State {
                store: old(store)@,
                cache: old(self)@,
            }).lift(names_view(names@), semantics, id@, onto@),
    {
        let raw = match store.read_commit(id) {
            Ok(raw) => copy_of(raw),
            Err(e) => return Err(e),
        };
        let c = match parse_commit(&raw, store.wide) {
            Some(c) => c,
            None => return Err(Error::MalformedCommit),
        };
        let parents = match self.counterparts(semantics, onto, &c.parents) {
            Ok(v) => v,
            Err(e) => return Err(e),
        };
        let base = if parents.len() > 0 {
            copy_of(&parents[0])
        } else {
            copy_of(onto)
        };
        let base_tree = match store.commit_tree(&base) {
            Ok(t) => t,
            Err(e) => return Err(e),
        };
        let tree = match store.graft_tree(&base_tree, names, 0, &c.tree) {
            Ok(t) => t,
            Err(e) => return Err(e),
        };
        let bytes = match replace_ids(&raw, store.wide, &tree, &parents) {
            Ok(b) => b,
            Err(e) => return Err(e),
        };
        let lifted = match store.write(Kind::Commit, bytes) {
            Ok(id) => id,
            Err(e) => return Err(e),
        };
        self.learn_lift(id, &lifted, c.tree);
        Ok(lifted)
    }
}

/// Lifts a commit of a view back into the larger history on top of `onto`.
///
/// The cache learns where it went, so that a later lift of a descendant finds
/// it. Lifting an entire history, parents first, is exactly the injection that
/// deriving undoes.
pub fn unfilter(store: &mut Store, commit: &Id, onto: &Id, filter: &Filter, cache: &mut Cache) -> (r: Result<
    Id,
    Error,
>)
    ensures
        (final(cache)@, final(store)@, id_result(r)) == old(cache)@.unfilter(
            old(store)@,
            filter@,
            commit@,
            onto@,
        ),
{
    let ghost before = cache@;
    let names = filter.names();
    let at = cache.slot(filter);
    let ghost mid = cache@;
    let r = cache.per_filter[at].cache.lift(store, &names, filter.semantics, commit, onto);
    proof {
        let c = cache.per_filter@[at as int].cache@;
        assert(cache@.slots =~= mid.slots.update(at as int, (filter@, c)));
        assert(cache@ =~= mid.learned(filter@, c));
    }
    r
}

} // verus!
