//! Walking a history, parents first, with an explicit stack: the histories
//! this is for are hundreds of thousands of commits deep.
use crate::history::commits::{commit_of, parse_commit, Commit, CommitView};
use crate::history::derive::{count, drops, state_of, FilterCache, Policy, Rules, State};
use crate::history::error::{Error, ErrorView, Id};
use crate::history::filter::Elide;
use crate::history::store::{option_result, Store};
use crate::history::tables::{id_view, ids_view, same_id};
use crate::text::copy_of;
use vstd::prelude::*;

verus! {

/// One step of a walk.
pub enum Job {
    /// Resolve the commit's parents first.
    Enter(Id),
    /// The parents are resolved, so map this commit.
    Settle(Id),
    /// The commit's result is that of another one.
    Follow(Id, Id),
}

pub enum Step {
    Enter(Seq<u8>),
    Settle(Seq<u8>),
    Follow(Seq<u8>, Seq<u8>),
}

impl View for Job {
    type V = Step;

    open spec fn view(&self) -> Step {
        match self {
            Job::Enter(id) => Step::Enter(id@),
            Job::Settle(id) => Step::Settle(id@),
            Job::Follow(id, first) => Step::Follow(id@, first@),
        }
    }
}

pub open spec fn jobs_view(v: Seq<Job>) -> Seq<Step> {
    Seq::new(v.len(), |i: int| v[i]@)
}

pub open spec fn step_id(s: Step) -> Seq<u8> {
    match s {
        Step::Enter(id) => id,
        Step::Settle(id) => id,
        Step::Follow(id, _) => id,
    }
}

/// What the parents of a commit look like: their trees, before and after
/// filtering.
pub struct Gathered {
    pub trees: Seq<Seq<u8>>,
    pub filtered: Seq<Option<Seq<u8>>>,
}

/// Whether a merge is its first parent in the view, whatever the histories
/// of the other parents are.
pub open spec fn first_decides(r: Rules, c: CommitView, tree: Seq<u8>, g: Gathered) -> bool {
    let all_match = forall|i: int| 0 <= i < g.filtered.len() ==> #[trigger] g.filtered[i] == Some(tree);
    let already_empty = forall|i: int| 0 <= i < g.trees.len() ==> #[trigger] g.trees[i] == c.tree;
    let distinct = exists|i: int|
        1 <= i < g.filtered.len() && #[trigger] g.filtered[i] is Some && g.filtered[i] != Some(tree);
    &&& g.filtered.len() > 0
    &&& g.filtered[0] == Some(tree)
    &&& (all_match && drops(r.elide, true, already_empty)) || (g.trees[0] != c.tree && distinct)
}

impl State {
    /// Looks at the parents from `i` on.
    pub open spec fn gather(self, r: Rules, sources: Seq<Seq<u8>>, i: int, g: Gathered) -> (
        State,
        Result<Gathered, ErrorView>,
    )
        decreases sources.len() - i,
    {
        if i >= sources.len() {
            (self, Ok(g))
        } else {
            let s = self.reading();
            match s.store.commit(sources[i]) {
                Err(e) => (s, Err(e)),
                Ok(c) => match s.descend(r, c.tree, 0) {
                    (t, Err(e)) => (t, Err(e)),
                    (t, Ok(f)) => t.knowing_source(sources[i], c.tree).gather(
                        r,
                        sources,
                        i + 1,
                        Gathered { trees: g.trees.push(c.tree), filtered: g.filtered.push(f) },
                    ),
                },
            }
        }
    }

    /// The first parent, when later histories cannot change this commit.
    pub open spec fn prunable_first_parent(self, r: Rules, c: CommitView) -> (
        State,
        Result<Option<Seq<u8>>, ErrorView>,
    ) {
        if c.parents.len() < 2 || r.keep_trivial_merges {
            (self, Ok(None))
        } else {
            match self.descend(r, c.tree, 0) {
                (s, Err(e)) => (s, Err(e)),
                (s, Ok(None)) => (s, Ok(None)),
                (s, Ok(Some(tree))) => match s.gather(
                    r,
                    c.parents,
                    0,
                    Gathered { trees: seq![], filtered: seq![] },
                ) {
                    (t, Err(e)) => (t, Err(e)),
                    (t, Ok(g)) => if first_decides(r, c, tree, g) {
                        (t, Ok(Some(c.parents[0])))
                    } else {
                        (t, Ok(None))
                    },
                },
            }
        }
    }

    /// The first `n` parents that are not mapped yet.
    pub open spec fn pending(self, parents: Seq<Seq<u8>>, n: int) -> Seq<Step>
        decreases n,
    {
        if n <= 0 {
            seq![]
        } else if self.cache.commits.dom().contains(parents[n - 1]) {
            self.pending(parents, n - 1)
        } else {
            self.pending(parents, n - 1).push(Step::Enter(parents[n - 1]))
        }
    }

    /// Maps a commit, or resolves its parents first.
    pub open spec fn expand(
        self,
        r: Rules,
        rest: Seq<Step>,
        id: Seq<u8>,
        raw: Seq<u8>,
        c: CommitView,
    ) -> (State, Result<Seq<Step>, ErrorView>) {
        let pending = self.pending(c.parents, c.parents.len() as int);
        if pending.len() == 0 {
            match self.map_commit(r, id, raw) {
                (s, Err(e)) => (s, Err(e)),
                (s, Ok(_)) => (s, Ok(rest)),
            }
        } else {
            (self, Ok(rest.push(Step::Settle(id)) + pending))
        }
    }

    pub open spec fn followed(
        self,
        rest: Seq<Step>,
        id: Seq<u8>,
        raw: Seq<u8>,
        first: Seq<u8>,
    ) -> (State, Result<Seq<Step>, ErrorView>) {
        match self.follow(id, raw, first) {
            (s, Err(e)) => (s, Err(e)),
            (s, Ok(_)) => (s, Ok(rest)),
        }
    }

    /// Enters a commit.
    pub open spec fn enter(
        self,
        r: Rules,
        prune: bool,
        rest: Seq<Step>,
        id: Seq<u8>,
        raw: Seq<u8>,
    ) -> (State, Result<Seq<Step>, ErrorView>) {
        match commit_of(raw, self.store.wide) {
            None => (self, Err(ErrorView::MalformedCommit)),
            Some(c) => if !prune {
                self.expand(r, rest, id, raw, c)
            } else {
                match self.prunable_first_parent(r, c) {
                    (s, Err(e)) => (s, Err(e)),
                    (s, Ok(None)) => s.expand(r, rest, id, raw, c),
                    (s, Ok(Some(first))) => if s.cache.commits.dom().contains(first) {
                        s.followed(rest, id, raw, first)
                    } else {
                        (s, Ok(rest.push(Step::Follow(id, first)).push(Step::Enter(first))))
                    },
                }
            },
        }
    }

    /// Takes one step, with the steps behind it.
    pub open spec fn step(self, r: Rules, prune: bool, rest: Seq<Step>, top: Step) -> (
        State,
        Result<Seq<Step>, ErrorView>,
    ) {
        let id = step_id(top);
        if self.cache.commits.dom().contains(id) {
            (self, Ok(rest))
        } else {
            let s = self.reading();
            match s.store.read_commit(id) {
                Err(e) => (s, Err(e)),
                Ok(raw) => match top {
                    Step::Enter(_) => s.enter(r, prune, rest, id, raw),
                    Step::Settle(_) => match s.map_commit(r, id, raw) {
                        (t, Err(e)) => (t, Err(e)),
                        (t, Ok(_)) => (t, Ok(rest)),
                    },
                    Step::Follow(_, first) => s.followed(rest, id, raw, first),
                },
            }
        }
    }

    /// Takes the steps of a stack until none is left.
    pub open spec fn walk(self, r: Rules, prune: bool, stack: Seq<Step>, fuel: nat) -> (
        State,
        Result<(), ErrorView>,
    )
        decreases fuel,
    {
        if stack.len() == 0 {
            (self, Ok(()))
        } else if fuel == 0 {
            (self, Err(ErrorView::TooLong))
        } else {
            match self.step(r, prune, stack.drop_last(), stack.last()) {
                (s, Err(e)) => (s, Err(e)),
                (s, Ok(next)) => s.walk(r, prune, next, (fuel - 1) as nat),
            }
        }
    }

    /// The view commit of a source commit. Nothing where nothing of the path
    /// exists in its ancestry.
    pub open spec fn derived(self, r: Rules, prune: bool, head: Seq<u8>) -> (
        State,
        Result<Option<Seq<u8>>, ErrorView>,
    ) {
        match self.walk(r, prune, seq![Step::Enter(head)], u64::MAX as nat) {
            (s, Err(e)) => (s, Err(e)),
            (s, Ok(_)) => (s, Ok(s.cache.mapped(head))),
        }
    }
}

/// A stack as its model.
pub open spec fn stack_result(r: Result<(), Error>, stack: Seq<Job>) -> Result<
    Seq<Step>,
    ErrorView,
> {
    match r {
        Ok(_) => Ok(jobs_view(stack)),
        Err(e) => Err(e@),
    }
}

fn push_job(stack: &mut Vec<Job>, job: Job)
    ensures
        jobs_view(final(stack)@) == jobs_view(old(stack)@).push(job@),
{
    stack.push(job);
    assert(jobs_view(stack@) =~= jobs_view(old(stack)@).push(job@));
}

/// The parents of a commit, with their trees.
struct Looked {
    trees: Vec<Id>,
    filtered: Vec<Option<Id>>,
}

spec fn options_view(v: Seq<Option<Id>>) -> Seq<Option<Seq<u8>>> {
    Seq::new(v.len(), |i: int| id_view(v[i]))
}

impl Looked {
    spec fn gathered(&self) -> Gathered {
        Gathered { trees: ids_view(self.trees@), filtered: options_view(self.filtered@) }
    }

    fn decides(&self, p: &Policy, c: &Commit, tree: &Id) -> (r: bool)
        requires
            self.trees.len() == self.filtered.len(),
            self.trees.len() > 0,
        ensures
            r == first_decides(p.rules(), c@, tree@, self.gathered()),
    {
        let ghost g = self.gathered();
        let n = self.filtered.len();
        let mut all_match = true;
        let mut already_empty = true;
        let mut distinct = false;
        let mut first_matches = false;
        let mut i: usize = 0;
        while i < n
            invariant
                i <= n == self.filtered.len() == self.trees.len(),
                g == self.gathered(),
                all_match == (forall|j: int|
                    0 <= j < i ==> #[trigger] g.filtered[j] == Some(tree@)),
                already_empty == (forall|j: int| 0 <= j < i ==> #[trigger] g.trees[j] == c.tree@),
                distinct == (exists|j: int|
                    1 <= j < i && #[trigger] g.filtered[j] is Some && g.filtered[j] != Some(tree@)),
                i > 0 ==> first_matches == (g.filtered[0] == Some(tree@)),
            decreases n - i,
        {
            let ghost before = i as int;
            assert(g.filtered[i as int] == id_view(self.filtered@[i as int]));
            assert(g.trees[i as int] == self.trees@[i as int]@);
            let same = match &self.filtered[i] {
                Some(t) => same_id(t, tree),
                None => false,
            };
            let ghost was = distinct;
            if !same {
                all_match = false;
            }
            if i == 0 {
                first_matches = same;
            } else if self.filtered[i].is_some() && !same {
                distinct = true;
            }
            if !same_id(&self.trees[i], &c.tree) {
                already_empty = false;
            }
            i += 1;
            proof {
                if was {
                    let j = choose|j: int|
                        1 <= j < before && #[trigger] g.filtered[j] is Some && g.filtered[j]
                            != Some(tree@);
                    assert(g.filtered[j] is Some);
                }
            }
        }
        let drops_unchanged = match p.elide {
            Elide::Nothing => false,
            Elide::Unchanged => !already_empty,
            Elide::UnchangedIncludingAlreadyEmpty => true,
        };
        let was_trivial = same_id(&self.trees[0], &c.tree);
        first_matches && ((all_match && drops_unchanged) || (!was_trivial && distinct))
    }
}

impl FilterCache {
    fn gather(&mut self, store: &Store, p: &Policy, sources: &Vec<Id>) -> (r: Result<Looked, Error>)
        ensures
            ({
                let want = state_of(*store, *old(self)).gather(
                    p.rules(),
                    ids_view(sources@),
                    0,
                    Gathered { trees: seq![], filtered: seq![] },
                );
                &&& want.0 == state_of(*store, *final(self))
                &&& match r {
                    Ok(l) => want.1 == Ok::<Gathered, ErrorView>(l.gathered()) && l.trees.len()
                        == l.filtered.len() == sources.len(),
                    Err(e) => want.1 == Err::<Gathered, ErrorView>(e@),
                }
            }),
    {
        let ghost all = ids_view(sources@);
        let ghost want = state_of(*store, *old(self)).gather(
            p.rules(),
            all,
            0,
            Gathered { trees: seq![], filtered: seq![] },
        );
        let mut l = Looked { trees: Vec::new(), filtered: Vec::new() };
        let mut i: usize = 0;
        assert(l.gathered().trees =~= seq![]);
        assert(l.gathered().filtered =~= seq![]);
        while i < sources.len()
            invariant
                i <= sources.len(),
                all == ids_view(sources@),
                l.trees.len() == l.filtered.len() == i,
                want == state_of(*store, *old(self)).gather(
                    p.rules(),
                    all,
                    0,
                    Gathered { trees: seq![], filtered: seq![] },
                ),
                want == state_of(*store, *self).gather(p.rules(), all, i as int, l.gathered()),
            decreases sources.len() - i,
        {
            assert(all[i as int] == sources@[i as int]@);
            self.commit_reads = count(self.commit_reads);
            let c = match store.commit(&sources[i]) {
                Ok(c) => c,
                Err(e) => return Err(e),
            };
            let f = match self.descend(store, p, &c.tree, 0) {
                Ok(f) => f,
                Err(e) => return Err(e),
            };
            self.put_source_tree(&sources[i], copy_of(&c.tree));
            let ghost before = l.gathered();
            let ghost tree = c.tree@;
            let ghost found = id_view(f);
            l.trees.push(c.tree);
            l.filtered.push(f);
            assert(l.gathered().trees =~= before.trees.push(tree));
            assert(l.gathered().filtered =~= before.filtered.push(found));
            i += 1;
        }
        Ok(l)
    }

    fn prunable_first_parent(&mut self, store: &Store, p: &Policy, c: &Commit) -> (r: Result<
        Option<Id>,
        Error,
    >)
        ensures
            (state_of(*store, *final(self)), option_result(r)) == state_of(
                *store,
                *old(self),
            ).prunable_first_parent(p.rules(), c@),
    {
        if c.parents.len() < 2 || p.keep_trivial_merges {
            return Ok(None);
        }
        let tree = match self.descend(store, p, &c.tree, 0) {
            Err(e) => return Err(e),
            Ok(None) => return Ok(None),
            Ok(Some(t)) => t,
        };
        let l = match self.gather(store, p, &c.parents) {
            Ok(l) => l,
            Err(e) => return Err(e),
        };
        if l.decides(p, c, &tree) {
            Ok(Some(copy_of(&c.parents[0])))
        } else {
            Ok(None)
        }
    }

    fn expand(
        &mut self,
        store: &mut Store,
        p: &Policy,
        stack: &mut Vec<Job>,
        id: &Id,
        raw: &Vec<u8>,
        c: &Commit,
    ) -> (r: Result<(), Error>)
        ensures
            (state_of(*final(store), *final(self)), stack_result(r, final(stack)@)) == state_of(
                *old(store),
                *old(self),
            ).expand(p.rules(), jobs_view(old(stack)@), id@, raw@, c@),
    {
        let ghost s = state_of(*store, *self);
        let ghost all = ids_view(c.parents@);
        let mut waiting: Vec<Job> = Vec::new();
        let mut i: usize = 0;
        assert(jobs_view(waiting@) =~= seq![]);
        while i < c.parents.len()
            invariant
                i <= c.parents.len(),
                all == ids_view(c.parents@),
                s == state_of(*store, *self),
                jobs_view(waiting@) == s.pending(all, i as int),
            decreases c.parents.len() - i,
        {
            assert(all[i as int] == c.parents@[i as int]@);
            if !self.commits.has(&c.parents[i]) {
                push_job(&mut waiting, Job::Enter(copy_of(&c.parents[i])));
            }
            i += 1;
        }
        let ghost pending = jobs_view(waiting@);
        if waiting.len() == 0 {
            return self.map_commit(store, p, id, raw);
        }
        push_job(stack, Job::Settle(copy_of(id)));
        let ghost below = jobs_view(stack@);
        let ghost mut k: int = 0;
        assert(below + pending.take(0) =~= below);
        assert(pending.skip(0) =~= pending);
        while waiting.len() > 0
            invariant
                0 <= k <= pending.len(),
                jobs_view(waiting@) == pending.skip(k),
                jobs_view(stack@) == below + pending.take(k),
            decreases waiting.len(),
        {
            let ghost left = jobs_view(waiting@);
            let job = waiting.remove(0);
            proof {
                assert(job@ == left[0]);
                assert(jobs_view(waiting@) =~= left.skip(1));
                assert(pending.skip(k).skip(1) =~= pending.skip(k + 1));
                assert(below + pending.take(k + 1) =~= (below + pending.take(k)).push(pending[k]));
            }
            push_job(stack, job);
            proof {
                k = k + 1;
            }
        }
        assert(pending.take(k) =~= pending);
        Ok(())
    }

    fn enter(
        &mut self,
        store: &mut Store,
        p: &Policy,
        prune: bool,
        stack: &mut Vec<Job>,
        id: &Id,
        raw: &Vec<u8>,
    ) -> (r: Result<(), Error>)
        ensures
            (state_of(*final(store), *final(self)), stack_result(r, final(stack)@)) == state_of(
                *old(store),
                *old(self),
            ).enter(p.rules(), prune, jobs_view(old(stack)@), id@, raw@),
    {
        let c = match parse_commit(raw, store.wide) {
            Some(c) => c,
            None => return Err(Error::MalformedCommit),
        };
        if prune {
            match self.prunable_first_parent(store, p, &c) {
                Err(e) => return Err(e),
                Ok(None) => {},
                Ok(Some(first)) => {
                    if self.commits.has(&first) {
                        return self.follow(store, id, raw, &first);
                    }
                    push_job(stack, Job::Follow(copy_of(id), copy_of(&first)));
                    push_job(stack, Job::Enter(first));
                    return Ok(());
                },
            }
        }
        self.expand(store, p, stack, id, raw, &c)
    }

    fn step(
        &mut self,
        store: &mut Store,
        p: &Policy,
        prune: bool,
        stack: &mut Vec<Job>,
        top: Job,
    ) -> (r: Result<(), Error>)
        ensures
            (state_of(*final(store), *final(self)), stack_result(r, final(stack)@)) == state_of(
                *old(store),
                *old(self),
            ).step(p.rules(), prune, jobs_view(old(stack)@), top@),
    {
        let (id, entering, first) = match top {
            Job::Enter(id) => (id, true, None),
            Job::Settle(id) => (id, false, None),
            Job::Follow(id, first) => (id, false, Some(first)),
        };
        if self.commits.has(&id) {
            return Ok(());
        }
        self.commit_reads = count(self.commit_reads);
        let raw = match store.read_commit(&id) {
            Ok(raw) => copy_of(raw),
            Err(e) => return Err(e),
        };
        if entering {
            return self.enter(store, p, prune, stack, &id, &raw);
        }
        match first {
            Some(first) => self.follow(store, &id, &raw, &first),
            None => self.map_commit(store, p, &id, &raw),
        }
    }

    /// Derives the view commit of a source commit.
    pub fn run(&mut self, store: &mut Store, p: &Policy, prune: bool, head: &Id) -> (r: Result<
        Option<Id>,
        Error,
    >)
        ensures
            (state_of(*final(store), *final(self)), option_result(r)) == state_of(
                *old(store),
                *old(self),
            ).derived(p.rules(), prune, head@),
    {
        let ghost s = state_of(*store, *self);
        let mut stack: Vec<Job> = Vec::new();
        assert(jobs_view(stack@) =~= seq![]);
        push_job(&mut stack, Job::Enter(copy_of(head)));
        assert(jobs_view(stack@) =~= seq![Step::Enter(head@)]);
        let mut fuel: u64 = u64::MAX;
        while stack.len() > 0
            invariant
                s.walk(p.rules(), prune, seq![Step::Enter(head@)], u64::MAX as nat) == state_of(
                    *store,
                    *self,
                ).walk(p.rules(), prune, jobs_view(stack@), fuel as nat),
                s == state_of(*old(store), *old(self)),
            decreases fuel,
        {
            if fuel == 0 {
                return Err(Error::TooLong);
            }
            let ghost all = jobs_view(stack@);
            if let Some(top) = stack.pop() {
                assert(all.last() == top@);
                assert(jobs_view(stack@) =~= all.drop_last());
                match self.step(store, p, prune, &mut stack, top) {
                    Ok(_) => {},
                    Err(e) => return Err(e),
                }
            }
            fuel -= 1;
        }
        Ok(self.mapped(head))
    }
}

} // verus!
