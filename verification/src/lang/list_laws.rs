//! What the builtins over lists come to, whatever the functions they are given
//! answer: a run is every step from the start of the body to its value.
use crate::lang::builtins::{builtin_index, builtin_text, BUILTINS};
use crate::lang::conts::Walked;
use crate::lang::frames::{Cont, Yield};
use crate::lang::heap::{
    bind, position, Fault, HeapView, Slot, SlotState, Sym, Value,
};
use crate::lang::table_laws::law_lookup_inverts_the_table;
use vstd::prelude::*;

verus! {

// -- runs --------------------------------------------------------------------

/// One step of a builtin: the heap, where the builtin is, and the value that
/// the machine hands back.
pub struct Turn {
    pub heap: HeapView,
    pub cont: Cont,
    pub incoming: Option<Value>,
}

/// A call of a builtin: which one, and the list of its arguments.
pub struct Called {
    pub idx: u16,
    pub args: usize,
}

/// What one step comes to.
#[verifier::opaque]
pub open spec fn driven(c: Called, t: Turn) -> (HeapView, Walked) {
    t.heap.drive(c.idx, c.args, t.cont, t.incoming)
}

/// Whether one step follows another: the first asked for something, which was
/// answered with a value, and all lists that were there are as they were.
pub open spec fn follows(c: Called, from: Turn, to: Turn) -> bool {
    let (g, (cont, y)) = driven(c, from);
    &&& y is Ok
    &&& !(y->Ok_0 is Done)
    &&& to.cont == cont
    &&& to.incoming is Some
    &&& kept(g, to.heap)
}

/// Whether everything that was there is there.
pub open spec fn kept(a: HeapView, b: HeapView) -> bool {
    &&& a.lists.is_prefix_of(b.lists)
    &&& a.texts.is_prefix_of(b.texts)
    &&& a.symbols.is_prefix_of(b.symbols)
    &&& a.sets.is_prefix_of(b.sets)
    &&& a.works.is_prefix_of(b.works)
    &&& b.lists.len() + 4 < usize::MAX
}

/// A run of the builtin with this name from its start on, its arguments having
/// their values.
pub open spec fn is_run(name: Seq<char>, c: Called, run: Seq<Turn>) -> bool {
    &&& builtin_index(name) == Some(c.idx)
    &&& run.len() > 0
    &&& run[0].cont == Cont::Start
    &&& run[0].incoming is None
    &&& run[0].heap.lists.len() + 4 < usize::MAX
    &&& forall|k: int| 0 <= k < run.len() - 1 ==> follows(c, #[trigger] run[k], run[k + 1])
}

/// The value of an argument.
pub open spec fn argument(h: HeapView, c: Called, i: int) -> Option<Value> {
    if 0 <= i < h.list(c.args).len() {
        h.peek(h.list(c.args)[i])
    } else {
        None
    }
}

/// Whether the call is of a function and a list.
pub open spec fn takes(h: HeapView, c: Called, f: Value, items: usize) -> bool {
    &&& argument(h, c, 0) == Some(f)
    &&& argument(h, c, 1) == Some(Value::List(items))
    &&& items < h.lists.len()
    &&& h.list(items).len() < usize::MAX
}

/// What the `k`th application was answered with.
pub open spec fn answer(run: Seq<Turn>, k: int) -> Value {
    run[k + 1].incoming->0
}

/// What a run comes to in the end.
pub open spec fn ends(c: Called, run: Seq<Turn>) -> (HeapView, Result<Yield, Fault>) {
    let (g, (_, y)) = driven(c, run.last());
    (g, y)
}

/// The name of a builtin tells its number.
pub proof fn lemma_named(name: Seq<char>, i: u16, idx: u16)
    requires
        i < BUILTINS,
        builtin_text(i) == name,
        builtin_index(name) == Some(idx),
    ensures
        idx == i,
{
    law_lookup_inverts_the_table(name, i);
}

pub proof fn lemma_kept_list(a: HeapView, b: HeapView, id: usize)
    requires
        kept(a, b),
        id < a.lists.len(),
    ensures
        b.list(id) == a.list(id),
        id < b.lists.len(),
{
    assert(b.lists.take(a.lists.len() as int)[id as int] == b.lists[id as int]);
}

/// The places below `n` that pass, in order.
pub open spec fn places(n: int, yes: spec_fn(int) -> bool) -> Seq<int>
    decreases n,
{
    if n <= 0 {
        Seq::empty()
    } else if yes(n - 1) {
        places(n - 1, yes).push(n - 1)
    } else {
        places(n - 1, yes)
    }
}

/// Whether places are exactly those below `n` that pass, from the first to the
/// last.
pub open spec fn are_places(at: Seq<int>, n: int, yes: spec_fn(int) -> bool) -> bool {
    &&& forall|i: int, j: int| 0 <= i < j < at.len() ==> #[trigger] at[i] < #[trigger] at[j]
    &&& forall|i: int| 0 <= i < at.len() ==> 0 <= #[trigger] at[i] < n && yes(at[i])
    &&& forall|p: int| 0 <= p < n && #[trigger] yes(p) ==> at.contains(p)
}

pub proof fn lemma_places(n: int, yes: spec_fn(int) -> bool)
    requires
        0 <= n,
    ensures
        are_places(places(n, yes), n, yes),
    decreases n,
{
    if n > 0 {
        lemma_places(n - 1, yes);
        let low = places(n - 1, yes);
        let at = places(n, yes);
        assert forall|p: int| 0 <= p < n && #[trigger] yes(p) implies at.contains(p) by {
            if p < n - 1 {
                assert(low.contains(p));
                let i = choose|i: int| 0 <= i < low.len() && low[i] == p;
                assert(at[i] == p);
            } else {
                assert(at[low.len() as int] == p);
            }
        }
    }
}

/// The elements at places.
pub open spec fn elements(a: Seq<usize>, at: Seq<int>) -> Seq<usize> {
    Seq::new(at.len(), |i: int| a[at[i]])
}

// -- filter ------------------------------------------------------------------

pub open spec fn said_yes(run: Seq<Turn>) -> spec_fn(int) -> bool {
    |k: int| answer(run, k) == Value::Bool(true)
}

pub open spec fn said_no(run: Seq<Turn>) -> spec_fn(int) -> bool {
    |k: int| answer(run, k) == Value::Bool(false)
}

proof fn lemma_filter_starts(c: Called, t: Turn, f: Value, items: usize)
    requires
        builtin_index("filter"@) == Some(c.idx),
        t.cont == Cont::Start,
        takes(t.heap, c, f, items),
        t.heap.lists.len() + 4 < usize::MAX,
    ensures
        ({
            let out = t.heap.lists.len() as usize;
            let (h, _) = t.heap.new_list(Seq::empty());
            driven(c, t) == h.step_filter(f, items, 0, out, None)
        }),
{
    reveal(driven);
    reveal_strlit("filter");
    lemma_named("filter"@, 12, c.idx);
}

proof fn lemma_filter_driven(c: Called, t: Turn, f: Value, items: usize, i: usize, out: usize)
    requires
        t.cont == (Cont::Filter { f, items, i, out }),
    ensures
        driven(c, t) == t.heap.step_filter(f, items, i, out, t.incoming),
{
    reveal(driven);
}

spec fn filter_stands(
    a: Seq<usize>,
    yes: spec_fn(int) -> bool,
    f: Value,
    items: usize,
    out: usize,
    k: int,
    w: (HeapView, Walked),
) -> bool {
    let (g, (cont, y)) = w;
    &&& items < g.lists.len()
    &&& out < g.lists.len()
    &&& out != items
    &&& g.list(items) == a
    &&& g.list(out) == elements(a, places(k, yes))
    &&& 0 <= k <= a.len()
    &&& cont == (Cont::Filter { f, items, i: k as usize, out })
    &&& y == Ok::<Yield, Fault>(
        if k < a.len() {
            Yield::Apply(f, a[k])
        } else {
            Yield::Done(Value::List(out))
        },
    )
}

proof fn lemma_filter_run(c: Called, run: Seq<Turn>, f: Value, items: usize, k: int)
    requires
        is_run("filter"@, c, run),
        takes(run[0].heap, c, f, items),
        0 <= k < run.len(),
    ensures
        ({
            let a = run[0].heap.list(items);
            let out = run[0].heap.lists.len() as usize;
            let w = driven(c, run[k]);
            if forall|j: int| 0 <= j < k ==> (#[trigger] answer(run, j)) is Bool {
                filter_stands(a, said_yes(run), f, items, out, k, w)
            } else {
                w.1.1 is Err
            }
        }),
    decreases k,
{
    let a = run[0].heap.list(items);
    let out = run[0].heap.lists.len() as usize;
    let yes = said_yes(run);
    if k == 0 {
        lemma_filter_starts(c, run[0], f, items);
        let (h, _) = run[0].heap.new_list(Seq::empty());
        assert(h.list(items) == a);
        assert(h.list(out) =~= elements(a, places(0, yes)));
    } else {
        let m = k - 1;
        lemma_filter_run(c, run, f, items, m);
        assert(follows(c, run[m], run[m + 1]));
        let (g, _) = driven(c, run[m]);
        let t = run[k];
        assert(forall|j: int| 0 <= j < m ==> (#[trigger] answer(run, j)) is Bool);
        lemma_kept_list(g, t.heap, items);
        lemma_kept_list(g, t.heap, out);
        lemma_filter_driven(c, t, f, items, m as usize, out);
        assert(answer(run, m) == t.incoming->0);
        if answer(run, m) is Bool {
            assert(forall|j: int| 0 <= j < k ==> (#[trigger] answer(run, j)) is Bool);
            assert(yes(m) == (answer(run, m) == Value::Bool(true)));
            let had = elements(a, places(m, yes));
            if yes(m) {
                assert(had.push(a[m]) =~= elements(a, places(k, yes)));
            }
        }
    }
}

/// `filter` asks about every element in order, and hands out exactly the
/// elements that the answer was true for, in their order. An answer that is no
/// Boolean is an error.
pub proof fn law_filter_keeps_what_passes(c: Called, run: Seq<Turn>, f: Value, items: usize)
    requires
        is_run("filter"@, c, run),
        takes(run[0].heap, c, f, items),
    ensures
        ({
            let a = run[0].heap.list(items);
            let n = run.len() - 1;
            let (g, y) = ends(c, run);
            &&& y matches Ok(Yield::Done(v)) ==> {
                &&& n == a.len()
                &&& v is List
                &&& exists|at: Seq<int>| #[trigger]
                    are_places(at, n, said_yes(run)) && g.list(v->List_0) == elements(a, at)
                &&& forall|k: int| 0 <= k < n ==> (#[trigger] answer(run, k)) is Bool
            }
            &&& (forall|k: int| 0 <= k < n ==> (#[trigger] answer(run, k)) is Bool) ==> n <= a.len()
                && y == Ok::<Yield, Fault>(
                if n < a.len() {
                    Yield::Apply(f, a[n])
                } else {
                    Yield::Done(Value::List(run[0].heap.lists.len() as usize))
                },
            )
            &&& n > 0 && !(answer(run, n - 1) is Bool) ==> y is Err
        }),
{
    let a = run[0].heap.list(items);
    let n = run.len() - 1;
    lemma_filter_run(c, run, f, items, n);
    lemma_places(n, said_yes(run));
    let at = places(n, said_yes(run));
    assert(are_places(at, n, said_yes(run)));
}

// -- any and all -------------------------------------------------------------

proof fn lemma_any_all_starts(c: Called, t: Turn, f: Value, items: usize, want: bool)
    requires
        builtin_index(
            if want {
                "any"@
            } else {
                "all"@
            },
        ) == Some(c.idx),
        t.cont == Cont::Start,
        takes(t.heap, c, f, items),
    ensures
        driven(c, t) == t.heap.step_any_all(f, items, 0, want, None),
{
    reveal(driven);
    reveal_strlit("any");
    reveal_strlit("all");
    if want {
        lemma_named("any"@, 13, c.idx);
    } else {
        lemma_named("all"@, 14, c.idx);
    }
}

proof fn lemma_any_all_driven(c: Called, t: Turn, f: Value, items: usize, i: usize, want: bool)
    requires
        t.cont == (Cont::AnyAll { f, items, i, want }),
    ensures
        driven(c, t) == t.heap.step_any_all(f, items, i, want, t.incoming),
{
    reveal(driven);
}

proof fn lemma_any_all_run(c: Called, run: Seq<Turn>, f: Value, items: usize, want: bool, k: int)
    requires
        is_run(
            if want {
                "any"@
            } else {
                "all"@
            },
            c,
            run,
        ),
        takes(run[0].heap, c, f, items),
        0 <= k < run.len(),
    ensures
        ({
            let a = run[0].heap.list(items);
            let (g, (cont, y)) = driven(c, run[k]);
            let last = answer(run, k - 1);
            &&& k <= a.len()
            &&& items < g.lists.len()
            &&& g.list(items) == a
            &&& forall|j: int| 0 <= j < k - 1 ==> #[trigger] answer(run, j) == Value::Bool(!want)
            &&& if k > 0 && !(last is Bool) {
                y is Err
            } else if k > 0 && last == Value::Bool(want) {
                y == Ok::<Yield, Fault>(Yield::Done(Value::Bool(want)))
            } else {
                &&& cont == (Cont::AnyAll { f, items, i: k as usize, want })
                &&& y == Ok::<Yield, Fault>(
                    if k < a.len() {
                        Yield::Apply(f, a[k])
                    } else {
                        Yield::Done(Value::Bool(!want))
                    },
                )
            }
        }),
    decreases k,
{
    let a = run[0].heap.list(items);
    if k == 0 {
        lemma_any_all_starts(c, run[0], f, items, want);
    } else {
        let m = k - 1;
        lemma_any_all_run(c, run, f, items, want, m);
        assert(follows(c, run[m], run[m + 1]));
        let (g, _) = driven(c, run[m]);
        let t = run[k];
        lemma_kept_list(g, t.heap, items);
        lemma_any_all_driven(c, t, f, items, m as usize, want);
        assert(answer(run, m) == t.incoming->0);
        assert forall|j: int| 0 <= j < k - 1 implies #[trigger] answer(run, j) == Value::Bool(
            !want,
        ) by {
            if j == m - 1 {
                assert(answer(run, m - 1) is Bool);
                assert(answer(run, m - 1) != Value::Bool(want));
            }
        }
    }
}

/// `any` is true exactly when some element passes, and asks no further once one
/// does.
pub proof fn law_any_is_some(c: Called, run: Seq<Turn>, f: Value, items: usize)
    requires
        is_run("any"@, c, run),
        takes(run[0].heap, c, f, items),
    ensures
        ({
            let a = run[0].heap.list(items);
            let n = run.len() - 1;
            ends(c, run).1 matches Ok(Yield::Done(v)) ==> {
                &&& v is Bool
                &&& v->Bool_0 <==> exists|k: int|
                    0 <= k < n && #[trigger] answer(run, k) == Value::Bool(true)
                &&& v->Bool_0 || n == a.len() && forall|k: int|
                    0 <= k < n ==> #[trigger] answer(run, k) == Value::Bool(false)
            }
        }),
{
    let n = run.len() - 1;
    lemma_any_all_run(c, run, f, items, true, n);
    if n > 0 {
        assert(answer(run, n - 1) == answer(run, n - 1));
    }
}

/// `all` is true exactly when every element passes, and asks no further once
/// one does not.
pub proof fn law_all_is_every(c: Called, run: Seq<Turn>, f: Value, items: usize)
    requires
        is_run("all"@, c, run),
        takes(run[0].heap, c, f, items),
    ensures
        ({
            let a = run[0].heap.list(items);
            let n = run.len() - 1;
            ends(c, run).1 matches Ok(Yield::Done(v)) ==> {
                &&& v is Bool
                &&& !v->Bool_0 <==> exists|k: int|
                    0 <= k < n && #[trigger] answer(run, k) == Value::Bool(false)
                &&& !v->Bool_0 || n == a.len() && forall|k: int|
                    0 <= k < n ==> #[trigger] answer(run, k) == Value::Bool(true)
            }
        }),
{
    let n = run.len() - 1;
    lemma_any_all_run(c, run, f, items, false, n);
    if n > 0 {
        assert(answer(run, n - 1) == answer(run, n - 1));
    }
}

// -- concatMap ---------------------------------------------------------------

/// The lists that the first `n` answers are, one behind the other.
pub open spec fn strung(run: Seq<Turn>, n: int) -> Seq<usize>
    decreases n,
{
    if n <= 0 {
        Seq::empty()
    } else {
        strung(run, n - 1) + run[n].heap.list(answer(run, n - 1)->List_0)
    }
}

proof fn lemma_concat_map_starts(c: Called, t: Turn, f: Value, items: usize)
    requires
        builtin_index("concatMap"@) == Some(c.idx),
        t.cont == Cont::Start,
        takes(t.heap, c, f, items),
        t.heap.lists.len() + 4 < usize::MAX,
    ensures
        ({
            let out = t.heap.lists.len() as usize;
            let (h, _) = t.heap.new_list(Seq::empty());
            driven(c, t) == h.step_concat_map(f, items, 0, out, None)
        }),
{
    reveal(driven);
    reveal_strlit("concatMap");
    lemma_named("concatMap"@, 16, c.idx);
}

proof fn lemma_concat_map_driven(c: Called, t: Turn, f: Value, items: usize, i: usize, out: usize)
    requires
        t.cont == (Cont::ConcatMap { f, items, i, out }),
    ensures
        driven(c, t) == t.heap.step_concat_map(f, items, i, out, t.incoming),
{
    reveal(driven);
}

proof fn lemma_concat_map_run(c: Called, run: Seq<Turn>, f: Value, items: usize, k: int)
    requires
        is_run("concatMap"@, c, run),
        takes(run[0].heap, c, f, items),
        0 <= k < run.len(),
    ensures
        ({
            let a = run[0].heap.list(items);
            let out = run[0].heap.lists.len() as usize;
            let (g, (cont, y)) = driven(c, run[k]);
            if forall|j: int| 0 <= j < k ==> (#[trigger] answer(run, j)) is List {
                &&& items < g.lists.len()
                &&& out < g.lists.len()
                &&& g.list(items) == a
                &&& g.list(out) == strung(run, k)
                &&& k <= a.len()
                &&& cont == (Cont::ConcatMap { f, items, i: k as usize, out })
                &&& y == Ok::<Yield, Fault>(
                    if k < a.len() {
                        Yield::Apply(f, a[k])
                    } else {
                        Yield::Done(Value::List(out))
                    },
                )
            } else {
                y is Err
            }
        }),
    decreases k,
{
    let a = run[0].heap.list(items);
    let out = run[0].heap.lists.len() as usize;
    if k == 0 {
        lemma_concat_map_starts(c, run[0], f, items);
        let (h, _) = run[0].heap.new_list(Seq::empty());
        assert(h.list(items) == a);
        assert(h.list(out) =~= strung(run, 0));
    } else {
        let m = k - 1;
        lemma_concat_map_run(c, run, f, items, m);
        assert(follows(c, run[m], run[m + 1]));
        let (g, _) = driven(c, run[m]);
        let t = run[k];
        assert(forall|j: int| 0 <= j < m ==> (#[trigger] answer(run, j)) is List);
        lemma_kept_list(g, t.heap, items);
        lemma_kept_list(g, t.heap, out);
        lemma_concat_map_driven(c, t, f, items, m as usize, out);
        assert(answer(run, m) == t.incoming->0);
        if answer(run, m) is List {
            assert(forall|j: int| 0 <= j < k ==> (#[trigger] answer(run, j)) is List);
        }
    }
}

/// `concatMap` asks about every element in order, and hands out the lists that
/// were answered, one behind the other. An answer that is no list is an error.
pub proof fn law_concat_map_strings_the_answers(
    c: Called,
    run: Seq<Turn>,
    f: Value,
    items: usize,
)
    requires
        is_run("concatMap"@, c, run),
        takes(run[0].heap, c, f, items),
    ensures
        ({
            let a = run[0].heap.list(items);
            let n = run.len() - 1;
            let (g, y) = ends(c, run);
            &&& y matches Ok(Yield::Done(v)) ==> n == a.len() && v is List && g.list(v->List_0)
                == strung(run, n)
            &&& (forall|k: int| 0 <= k < n ==> (#[trigger] answer(run, k)) is List) && n < a.len()
                ==> y == Ok::<Yield, Fault>(Yield::Apply(f, a[n]))
            &&& n > 0 && !(answer(run, n - 1) is List) ==> y is Err
        }),
{
    lemma_concat_map_run(c, run, f, items, run.len() - 1);
}

// -- partition ---------------------------------------------------------------

proof fn lemma_partition_starts(c: Called, t: Turn, f: Value, items: usize)
    requires
        builtin_index("partition"@) == Some(c.idx),
        t.cont == Cont::Start,
        takes(t.heap, c, f, items),
        t.heap.lists.len() + 4 < usize::MAX,
    ensures
        ({
            let right = t.heap.lists.len() as usize;
            let wrong = (right + 1) as usize;
            let h = t.heap.new_list(Seq::empty()).0.new_list(Seq::empty()).0;
            driven(c, t) == h.step_partition(f, items, 0, right, wrong, None)
        }),
{
    reveal(driven);
    reveal_strlit("partition");
    lemma_named("partition"@, 30, c.idx);
}

proof fn lemma_partition_driven(
    c: Called,
    t: Turn,
    f: Value,
    items: usize,
    i: usize,
    right: usize,
    wrong: usize,
)
    requires
        t.cont == (Cont::Partition { f, items, i, right, wrong }),
    ensures
        driven(c, t) == t.heap.step_partition(f, items, i, right, wrong, t.incoming),
{
    reveal(driven);
}

/// Whether a set has these two lists under the names `right` and `wrong`.
pub open spec fn is_split(g: HeapView, v: Value, right: Seq<usize>, wrong: Seq<usize>) -> bool {
    &&& v is Attrs
    &&& exists|rs: Slot, ws: Slot, r: usize, w: usize|
        g.set(v->Attrs_0) == two_names(g, rs, ws) && #[trigger] g.slot(rs) == SlotState::Value(
            Value::List(r),
        ) && #[trigger] g.slot(ws) == SlotState::Value(Value::List(w)) && #[trigger] g.list(r)
            == right && #[trigger] g.list(w) == wrong
}

/// The set that binds `right` and `wrong`.
pub open spec fn two_names(g: HeapView, rs: Slot, ws: Slot) -> Seq<(Sym, Slot)> {
    bind(bind(Seq::empty(), g.intern("right"@).1, rs), g.intern("wrong"@).1, ws)
}

proof fn lemma_interned(h: HeapView, name: Seq<char>)
    ensures
        h.intern(name).0.intern(name) == h.intern(name),
        h.symbols.is_prefix_of(h.intern(name).0.symbols),
{
    lemma_position_last(h.symbols, name, 0);
    let g = h.intern(name).0;
    assert(g.symbols.take(h.symbols.len() as int) =~= h.symbols);
}

proof fn lemma_position_last(texts: Seq<Seq<char>>, t: Seq<char>, i: int)
    requires
        0 <= i <= texts.len(),
    ensures
        i <= position(texts, t, i) <= texts.len(),
        position(texts, t, i) == texts.len() ==> position(texts.push(t), t, i) == texts.len(),
    decreases texts.len() - i,
{
    if i < texts.len() && texts[i] != t {
        lemma_position_last(texts, t, i + 1);
    }
    if i < texts.len() {
        assert(texts.push(t)[i] == texts[i]);
    }
}

proof fn lemma_position_kept(texts: Seq<Seq<char>>, more: Seq<char>, t: Seq<char>, i: int)
    requires
        0 <= i <= texts.len(),
        position(texts, t, i) < texts.len(),
    ensures
        position(texts.push(more), t, i) == position(texts, t, i),
    decreases texts.len() - i,
{
    assert(texts.push(more)[i] == texts[i]);
    if texts[i] != t {
        lemma_position_kept(texts, more, t, i + 1);
    }
}

proof fn lemma_partition_ends(h: HeapView, f: Value, items: usize, i: usize, right: usize, wrong: usize)
    requires
        i >= h.list(items).len(),
        h.slots.len() + 4 < usize::MAX,
        h.sets.len() + 4 < usize::MAX,
    ensures
        ({
            let (g, (_, y)) = h.partition_next(f, items, i, right, wrong);
            y matches Ok(Yield::Done(v)) && is_split(g, v, h.list(right), h.list(wrong))
        }),
{
    let (h1, r) = h.intern("right"@);
    let (h2, rs) = h1.value_slot(Value::List(right));
    let (h3, w) = h2.intern("wrong"@);
    let (h4, ws) = h3.value_slot(Value::List(wrong));
    let (g, v) = h4.attrs_value(bind(bind(Seq::empty(), r, rs), w, ws));
    lemma_interned(h, "right"@);
    lemma_interned(h2, "wrong"@);
    lemma_position_last(h.symbols, "right"@, 0);
    lemma_position_last(h1.symbols, "right"@, 0);
    assert(g.intern("right"@).1 == r) by {
        if h3.symbols != h2.symbols {
            assert(position(h1.symbols, "right"@, 0) < h1.symbols.len());
            lemma_position_kept(h1.symbols, "wrong"@, "right"@, 0);
        }
    }
    assert(g.intern("wrong"@).1 == w);
    assert(g.set(v->Attrs_0) == two_names(g, rs, ws));
    assert(g.slot(rs) == SlotState::Value(Value::List(right)));
    assert(g.slot(ws) == SlotState::Value(Value::List(wrong)));
    assert(g.list(right) == h.list(right));
    assert(g.list(wrong) == h.list(wrong));
}

proof fn lemma_partition_run(c: Called, run: Seq<Turn>, f: Value, items: usize, k: int)
    requires
        is_run("partition"@, c, run),
        takes(run[0].heap, c, f, items),
        forall|j: int|
            0 <= j < run.len() ==> (#[trigger] run[j]).heap.slots.len() + 4 < usize::MAX
                && run[j].heap.sets.len() + 4 < usize::MAX,
        0 <= k < run.len(),
    ensures
        ({
            let a = run[0].heap.list(items);
            let right = run[0].heap.lists.len() as usize;
            let wrong = (right + 1) as usize;
            let (g, (cont, y)) = driven(c, run[k]);
            if forall|j: int| 0 <= j < k ==> (#[trigger] answer(run, j)) is Bool {
                &&& items < g.lists.len()
                &&& wrong < g.lists.len()
                &&& g.list(items) == a
                &&& g.list(right) == elements(a, places(k, said_yes(run)))
                &&& g.list(wrong) == elements(a, places(k, said_no(run)))
                &&& k <= a.len()
                &&& cont == (Cont::Partition { f, items, i: k as usize, right, wrong })
                &&& if k < a.len() {
                    y == Ok::<Yield, Fault>(Yield::Apply(f, a[k]))
                } else {
                    y matches Ok(Yield::Done(v)) && is_split(g, v, g.list(right), g.list(wrong))
                }
            } else {
                y is Err
            }
        }),
    decreases k,
{
    let a = run[0].heap.list(items);
    let right = run[0].heap.lists.len() as usize;
    let wrong = (right + 1) as usize;
    let yes = said_yes(run);
    let no = said_no(run);
    if k == 0 {
        lemma_partition_starts(c, run[0], f, items);
        let h = run[0].heap.new_list(Seq::empty()).0.new_list(Seq::empty()).0;
        assert(h.list(items) == a);
        assert(h.list(right) =~= elements(a, places(0, yes)));
        assert(h.list(wrong) =~= elements(a, places(0, no)));
        if a.len() == 0 {
            lemma_partition_ends(h, f, items, 0, right, wrong);
        }
    } else {
        let m = k - 1;
        lemma_partition_run(c, run, f, items, m);
        assert(follows(c, run[m], run[m + 1]));
        let (g, _) = driven(c, run[m]);
        let t = run[k];
        assert(forall|j: int| 0 <= j < m ==> (#[trigger] answer(run, j)) is Bool);
        lemma_kept_list(g, t.heap, items);
        lemma_kept_list(g, t.heap, right);
        lemma_kept_list(g, t.heap, wrong);
        lemma_partition_driven(c, t, f, items, m as usize, right, wrong);
        assert(answer(run, m) == t.incoming->0);
        if answer(run, m) is Bool {
            assert(forall|j: int| 0 <= j < k ==> (#[trigger] answer(run, j)) is Bool);
            let b = answer(run, m)->Bool_0;
            assert(yes(m) == b && no(m) == !b);
            if b {
                assert(elements(a, places(m, yes)).push(a[m]) =~= elements(a, places(k, yes)));
            } else {
                assert(elements(a, places(m, no)).push(a[m]) =~= elements(a, places(k, no)));
            }
            let more = t.heap.push_list(
                if b {
                    right
                } else {
                    wrong
                },
                a[m],
            );
            if k == a.len() {
                lemma_partition_ends(more, f, items, k as usize, right, wrong);
            }
        }
    }
}

/// `partition` hands out, under `right`, the elements that the answer was true
/// for and, under `wrong`, those that it was false for, each in their order.
pub proof fn law_partition_splits(c: Called, run: Seq<Turn>, f: Value, items: usize)
    requires
        is_run("partition"@, c, run),
        takes(run[0].heap, c, f, items),
        forall|j: int|
            0 <= j < run.len() ==> (#[trigger] run[j]).heap.slots.len() + 4 < usize::MAX
                && run[j].heap.sets.len() + 4 < usize::MAX,
    ensures
        ({
            let a = run[0].heap.list(items);
            let n = run.len() - 1;
            let (g, y) = ends(c, run);
            y matches Ok(Yield::Done(v)) ==> {
                &&& n == a.len()
                &&& exists|yes: Seq<int>, no: Seq<int>| #[trigger]
                    are_places(yes, n, said_yes(run)) && #[trigger] are_places(
                        no,
                        n,
                        said_no(run),
                    ) && is_split(g, v, elements(a, yes), elements(a, no))
            }
        }),
{
    let n = run.len() - 1;
    lemma_partition_run(c, run, f, items, n);
    lemma_places(n, said_yes(run));
    lemma_places(n, said_no(run));
    assert(are_places(places(n, said_yes(run)), n, said_yes(run)));
    assert(are_places(places(n, said_no(run)), n, said_no(run)));
}

// -- foldl' ------------------------------------------------------------------

proof fn lemma_fold_starts(c: Called, t: Turn, f: Value, acc: Slot, items: usize)
    requires
        builtin_index("foldl'"@) == Some(c.idx),
        t.cont == Cont::Start,
        argument(t.heap, c, 0) == Some(f),
        t.heap.list(c.args).len() > 1,
        t.heap.list(c.args)[1] == acc,
        argument(t.heap, c, 2) == Some(Value::List(items)),
    ensures
        driven(c, t) == t.heap.step_foldl(f, items, 0, acc, false, false, None),
{
    reveal(driven);
    reveal_strlit("foldl'");
    lemma_named("foldl'"@, 18, c.idx);
}

proof fn lemma_fold_driven(
    c: Called,
    t: Turn,
    f: Value,
    items: usize,
    i: usize,
    acc: Slot,
    half: bool,
    finishing: bool,
)
    requires
        t.cont == (Cont::Foldl { f, items, i, acc, half, finishing }),
    ensures
        driven(c, t) == t.heap.step_foldl(f, items, i, acc, half, finishing, t.incoming),
{
    reveal(driven);
}

/// Where a fold is after its `k`th step: it asks for the function applied to
/// what was folded so far, then for that applied to the next element.
spec fn fold_stands(
    a: Seq<usize>,
    run: Seq<Turn>,
    f: Value,
    first: Slot,
    items: usize,
    k: int,
    w: (HeapView, Walked),
) -> bool {
    let (g, (cont, y)) = w;
    let i = k / 2;
    &&& items < g.lists.len()
    &&& g.list(items) == a
    &&& cont is Foldl
    &&& cont->Foldl_f == f
    &&& cont->Foldl_items == items
    &&& if k % 2 == 1 {
        // The function has been applied to what was folded so far.
        &&& i < a.len()
        &&& cont->Foldl_i == i
        &&& cont->Foldl_half
        &&& !cont->Foldl_finishing
        &&& y == Ok::<Yield, Fault>(Yield::Apply(answer(run, k - 1), a[i]))
    } else {
        let acc = cont->Foldl_acc;
        &&& i <= a.len()
        &&& cont->Foldl_i == i
        &&& !cont->Foldl_half
        &&& i == 0 ==> acc == first
        &&& i > 0 ==> g.slot(acc) == SlotState::Value(answer(run, k - 1))
        &&& if i < a.len() {
            !cont->Foldl_finishing && y == Ok::<Yield, Fault>(Yield::Apply(f, acc))
        } else if i > 0 {
            y == Ok::<Yield, Fault>(Yield::Done(answer(run, k - 1)))
        } else {
            y == Ok::<Yield, Fault>(Yield::Force(first)) && cont->Foldl_finishing || g.peek(first) is Some
                && y == Ok::<Yield, Fault>(Yield::Done(g.peek(first)->0))
        }
    }
}

proof fn lemma_fold_run(
    c: Called,
    run: Seq<Turn>,
    f: Value,
    first: Slot,
    items: usize,
    k: int,
)
    requires
        is_run("foldl'"@, c, run),
        argument(run[0].heap, c, 0) == Some(f),
        run[0].heap.list(c.args).len() > 1,
        run[0].heap.list(c.args)[1] == first,
        argument(run[0].heap, c, 2) == Some(Value::List(items)),
        items < run[0].heap.lists.len(),
        run[0].heap.list(items).len() < usize::MAX,
        run[0].heap.list(items).len() > 0,
        forall|j: int| 0 <= j < run.len() ==> (#[trigger] run[j]).heap.slots.len() + 4 < usize::MAX,
        0 <= k < run.len(),
    ensures
        fold_stands(
            run[0].heap.list(items),
            run,
            f,
            first,
            items,
            k,
            driven(c, run[k]),
        ),
    decreases k,
{
    let a = run[0].heap.list(items);
    if k == 0 {
        lemma_fold_starts(c, run[0], f, first, items);
    } else {
        let m = k - 1;
        lemma_fold_run(c, run, f, first, items, m);
        assert(follows(c, run[m], run[m + 1]));
        let (g, (cont, _)) = driven(c, run[m]);
        let t = run[k];
        lemma_kept_list(g, t.heap, items);
        assert(answer(run, m) == t.incoming->0);
        lemma_fold_driven(
            c,
            t,
            f,
            items,
            cont->Foldl_i,
            cont->Foldl_acc,
            cont->Foldl_half,
            cont->Foldl_finishing,
        );
        let i = m / 2;
        if m % 2 == 0 {
            assert(k / 2 == i && k % 2 == 1);
        } else {
            assert(k / 2 == i + 1 && k % 2 == 0);
            let v = answer(run, m);
            let (h, acc) = t.heap.value_slot(v);
            assert(h.slot(acc) == SlotState::Value(v));
            assert(h.list(items) == a);
        }
    }
}

/// `foldl'` takes the elements from the first to the last: for each it applies
/// the function to what was folded so far, and the result to the element. What
/// the last of these applications gave is the value; of an empty list it is
/// the first accumulator.
pub proof fn law_fold_takes_each_element(
    c: Called,
    run: Seq<Turn>,
    f: Value,
    first: Slot,
    items: usize,
)
    requires
        is_run("foldl'"@, c, run),
        argument(run[0].heap, c, 0) == Some(f),
        run[0].heap.list(c.args).len() > 1,
        run[0].heap.list(c.args)[1] == first,
        argument(run[0].heap, c, 2) == Some(Value::List(items)),
        items < run[0].heap.lists.len(),
        0 < run[0].heap.list(items).len() < usize::MAX,
        forall|j: int| 0 <= j < run.len() ==> (#[trigger] run[j]).heap.slots.len() + 4 < usize::MAX,
    ensures
        ({
            let a = run[0].heap.list(items);
            let n = run.len() - 1;
            let (g, y) = ends(c, run);
            &&& n <= 2 * a.len()
            &&& n == 2 * a.len() ==> y == Ok::<Yield, Fault>(Yield::Done(answer(run, n - 1)))
            &&& n < 2 * a.len() && n % 2 == 1 ==> y == Ok::<Yield, Fault>(
                Yield::Apply(answer(run, n - 1), a[n / 2]),
            )
            &&& n < 2 * a.len() && n % 2 == 0 ==> (y matches Ok(Yield::Apply(g2, acc)) && g2 == f && (
            n == 0 ==> acc == first) && (n > 0 ==> g.slot(acc) == SlotState::Value(
                answer(run, n - 1),
            )))
        }),
{
    lemma_fold_run(c, run, f, first, items, run.len() - 1);
}

} // verus!
