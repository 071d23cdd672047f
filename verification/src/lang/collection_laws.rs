//! What the builtins come to that make a list or a set out of another, or put
//! the forced elements of a list together.
use crate::lang::attrs::common;
use crate::lang::builtin_laws::is_call;
use crate::lang::conts::item_value;
use crate::lang::frames::{Cont, Finish, Yield};
use crate::lang::heap::{lookup, Fault, HeapView, Item, Slot, SlotState, Sym, Value};
use crate::lang::list_laws::{
    answer, argument, driven, ends, follows, is_run, lemma_kept_list, lemma_named, Called, Turn,
};
use crate::lang::set_laws::in_order;
use crate::lang::strings::joined;
use vstd::prelude::*;

verus! {

// -- map and genList ---------------------------------------------------------

/// Whether a slot holds an application of a function to one slot, not yet
/// performed.
pub open spec fn is_pending(h: HeapView, s: Slot, f: Value, args: Seq<usize>) -> bool {
    h.slot(s) matches SlotState::PendingApply { f: g, args: l } && g == f && h.list(l) == args
}

proof fn lemma_map_pending(h: HeapView, f: Value, items: Seq<usize>, i: int, out: Seq<usize>)
    requires
        0 <= i <= items.len(),
        out.len() == i,
        h.slots.len() + items.len() - i + 4 < usize::MAX,
        h.lists.len() + items.len() - i + 4 < usize::MAX,
        forall|j: int|
            0 <= j < i ==> is_pending(h, #[trigger] out[j], f, seq![items[j]]) && out[j]
                < h.slots.len(),
        forall|j: int|
            0 <= j < i ==> h.slot(#[trigger] out[j])->PendingApply_args < h.lists.len(),
    ensures
        ({
            let (g, all) = h.map_pending(f, items, i, out);
            &&& all.len() == items.len()
            &&& forall|j: int|
                0 <= j < items.len() ==> is_pending(g, #[trigger] all[j], f, seq![items[j]])
            &&& g.lists.len() == h.lists.len() + items.len() - i
        }),
    decreases items.len() - i,
{
    if i < items.len() {
        let (g, s) = h.pending_slot(f, seq![items[i]]);
        let more = out.push(s);
        assert forall|j: int| 0 <= j < i + 1 implies is_pending(
            g,
            #[trigger] more[j],
            f,
            seq![items[j]],
        ) && more[j] < g.slots.len() && g.slot(more[j])->PendingApply_args < g.lists.len() by {
            if j < i {
                assert(more[j] == out[j]);
            }
        }
        lemma_map_pending(g, f, items, i + 1, more);
    }
}

/// `map` makes a list of as many elements, each the function applied to the
/// element in its place, not yet performed.
pub proof fn law_map_applies_to_each(c: Called, t: Turn, f: Value, l: usize)
    requires
        is_call("map"@, c, t),
        argument(t.heap, c, 0) == Some(f),
        argument(t.heap, c, 1) == Some(Value::List(l)),
        t.heap.slots.len() + t.heap.list(l).len() + 4 < usize::MAX,
        t.heap.lists.len() + t.heap.list(l).len() + 4 < usize::MAX,
    ensures
        ({
            let a = t.heap.list(l);
            let (g, (_, y)) = driven(c, t);
            y matches Ok(Yield::Done(v)) && v is List && g.list(v->List_0).len() == a.len()
                && forall|i: int|
                0 <= i < a.len() ==> is_pending(g, #[trigger] g.list(v->List_0)[i], f, seq![a[i]])
        }),
{
    reveal(driven);
    reveal_strlit("map");
    lemma_named("map"@, 3, c.idx);
    let a = t.heap.list(l);
    lemma_map_pending(t.heap, f, a, 0, Seq::empty());
    let (h, all) = t.heap.map_pending(f, a, 0, Seq::empty());
    let (g, v) = h.list_value(all);
    assert(g.list(v->List_0) == all);
    assert forall|i: int| 0 <= i < a.len() implies is_pending(
        g,
        #[trigger] g.list(v->List_0)[i],
        f,
        seq![a[i]],
    ) by {
        assert(is_pending(h, all[i], f, seq![a[i]]));
        let x = h.slot(all[i])->PendingApply_args;
        if x >= h.lists.len() {
            assert(h.list(x).len() == 0);
            assert(seq![a[i]].len() == 1);
        }
    }
}

/// Whether a slot holds a function applied to a number, not yet performed.
pub open spec fn is_pending_number(h: HeapView, s: Slot, f: Value, n: int) -> bool {
    exists|x: Slot| #[trigger] is_pending(h, s, f, seq![x]) && h.slot(x) == SlotState::Value(
        Value::Int(n as i64),
    )
}

spec fn is_made(h: HeapView, s: Slot, f: Value, n: int) -> bool {
    &&& s < h.slots.len()
    &&& h.slot(s) is PendingApply
    &&& h.slot(s)->PendingApply_f == f
    &&& h.slot(s)->PendingApply_args < h.lists.len()
    &&& h.list(h.slot(s)->PendingApply_args).len() == 1
    &&& h.list(h.slot(s)->PendingApply_args)[0] < h.slots.len()
    &&& h.slot(h.list(h.slot(s)->PendingApply_args)[0]) == SlotState::Value(Value::Int(n as i64))
}

proof fn lemma_gen_pending(h: HeapView, f: Value, n: int, i: int, out: Seq<usize>)
    requires
        0 <= i <= n,
        out.len() == i,
        h.slots.len() + 2 * (n - i) + 4 < usize::MAX,
        h.lists.len() + n - i + 4 < usize::MAX,
        forall|j: int| 0 <= j < i ==> is_made(h, #[trigger] out[j], f, j),
    ensures
        ({
            let (g, all) = h.gen_pending(f, n, i, out);
            &&& all.len() == n
            &&& forall|j: int| 0 <= j < n ==> is_made(g, #[trigger] all[j], f, j)
            &&& g.lists.len() == h.lists.len() + n - i
        }),
    decreases n - i,
{
    if i < n {
        let (h1, num) = h.value_slot(Value::Int(i as i64));
        let (g, s) = h1.pending_slot(f, seq![num]);
        let more = out.push(s);
        assert forall|j: int| 0 <= j < i + 1 implies is_made(g, #[trigger] more[j], f, j) by {
            if j < i {
                assert(is_made(h, out[j], f, j));
            } else {
                assert(g.list(g.slot(s)->PendingApply_args) == seq![num]);
            }
        }
        lemma_gen_pending(g, f, n, i + 1, more);
    }
}

/// `genList` makes a list of as many elements as it is told, each the function
/// applied to its place, counted from zero. A negative number is refused.
pub proof fn law_gen_list_applies_to_places(c: Called, t: Turn, f: Value, n: i64)
    requires
        is_call("genList"@, c, t),
        argument(t.heap, c, 0) == Some(f),
        argument(t.heap, c, 1) == Some(Value::Int(n)),
        n >= 0 ==> t.heap.slots.len() + 2 * n + 4 < usize::MAX,
        n >= 0 ==> t.heap.lists.len() + n + 4 < usize::MAX,
    ensures
        ({
            let (g, (_, y)) = driven(c, t);
            &&& n >= 0 ==> (y matches Ok(Yield::Done(v)) && v is List && g.list(v->List_0).len()
                == n && forall|i: int|
                0 <= i < n ==> is_pending_number(g, #[trigger] g.list(v->List_0)[i], f, i))
            &&& n < 0 ==> y is Err
        }),
{
    reveal(driven);
    reveal_strlit("genList");
    lemma_named("genList"@, 17, c.idx);
    if n >= 0 {
        lemma_gen_pending(t.heap, f, n as int, 0, Seq::empty());
        let (h, all) = t.heap.gen_pending(f, n as int, 0, Seq::empty());
        let (g, v) = h.list_value(all);
        assert(g.list(v->List_0) == all);
        assert forall|i: int| 0 <= i < n implies is_pending_number(
            g,
            #[trigger] g.list(v->List_0)[i],
            f,
            i,
        ) by {
            assert(is_made(h, all[i], f, i));
            let x = h.slot(all[i])->PendingApply_args;
            assert(g.list(x) == h.list(x));
            assert(h.list(x) =~= seq![h.list(x)[0]]);
            assert(is_pending(g, all[i], f, seq![h.list(x)[0]]));
        }
    }
}

// -- intersectAttrs ----------------------------------------------------------

pub proof fn lemma_lookup_in(set: Seq<(Sym, Slot)>, k: Sym)
    requires
        in_order(set),
    ensures
        lookup(set, k) is Some ==> exists|j: int|
            0 <= j < set.len() && (#[trigger] set[j]).0 == k && lookup(set, k) == Some(set[j].1),
        forall|j: int|
            0 <= j < set.len() && (#[trigger] set[j]).0 == k ==> lookup(set, k) == Some(set[j].1),
{
    crate::lang::builtin_laws::lemma_place(set, k, 0);
}

proof fn lemma_common(a: Seq<(Sym, Slot)>, b: Seq<(Sym, Slot)>)
    requires
        in_order(b),
    ensures
        in_order(common(a, b)),
        forall|x: (Sym, Slot)| #[trigger]
            common(a, b).contains(x) <==> b.contains(x) && lookup(a, x.0) is Some,
    decreases b.len(),
{
    if b.len() > 0 {
        let low = b.drop_last();
        let last = b.last();
        assert(in_order(low)) by {
            assert forall|i: int, j: int| 0 <= i < j < low.len() implies (#[trigger] low[i]).0 < (
            #[trigger] low[j]).0 by {
                assert(low[i] == b[i] && low[j] == b[j]);
            }
        }
        lemma_common(a, low);
        let out = common(a, low);
        let all = common(a, b);
        assert forall|i: int| 0 <= i < out.len() implies (#[trigger] out[i]).0 < last.0 by {
            assert(out.contains(out[i]));
            let k = choose|k: int| 0 <= k < low.len() && low[k] == out[i];
            assert(b[k].0 < b[b.len() - 1].0);
        }
        assert forall|x: (Sym, Slot)| #[trigger] all.contains(x) <==> b.contains(x) && lookup(
            a,
            x.0,
        ) is Some by {
            if all.contains(x) {
                let k = choose|k: int| 0 <= k < all.len() && all[k] == x;
                if k < out.len() {
                    assert(out[k] == x);
                    assert(out.contains(x));
                    let j = choose|j: int| 0 <= j < low.len() && low[j] == x;
                    assert(b[j] == x);
                } else {
                    assert(b[b.len() - 1] == x);
                }
            }
            if b.contains(x) && lookup(a, x.0) is Some {
                let k = choose|k: int| 0 <= k < b.len() && b[k] == x;
                if k < low.len() {
                    assert(low[k] == x);
                    assert(out.contains(x));
                    let j = choose|j: int| 0 <= j < out.len() && out[j] == x;
                    assert(all[j] == x);
                } else {
                    assert(all[out.len() as int] == x);
                }
            }
        }
    }
}

/// `intersectAttrs` has, for the names that both sets have, what the second
/// one has, and no other names.
pub proof fn law_intersection_is_of_the_second(c: Called, t: Turn, a: usize, b: usize, k: Sym)
    requires
        is_call("intersectAttrs"@, c, t),
        argument(t.heap, c, 0) == Some(Value::Attrs(a)),
        argument(t.heap, c, 1) == Some(Value::Attrs(b)),
        in_order(t.heap.set(b)),
    ensures
        ({
            let (g, (_, y)) = driven(c, t);
            y matches Ok(Yield::Done(v)) && v is Attrs && in_order(g.set(v->Attrs_0)) && lookup(
                g.set(v->Attrs_0),
                k,
            ) == if lookup(t.heap.set(a), k) is Some {
                lookup(t.heap.set(b), k)
            } else {
                None
            }
        }),
{
    reveal(driven);
    reveal_strlit("intersectAttrs");
    lemma_named("intersectAttrs"@, 25, c.idx);
    let x = t.heap.set(a);
    let y = t.heap.set(b);
    lemma_common(x, y);
    let out = common(x, y);
    lemma_lookup_in(out, k);
    lemma_lookup_in(y, k);
    if lookup(out, k) is Some {
        let j = choose|j: int|
            0 <= j < out.len() && (#[trigger] out[j]).0 == k && lookup(out, k) == Some(out[j].1);
        assert(out.contains(out[j]));
        let i = choose|i: int| 0 <= i < y.len() && y[i] == out[j];
        assert(y[i].0 == k);
    }
    if lookup(x, k) is Some && lookup(y, k) is Some {
        let i = choose|i: int|
            0 <= i < y.len() && (#[trigger] y[i]).0 == k && lookup(y, k) == Some(y[i].1);
        assert(y.contains(y[i]));
        assert(out.contains(y[i]));
        let j = choose|j: int| 0 <= j < out.len() && out[j] == y[i];
        assert(out[j].0 == k);
    }
}

// -- the forced elements of a list -------------------------------------------

/// The first `n` answers of a run.
pub open spec fn said(run: Seq<Turn>, n: int) -> Seq<Value> {
    Seq::new(n as nat, |k: int| answer(run, k))
}

/// Values as they are collected.
pub open spec fn as_items(vals: Seq<Value>) -> Seq<Item> {
    Seq::new(vals.len(), |k: int| Item::Val(vals[k]))
}

proof fn lemma_each_driven(
    c: Called,
    t: Turn,
    items: usize,
    i: usize,
    vals: usize,
    finish: Finish,
)
    requires
        t.cont == (Cont::ForceEach { items, i, vals, finish }),
    ensures
        driven(c, t) == t.heap.step_force_each(items, i, vals, finish, c.args, t.incoming),
{
    reveal(driven);
}

/// Whether a builtin forces the elements of a list one after the other.
pub open spec fn starts_each(c: Called, t: Turn, items: usize, finish: Finish) -> bool {
    driven(c, t) == t.heap.new_work(Seq::empty()).0.step_force_each(
        items,
        0,
        t.heap.works.len() as usize,
        finish,
        c.args,
        None,
    )
}

pub proof fn lemma_each_run(
    name: Seq<char>,
    c: Called,
    run: Seq<Turn>,
    items: usize,
    finish: Finish,
    k: int,
)
    requires
        is_run(name, c, run),
        starts_each(c, run[0], items, finish),
        items < run[0].heap.lists.len(),
        c.args < run[0].heap.lists.len(),
        run[0].heap.list(items).len() < usize::MAX,
        run[0].heap.works.len() + 4 < usize::MAX,
        0 <= k < run.len(),
    ensures
        ({
            let a = run[0].heap.list(items);
            let vals = run[0].heap.works.len() as usize;
            let (g, (cont, y)) = driven(c, run[k]);
            &&& k <= a.len()
            &&& k < a.len() ==> {
                &&& y == Ok::<Yield, Fault>(Yield::Force(a[k]))
                &&& cont == (Cont::ForceEach { items, i: k as usize, vals, finish })
                &&& items < g.lists.len()
                &&& c.args < g.lists.len()
                &&& vals < g.works.len()
                &&& g.list(items) == a
                &&& g.list(c.args) == run[0].heap.list(c.args)
                &&& g.work(vals) == as_items(said(run, k))
            }
            &&& k == a.len() ==> exists|h: HeapView| #[trigger]
                same_arenas(h, run[k].heap) && {
                    let (g2, r) = h.finish(finish, as_items(said(run, k)), c.args);
                    g == g2 && (r matches Ok(v) ==> y == Ok::<Yield, Fault>(Yield::Done(v))) && (
                    r matches Err(e) ==> y == Err::<Yield, Fault>(e))
                }
        }),
    decreases k,
{
    let a = run[0].heap.list(items);
    let vals = run[0].heap.works.len() as usize;
    if k == 0 {
        let h = run[0].heap.new_work(Seq::empty()).0;
        assert(h.work(vals) =~= as_items(said(run, 0)));
        assert(same_arenas(h, run[0].heap));
    } else {
        let m = k - 1;
        lemma_each_run(name, c, run, items, finish, m);
        assert(follows(c, run[m], run[m + 1]));
        let (g, (cont, y)) = driven(c, run[m]);
        if m == a.len() {
            assert(y is Ok);
            assert(y->Ok_0 is Done);
            assert(false);
        }
        let t = run[k];
        lemma_kept_list(g, t.heap, items);
        lemma_kept_list(g, t.heap, c.args);
        assert(t.heap.works.take(g.works.len() as int)[vals as int] == t.heap.works[vals as int]);
        assert(t.heap.work(vals) == g.work(vals));
        lemma_each_driven(c, t, items, m as usize, vals, finish);
        let v = t.incoming->0;
        assert(answer(run, m) == v);
        let h = t.heap.work_put(vals, t.heap.work(vals).push(Item::Val(v)));
        assert(h.work(vals) =~= as_items(said(run, k)));
        assert(same_arenas(h, t.heap));
    }
}

/// Whether two heaps differ in nothing but what is being worked on.
pub open spec fn same_arenas(a: HeapView, b: HeapView) -> bool {
    &&& a.lists == b.lists
    &&& a.texts == b.texts
    &&& a.sets == b.sets
    &&& a.slots == b.slots
    &&& a.symbols == b.symbols
}

/// The lists that values are, one behind the other.
pub open spec fn chained(h: HeapView, vals: Seq<Value>) -> Seq<usize>
    decreases vals.len(),
{
    if vals.len() == 0 {
        Seq::empty()
    } else {
        chained(h, vals.drop_last()) + h.list(vals.last()->List_0)
    }
}

proof fn lemma_concat_from(h: HeapView, vals: Seq<Value>, i: int)
    requires
        0 <= i <= vals.len(),
    ensures
        ({
            let (g, r) = h.concat_from(as_items(vals), i, chained(h, vals.take(i)));
            if forall|k: int| i <= k < vals.len() ==> (#[trigger] vals[k]) is List {
                g == h && r == Ok::<Seq<usize>, Fault>(chained(h, vals))
            } else {
                r is Err
            }
        }),
    decreases vals.len() - i,
{
    if i == vals.len() {
        assert(vals.take(i) =~= vals);
    } else {
        assert(item_value(as_items(vals)[i]) == vals[i]);
        if vals[i] is List {
            assert(vals.take(i + 1).drop_last() =~= vals.take(i));
            lemma_concat_from(h, vals, i + 1);
        }
    }
}

/// `concatLists` forces every element in order, and puts them, all lists, one
/// behind the other. An element that is no list is an error.
pub proof fn law_concat_lists_chains(c: Called, run: Seq<Turn>, items: usize)
    requires
        is_run("concatLists"@, c, run),
        argument(run[0].heap, c, 0) == Some(Value::List(items)),
        items < run[0].heap.lists.len(),
        run[0].heap.list(items).len() < usize::MAX,
        run[0].heap.works.len() + 4 < usize::MAX,
        run.last().heap.lists.len() + 4 < usize::MAX,
    ensures
        ({
            let a = run[0].heap.list(items);
            let n = run.len() - 1;
            let (g, y) = ends(c, run);
            &&& n <= a.len()
            &&& n < a.len() ==> y == Ok::<Yield, Fault>(Yield::Force(a[n]))
            &&& n == a.len() ==> if forall|k: int|
                0 <= k < n ==> (#[trigger] said(run, n)[k]) is List {
                y matches Ok(Yield::Done(v)) && v is List && g.list(v->List_0) == chained(
                    run.last().heap,
                    said(run, n),
                )
            } else {
                y is Err
            }
        }),
{
    let a = run[0].heap.list(items);
    let n = run.len() - 1;
    assert(starts_each(c, run[0], items, Finish::ConcatLists)) by {
        reveal(driven);
        reveal_strlit("concatLists");
        lemma_named("concatLists"@, 15, c.idx);
    }
    assert(c.args < run[0].heap.lists.len());
    lemma_each_run("concatLists"@, c, run, items, Finish::ConcatLists, n);
    if n == a.len() {
        let vals = said(run, n);
        let (g, (_, y)) = driven(c, run[n]);
        let h = choose|h: HeapView| #[trigger]
            same_arenas(h, run[n].heap) && {
                let (g2, r) = h.finish(Finish::ConcatLists, as_items(vals), c.args);
                g == g2 && (r matches Ok(v) ==> y == Ok::<Yield, Fault>(Yield::Done(v))) && (
                r matches Err(e) ==> y == Err::<Yield, Fault>(e))
            };
        lemma_concat_from(h, vals, 0);
        assert(vals.take(0) =~= Seq::empty());
        assert(chained(h, vals.take(0)) =~= Seq::empty());
        lemma_chained_same(h, run[n].heap, vals);
    }
}

proof fn lemma_chained_same(a: HeapView, b: HeapView, vals: Seq<Value>)
    requires
        a.lists == b.lists,
    ensures
        chained(a, vals) == chained(b, vals),
    decreases vals.len(),
{
    if vals.len() > 0 {
        lemma_chained_same(a, b, vals.drop_last());
    }
}

/// The text of a string or a path.
pub open spec fn text_in(h: HeapView, v: Value) -> Seq<char> {
    match v {
        Value::Str(s) => h.text(s),
        Value::Path(p) => h.text(p),
        _ => Seq::empty(),
    }
}

/// Whether a value is a string or a path.
pub open spec fn has_text(v: Value) -> bool {
    v is Str || v is Path
}

/// The texts of values.
pub open spec fn texts_in(h: HeapView, vals: Seq<Value>) -> Seq<Seq<char>> {
    Seq::new(vals.len(), |k: int| text_in(h, vals[k]))
}

proof fn lemma_texts_from(h: HeapView, vals: Seq<Value>, i: int)
    requires
        0 <= i <= vals.len(),
    ensures
        ({
            let (g, r) = h.texts_from(as_items(vals), i, texts_in(h, vals).take(i));
            if forall|k: int| i <= k < vals.len() ==> has_text(#[trigger] vals[k]) {
                g == h && r == Ok::<Seq<Seq<char>>, Fault>(texts_in(h, vals))
            } else {
                r is Err
            }
        }),
    decreases vals.len() - i,
{
    let all = texts_in(h, vals);
    if i == vals.len() {
        assert(all.take(i) =~= all);
    } else {
        assert(item_value(as_items(vals)[i]) == vals[i]);
        if has_text(vals[i]) {
            assert(all.take(i + 1) =~= all.take(i).push(all[i]));
            lemma_texts_from(h, vals, i + 1);
        }
    }
}

/// Texts with another between each two: nothing for none, the text itself for
/// one, and for more the first, what stands between, and the rest.
pub open spec fn is_joined(parts: Seq<Seq<char>>, sep: Seq<char>, all: Seq<char>) -> bool
    decreases parts.len(),
{
    if parts.len() == 0 {
        all.len() == 0
    } else if parts.len() == 1 {
        all == parts[0]
    } else {
        let head = parts[0] + sep;
        &&& all.len() >= head.len()
        &&& all.take(head.len() as int) == head
        &&& is_joined(parts.drop_first(), sep, all.skip(head.len() as int))
    }
}

proof fn lemma_joined_front(parts: Seq<Seq<char>>, sep: Seq<char>)
    requires
        parts.len() > 1,
    ensures
        joined(parts, sep) == parts[0] + sep + joined(parts.drop_first(), sep),
    decreases parts.len(),
{
    let rest = parts.drop_first();
    if parts.len() == 2 {
        assert(parts.drop_last().len() == 1 && parts.drop_last()[0] == parts[0]);
        assert(joined(parts.drop_last(), sep) == parts[0]);
        assert(rest.len() == 1 && rest[0] == parts[1]);
        assert(joined(rest, sep) == parts[1]);
        assert(parts.last() == parts[1]);
    } else {
        lemma_joined_front(parts.drop_last(), sep);
        assert(parts.drop_last().drop_first() =~= rest.drop_last());
        assert(parts.drop_last()[0] == parts[0]);
        assert(rest.last() == parts.last());
        let low = joined(rest.drop_last(), sep);
        assert(joined(rest, sep) == low + sep + rest.last());
        assert(joined(parts.drop_last(), sep) == parts[0] + sep + low);
        assert((parts[0] + sep + low) + sep + parts.last() =~= parts[0] + sep + (low + sep
            + parts.last()));
    }
}

proof fn lemma_joined(parts: Seq<Seq<char>>, sep: Seq<char>)
    ensures
        is_joined(parts, sep, joined(parts, sep)),
    decreases parts.len(),
{
    if parts.len() == 1 {
        assert(parts.drop_last() =~= Seq::<Seq<char>>::empty());
        assert(joined(parts, sep) =~= parts[0]);
    } else if parts.len() > 1 {
        lemma_joined_front(parts, sep);
        lemma_joined(parts.drop_first(), sep);
        let all = joined(parts, sep);
        let head = parts[0] + sep;
        assert(all.take(head.len() as int) =~= head);
        assert(all.skip(head.len() as int) =~= joined(parts.drop_first(), sep));
    }
}

/// `concatStringsSep` forces every element in order, and puts their texts one
/// behind the other, with the separator between each two. An element that has
/// no text is an error.
pub proof fn law_concat_strings_sep_joins(c: Called, run: Seq<Turn>, sep: usize, items: usize)
    requires
        is_run("concatStringsSep"@, c, run),
        argument(run[0].heap, c, 0) == Some(Value::Str(sep)),
        argument(run[0].heap, c, 1) == Some(Value::List(items)),
        items < run[0].heap.lists.len(),
        run[0].heap.list(items).len() < usize::MAX,
        run[0].heap.works.len() + 4 < usize::MAX,
        run.last().heap.texts.len() + 4 < usize::MAX,
        argument(run.last().heap, c, 0) == Some(Value::Str(sep)),
    ensures
        ({
            let a = run[0].heap.list(items);
            let n = run.len() - 1;
            let (g, y) = ends(c, run);
            let h = run.last().heap;
            &&& n <= a.len()
            &&& n < a.len() ==> y == Ok::<Yield, Fault>(Yield::Force(a[n]))
            &&& n == a.len() ==> if forall|k: int|
                0 <= k < n ==> has_text(#[trigger] said(run, n)[k]) {
                y matches Ok(Yield::Done(v)) && v is Str && is_joined(
                    texts_in(h, said(run, n)),
                    h.text(sep),
                    g.text(v->Str_0),
                )
            } else {
                y is Err
            }
        }),
{
    let a = run[0].heap.list(items);
    let n = run.len() - 1;
    assert(starts_each(c, run[0], items, Finish::ConcatSep)) by {
        reveal(driven);
        reveal_strlit("concatStringsSep");
        lemma_named("concatStringsSep"@, 33, c.idx);
    }
    assert(c.args < run[0].heap.lists.len());
    lemma_each_run("concatStringsSep"@, c, run, items, Finish::ConcatSep, n);
    if n == a.len() {
        let vals = said(run, n);
        let (g, (_, y)) = driven(c, run[n]);
        let h = choose|h: HeapView| #[trigger]
            same_arenas(h, run[n].heap) && {
                let (g2, r) = h.finish(Finish::ConcatSep, as_items(vals), c.args);
                g == g2 && (r matches Ok(v) ==> y == Ok::<Yield, Fault>(Yield::Done(v))) && (
                r matches Err(e) ==> y == Err::<Yield, Fault>(e))
            };
        assert(h.arg_str(c.args, 0) == (h, Ok::<usize, Fault>(sep)));
        lemma_texts_from(h, vals, 0);
        assert(texts_in(h, vals).take(0) =~= Seq::empty());
        assert(texts_in(h, vals) =~= texts_in(run[n].heap, vals));
        lemma_joined(texts_in(h, vals), h.text(sep));
    }
}

} // verus!
