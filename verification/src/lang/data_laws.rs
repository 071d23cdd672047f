//! What lists, strings and sets are made of, and how their parts are compared.
use crate::lang::builtin_laws::{binds, is_set, lemma_looked_up, lemma_place};
use crate::lang::call_laws::lemma_intern;
use crate::lang::frames::{Flow, Frame, Task, UnitFrame, Yield};
use crate::lang::heap::{bind, lookup, place, Fault, HeapView, Item, Slot, Sym, Value};
use crate::lang::ir::{ConstView, Op};
use crate::lang::operator_laws::{
    about_to, comes_to_list, comes_to_text, lemma_at_once, lemma_no_gap, lemma_same, past, popped,
    reaches, under,
};
use crate::lang::scopes::CompilerView;
use crate::lang::set_laws::law_bound_name_is_found;
use crate::lang::syntax::{Class, Kind, TreeView};
use crate::lang::units::{stepped, OpOut};
use crate::lang::vm::VmView;
use crate::lang::walks::{names_differ, pairs_reversed, slots_of, Verdict};
use vstd::prelude::*;

verus! {

// -- lists -------------------------------------------------------------------

/// Whether the topmost operands are these slots, none of them forced, the last
/// one topmost.
pub open spec fn has_slots(h: HeapView, st: usize, slots: Seq<usize>) -> bool {
    let w = h.work(st);
    &&& st < h.works.len()
    &&& w.len() >= slots.len()
    &&& forall|i: int|
        0 <= i < slots.len() ==> w[w.len() - slots.len() + i] == Item::Lazy(#[trigger] slots[i])
}

proof fn lemma_pop_slots(h: HeapView, st: usize, slots: Seq<usize>, got: Seq<usize>)
    requires
        has_slots(h, st, slots),
    ensures
        h.pop_slots(st, slots.len() as int, got) == (
            popped(h, st, slots.len() as int),
            Ok::<Seq<usize>, Fault>(got + slots.reverse()),
        ),
    decreases slots.len(),
{
    let w = h.work(st);
    let n = slots.len() as int;
    if n == 0 {
        assert(w.take(w.len() as int) =~= w);
        assert(h.works.update(st as int, w) =~= h.works);
        assert(got + slots.reverse() =~= got);
    } else {
        let low = slots.drop_last();
        let s = slots.last();
        assert(w[w.len() - n + (n - 1)] == Item::Lazy(slots[n - 1]));
        let g = h.work_put(st, w.drop_last());
        let v = g.work(st);
        assert(v == w.drop_last());
        assert forall|i: int| 0 <= i < low.len() implies v[v.len() - low.len() + i] == Item::Lazy(
            #[trigger] low[i],
        ) by {
            assert(w[w.len() - n + i] == Item::Lazy(slots[i]));
        }
        lemma_pop_slots(g, st, low, got.push(s));
        assert(got.push(s) + low.reverse() =~= got + slots.reverse());
        assert(v.take(v.len() - (n - 1)) =~= w.take(w.len() - n));
        assert(g.works.update(st as int, w.take(w.len() - n)) =~= h.works.update(
            st as int,
            w.take(w.len() - n),
        ));
    }
}

/// A list is made of its elements in the order they were written, none of them
/// forced.
pub proof fn law_a_list_keeps_its_order(vm: VmView, u: UnitFrame, n: u16, slots: Seq<usize>)
    requires
        about_to(vm, u, Op::MkList { n }, seq![]),
        n == slots.len(),
        has_slots(vm.heap, u.stack, slots),
    ensures
        comes_to_list(vm, u, n as int, slots),
{
    lemma_pop_slots(vm.heap, u.stack, slots, Seq::empty());
    let g = popped(vm.heap, u.stack, n as int);
    let got = Seq::<usize>::empty() + slots.reverse();
    assert(got.reverse() =~= slots);
    let (h, v) = g.list_value(slots);
    assert(vm.heap.exec_op(u) == (h.push_value(u.stack, v), OpOut::Go(stepped(u))));
    lemma_same(vm.heap);
    assert(h.lists.take(vm.heap.lists.len() as int) =~= vm.heap.lists);
    lemma_at_once(vm, u, Op::MkList { n }, seq![], n as int, h, v);
    let after = under(vm).with_heap(h.push_value(u.stack, v)).push(Frame::Unit(stepped(u))).go(
        Flow::Advance,
    );
    assert(after.heap.list(v->List_0) == slots);
    assert(past(vm, u, n as int, v, after));
    assert(reaches(vm, after, 1) && past(vm, u, n as int, Value::List(v->List_0), after));
}

proof fn lemma_list_code(
    c: CompilerView,
    t: TreeView,
    items: Seq<usize>,
    i: int,
    ops: Seq<Op>,
    n: u16,
    fuel: nat,
)
    requires
        0 <= i <= items.len(),
        n + (items.len() - i) <= u16::MAX,
    ensures
        c.list_from(t, items, i, ops, n, fuel) matches Ok((_, out)) ==> out.len() == ops.len() + (
        items.len() - i) + 1 && out.last() == (Op::MkList { n: (n + (items.len() - i)) as u16 }),
    decreases items.len() - i,
{
    if i < items.len() {
        if let Ok((d, op)) = c.compile_lazy(t, items[i], fuel) {
            lemma_list_code(d, t, items, i + 1, ops.push(op), (n + 1) as u16, fuel);
        }
    }
}

/// A list compiles to one instruction for each element that is written, which
/// does not force it, and one that takes them all.
pub proof fn law_a_list_takes_all_its_elements(
    c: CompilerView,
    t: TreeView,
    e: usize,
    ops: Seq<Op>,
    fuel: nat,
)
    requires
        fuel > 0,
        t.kind(e) == Kind::List,
        t.children(e, Class::Exprs).len() <= u16::MAX,
    ensures
        c.compile(t, e, ops, fuel) matches Ok((_, out)) ==> {
            let n = t.children(e, Class::Exprs).len();
            out.len() == ops.len() + n + 1 && out.last() == (Op::MkList { n: n as u16 })
        },
{
    let items = t.children(e, Class::Exprs);
    let less = (fuel - 1) as nat;
    assert(c.compile(t, e, ops, fuel) == c.list_from(t, items, 0, ops, 0, less));
    lemma_list_code(c, t, items, 0, ops, 0, less);
}

// -- sets --------------------------------------------------------------------

/// Whether one of the first `n` pairs gives a name a slot.
pub open spec fn gives_name(
    h: HeapView,
    pairs: Seq<(Value, Slot)>,
    n: int,
    name: Seq<char>,
    s: Slot,
) -> bool {
    exists|j: int|
        0 <= j < n && (#[trigger] pairs[j]).0 is Str && h.text(pairs[j].0->Str_0) == name
            && pairs[j].1 == s
}

proof fn lemma_set_from(
    start: HeapView,
    h: HeapView,
    pairs: Seq<(Value, Slot)>,
    i: int,
    out: Seq<(Sym, Slot)>,
)
    requires
        0 <= i <= pairs.len(),
        is_set(h, out),
        h.texts == start.texts,
        h.symbols.len() + pairs.len() - i < u32::MAX,
        forall|name: Seq<char>, s: Slot| #[trigger]
            binds(h, out, name, s) <==> gives_name(start, pairs, i, name, s),
    ensures
        ({
            let (g, r) = h.set_from(pairs, i, out);
            r matches Ok(all) ==> is_set(g, all) && forall|name: Seq<char>, s: Slot| #[trigger]
                binds(g, all, name, s) <==> gives_name(start, pairs, pairs.len() as int, name, s)
        }),
    decreases pairs.len() - i,
{
    if i < pairs.len() {
        match pairs[i].0 {
            Value::Null => {
                assert forall|name: Seq<char>, s: Slot| #[trigger]
                    binds(h, out, name, s) <==> gives_name(start, pairs, i + 1, name, s) by {
                    lemma_gives_more(start, pairs, i, name, s);
                }
                lemma_set_from(start, h, pairs, i + 1, out);
            },
            Value::Str(t) => {
                let key = h.text(t);
                lemma_intern(h, out, key);
                let (g, k) = h.intern(key);
                if lookup(out, k) is None {
                    let more = bind(out, k, pairs[i].1);
                    lemma_bound(g, out, k, pairs[i].1);
                    lemma_looked_up(h, out, key);
                    assert forall|name: Seq<char>, s: Slot| #[trigger]
                        binds(g, more, name, s) <==> gives_name(start, pairs, i + 1, name, s) by {
                        lemma_gives_more(start, pairs, i, name, s);
                        assert(binds(g, out, name, s) <==> binds(h, out, name, s));
                        assert(g.sym_name(k) == key);
                    }
                    lemma_set_from(start, g, pairs, i + 1, more);
                }
            },
            _ => {},
        }
    }
}

proof fn lemma_gives_more(
    h: HeapView,
    pairs: Seq<(Value, Slot)>,
    i: int,
    name: Seq<char>,
    s: Slot,
)
    requires
        0 <= i < pairs.len(),
    ensures
        gives_name(h, pairs, i + 1, name, s) <==> gives_name(h, pairs, i, name, s) || (pairs[i].0
            is Str && h.text(pairs[i].0->Str_0) == name && pairs[i].1 == s),
{
    if gives_name(h, pairs, i + 1, name, s) {
        let j = choose|j: int|
            0 <= j < i + 1 && (#[trigger] pairs[j]).0 is Str && h.text(pairs[j].0->Str_0) == name
                && pairs[j].1 == s;
        if j < i {
            assert(pairs[j].0 is Str);
        }
    }
    if gives_name(h, pairs, i, name, s) {
        let j = choose|j: int|
            0 <= j < i && (#[trigger] pairs[j]).0 is Str && h.text(pairs[j].0->Str_0) == name
                && pairs[j].1 == s;
        assert(pairs[j].0 is Str);
    }
}

/// What a set binds once a new symbol was bound in it.
proof fn lemma_bound(h: HeapView, set: Seq<(Sym, Slot)>, k: Sym, s: Slot)
    requires
        is_set(h, set),
        k < h.symbols.len(),
        lookup(set, k) is None,
    ensures
        is_set(h, bind(set, k, s)),
        forall|name: Seq<char>, x: Slot| #[trigger]
            binds(h, bind(set, k, s), name, x) <==> binds(h, set, name, x) || (name == h.sym_name(
                k,
            ) && x == s),
{
    law_bound_name_is_found(set, k, s, k);
    lemma_place(set, k, 0);
    let p = place(set, k, 0);
    let all = bind(set, k, s);
    assert(all == set.insert(p, (k, s)));
    assert forall|i: int| 0 <= i < all.len() implies (#[trigger] all[i]).0 < h.symbols.len() by {
        if i < p {
            assert(all[i] == set[i]);
        } else if i > p {
            assert(all[i] == set[i - 1]);
        }
    }
    assert forall|name: Seq<char>, x: Slot| #[trigger]
        binds(h, all, name, x) <==> binds(h, set, name, x) || (name == h.sym_name(k) && x == s) by {
        if binds(h, all, name, x) {
            let i = choose|i: int|
                0 <= i < all.len() && h.sym_name((#[trigger] all[i]).0) == name && all[i].1 == x;
            if i < p {
                assert(set[i] == all[i]);
            } else if i > p {
                assert(set[i - 1] == all[i]);
            }
        }
        if binds(h, set, name, x) {
            let i = choose|i: int|
                0 <= i < set.len() && h.sym_name((#[trigger] set[i]).0) == name && set[i].1 == x;
            if i < p {
                assert(all[i] == set[i]);
            } else {
                assert(all[i + 1] == set[i]);
            }
        }
        if name == h.sym_name(k) && x == s {
            assert(all[p] == (k, s));
        }
    }
}

/// A set that is made of names and values binds each name to its value, and
/// nothing else.
pub proof fn law_a_set_binds_what_is_written(h: HeapView, pairs: Seq<(Value, Slot)>)
    requires
        is_set(h, seq![]),
        h.symbols.len() + pairs.len() < u32::MAX,
    ensures
        ({
            let (g, r) = h.set_from(pairs, 0, seq![]);
            r matches Ok(all) ==> is_set(g, all) && forall|name: Seq<char>, s: Slot| #[trigger]
                binds(g, all, name, s) <==> gives_name(h, pairs, pairs.len() as int, name, s)
        }),
{
    lemma_set_from(h, h, pairs, 0, seq![]);
}

// -- strings -----------------------------------------------------------------

/// The texts of strings and paths, one behind the other.
pub open spec fn run_together(h: HeapView, parts: Seq<Value>) -> Seq<char>
    decreases parts.len(),
{
    if parts.len() == 0 {
        Seq::empty()
    } else {
        run_together(h, parts.drop_last()) + match parts.last() {
            Value::Str(s) => h.text(s),
            Value::Path(p) => h.text(p),
            _ => Seq::empty(),
        }
    }
}

proof fn lemma_pop_values(h: HeapView, st: usize, on: Seq<Value>, got: Seq<Value>)
    requires
        st < h.works.len(),
        h.work(st).len() >= on.len(),
        forall|i: int|
            0 <= i < on.len() ==> h.work(st)[h.work(st).len() - on.len() + i] == Item::Val(
                #[trigger] on[i],
            ),
    ensures
        h.pop_values(st, on.len() as int, got) == (
            popped(h, st, on.len() as int),
            Ok::<Seq<Value>, Fault>(got + on.reverse()),
        ),
    decreases on.len(),
{
    let w = h.work(st);
    let n = on.len() as int;
    if n == 0 {
        assert(w.take(w.len() as int) =~= w);
        assert(h.works.update(st as int, w) =~= h.works);
        assert(got + on.reverse() =~= got);
    } else {
        let low = on.drop_last();
        let s = on.last();
        assert(w[w.len() - n + (n - 1)] == Item::Val(on[n - 1]));
        let g = h.work_put(st, w.drop_last());
        let v = g.work(st);
        assert(v == w.drop_last());
        assert forall|i: int| 0 <= i < low.len() implies v[v.len() - low.len() + i] == Item::Val(
            #[trigger] low[i],
        ) by {
            assert(w[w.len() - n + i] == Item::Val(on[i]));
        }
        lemma_pop_values(g, st, low, got.push(s));
        assert(got.push(s) + low.reverse() =~= got + on.reverse());
        assert(v.take(v.len() - (n - 1)) =~= w.take(w.len() - n));
        assert(g.works.update(st as int, w.take(w.len() - n)) =~= h.works.update(
            st as int,
            w.take(w.len() - n),
        ));
    }
}

proof fn lemma_interpolated(h: HeapView, parts: Seq<Value>, i: int)
    requires
        0 <= i <= parts.len(),
        forall|j: int| 0 <= j < parts.len() ==> (#[trigger] parts[j]) is Str || parts[j] is Path,
    ensures
        h.interpolated(parts, i, run_together(h, parts.take(i))) == (
            h,
            Ok::<Seq<char>, Fault>(run_together(h, parts)),
        ),
    decreases parts.len() - i,
{
    if i == parts.len() {
        assert(parts.take(i) =~= parts);
    } else {
        assert(parts[i] is Str || parts[i] is Path);
        assert(parts.take(i + 1).drop_last() =~= parts.take(i));
        lemma_interpolated(h, parts, i + 1);
    }
}

/// A string with something in it is its parts in the order they were written,
/// one behind the other.
pub proof fn law_a_string_joins_its_parts(vm: VmView, u: UnitFrame, n: u16, parts: Seq<Value>)
    requires
        about_to(vm, u, Op::ConcatStrings { n }, parts),
        n == parts.len(),
        forall|j: int| 0 <= j < parts.len() ==> (#[trigger] parts[j]) is Str || parts[j] is Path,
        !run_together(vm.heap, parts).contains('\0'),
    ensures
        comes_to_text(vm, u, n as int, run_together(vm.heap, parts)),
{
    let op = Op::ConcatStrings { n };
    lemma_no_gap(vm, u, op, parts, 1, n as int);
    lemma_pop_values(vm.heap, u.stack, parts, Seq::empty());
    let g = popped(vm.heap, u.stack, n as int);
    let got = Seq::<Value>::empty() + parts.reverse();
    assert(got.reverse() =~= parts);
    lemma_interpolated(g, parts, 0);
    assert(parts.take(0) =~= Seq::empty());
    lemma_same_texts(g, vm.heap, parts);
    let all = run_together(vm.heap, parts);
    let (h, v) = g.str_value(all);
    assert(g.const_value(ConstView::Str(all)) == (h, Ok::<Value, Fault>(v)));
    assert(vm.heap.exec_op(u) == (h.push_value(u.stack, v), OpOut::Go(stepped(u))));
    lemma_same(vm.heap);
    assert(h.texts.take(vm.heap.texts.len() as int) =~= vm.heap.texts);
    lemma_at_once(vm, u, op, parts, n as int, h, v);
    let after = under(vm).with_heap(h.push_value(u.stack, v)).push(Frame::Unit(stepped(u))).go(
        Flow::Advance,
    );
    assert(after.heap.text(v->Str_0) == all);
    assert(past(vm, u, n as int, v, after));
    assert(reaches(vm, after, 1) && past(vm, u, n as int, Value::Str(v->Str_0), after));
}

proof fn lemma_same_texts(a: HeapView, b: HeapView, parts: Seq<Value>)
    requires
        a.texts == b.texts,
    ensures
        run_together(a, parts) == run_together(b, parts),
    decreases parts.len(),
{
    if parts.len() > 0 {
        lemma_same_texts(a, b, parts.drop_last());
    }
}

// -- comparing parts ---------------------------------------------------------

proof fn lemma_pairs(a: Seq<usize>, b: Seq<usize>, n: int)
    requires
        0 <= n <= a.len(),
        n <= b.len(),
    ensures
        pairs_reversed(a, b, n).len() == n,
        forall|i: int|
            0 <= i < n ==> pairs_reversed(a, b, n)[n - 1 - i] == Item::Pair(
                #[trigger] a[i],
                b[i],
            ),
    decreases n,
{
    if n > 0 {
        lemma_pairs(a, b, n - 1);
        let low = pairs_reversed(a, b, n - 1);
        assert forall|i: int| 0 <= i < n implies pairs_reversed(a, b, n)[n - 1 - i] == Item::Pair(
            #[trigger] a[i],
            b[i],
        ) by {
            if i < n - 1 {
                assert(low[n - 2 - i] == Item::Pair(a[i], b[i]));
            }
        }
    }
}

/// Two lists are equal so far exactly when they are equally long, and then
/// every element has to equal the one in its place, the first ones first.
pub proof fn law_lists_are_compared_by_element(h: HeapView, work: usize, a: usize, b: usize)
    requires
        work < h.works.len(),
    ensures
        ({
            let x = h.list(a);
            let y = h.list(b);
            let (g, v) = h.shallow(work, Value::List(a), Value::List(b));
            let had = h.work(work).len() as int;
            let n = x.len() as int;
            &&& x.len() != y.len() ==> v == Verdict::Unequal
            &&& x.len() == y.len() ==> {
                &&& v == Verdict::SoFar
                &&& g.work(work).len() == had + n
                &&& g.work(work).take(had) == h.work(work)
                &&& forall|i: int|
                    0 <= i < n ==> g.work(work)[had + n - 1 - i] == Item::Pair(
                        #[trigger] x[i],
                        y[i],
                    )
            }
        }),
{
    let x = h.list(a);
    let y = h.list(b);
    if x.len() == y.len() {
        lemma_pairs(x, y, x.len() as int);
        let all = h.work(work) + pairs_reversed(x, y, x.len() as int);
        assert(all.take(h.work(work).len() as int) =~= h.work(work));
        assert forall|i: int| 0 <= i < x.len() implies all[h.work(work).len() + x.len() - 1 - i]
            == Item::Pair(#[trigger] x[i], y[i]) by {
            assert(pairs_reversed(x, y, x.len() as int)[x.len() - 1 - i] == Item::Pair(x[i], y[i]));
        }
    }
}

proof fn lemma_names_differ(a: Seq<(Sym, Slot)>, b: Seq<(Sym, Slot)>, i: int)
    requires
        0 <= i <= a.len(),
        a.len() == b.len(),
    ensures
        i <= names_differ(a, b, i) <= a.len(),
        forall|j: int| i <= j < names_differ(a, b, i) ==> (#[trigger] a[j]).0 == b[j].0,
        names_differ(a, b, i) < a.len() ==> a[names_differ(a, b, i)].0 != b[names_differ(
            a,
            b,
            i,
        )].0,
    decreases a.len() - i,
{
    if i < a.len() && a[i].0 == b[i].0 {
        lemma_names_differ(a, b, i + 1);
    }
}

/// Two sets are equal so far where they have the same names, and then every
/// value has to equal the other one of its name. Where they have as many names
/// but not the same, they are found unequal in the end.
pub proof fn law_sets_are_compared_by_name(h: HeapView, work: usize, a: usize, b: usize)
    requires
        work < h.works.len(),
    ensures
        ({
            let x = h.set(a);
            let y = h.set(b);
            let (g, v) = h.shallow(work, Value::Attrs(a), Value::Attrs(b));
            let had = h.work(work).len() as int;
            let n = x.len() as int;
            let same = forall|i: int| 0 <= i < n ==> (#[trigger] x[i]).0 == y[i].0;
            &&& x.len() != y.len() ==> v == Verdict::Unequal
            &&& x.len() == y.len() ==> v == Verdict::SoFar && g.work(work).len() >= had && g.work(
                work,
            ).take(had) == h.work(work)
            &&& x.len() == y.len() && same ==> g.work(work).len() == had + n && forall|i: int|
                0 <= i < n ==> g.work(work)[had + n - 1 - i] == Item::Pair(
                    (#[trigger] x[i]).1,
                    y[i].1,
                )
            &&& x.len() == y.len() && !same ==> g.work(work).len() > had && g.work(work)[had]
                == Item::Fail
        }),
{
    let x = h.set(a);
    let y = h.set(b);
    if x.len() == y.len() {
        lemma_names_differ(x, y, 0);
        let stop = names_differ(x, y, 0);
        lemma_pairs(slots_of(x), slots_of(y), stop);
        let had = h.work(work);
        let pairs = pairs_reversed(slots_of(x), slots_of(y), stop);
        let (g, _) = h.shallow(work, Value::Attrs(a), Value::Attrs(b));
        if stop < x.len() {
            let all = had + seq![Item::Fail] + pairs;
            assert(g.work(work) == all);
            assert(all.take(had.len() as int) =~= had);
            assert(all[had.len() as int] == Item::Fail);
        } else {
            let all = had + Seq::<Item>::empty() + pairs;
            assert(g.work(work) == all);
            assert(all.take(had.len() as int) =~= had);
            assert forall|i: int| 0 <= i < x.len() implies all[had.len() + x.len() - 1 - i]
                == Item::Pair((#[trigger] x[i]).1, y[i].1) by {
                assert(pairs[x.len() - 1 - i] == Item::Pair(slots_of(x)[i], slots_of(y)[i]));
            }
        }
    }
}

/// A comparison ends with a difference where one was found, and without one
/// where nothing is left to compare; `!=` turns the answer round.
pub proof fn law_comparing_ends(h: HeapView, work: usize, negate: bool)
    ensures
        h.work(work).len() == 0 ==> h.eq_next(work, negate).1.1 == Ok::<Yield, Fault>(
            Yield::Done(Value::Bool(!negate)),
        ),
        h.work(work).len() > 0 && h.work(work).last() == Item::Fail ==> h.eq_next(
            work,
            negate,
        ).1.1 == Ok::<Yield, Fault>(Yield::Done(Value::Bool(negate))),
        h.work(work).len() > 0 ==> (h.work(work).last() matches Item::Pair(l, r) ==> h.eq_next(
            work,
            negate,
        ).1 == (
            Task::DeepEq { work, cur: Some((l, r)), stage: 0, negate },
            Ok::<Yield, Fault>(Yield::Force(l)),
        )),
{
}

} // verus!
