//! What the builtins over the names of sets come to, and those over versions
//! and the components of paths.
use crate::lang::builtin_laws::{
    answers, answers_list, answers_text, is_call, is_set, lemma_place,
};
use crate::lang::call_laws::lemma_intern;
use crate::lang::builtins::builtin_index;
use crate::lang::collection_laws::{as_items, lemma_each_run, said, same_arenas, starts_each};
use crate::lang::conts::item_value;
use crate::lang::frames::{Cont, Finish, Task, Yield};
use crate::lang::heap::{
    lookup, place, unbind, Fault, HeapView, Item, Slot, SlotState, Sym, Value,
};
use crate::lang::list_laws::{
    answer, argument, driven, ends, follows, is_run, lemma_kept_list, lemma_named, Called, Turn,
};
use crate::lang::operator_laws::{comes_before, lemma_text_order};
use crate::lang::set_laws::{in_order, law_bound_name_is_found, law_unbound_name_is_gone};
use crate::lang::strings::{
    after_slash, base_name, digits_value, part_at, part_number, part_order, parts_order, text_order,
    version_runs, Order,
};
use crate::lang::text_laws::{lemma_text_order_follows, lemma_text_order_turns};
use crate::lang::walks::slots_of;
use vstd::prelude::*;

verus! {

// -- the order of names ------------------------------------------------------

/// Whether entries are in the order of their names.
pub open spec fn in_name_order(h: HeapView, s: Seq<(Sym, Slot)>) -> bool {
    forall|i: int, j: int|
        0 <= i < j < s.len() ==> !comes_before(
            h.sym_name((#[trigger] s[j]).0),
            h.sym_name((#[trigger] s[i]).0),
        )
}

proof fn lemma_spot(h: HeapView, out: Seq<(Sym, Slot)>, k: Sym, i: int)
    requires
        0 <= i <= out.len(),
        forall|j: int|
            0 <= j < i ==> text_order(h.sym_name(k), h.sym_name((#[trigger] out[j]).0))
                != Order::Less,
    ensures
        i <= h.name_spot(out, k, i) <= out.len(),
        forall|j: int|
            0 <= j < h.name_spot(out, k, i) ==> text_order(
                h.sym_name(k),
                h.sym_name((#[trigger] out[j]).0),
            ) != Order::Less,
        h.name_spot(out, k, i) < out.len() ==> text_order(
            h.sym_name(k),
            h.sym_name(out[h.name_spot(out, k, i)].0),
        ) == Order::Less,
    decreases out.len() - i,
{
    if i < out.len() && text_order(h.sym_name(k), h.sym_name(out[i].0)) != Order::Less {
        lemma_spot(h, out, k, i + 1);
    }
}

/// Entries by their names are the same entries, in the order of the names.
pub proof fn lemma_by_name(h: HeapView, s: Seq<(Sym, Slot)>)
    ensures
        in_name_order(h, h.by_name(s)),
        h.by_name(s).to_multiset() == s.to_multiset(),
        h.by_name(s).len() == s.len(),
    decreases s.len(),
{
    if s.len() > 0 {
        let low = s.drop_last();
        let e = s.last();
        lemma_by_name(h, low);
        let out = h.by_name(low);
        let at = h.name_spot(out, e.0, 0);
        lemma_spot(h, out, e.0, 0);
        let all = out.insert(at, e);
        let name = h.sym_name(e.0);
        assert forall|i: int, j: int| 0 <= i < j < all.len() implies !comes_before(
            h.sym_name((#[trigger] all[j]).0),
            h.sym_name((#[trigger] all[i]).0),
        ) by {
            let x = h.sym_name(all[i].0);
            let y = h.sym_name(all[j].0);
            lemma_text_order(y, x, 0);
            if i == at {
                let first = h.sym_name(out[at].0);
                assert(all[j] == out[j - 1]);
                lemma_text_order_turns(name, first, 0);
                lemma_text_order_turns(name, y, 0);
                if j - 1 > at {
                    assert(!comes_before(h.sym_name(out[j - 1].0), h.sym_name(out[at].0)));
                    lemma_text_order(y, first, 0);
                    lemma_text_order_turns(y, first, 0);
                    lemma_text_order_follows(name, first, y, 0);
                }
            } else if j == at {
                assert(all[i] == out[i]);
            } else {
                let p = if i < at {
                    i
                } else {
                    i - 1
                };
                let q = if j < at {
                    j
                } else {
                    j - 1
                };
                assert(all[i] == out[p] && all[j] == out[q]);
            }
        }
        assert(low.push(e) =~= s);
        low.to_multiset_ensures();
        assert(s.to_multiset() =~= low.to_multiset().insert(e));
        assert(all.remove(at) =~= out);
        all.to_multiset_ensures();
        assert(all.contains(all[at]));
        assert(all.to_multiset() =~= out.to_multiset().insert(e));
    }
}

/// Whether a list holds the names of entries, each as a string.
pub open spec fn are_names(h: HeapView, g: HeapView, l: Seq<usize>, s: Seq<(Sym, Slot)>) -> bool {
    &&& l.len() == s.len()
    &&& forall|i: int|
        0 <= i < l.len() ==> (g.slot(#[trigger] l[i]) matches SlotState::Value(Value::Str(t))
            && g.text(t) == h.sym_name(s[i].0))
}

proof fn lemma_name_slots(
    start: HeapView,
    h: HeapView,
    s: Seq<(Sym, Slot)>,
    i: int,
    out: Seq<usize>,
)
    requires
        0 <= i <= s.len(),
        out.len() == i,
        h.symbols == start.symbols,
        h.slots.len() + s.len() - i < usize::MAX,
        h.texts.len() + s.len() - i < usize::MAX,
        forall|j: int|
            0 <= j < i ==> (#[trigger] out[j]) < h.slots.len() && (h.slot(out[j])
                matches SlotState::Value(Value::Str(t)) && t < h.texts.len() && h.text(t)
                == start.sym_name(s[j].0)),
    ensures
        ({
            let (g, all) = h.name_slots(s, i, out);
            &&& are_names(start, g, all, s)
            &&& g.lists == h.lists
        }),
    decreases s.len() - i,
{
    if i < s.len() {
        let (g, x) = h.str_slot(h.sym_name(s[i].0));
        let more = out.push(x);
        assert forall|j: int| 0 <= j < i + 1 implies (#[trigger] more[j]) < g.slots.len() && (
        g.slot(more[j]) matches SlotState::Value(Value::Str(t)) && t < g.texts.len() && g.text(t)
            == start.sym_name(s[j].0)) by {
            if j < i {
                assert(more[j] == out[j]);
            }
        }
        lemma_name_slots(start, g, s, i + 1, more);
    }
}

/// `attrNames` is the names of a set, each once, in their order.
pub proof fn law_attr_names_are_in_order(c: Called, t: Turn, m: usize)
    requires
        is_call("attrNames"@, c, t),
        argument(t.heap, c, 0) == Some(Value::Attrs(m)),
        t.heap.slots.len() + t.heap.set(m).len() < usize::MAX,
        t.heap.texts.len() + t.heap.set(m).len() < usize::MAX,
    ensures
        ({
            let set = t.heap.set(m);
            let (g, (_, y)) = driven(c, t);
            y matches Ok(Yield::Done(v)) && v is List && exists|s: Seq<(Sym, Slot)>|
                s.to_multiset() == set.to_multiset() && #[trigger] in_name_order(t.heap, s)
                    && are_names(t.heap, g, g.list(v->List_0), s)
        }),
{
    reveal(driven);
    reveal_strlit("attrNames");
    lemma_named("attrNames"@, 20, c.idx);
    let set = t.heap.set(m);
    lemma_by_name(t.heap, set);
    let s = t.heap.by_name(set);
    lemma_name_slots(t.heap, t.heap, s, 0, Seq::empty());
    let (h, names) = t.heap.name_slots(s, 0, Seq::empty());
    let (g, v) = h.list_value(names);
    assert(g.list(v->List_0) == names);
    assert(are_names(t.heap, g, names, s)) by {
        assert forall|i: int| 0 <= i < names.len() implies (g.slot(#[trigger] names[i])
            matches SlotState::Value(Value::Str(x)) && g.text(x) == t.heap.sym_name(s[i].0)) by {
            assert(h.slot(names[i]) is Value);
        }
    }
    assert(in_name_order(t.heap, s));
}

/// `attrValues` is the values of a set, in the order of their names.
pub proof fn law_attr_values_are_in_order(c: Called, t: Turn, m: usize)
    requires
        is_call("attrValues"@, c, t),
        argument(t.heap, c, 0) == Some(Value::Attrs(m)),
    ensures
        exists|s: Seq<(Sym, Slot)>|
            s.to_multiset() == t.heap.set(m).to_multiset() && #[trigger] in_name_order(t.heap, s)
                && answers_list(c, t, Seq::new(s.len(), |i: int| s[i].1)),
{
    reveal(driven);
    reveal_strlit("attrValues");
    lemma_named("attrValues"@, 21, c.idx);
    lemma_by_name(t.heap, t.heap.set(m));
    let s = t.heap.by_name(t.heap.set(m));
    assert(slots_of(s) =~= Seq::new(s.len(), |i: int| s[i].1));
    assert(in_name_order(t.heap, s));
}

// -- mapAttrs ----------------------------------------------------------------

/// Whether a slot holds a function applied to a name and a value, not yet
/// performed.
pub open spec fn is_pending_entry(
    g: HeapView,
    s: Slot,
    f: Value,
    name: Seq<char>,
    value: Slot,
) -> bool {
    &&& g.slot(s) matches SlotState::PendingApply { f: h, args } && h == f && g.list(args).len() == 2
        && g.list(args)[1] == value && (g.slot(g.list(args)[0]) matches SlotState::Value(
        Value::Str(x),
    ) && g.text(x) == name)
}

spec fn is_made_entry(g: HeapView, s: Slot, f: Value, name: Seq<char>, value: Slot) -> bool {
    &&& s < g.slots.len()
    &&& g.slot(s) is PendingApply
    &&& g.slot(s)->PendingApply_f == f
    &&& g.slot(s)->PendingApply_args < g.lists.len()
    &&& {
        let l = g.list(g.slot(s)->PendingApply_args);
        &&& l.len() == 2
        &&& l[1] == value
        &&& l[0] < g.slots.len()
        &&& g.slot(l[0]) matches SlotState::Value(Value::Str(x)) && x < g.texts.len() && g.text(x)
            == name
    }
}

proof fn lemma_map_entries(
    start: HeapView,
    h: HeapView,
    f: Value,
    m: Seq<(Sym, Slot)>,
    i: int,
    out: Seq<(Sym, Slot)>,
)
    requires
        0 <= i <= m.len(),
        out.len() == i,
        h.symbols == start.symbols,
        h.slots.len() + 2 * (m.len() - i) < usize::MAX,
        h.texts.len() + m.len() - i < usize::MAX,
        h.lists.len() + m.len() - i < usize::MAX,
        forall|j: int|
            0 <= j < i ==> (#[trigger] out[j]).0 == m[j].0 && is_made_entry(
                h,
                out[j].1,
                f,
                start.sym_name(m[j].0),
                m[j].1,
            ),
    ensures
        ({
            let (g, all) = h.map_entries(f, m, i, out);
            &&& all.len() == m.len()
            &&& forall|j: int|
                0 <= j < m.len() ==> (#[trigger] all[j]).0 == m[j].0 && is_made_entry(
                    g,
                    all[j].1,
                    f,
                    start.sym_name(m[j].0),
                    m[j].1,
                )
            &&& g.sets == h.sets
        }),
    decreases m.len() - i,
{
    if i < m.len() {
        let (h1, name) = h.str_slot(h.sym_name(m[i].0));
        let (g, s) = h1.pending_slot(f, seq![name, m[i].1]);
        let more = out.push((m[i].0, s));
        assert forall|j: int| 0 <= j < i + 1 implies (#[trigger] more[j]).0 == m[j].0
            && is_made_entry(g, more[j].1, f, start.sym_name(m[j].0), m[j].1) by {
            if j < i {
                assert(more[j] == out[j]);
                assert(is_made_entry(h, out[j].1, f, start.sym_name(m[j].0), m[j].1));
            } else {
                assert(g.list(g.slot(s)->PendingApply_args) == seq![name, m[i].1]);
            }
        }
        lemma_map_entries(start, g, f, m, i + 1, more);
    }
}

/// `mapAttrs` makes a set of the same names, each bound to the function applied
/// to the name and to what it was bound to, not yet performed.
pub proof fn law_map_attrs_applies_to_each(c: Called, t: Turn, f: Value, m: usize)
    requires
        is_call("mapAttrs"@, c, t),
        argument(t.heap, c, 0) == Some(f),
        argument(t.heap, c, 1) == Some(Value::Attrs(m)),
        t.heap.slots.len() + 2 * t.heap.set(m).len() < usize::MAX,
        t.heap.texts.len() + t.heap.set(m).len() < usize::MAX,
        t.heap.lists.len() + t.heap.set(m).len() < usize::MAX,
    ensures
        ({
            let set = t.heap.set(m);
            let (g, (_, y)) = driven(c, t);
            y matches Ok(Yield::Done(v)) && v is Attrs && {
                let out = g.set(v->Attrs_0);
                &&& out.len() == set.len()
                &&& forall|i: int|
                    0 <= i < set.len() ==> (#[trigger] out[i]).0 == set[i].0 && is_pending_entry(
                        g,
                        out[i].1,
                        f,
                        t.heap.sym_name(set[i].0),
                        set[i].1,
                    )
            }
        }),
{
    reveal(driven);
    reveal_strlit("mapAttrs");
    lemma_named("mapAttrs"@, 28, c.idx);
    let set = t.heap.set(m);
    lemma_map_entries(t.heap, t.heap, f, set, 0, Seq::empty());
    let (h, all) = t.heap.map_entries(f, set, 0, Seq::empty());
    let (g, v) = h.attrs_value(all);
    assert(g.set(v->Attrs_0) == all);
    assert forall|i: int| 0 <= i < set.len() implies (#[trigger] all[i]).0 == set[i].0
        && is_pending_entry(g, all[i].1, f, t.heap.sym_name(set[i].0), set[i].1) by {
        let s = all[i].1;
        assert(is_made_entry(h, s, f, t.heap.sym_name(set[i].0), set[i].1));
        let l = h.list(h.slot(s)->PendingApply_args);
        assert(g.list(g.slot(s)->PendingApply_args) == l);
    }
}

// -- catAttrs ----------------------------------------------------------------

/// What the sets among values bind a symbol to, in their order; those that do
/// not bind it are left out.
pub open spec fn bound_in(h: HeapView, vals: Seq<Value>, k: Sym) -> Seq<usize>
    decreases vals.len(),
{
    if vals.len() == 0 {
        Seq::empty()
    } else {
        let low = bound_in(h, vals.drop_last(), k);
        match lookup(h.set(vals.last()->Attrs_0), k) {
            Some(s) => low.push(s),
            None => low,
        }
    }
}

proof fn lemma_cat_from(h: HeapView, vals: Seq<Value>, k: Sym, i: int)
    requires
        0 <= i <= vals.len(),
    ensures
        ({
            let (g, r) = h.cat_from(as_items(vals), k, i, bound_in(h, vals.take(i), k));
            if forall|j: int| i <= j < vals.len() ==> (#[trigger] vals[j]) is Attrs {
                g == h && r == Ok::<Seq<usize>, Fault>(bound_in(h, vals, k))
            } else {
                r is Err
            }
        }),
    decreases vals.len() - i,
{
    if i == vals.len() {
        assert(vals.take(i) =~= vals);
    } else {
        assert(item_value(as_items(vals)[i]) == vals[i]);
        if vals[i] is Attrs {
            assert(vals.take(i + 1).drop_last() =~= vals.take(i));
            lemma_cat_from(h, vals, k, i + 1);
        }
    }
}

proof fn lemma_cat_starts(c: Called, t: Turn, name: usize, items: usize)
    requires
        builtin_index("catAttrs"@) == Some(c.idx),
        t.cont == Cont::Start,
        argument(t.heap, c, 0) == Some(Value::Str(name)),
        argument(t.heap, c, 1) == Some(Value::List(items)),
    ensures
        starts_each(c, t, items, Finish::CatAttrs),
        c.args < t.heap.lists.len(),
{
    reveal(driven);
    reveal_strlit("catAttrs");
    lemma_named("catAttrs"@, 26, c.idx);
}

proof fn lemma_cat_ends(h: HeapView, c: Called, vals: Seq<Value>, name: usize)
    requires
        argument(h, c, 0) == Some(Value::Str(name)),
        h.lists.len() + 4 < usize::MAX,
    ensures
        ({
            let (g, r) = h.finish(Finish::CatAttrs, as_items(vals), c.args);
            if forall|j: int| 0 <= j < vals.len() ==> (#[trigger] vals[j]) is Attrs {
                r matches Ok(v) && v is List && g.list(v->List_0) == bound_in(
                    h,
                    vals,
                    h.intern(h.text(name)).1,
                )
            } else {
                r is Err
            }
        }),
{
    assert(h.arg_str(c.args, 0) == (h, Ok::<usize, Fault>(name)));
    let (h2, k) = h.intern(h.text(name));
    lemma_cat_from(h2, vals, k, 0);
    assert(vals.take(0) =~= Seq::empty());
    assert(bound_in(h2, vals.take(0), k) =~= Seq::empty());
    lemma_bound_same(h2, h, vals, k);
}

/// `catAttrs` forces every element in order, and lists what those that have the
/// name bind it to. An element that is no set is an error.
pub proof fn law_cat_attrs_lists_what_is_bound(
    c: Called,
    run: Seq<Turn>,
    name: usize,
    items: usize,
)
    requires
        is_run("catAttrs"@, c, run),
        argument(run[0].heap, c, 0) == Some(Value::Str(name)),
        argument(run[0].heap, c, 1) == Some(Value::List(items)),
        items < run[0].heap.lists.len(),
        run[0].heap.list(items).len() < usize::MAX,
        run[0].heap.works.len() + 4 < usize::MAX,
        run.last().heap.lists.len() + 4 < usize::MAX,
        argument(run.last().heap, c, 0) == Some(Value::Str(name)),
    ensures
        ({
            let a = run[0].heap.list(items);
            let n = run.len() - 1;
            let (g, y) = ends(c, run);
            let h = run.last().heap;
            &&& n <= a.len()
            &&& n < a.len() ==> y == Ok::<Yield, Fault>(Yield::Force(a[n]))
            &&& n == a.len() ==> if forall|k: int|
                0 <= k < n ==> (#[trigger] said(run, n)[k]) is Attrs {
                y matches Ok(Yield::Done(v)) && v is List && g.list(v->List_0) == bound_in(
                    h,
                    said(run, n),
                    h.intern(h.text(name)).1,
                )
            } else {
                y is Err
            }
        }),
{
    let a = run[0].heap.list(items);
    let n = run.len() - 1;
    lemma_cat_starts(c, run[0], name, items);
    lemma_each_run("catAttrs"@, c, run, items, Finish::CatAttrs, n);
    if n == a.len() {
        let vals = said(run, n);
        let (g, (_, y)) = driven(c, run[n]);
        let h = choose|h: HeapView| #[trigger]
            same_arenas(h, run[n].heap) && {
                let (g2, r) = h.finish(Finish::CatAttrs, as_items(vals), c.args);
                g == g2 && (r matches Ok(v) ==> y == Ok::<Yield, Fault>(Yield::Done(v))) && (
                r matches Err(e) ==> y == Err::<Yield, Fault>(e))
            };
        lemma_cat_ends(h, c, vals, name);
        let k = h.intern(h.text(name)).1;
        assert(k == run[n].heap.intern(run[n].heap.text(name)).1);
        lemma_bound_same(h, run[n].heap, vals, k);
    }
}

proof fn lemma_bound_same(a: HeapView, b: HeapView, vals: Seq<Value>, k: Sym)
    requires
        a.sets == b.sets,
    ensures
        bound_in(a, vals, k) == bound_in(b, vals, k),
    decreases vals.len(),
{
    if vals.len() > 0 {
        lemma_bound_same(a, b, vals.drop_last(), k);
    }
}

// -- versions and paths ------------------------------------------------------

/// `compareVersions` is below zero, zero or above zero as the first version is
/// before, level with or behind the second: the first parts that differ decide.
/// Two numbers compare as numbers; `pre` is before everything else, and any
/// other word before any number.
pub proof fn law_compare_versions(c: Called, t: Turn, a: usize, b: usize, k: int)
    requires
        is_call("compareVersions"@, c, t),
        argument(t.heap, c, 0) == Some(Value::Str(a)),
        argument(t.heap, c, 1) == Some(Value::Str(b)),
        ({
            let x = version_runs(t.heap.text(a));
            let y = version_runs(t.heap.text(b));
            &&& 0 <= k < x.len() && k < y.len()
            &&& forall|i: int| 0 <= i < k ==> #[trigger] x[i] == y[i]
        }),
    ensures
        ({
            let x = version_runs(t.heap.text(a))[k];
            let y = version_runs(t.heap.text(b))[k];
            &&& part_number(x) is Some && part_number(y) is Some && digits_value(x) < digits_value(y)
                ==> answers(c, t, Value::Int(-1i64))
            &&& part_number(x) is Some && part_number(y) is Some && digits_value(x) > digits_value(y)
                ==> answers(c, t, Value::Int(1))
            &&& x == "pre"@ && y != "pre"@ ==> answers(c, t, Value::Int(-1i64))
            &&& x != "pre"@ && y == "pre"@ ==> answers(c, t, Value::Int(1))
            &&& part_number(x) is None && part_number(y) is Some ==> answers(c, t, Value::Int(-1i64))
            &&& part_number(x) is Some && part_number(y) is None ==> answers(c, t, Value::Int(1))
            &&& part_number(x) is None && part_number(y) is None && x != "pre"@ && y != "pre"@
                && comes_before(x, y) ==> answers(c, t, Value::Int(-1i64))
            &&& part_number(x) is None && part_number(y) is None && x != "pre"@ && y != "pre"@
                && comes_before(y, x) ==> answers(c, t, Value::Int(1))
        }),
{
    reveal(driven);
    reveal_strlit("compareVersions");
    reveal_strlit("pre");
    assert("pre"@[0] == 'p');
    assert(part_number("pre"@) is None);
    lemma_named("compareVersions"@, 59, c.idx);
    let x = version_runs(t.heap.text(a));
    let y = version_runs(t.heap.text(b));
    lemma_same_parts(x, y, 0, k);
    lemma_text_order(x[k], y[k], 0);
}

proof fn lemma_same_parts(x: Seq<Seq<char>>, y: Seq<Seq<char>>, i: int, k: int)
    requires
        0 <= i <= k,
        k < x.len() && k < y.len(),
        forall|j: int| 0 <= j < k ==> #[trigger] x[j] == y[j],
    ensures
        parts_order(x, y, i) == parts_order(x, y, k),
        part_order(x[k], y[k]) != Order::Equal ==> parts_order(x, y, k) == part_order(x[k], y[k]),
    decreases k - i,
{
    if i < k {
        lemma_same_parts(x, y, i + 1, k);
        assert(part_order(part_at(x, i), part_at(y, i)) == Order::Equal);
    }
}

proof fn lemma_after_slash(t: Seq<char>, n: int)
    requires
        0 <= n <= t.len(),
    ensures
        0 <= after_slash(t, n) <= n,
        after_slash(t, n) > 0 ==> t[after_slash(t, n) - 1] == '/',
        forall|i: int| after_slash(t, n) <= i < n ==> #[trigger] t[i] != '/',
    decreases n,
{
    if n > 0 && t[n - 1] != '/' {
        lemma_after_slash(t, n - 1);
    }
}

/// A path without one slash at its end; the root keeps its own.
pub open spec fn unslashed(all: Seq<char>) -> Seq<char> {
    if all.len() > 1 && all.last() == '/' {
        all.drop_last()
    } else {
        all
    }
}

/// Whether a text is the end of a path, has no slash, and has a slash or
/// nothing before it.
pub open spec fn is_last_component(path: Seq<char>, name: Seq<char>) -> bool {
    let at = path.len() - name.len();
    &&& at >= 0
    &&& name == path.skip(at)
    &&& at == 0 || path[at - 1] == '/'
    &&& forall|i: int| 0 <= i < name.len() ==> #[trigger] name[i] != '/'
}

/// `baseNameOf` is what stands behind the last slash, one slash at the end not
/// counted.
pub proof fn law_base_name_is_the_last_component(c: Called, t: Turn, s: usize)
    requires
        is_call("baseNameOf"@, c, t),
        argument(t.heap, c, 0) == Some(Value::Str(s)) || argument(t.heap, c, 0) == Some(
            Value::Path(s),
        ),
    ensures
        exists|name: Seq<char>| #[trigger]
            is_last_component(unslashed(t.heap.text(s)), name) && answers_text(c, t, name),
{
    reveal(driven);
    reveal_strlit("baseNameOf");
    lemma_named("baseNameOf"@, 5, c.idx);
    let all = t.heap.text(s);
    let path = unslashed(all);
    let n = path.len() as int;
    lemma_after_slash(all, n);
    let at = after_slash(all, n);
    let name = all.subrange(at, n);
    assert(base_name(all) =~= name) by {
        if all.len() == 1 {
            assert(all =~= seq![all[0]]);
        }
    }
    assert(name =~= path.skip(at));
    assert(is_last_component(path, name)) by {
        assert forall|i: int| 0 <= i < name.len() implies #[trigger] name[i] != '/' by {
            assert(name[i] == all[at + i]);
        }
    }
    assert(answers_text(c, t, name));
}

// -- removeAttrs -------------------------------------------------------------

/// Whether a symbol's name is among the texts of values.
pub open spec fn is_among(h: HeapView, vals: Seq<Value>, n: int, k: Sym) -> bool {
    exists|j: int|
        0 <= j < n && (#[trigger] vals[j]) is Str && h.text(vals[j]->Str_0) == h.sym_name(k)
}

proof fn lemma_remove_from(
    start: HeapView,
    h: HeapView,
    vals: Seq<Value>,
    i: int,
    set: Seq<(Sym, Slot)>,
    out: Seq<(Sym, Slot)>,
)
    requires
        0 <= i <= vals.len(),
        is_set(h, set),
        is_set(h, out),
        h.symbols.len() + vals.len() - i < u32::MAX,
        h.texts == start.texts,
        start.symbols.len() <= h.symbols.len(),
        forall|k: Sym| k < start.symbols.len() ==> #[trigger] h.sym_name(k) == start.sym_name(k),
        forall|k: Sym|
            k < start.symbols.len() ==> #[trigger] lookup(out, k) == if is_among(start, vals, i, k) {
                None
            } else {
                lookup(set, k)
            },
    ensures
        ({
            let (g, r) = h.remove_from(as_items(vals), i, out);
            if forall|j: int| i <= j < vals.len() ==> (#[trigger] vals[j]) is Str {
                &&& r is Ok
                &&& g.sets == h.sets
                &&& forall|k: Sym|
                    k < start.symbols.len() ==> #[trigger] lookup(r->Ok_0, k) == if is_among(
                        start,
                        vals,
                        vals.len() as int,
                        k,
                    ) {
                        None
                    } else {
                        lookup(set, k)
                    }
            } else {
                r is Err
            }
        }),
    decreases vals.len() - i,
{
    if i < vals.len() {
        assert(item_value(as_items(vals)[i]) == vals[i]);
        if vals[i] is Str {
            let name = h.text(vals[i]->Str_0);
            lemma_intern(h, set, name);
            lemma_intern(h, out, name);
            let (g, x) = h.intern(name);
            let less = unbind(out, x);
            law_unbound_name_is_gone(out, x, x);
            assert(is_set(g, less)) by {
                assert forall|j: int| 0 <= j < less.len() implies (#[trigger] less[j]).0
                    < g.symbols.len() by {
                    lemma_unbound_from(out, x, j);
                }
            }
            assert forall|k: Sym| k < start.symbols.len() implies #[trigger] lookup(less, k)
                == if is_among(start, vals, i + 1, k) {
                None
            } else {
                lookup(set, k)
            } by {
                law_unbound_name_is_gone(out, x, k);
                assert(g.sym_name(k) == h.sym_name(k));
                if k == x {
                    assert(vals[i] is Str && start.text(vals[i]->Str_0) == start.sym_name(k));
                    assert(is_among(start, vals, i + 1, k));
                } else {
                    assert(g.sym_name(x) == name);
                    assert(g.sym_name(k) != name) by {
                        assert(g.symbols[k as int] != g.symbols[x as int]);
                    }
                    if is_among(start, vals, i + 1, k) {
                        let j = choose|j: int|
                            0 <= j < i + 1 && (#[trigger] vals[j]) is Str && start.text(
                                vals[j]->Str_0,
                            ) == start.sym_name(k);
                        assert(j < i);
                        assert(is_among(start, vals, i, k));
                    }
                    if is_among(start, vals, i, k) {
                        let j = choose|j: int|
                            0 <= j < i && (#[trigger] vals[j]) is Str && start.text(
                                vals[j]->Str_0,
                            ) == start.sym_name(k);
                        assert(vals[j] is Str);
                        assert(is_among(start, vals, i + 1, k));
                    }
                }
            }
            lemma_remove_from(start, g, vals, i + 1, set, less);
        }
    }
}

/// What is left after a name was removed was there before.
proof fn lemma_unbound_from(set: Seq<(Sym, Slot)>, k: Sym, j: int)
    requires
        0 <= j < unbind(set, k).len(),
        in_order(set),
    ensures
        exists|i: int| 0 <= i < set.len() && #[trigger] set[i] == unbind(set, k)[j],
{
    lemma_place(set, k, 0);
    let p = place(set, k, 0);
    if p < set.len() && set[p].0 == k {
        if j < p {
            assert(set[j] == unbind(set, k)[j]);
        } else {
            assert(set[j + 1] == unbind(set, k)[j]);
        }
    } else {
        assert(set[j] == unbind(set, k)[j]);
    }
}

proof fn lemma_remove_starts(c: Called, t: Turn, m: usize, items: usize)
    requires
        builtin_index("removeAttrs"@) == Some(c.idx),
        t.cont == Cont::Start,
        argument(t.heap, c, 0) == Some(Value::Attrs(m)),
        argument(t.heap, c, 1) == Some(Value::List(items)),
    ensures
        starts_each(c, t, items, Finish::RemoveAttrs),
        c.args < t.heap.lists.len(),
{
    reveal(driven);
    reveal_strlit("removeAttrs");
    lemma_named("removeAttrs"@, 24, c.idx);
}

proof fn lemma_remove_ends(h: HeapView, c: Called, vals: Seq<Value>, m: usize)
    requires
        argument(h, c, 0) == Some(Value::Attrs(m)),
        is_set(h, h.set(m)),
        h.symbols.len() + vals.len() < u32::MAX,
        h.sets.len() + 4 < usize::MAX,
    ensures
        ({
            let (g, r) = h.finish(Finish::RemoveAttrs, as_items(vals), c.args);
            if forall|j: int| 0 <= j < vals.len() ==> (#[trigger] vals[j]) is Str {
                r matches Ok(v) && v is Attrs && forall|k: Sym|
                    k < h.symbols.len() ==> #[trigger] lookup(g.set(v->Attrs_0), k) == if is_among(
                        h,
                        vals,
                        vals.len() as int,
                        k,
                    ) {
                        None
                    } else {
                        lookup(h.set(m), k)
                    }
            } else {
                r is Err
            }
        }),
{
    assert(h.arg_attrs(c.args, 0) == (h, Ok::<usize, Fault>(m)));
    lemma_remove_from(h, h, vals, 0, h.set(m), h.set(m));
}

/// `removeAttrs` forces every name in order, and leaves out exactly the names
/// that were listed; what else a set binds it goes on binding. A name that is
/// no string is an error.
pub proof fn law_remove_attrs_leaves_the_others(
    c: Called,
    run: Seq<Turn>,
    m: usize,
    items: usize,
)
    requires
        is_run("removeAttrs"@, c, run),
        argument(run[0].heap, c, 0) == Some(Value::Attrs(m)),
        argument(run[0].heap, c, 1) == Some(Value::List(items)),
        items < run[0].heap.lists.len(),
        run[0].heap.list(items).len() < usize::MAX,
        run[0].heap.works.len() + 4 < usize::MAX,
        argument(run.last().heap, c, 0) == Some(Value::Attrs(m)),
        is_set(run.last().heap, run.last().heap.set(m)),
        run.last().heap.symbols.len() + run.len() < u32::MAX,
        run.last().heap.sets.len() + 4 < usize::MAX,
    ensures
        ({
            let a = run[0].heap.list(items);
            let n = run.len() - 1;
            let (g, y) = ends(c, run);
            let h = run.last().heap;
            &&& n <= a.len()
            &&& n < a.len() ==> y == Ok::<Yield, Fault>(Yield::Force(a[n]))
            &&& n == a.len() ==> if forall|k: int|
                0 <= k < n ==> (#[trigger] said(run, n)[k]) is Str {
                y matches Ok(Yield::Done(v)) && v is Attrs && forall|k: Sym|
                    k < h.symbols.len() ==> #[trigger] lookup(g.set(v->Attrs_0), k) == if is_among(
                        h,
                        said(run, n),
                        n,
                        k,
                    ) {
                        None
                    } else {
                        lookup(h.set(m), k)
                    }
            } else {
                y is Err
            }
        }),
{
    let a = run[0].heap.list(items);
    let n = run.len() - 1;
    lemma_remove_starts(c, run[0], m, items);
    lemma_each_run("removeAttrs"@, c, run, items, Finish::RemoveAttrs, n);
    if n == a.len() {
        let vals = said(run, n);
        let (g, (_, y)) = driven(c, run[n]);
        let h = choose|h: HeapView| #[trigger]
            same_arenas(h, run[n].heap) && {
                let (g2, r) = h.finish(Finish::RemoveAttrs, as_items(vals), c.args);
                g == g2 && (r matches Ok(v) ==> y == Ok::<Yield, Fault>(Yield::Done(v))) && (
                r matches Err(e) ==> y == Err::<Yield, Fault>(e))
            };
        lemma_remove_ends(h, c, vals, m);
        assert forall|k: Sym| #[trigger] is_among(h, vals, n, k) == is_among(
            run[n].heap,
            vals,
            n,
            k,
        ) by {
            lemma_among_same(h, run[n].heap, vals, n, k);
            lemma_among_same(run[n].heap, h, vals, n, k);
        }
    }
}

proof fn lemma_among_same(a: HeapView, b: HeapView, vals: Seq<Value>, n: int, k: Sym)
    requires
        a.texts == b.texts,
        a.symbols == b.symbols,
    ensures
        is_among(a, vals, n, k) ==> is_among(b, vals, n, k),
{
    if is_among(a, vals, n, k) {
        let j = choose|j: int|
            0 <= j < n && (#[trigger] vals[j]) is Str && a.text(vals[j]->Str_0) == a.sym_name(k);
        assert(b.text(vals[j]->Str_0) == b.sym_name(k));
    }
}

// -- elem --------------------------------------------------------------------

proof fn lemma_elem_starts(c: Called, t: Turn, x: Slot, items: usize)
    requires
        builtin_index("elem"@) == Some(c.idx),
        t.cont == Cont::Start,
        t.heap.list(c.args).len() > 0,
        t.heap.list(c.args)[0] == x,
        argument(t.heap, c, 1) == Some(Value::List(items)),
    ensures
        driven(c, t) == t.heap.step_elem(x, items, 0, None),
{
    reveal(driven);
    reveal_strlit("elem");
    lemma_named("elem"@, 11, c.idx);
}

proof fn lemma_elem_driven(c: Called, t: Turn, x: Slot, items: usize, i: usize)
    requires
        t.cont == (Cont::Elem { x, items, i }),
    ensures
        driven(c, t) == t.heap.step_elem(x, items, i, t.incoming),
{
    reveal(driven);
}

proof fn lemma_elem_step(
    h: HeapView,
    x: Slot,
    items: usize,
    i: usize,
    incoming: Option<Value>,
    a: Seq<usize>,
)
    requires
        items < h.lists.len(),
        h.list(items) == a,
        a.len() < usize::MAX,
        i <= a.len(),
        incoming is Some ==> i < a.len(),
        h.works.len() + 4 < usize::MAX,
    ensures
        ({
            let (g, (cont, y)) = h.step_elem(x, items, i, incoming);
            let j = if incoming is Some {
                i + 1
            } else {
                i as int
            };
            &&& items < g.lists.len()
            &&& g.list(items) == a
            &&& if incoming == Some(Value::Bool(true)) {
                y == Ok::<Yield, Fault>(Yield::Done(Value::Bool(true)))
            } else if j == a.len() {
                y == Ok::<Yield, Fault>(Yield::Done(Value::Bool(false)))
            } else {
                cont == (Cont::Elem { x, items, i: j as usize }) && asks_equal(g, y, x, a[j])
            }
        }),
{
    reveal(asks_equal);
}

/// Whether a step asks whether two slots hold equal values.
#[verifier::opaque]
pub open spec fn asks_equal(g: HeapView, y: Result<Yield, Fault>, l: Slot, r: Slot) -> bool {
    y matches Ok(Yield::Sub(Task::DeepEq { work, cur, stage, negate })) && cur is None && stage == 0
        && !negate && g.work(work) == seq![Item::Pair(l, r)]
}

proof fn lemma_elem_run(c: Called, run: Seq<Turn>, x: Slot, items: usize, k: int)
    requires
        is_run("elem"@, c, run),
        run[0].heap.list(c.args).len() > 0,
        run[0].heap.list(c.args)[0] == x,
        argument(run[0].heap, c, 1) == Some(Value::List(items)),
        items < run[0].heap.lists.len(),
        run[0].heap.list(items).len() < usize::MAX,
        forall|j: int| 0 <= j < run.len() ==> (#[trigger] run[j]).heap.works.len() + 4 < usize::MAX,
        0 <= k < run.len(),
    ensures
        ({
            let a = run[0].heap.list(items);
            let (g, (cont, y)) = driven(c, run[k]);
            let yes = k > 0 && answer(run, k - 1) == Value::Bool(true);
            &&& k <= a.len()
            &&& items < g.lists.len()
            &&& g.list(items) == a
            &&& forall|j: int| 0 <= j < k - 1 ==> #[trigger] answer(run, j) != Value::Bool(true)
            &&& if yes {
                y == Ok::<Yield, Fault>(Yield::Done(Value::Bool(true)))
            } else if k == a.len() {
                y == Ok::<Yield, Fault>(Yield::Done(Value::Bool(false)))
            } else {
                cont == (Cont::Elem { x, items, i: k as usize }) && asks_equal(g, y, x, a[k])
            }
        }),
    decreases k,
{
    let a = run[0].heap.list(items);
    if k == 0 {
        lemma_elem_starts(c, run[0], x, items);
        lemma_elem_step(run[0].heap, x, items, 0, None, a);
        assert(asks_equal(
            driven(c, run[0]).0,
            driven(c, run[0]).1.1,
            x,
            a[0],
        ) || a.len() == 0);
    } else {
        let m = k - 1;
        lemma_elem_run(c, run, x, items, m);
        assert(follows(c, run[m], run[m + 1]));
        let (g, _) = driven(c, run[m]);
        let t = run[k];
        lemma_kept_list(g, t.heap, items);
        lemma_elem_driven(c, t, x, items, m as usize);
        assert(answer(run, m) == t.incoming->0);
        assert(m < a.len()) by {
            assert(!(driven(c, run[m]).1.1->Ok_0 is Done));
        }
        lemma_elem_step(t.heap, x, items, m as usize, t.incoming, a);
        assert forall|j: int| 0 <= j < k - 1 implies #[trigger] answer(run, j) != Value::Bool(
            true,
        ) by {
            if j == m - 1 {
                assert(answer(run, m - 1) != Value::Bool(true));
            }
        }
    }
}

/// `elem` asks of the elements in order whether they equal the value, and is
/// true exactly when one does.
pub proof fn law_elem_is_some_equal(c: Called, run: Seq<Turn>, x: Slot, items: usize)
    requires
        is_run("elem"@, c, run),
        run[0].heap.list(c.args).len() > 0,
        run[0].heap.list(c.args)[0] == x,
        argument(run[0].heap, c, 1) == Some(Value::List(items)),
        items < run[0].heap.lists.len(),
        run[0].heap.list(items).len() < usize::MAX,
        forall|j: int| 0 <= j < run.len() ==> (#[trigger] run[j]).heap.works.len() + 4 < usize::MAX,
    ensures
        ({
            let a = run[0].heap.list(items);
            let n = run.len() - 1;
            let (g, y) = ends(c, run);
            &&& n <= a.len()
            &&& y matches Ok(Yield::Done(v)) ==> {
                &&& v is Bool
                &&& v->Bool_0 <==> exists|k: int|
                    0 <= k < n && #[trigger] answer(run, k) == Value::Bool(true)
                &&& v->Bool_0 || n == a.len()
            }
            &&& !(y is Ok && y->Ok_0 is Done) ==> n < a.len() && asks_equal(g, y, x, a[n])
        }),
{
    reveal(asks_equal);
    let n = run.len() - 1;
    lemma_elem_run(c, run, x, items, n);
    if n > 0 {
        assert(answer(run, n - 1) == answer(run, n - 1));
    }
}

// -- listToAttrs -------------------------------------------------------------

/// `listToAttrs` looks for the name of each element, which has to have one.
pub proof fn law_list_to_attrs_looks_for_the_name(
    c: Called,
    t: Turn,
    items: usize,
    i: usize,
    out: usize,
    name_sym: Sym,
    value_sym: Sym,
    m: usize,
)
    requires
        t.cont == (Cont::ListToAttrs { items, i, out, cur: None, name_sym, value_sym }),
        t.incoming == Some(Value::Attrs(m)),
    ensures
        ({
            let (g, (cont, y)) = driven(c, t);
            match lookup(t.heap.set(m), name_sym) {
                Some(s) => g == t.heap && y == Ok::<Yield, Fault>(Yield::Force(s)) && cont
                    == (Cont::ListToAttrs { items, i, out, cur: Some(m), name_sym, value_sym }),
                None => y is Err,
            }
        }),
{
    reveal(driven);
}

/// `listToAttrs` binds the name of an element to its value where the name is
/// not bound yet, and leaves every other name alone: of two elements with one
/// name the first counts. Then it goes on with the next element, or is done.
pub proof fn law_list_to_attrs_binds_first_names(
    c: Called,
    t: Turn,
    items: usize,
    i: usize,
    out: usize,
    name_sym: Sym,
    value_sym: Sym,
    m: usize,
    name: usize,
    other: Sym,
)
    requires
        t.cont == (Cont::ListToAttrs { items, i, out, cur: Some(m), name_sym, value_sym }),
        t.incoming == Some(Value::Str(name)),
        out < t.heap.sets.len(),
        in_order(t.heap.set(out)),
        i < t.heap.list(items).len() < usize::MAX,
    ensures
        ({
            let k = t.heap.intern(t.heap.text(name)).1;
            let had = t.heap.set(out);
            let value = lookup(t.heap.set(m), value_sym);
            let (g, (cont, y)) = driven(c, t);
            &&& lookup(had, k) is None && value is None ==> y is Err
            &&& lookup(had, k) is Some || value is Some ==> {
                &&& in_order(g.set(out))
                &&& lookup(g.set(out), k) == if lookup(had, k) is Some {
                    lookup(had, k)
                } else {
                    value
                }
                &&& other != k ==> lookup(g.set(out), other) == lookup(had, other)
                &&& y == Ok::<Yield, Fault>(
                    if i + 1 < g.list(items).len() {
                        Yield::Force(g.list(items)[i + 1])
                    } else {
                        Yield::Done(Value::Attrs(out))
                    },
                )
                &&& cont == (Cont::ListToAttrs {
                    items,
                    i: (i + 1) as usize,
                    out,
                    cur: None,
                    name_sym,
                    value_sym,
                })
                &&& g.list(items) == t.heap.list(items)
            }
        }),
{
    reveal(driven);
    let (h, k) = t.heap.intern(t.heap.text(name));
    let had = t.heap.set(out);
    assert(h.set(out) == had && h.set(m) == t.heap.set(m));
    if lookup(had, k) is None && lookup(t.heap.set(m), value_sym) is Some {
        law_bound_name_is_found(had, k, lookup(t.heap.set(m), value_sym)->0, other);
    }
}

// -- groupBy -----------------------------------------------------------------

/// `groupBy` puts an element behind those that have its key, in a group of its
/// own if it is the first, and leaves every other group alone.
pub proof fn law_group_by_adds_to_the_group(
    h: HeapView,
    groups: Seq<(Sym, Slot)>,
    k: Sym,
    s: Slot,
    other: Sym,
)
    requires
        in_order(groups),
        h.lists.len() < usize::MAX,
        lookup(groups, k) matches Some(l) ==> l < h.lists.len(),
        lookup(groups, other) matches Some(l) ==> l < h.lists.len(),
        other != k && lookup(groups, other) is Some ==> lookup(groups, other) != lookup(groups, k),
    ensures
        ({
            let (g, after) = h.group_add(groups, k, s);
            let had = match lookup(groups, k) {
                Some(l) => h.list(l),
                None => Seq::empty(),
            };
            &&& in_order(after)
            &&& lookup(after, k) is Some
            &&& g.list(lookup(after, k)->0) == had.push(s)
            &&& other != k ==> lookup(after, other) == lookup(groups, other) && (lookup(
                groups,
                other,
            ) matches Some(l) ==> g.list(l) == h.list(l))
        }),
{
    if lookup(groups, k) is None {
        let l = h.lists.len() as usize;
        law_bound_name_is_found(groups, k, l, other);
        assert(seq![s] =~= Seq::<usize>::empty().push(s));
    }
}

/// `groupBy` asks for the key of each element in order, and adds the element to
/// the group of the key that is answered; a key that is no string is an error.
pub proof fn law_group_by_goes_by_the_key(
    c: Called,
    t: Turn,
    f: Value,
    items: usize,
    i: usize,
    out: usize,
)
    requires
        t.cont == (Cont::GroupBy { f, items, i, out }),
        t.incoming is Some,
        i + 1 < t.heap.list(items).len() < usize::MAX,
        out < t.heap.sets.len(),
    ensures
        ({
            let (g, (cont, y)) = driven(c, t);
            &&& !(t.incoming->0 is Str) ==> y is Err
            &&& t.incoming->0 matches Value::Str(key) ==> {
                let (h, k) = t.heap.intern(t.heap.text(key));
                let (h, after) = h.group_add(h.set(out), k, t.heap.list(items)[i as int]);
                &&& g.set(out) == after
                &&& g.lists == h.lists
                &&& cont == (Cont::GroupBy { f, items, i: (i + 1) as usize, out })
                    || g.list(items) != t.heap.list(items)
                &&& g.list(items) == t.heap.list(items) ==> y == Ok::<Yield, Fault>(
                    Yield::Apply(f, t.heap.list(items)[i + 1]),
                )
            }
        }),
{
    reveal(driven);
}

} // verus!
