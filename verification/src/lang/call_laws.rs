//! What selecting from a set and calling a function do: a name finds what it
//! is bound to, and a parameter what was handed over.
use crate::lang::builtin_laws::{binds, is_set, lemma_looked_up, lemma_position};
use crate::lang::builtins::{arity, is_lazy, BUILTINS};
use crate::lang::frames::{Cont, Flow, Frame, Task, UnitFrame, Yield};
use crate::lang::heap::{lookup, EnvNode, Fault, HeapView, Item, Slot, SlotState, Sym, Value};
use crate::lang::ir::{Op, ParamView};
use crate::lang::operator_laws::{
    about_to, comes_to, fails_with, gives, lemma_at_once, lemma_fails_at_once, lemma_force_turn,
    lemma_moves_on, lemma_one, lemma_same, lemma_stays, lemma_unit_handed, lemma_unit_turn, past,
    popped, under,
};
use crate::lang::units::{stepped, OpOut};
use crate::lang::vm::{Applied, VmView};
use vstd::prelude::*;

verus! {

/// Interning a name leaves everything else as it was, and every name known.
pub proof fn lemma_intern(h: HeapView, set: Seq<(Sym, Slot)>, name: Seq<char>)
    requires
        is_set(h, set),
        h.symbols.len() < u32::MAX,
    ensures
        is_set(h.intern(name).0, set),
        h.intern(name).0.sym_name(h.intern(name).1) == name,
        forall|n: Seq<char>, s: Slot| #[trigger]
            binds(h.intern(name).0, set, n, s) <==> binds(h, set, n, s),
        forall|k: Sym| k < h.symbols.len() ==> #[trigger] h.intern(name).0.sym_name(k)
            == h.sym_name(k),
        h.intern(name).0 == (HeapView { symbols: h.intern(name).0.symbols, ..h }),
        h.intern(name).0.symbols.len() <= h.symbols.len() + 1,
        h.symbols.len() <= h.intern(name).0.symbols.len(),
        h.intern(name).1 < h.intern(name).0.symbols.len(),
{
    lemma_position(h.symbols, name, 0);
    let g = h.intern(name).0;
    assert(g.symbols.no_duplicates()) by {
        assert forall|i: int, j: int|
            0 <= i < g.symbols.len() && 0 <= j < g.symbols.len() && i != j implies g.symbols[i]
            != g.symbols[j] by {
            if i < h.symbols.len() && j < h.symbols.len() {
                assert(h.symbols[i] != h.symbols[j]);
            }
        }
    }
    assert forall|n: Seq<char>, s: Slot| #[trigger] binds(g, set, n, s) <==> binds(
        h,
        set,
        n,
        s,
    ) by {
        if binds(g, set, n, s) {
            let i = choose|i: int|
                0 <= i < set.len() && g.sym_name((#[trigger] set[i]).0) == n && set[i].1 == s;
            assert(h.sym_name(set[i].0) == n);
        }
        if binds(h, set, n, s) {
            let i = choose|i: int|
                0 <= i < set.len() && h.sym_name((#[trigger] set[i]).0) == n && set[i].1 == s;
            assert(g.sym_name(set[i].0) == n);
        }
    }
}

/// Selecting a name from a set gives what the set binds it to, and fails where
/// it binds nothing.
pub proof fn law_selecting_finds_what_is_bound(
    vm: VmView,
    u: UnitFrame,
    sym: u32,
    name: Seq<char>,
    m: usize,
    x: Slot,
    v: Value,
)
    requires
        about_to(vm, u, Op::Select { sym }, seq![Value::Attrs(m)]),
        vm.heap.local_name(u.module, sym) == Some(name),
        is_set(vm.heap, vm.heap.set(m)),
        vm.heap.symbols.len() < u32::MAX,
    ensures
        binds(vm.heap, vm.heap.set(m), name, x) && vm.heap.slot(x) == SlotState::Value(v)
            ==> comes_to(vm, u, 1, v),
        (forall|s: Slot| !#[trigger] binds(vm.heap, vm.heap.set(m), name, s)) ==> fails_with(
            vm,
            "attribute '"@ + name + "' missing"@,
        ),
{
    let set = vm.heap.set(m);
    let value = Value::Attrs(m);
    lemma_one(vm, u, Op::Select { sym }, value);
    lemma_intern(vm.heap, set, name);
    lemma_looked_up(vm.heap, set, name);
    let (h1, k) = vm.heap.intern(name);
    let g = popped(h1, u.stack, 1);
    assert(h1.works == vm.heap.works);
    let w = vm.heap.work(u.stack);
    assert(w.last() == Item::Val(value)) by {
        let on = seq![value];
        assert(w[w.len() - 1 + 0] == Item::Val(on[0]));
    }
    assert(w.drop_last() =~= w.take(w.len() - 1));
    assert(h1.pop_value(u.stack) == (g, Ok::<Value, Fault>(value)));
    assert(g.set(m) == set);
    match lookup(set, k) {
        Some(s) => {
            assert(vm.heap.exec_op(u) == (g, OpOut::Force(stepped(u), s)));
            assert(binds(vm.heap, set, name, s));
            if binds(vm.heap, set, name, x) && vm.heap.slot(x) == SlotState::Value(v) {
                assert(x == s);
                lemma_forced(vm, u, g, s, v);
            }
        },
        None => {
            assert(g.sym_name(k) == name);
            lemma_fails_at_once(
                vm,
                u,
                Op::Select { sym },
                seq![value],
                g,
                "attribute '"@ + name + "' missing"@,
            );
        },
    }
}

/// A slot with a value that a unit waits for lands on its stack.
proof fn lemma_forced(vm: VmView, u: UnitFrame, g: HeapView, s: Slot, v: Value)
    requires
        about_to(vm, u, vm.heap.op_at(u.module, u.unit, u.ip)->0, seq![]),
        vm.heap.work(u.stack).len() > 0,
        vm.heap.exec_op(u) == (g, OpOut::Force(stepped(u), s)),
        g.slots == vm.heap.slots,
        g.modules == vm.heap.modules,
        g.envs == vm.heap.envs,
        g.texts == vm.heap.texts,
        g.lists == vm.heap.lists,
        g.sets == vm.heap.sets,
        g.works == popped(vm.heap, u.stack, 1).works,
        vm.heap.slot(s) == SlotState::Value(v),
    ensures
        comes_to(vm, u, 1, v),
{
    let t = stepped(u);
    let w = vm.heap.work(u.stack);
    let low = under(vm).with_heap(g);
    let one = low.push(Frame::Unit(t)).push_force(s).go(Flow::Advance);
    lemma_unit_turn(vm, u, g, OpOut::Force(t, s));
    lemma_force_turn(one, s, v);
    let mid = low.push(Frame::Unit(t));
    assert(under(one).frames =~= mid.frames);
    let two = mid.go(Flow::Deliver(v));
    assert(under(one).go(Flow::Deliver(v)) == two);
    lemma_unit_handed(two, t, v);
    let three = low.with_heap(g.push_value(u.stack, v)).push(Frame::Unit(t)).go(Flow::Advance);
    assert(under(two).frames =~= low.frames);
    assert(under(two).with_heap(g.push_value(u.stack, v)).push(Frame::Unit(t)).go(Flow::Advance)
        == three);
    lemma_stays(three);
    lemma_moves_on(two, three, three, 0);
    lemma_moves_on(one, two, three, 1);
    lemma_moves_on(vm, one, three, 2);
    lemma_same(vm.heap);
    assert(g.work(u.stack) == w.take(w.len() - 1));
    assert(three.heap.work(u.stack) == w.take(w.len() - 1).push(Item::Val(v)));
    assert(past(vm, u, 1, v, three));
    assert(gives(vm, u, 1, v, 3));
}

/// `?` tells whether a value is a set that binds a name. What is no set binds
/// none.
pub proof fn law_question_mark_tells_what_is_bound(
    vm: VmView,
    u: UnitFrame,
    sym: u32,
    name: Seq<char>,
    v: Value,
)
    requires
        about_to(vm, u, Op::HasAttr { sym }, seq![v]),
        vm.heap.local_name(u.module, sym) == Some(name),
        v matches Value::Attrs(m) ==> is_set(vm.heap, vm.heap.set(m)),
        vm.heap.symbols.len() < u32::MAX,
    ensures
        comes_to(
            vm,
            u,
            1,
            Value::Bool(
                v is Attrs && exists|s: Slot| #[trigger]
                    binds(vm.heap, vm.heap.set(v->Attrs_0), name, s),
            ),
        ),
{
    lemma_one(vm, u, Op::HasAttr { sym }, v);
    let (h1, k) = vm.heap.intern(name);
    let w = vm.heap.work(u.stack);
    assert(h1.works == vm.heap.works && h1.sets == vm.heap.sets);
    assert(w.last() == Item::Val(v)) by {
        let on = seq![v];
        assert(w[w.len() - 1 + 0] == Item::Val(on[0]));
    }
    assert(w.drop_last() =~= w.take(w.len() - 1));
    let g = popped(h1, u.stack, 1);
    assert(h1.pop_item(u.stack) == (g, Ok::<Item, Fault>(Item::Val(v))));
    if v is Attrs {
        lemma_looked_up(vm.heap, vm.heap.set(v->Attrs_0), name);
        assert(g.set(v->Attrs_0) == vm.heap.set(v->Attrs_0));
    }
    let ans = Value::Bool(
        v is Attrs && exists|s: Slot| #[trigger]
            binds(vm.heap, vm.heap.set(v->Attrs_0), name, s),
    );
    assert(vm.heap.exec_op(u) == (g.push_value(u.stack, ans), OpOut::Go(stepped(u))));
    lemma_same(vm.heap);
    lemma_at_once(vm, u, Op::HasAttr { sym }, seq![v], 1, g, ans);
    assert(gives(vm, u, 1, ans, 1));
}

/// `or` gives what was selected where it was there, and the default where it
/// was not.
pub proof fn law_or_is_for_what_is_missing(h: HeapView, u: UnitFrame, default: Slot)
    requires
        h.op_at(u.module, u.unit, u.ip) == Some(Op::OrDefault),
        u.stack < h.works.len(),
        h.work(u.stack).len() >= 2,
        h.work(u.stack).last() == Item::Lazy(default),
    ensures
        ({
            let w = h.work(u.stack);
            let x = w[w.len() - 2];
            let (g, o) = h.exec_op(u);
            &&& x == Item::Miss ==> o == OpOut::Force(stepped(u), default) && g.work(u.stack)
                == w.take(w.len() - 2)
            &&& x != Item::Miss ==> o == OpOut::Go(stepped(u)) && g.work(u.stack) == w.take(
                w.len() - 1,
            )
        }),
{
    let w = h.work(u.stack);
    let low = w.drop_last();
    assert(h.work_put(u.stack, low).work(u.stack) == low);
    assert(low.last() == w[w.len() - 2]);
    assert(low.drop_last() =~= w.take(w.len() - 2));
    assert(low.drop_last().push(low.last()) =~= w.take(w.len() - 1));
}

/// Selecting where there is a default leaves a mark where there is nothing to
/// select, and forces what is there.
pub proof fn law_soft_selection_marks_what_is_missing(
    h: HeapView,
    u: UnitFrame,
    sym: u32,
    name: Seq<char>,
    v: Value,
    s: Slot,
)
    requires
        h.op_at(u.module, u.unit, u.ip) == Some(Op::SelectSoft { sym }),
        u.stack < h.works.len(),
        h.work(u.stack).len() >= 1,
        h.work(u.stack).last() == Item::Val(v),
        h.local_name(u.module, sym) == Some(name),
        v matches Value::Attrs(m) ==> is_set(h, h.set(m)),
        h.symbols.len() < u32::MAX,
    ensures
        ({
            let w = h.work(u.stack);
            let (g, o) = h.exec_op(u);
            &&& v is Attrs && binds(h, h.set(v->Attrs_0), name, s) ==> o == OpOut::Force(
                stepped(u),
                s,
            ) && g.work(u.stack) == w.drop_last()
            &&& !(v is Attrs) || (forall|x: Slot| !#[trigger] binds(
                h,
                h.set(v->Attrs_0),
                name,
                x,
            )) ==> o == OpOut::Go(stepped(u)) && g.work(u.stack) == w.drop_last().push(Item::Miss)
        }),
{
    let w = h.work(u.stack);
    let (h1, k) = h.intern(name);
    assert(h1.works == h.works && h1.sets == h.sets);
    assert(h.strict_at(u.stack, 1) is None);
    assert(h.gap_from(u.stack, 2, 1) is None);
    assert(h.gap(u.stack, 1) is None);
    if v is Attrs {
        lemma_looked_up(h, h.set(v->Attrs_0), name);
        if lookup(h.set(v->Attrs_0), k) is Some {
            assert(binds(h, h.set(v->Attrs_0), name, lookup(h.set(v->Attrs_0), k)->0));
        }
    }
}

// -- calls -------------------------------------------------------------------

/// Calling a function of one name enters its body in a frame that holds what
/// was handed over, inside the scope the function was made in.
pub proof fn law_argument_is_bound(h: HeapView, module: usize, unit: u32, up: usize, arg: Slot)
    requires
        h.param_at(module, unit) matches Some(Some(ParamView::Ident(_))),
        h.lists.len() < usize::MAX,
        h.envs.len() < usize::MAX,
    ensures
        ({
            let (g, o) = h.apply(Value::Closure { module, unit, env: up }, arg);
            o matches Applied::Enter { module: m, unit: n, env } && m == module && n == unit
                && g.env(env) is Frame && g.env(env)->Frame_up == up && g.list(
                g.env(env)->Frame_slots,
            ) == seq![arg]
        }),
{
}

/// Whether a slot is what a field of a function's set of parameters stands
/// for: what the set binds its name to, or else its default, to be computed in
/// the function's own frame.
pub open spec fn is_field(
    h: HeapView,
    module: usize,
    field: (u32, Option<u32>),
    set: Seq<(Sym, Slot)>,
    env: usize,
    g: HeapView,
    s: Slot,
) -> bool {
    let name = h.field_name(module, field.0);
    ||| binds(h, set, name, s)
    ||| (forall|x: Slot| !#[trigger] binds(h, set, name, x)) && field.1 is Some && g.slot(s) == (
    SlotState::Thunk { module, unit: field.1->0, env })
}

/// Whether a field has to be bound and is not.
pub open spec fn is_missing(
    h: HeapView,
    module: usize,
    field: (u32, Option<u32>),
    set: Seq<(Sym, Slot)>,
) -> bool {
    field.1 is None && forall|x: Slot| !#[trigger] binds(
        h,
        set,
        h.field_name(module, field.0),
        x,
    )
}

spec fn binds_as(a: HeapView, b: HeapView, set: Seq<(Sym, Slot)>) -> bool {
    &&& forall|n: Seq<char>, s: Slot| #[trigger] binds(b, set, n, s) <==> binds(a, set, n, s)
    &&& b.modules == a.modules
    &&& a.slots.is_prefix_of(b.slots)
    &&& forall|k: Sym| k < a.symbols.len() ==> #[trigger] b.sym_name(k) == a.sym_name(k)
    &&& a.symbols.len() <= b.symbols.len()
    &&& b.lists == a.lists
    &&& b.envs == a.envs
}

proof fn lemma_bind_fields(
    start: HeapView,
    h: HeapView,
    module: usize,
    fields: Seq<(u32, Option<u32>)>,
    i: int,
    set: Seq<(Sym, Slot)>,
    env: usize,
    out: Seq<usize>,
)
    requires
        0 <= i <= fields.len(),
        out.len() == i,
        is_set(h, set),
        h.symbols.len() + fields.len() - i < u32::MAX,
        h.slots.len() + fields.len() - i < usize::MAX,
        binds_as(start, h, set),
        forall|j: int|
            0 <= j < i ==> is_field(start, module, fields[j], set, env, h, #[trigger] out[j]),
    ensures
        ({
            let (g, r) = h.bind_fields(module, fields, i, set, env, out);
            &&& r matches Ok(all) ==> {
                &&& all.len() == fields.len()
                &&& forall|j: int|
                    0 <= j < fields.len() ==> is_field(
                        start,
                        module,
                        fields[j],
                        set,
                        env,
                        g,
                        #[trigger] all[j],
                    )
                &&& binds_as(start, g, set)
                &&& is_set(g, set)
            }
            &&& r is Err <==> exists|j: int|
                i <= j < fields.len() && is_missing(start, module, #[trigger] fields[j], set)
        }),
    decreases fields.len() - i,
{
    if i < fields.len() {
        let name = h.field_name(module, fields[i].0);
        assert(name == start.field_name(module, fields[i].0));
        lemma_intern(h, set, name);
        lemma_looked_up(h, set, name);
        let (h1, k) = h.intern(name);
        match lookup(set, k) {
            Some(s) => {
                let more = out.push(s);
                assert(binds(h, set, name, s));
                assert(binds(start, set, name, s));
                assert(!is_missing(start, module, fields[i], set));
                assert forall|j: int| 0 <= j < i + 1 implies is_field(
                    start,
                    module,
                    fields[j],
                    set,
                    env,
                    h1,
                    #[trigger] more[j],
                ) by {
                    if j < i {
                        assert(more[j] == out[j]);
                    }
                }
                lemma_bind_fields(start, h1, module, fields, i + 1, set, env, more);
            },
            None => {
                assert forall|x: Slot| !#[trigger] binds(start, set, name, x) by {
                    if binds(start, set, name, x) {
                        assert(binds(h, set, name, x));
                    }
                }
                match fields[i].1 {
                    Some(unit) => {
                        let (h2, s) = h1.new_slot(SlotState::Thunk { module, unit, env });
                        let more = out.push(s);
                        assert(h2.slots.take(start.slots.len() as int) =~= start.slots) by {
                            assert(h1.slots.take(start.slots.len() as int) =~= start.slots);
                        }
                        assert(!is_missing(start, module, fields[i], set));
                        assert(forall|n: Seq<char>, x: Slot| #[trigger]
                            binds(h2, set, n, x) <==> binds(h1, set, n, x)) by {
                            assert forall|n: Seq<char>, x: Slot| #[trigger]
                                binds(h2, set, n, x) <==> binds(h1, set, n, x) by {
                                lemma_same_names(h1, h2, set, n, x);
                            }
                        }
                        assert forall|j: int| 0 <= j < i + 1 implies is_field(
                            start,
                            module,
                            fields[j],
                            set,
                            env,
                            h2,
                            #[trigger] more[j],
                        ) by {
                            if j < i {
                                assert(more[j] == out[j]);
                                assert(is_field(start, module, fields[j], set, env, h, out[j]));
                            }
                        }
                        assert forall|n: Seq<char>, x: Slot| #[trigger]
                            binds(h2, set, n, x) <==> binds(start, set, n, x) by {
                            assert(binds(h2, set, n, x) <==> binds(h1, set, n, x));
                            assert(binds(h1, set, n, x) <==> binds(h, set, n, x));
                        }
                        assert forall|q: Sym| q < start.symbols.len() implies #[trigger] h2.sym_name(
                            q,
                        ) == start.sym_name(q) by {
                            assert(h1.sym_name(q) == h.sym_name(q));
                            assert(h.sym_name(q) == start.sym_name(q));
                        }
                        assert(start.slots.is_prefix_of(h2.slots));
                        lemma_bind_fields(start, h2, module, fields, i + 1, set, env, more);
                    },
                    None => {
                        assert(is_missing(start, module, fields[i], set));
                    },
                }
            },
        }
    }
}

proof fn lemma_same_names(a: HeapView, b: HeapView, set: Seq<(Sym, Slot)>, n: Seq<char>, x: Slot)
    requires
        a.symbols == b.symbols,
    ensures
        binds(a, set, n, x) <==> binds(b, set, n, x),
{
    if binds(a, set, n, x) {
        let i = choose|i: int|
            0 <= i < set.len() && a.sym_name((#[trigger] set[i]).0) == n && set[i].1 == x;
        assert(b.sym_name(set[i].0) == n);
    }
    if binds(b, set, n, x) {
        let i = choose|i: int|
            0 <= i < set.len() && b.sym_name((#[trigger] set[i]).0) == n && set[i].1 == x;
        assert(a.sym_name(set[i].0) == n);
    }
}

/// Whether a name is that of a field.
pub open spec fn is_field_name(
    h: HeapView,
    module: usize,
    fields: Seq<(u32, Option<u32>)>,
    name: Seq<char>,
) -> bool {
    exists|j: int| 0 <= j < fields.len() && h.local_name(module, (#[trigger] fields[j]).0) == Some(name)
}

proof fn lemma_has_field(
    h: HeapView,
    module: usize,
    fields: Seq<(u32, Option<u32>)>,
    name: Seq<char>,
    i: int,
)
    requires
        0 <= i <= fields.len(),
    ensures
        h.has_field(module, fields, name, i) <==> exists|j: int|
            i <= j < fields.len() && h.local_name(module, (#[trigger] fields[j]).0) == Some(name),
    decreases fields.len() - i,
{
    if i < fields.len() {
        lemma_has_field(h, module, fields, name, i + 1);
    }
}

proof fn lemma_stray(
    h: HeapView,
    module: usize,
    fields: Seq<(u32, Option<u32>)>,
    set: Seq<(Sym, Slot)>,
    i: int,
)
    requires
        0 <= i <= set.len(),
    ensures
        h.stray(module, fields, set, i) < set.len() <==> exists|j: int|
            i <= j < set.len() && !is_field_name(
                h,
                module,
                fields,
                h.sym_name((#[trigger] set[j]).0),
            ),
    decreases set.len() - i,
{
    if i < set.len() {
        lemma_has_field(h, module, fields, h.sym_name(set[i].0), 0);
        lemma_stray(h, module, fields, set, i + 1);
    }
}

/// Calling a function of a set of names. It is entered exactly when every name
/// without a default is bound and, unless it takes any others, every name in
/// the set is one of its own; each name then stands for what the set binds it
/// to, or for its default, and the name behind `@` for the whole argument.
pub proof fn law_parameters_are_bound_by_name(
    h: HeapView,
    module: usize,
    unit: u32,
    up: usize,
    fields: Seq<(u32, Option<u32>)>,
    ellipsis: bool,
    whole: Option<u32>,
    arg: Slot,
    m: usize,
)
    requires
        h.param_at(module, unit) == Some(
            Some(ParamView::Formals { fields, ellipsis, bind: whole }),
        ),
        h.peek(arg) == Some(Value::Attrs(m)),
        is_set(h, h.set(m)),
        h.symbols.len() + fields.len() < u32::MAX,
        h.slots.len() + fields.len() < usize::MAX,
        h.lists.len() + 1 < usize::MAX,
        h.envs.len() + 1 < usize::MAX,
    ensures
        ({
            let set = h.set(m);
            let (g, o) = h.apply(Value::Closure { module, unit, env: up }, arg);
            let missing = exists|j: int|
                0 <= j < fields.len() && is_missing(h, module, #[trigger] fields[j], set);
            let stray = !ellipsis && exists|j: int|
                0 <= j < set.len() && !is_field_name(
                    h,
                    module,
                    fields,
                    h.sym_name((#[trigger] set[j]).0),
                );
            &&& missing || stray ==> o is Fail
            &&& !missing && !stray ==> (o matches Applied::Enter { module: x, unit: y, env } && x
                == module && y == unit && g.env(env) is Frame && g.env(env)->Frame_up == up && {
                let slots = g.list(g.env(env)->Frame_slots);
                &&& slots.len() == fields.len() + (if whole is Some {
                    1int
                } else {
                    0
                })
                &&& whole is Some ==> slots[fields.len() as int] == arg
                &&& forall|j: int|
                    0 <= j < fields.len() ==> is_field(
                        h,
                        module,
                        fields[j],
                        set,
                        env,
                        g,
                        #[trigger] slots[j],
                    )
            })
        }),
{
    let set = h.set(m);
    let (h1, slots) = h.new_list(Seq::empty());
    let (h2, env) = h1.new_env(EnvNode::Frame { up, slots });
    assert(is_set(h2, set));
    assert(h2.slots.take(h.slots.len() as int) =~= h.slots);
    assert forall|n: Seq<char>, s: Slot| #[trigger] binds(h2, set, n, s) <==> binds(
        h,
        set,
        n,
        s,
    ) by {
        lemma_same_names(h, h2, set, n, s);
    }
    let start = h2;
    assert forall|n: Seq<char>, s: Slot| #[trigger] binds(start, set, n, s) <==> binds(
        start,
        set,
        n,
        s,
    ) by {}
    lemma_bind_fields(start, h2, module, fields, 0, set, env, Seq::empty());
    let (g, r) = h2.bind_fields(module, fields, 0, set, env, Seq::empty());
    assert forall|j: int| 0 <= j < fields.len() implies is_missing(
        h,
        module,
        #[trigger] fields[j],
        set,
    ) == is_missing(start, module, fields[j], set) by {
        let n = h.field_name(module, fields[j].0);
        assert(forall|x: Slot| #[trigger] binds(start, set, n, x) <==> binds(h, set, n, x));
        assert(start.field_name(module, fields[j].0) == n);
        if is_missing(h, module, fields[j], set) {
            assert forall|x: Slot| !#[trigger] binds(start, set, n, x) by {
                assert(!binds(h, set, n, x));
            }
        }
        if is_missing(start, module, fields[j], set) {
            assert forall|x: Slot| !#[trigger] binds(h, set, n, x) by {
                assert(!binds(start, set, n, x));
            }
        }
    }
    if r is Ok {
        lemma_stray(g, module, fields, set, 0);
        assert forall|j: int| 0 <= j < set.len() implies g.sym_name((#[trigger] set[j]).0)
            == h.sym_name(set[j].0) by {
            assert(set[j].0 < h.symbols.len());
        }
        assert forall|n: Seq<char>| #[trigger] is_field_name(g, module, fields, n)
            == is_field_name(h, module, fields, n) by {
            if is_field_name(g, module, fields, n) {
                let j = choose|j: int|
                    0 <= j < fields.len() && g.local_name(module, (#[trigger] fields[j]).0) == Some(
                        n,
                    );
                assert(h.local_name(module, fields[j].0) == Some(n));
            }
            if is_field_name(h, module, fields, n) {
                let j = choose|j: int|
                    0 <= j < fields.len() && h.local_name(module, (#[trigger] fields[j]).0) == Some(
                        n,
                    );
                assert(g.local_name(module, fields[j].0) == Some(n));
            }
        }
        let all = r->Ok_0;
        let end = g.list_put(
            slots,
            if whole is Some {
                all.push(arg)
            } else {
                all
            },
        );
        assert forall|j: int| 0 <= j < fields.len() implies is_field(
            h,
            module,
            fields[j],
            set,
            env,
            end,
            #[trigger] all[j],
        ) by {
            assert(is_field(start, module, fields[j], set, env, g, all[j]));
            let n = h.field_name(module, fields[j].0);
            assert(start.field_name(module, fields[j].0) == n);
            if !binds(start, set, n, all[j]) {
                assert forall|x: Slot| !#[trigger] binds(h, set, n, x) by {
                    assert(!binds(start, set, n, x));
                }
            }
        }
    }
}

/// Applying a builtin adds one argument behind those it has. It runs once it
/// has all that it takes, and until then is a function that has them.
pub proof fn law_builtin_collects_its_arguments(h: HeapView, idx: u16, args: usize, arg: Slot)
    requires
        idx < BUILTINS,
        h.lists.len() < usize::MAX,
    ensures
        ({
            let (g, o) = h.apply(Value::Builtin { idx, args }, arg);
            let all = h.list(args).push(arg);
            if all.len() < arity(idx) {
                o matches Applied::Deliver(Value::Builtin { idx: i, args: l }) && i == idx && g.list(
                    l,
                ) == all
            } else {
                o matches Applied::Run(Task::Builtin { idx: i, args: l, cont }) && i == idx
                    && g.list(l) == all && cont == Cont::Args(0)
            }
        }),
{
}

/// Before a builtin runs, its arguments are forced from the first to the last,
/// but for those that it leaves alone.
pub proof fn law_arguments_are_forced_in_order(
    h: HeapView,
    idx: u16,
    args: usize,
    i: usize,
    incoming: Option<Value>,
)
    requires
        i < h.list(args).len() < usize::MAX,
        !is_lazy(idx, i),
    ensures
        h.drive(idx, args, Cont::Args(i), incoming) == (
            h,
            (Cont::Args((i + 1) as usize), Ok::<Yield, Fault>(Yield::Force(h.list(args)[i as int]))),
        ),
{
}

/// Calling what is no function is an error.
pub proof fn law_only_functions_are_called(h: HeapView, f: Value, arg: Slot)
    requires
        !(f is Closure) && !(f is Builtin),
    ensures
        h.apply(f, arg).1 is Fail,
{
}

} // verus!
