//! Every operation on the heap keeps the slots that were there: it may add some,
//! and changes none. Only the machine itself changes a slot.
use crate::lang::builtins::{bare, extra_member_text, primop_text, EXTRA_MEMBERS, PRIMOPS};
use crate::lang::closure::Sought;
use crate::lang::conts::{is_marked, item_value};
use crate::lang::docs::{DocCellView, DocNodeView, Source};
use crate::lang::frames::{Await, Cont, Finish, Generic, Need, Search, Task, UnitFrame};
use crate::lang::heap::{
    bind, lookup, unbind, EnvNode, ErrKind, Fault, HeapView, Item, Slot, SlotState, Sym, Value,
};
use crate::lang::host::{file_type_text, FileType};
use crate::lang::ir::ConstView;
use crate::lang::lists::{Arith, Bits, Test};
use crate::lang::quote::{byte_cut, json_quoted, printed_name, PieceView};
use crate::lang::strings::Order;
use vstd::prelude::*;

verus! {

/// Whether a heap has every slot of an earlier one as it was.
#[verifier::opaque]
pub open spec fn ahead(a: HeapView, b: HeapView) -> bool {
    &&& a.slots.len() <= b.slots.len()
    &&& forall|i: int| 0 <= i < a.slots.len() ==> #[trigger] b.slots[i] == a.slots[i]
}

pub broadcast proof fn ahead_new_text(was: HeapView, h: HeapView, t: Seq<char>)
    requires
        ahead(was, h),
    ensures
        #[trigger] ahead(was, h.new_text(t).0),
{
    reveal(ahead);
}

pub broadcast proof fn ahead_text_put(was: HeapView, h: HeapView, id: usize, t: Seq<char>)
    requires
        ahead(was, h),
    ensures
        #[trigger] ahead(was, h.text_put(id, t)),
{
    reveal(ahead);
}

pub broadcast proof fn ahead_new_list(was: HeapView, h: HeapView, l: Seq<usize>)
    requires
        ahead(was, h),
    ensures
        #[trigger] ahead(was, h.new_list(l).0),
{
    reveal(ahead);
}

pub broadcast proof fn ahead_list_put(was: HeapView, h: HeapView, id: usize, l: Seq<usize>)
    requires
        ahead(was, h),
    ensures
        #[trigger] ahead(was, h.list_put(id, l)),
{
    reveal(ahead);
}

pub broadcast proof fn ahead_new_set(was: HeapView, h: HeapView, s: Seq<(Sym, Slot)>)
    requires
        ahead(was, h),
    ensures
        #[trigger] ahead(was, h.new_set(s).0),
{
    reveal(ahead);
}

pub broadcast proof fn ahead_set_put(was: HeapView, h: HeapView, id: usize, s: Seq<(Sym, Slot)>)
    requires
        ahead(was, h),
    ensures
        #[trigger] ahead(was, h.set_put(id, s)),
{
    reveal(ahead);
}

pub broadcast proof fn ahead_new_work(was: HeapView, h: HeapView, w: Seq<Item>)
    requires
        ahead(was, h),
    ensures
        #[trigger] ahead(was, h.new_work(w).0),
{
    reveal(ahead);
}

pub broadcast proof fn ahead_work_put(was: HeapView, h: HeapView, id: usize, w: Seq<Item>)
    requires
        ahead(was, h),
    ensures
        #[trigger] ahead(was, h.work_put(id, w)),
{
    reveal(ahead);
}

pub broadcast proof fn ahead_new_slot(was: HeapView, h: HeapView, s: SlotState)
    requires
        ahead(was, h),
    ensures
        #[trigger] ahead(was, h.new_slot(s).0),
{
    reveal(ahead);
}

pub broadcast proof fn ahead_new_env(was: HeapView, h: HeapView, e: EnvNode)
    requires
        ahead(was, h),
    ensures
        #[trigger] ahead(was, h.new_env(e).0),
{
    reveal(ahead);
}

pub broadcast proof fn ahead_intern(was: HeapView, h: HeapView, name: Seq<char>)
    requires
        ahead(was, h),
    ensures
        #[trigger] ahead(was, h.intern(name).0),
{
    reveal(ahead);
}

pub broadcast proof fn ahead_fail<T>(was: HeapView, h: HeapView, msg: Seq<char>)
    requires
        ahead(was, h),
    ensures
        #[trigger] ahead(was, h.fail::<T>(msg).0),
{
    broadcast use ahead_new_text;
}

pub broadcast proof fn ahead_missing<T>(was: HeapView, h: HeapView, what: Seq<char>)
    requires
        ahead(was, h),
    ensures
        #[trigger] ahead(was, h.missing::<T>(what).0),
{
    broadcast use ahead_new_text;
}

pub broadcast proof fn ahead_fail_shown<T>(was: HeapView, h: HeapView, lead: Seq<char>, v: Value)
    requires
        ahead(was, h),
    ensures
        #[trigger] ahead(was, h.fail_shown::<T>(lead, v).0),
{
    broadcast use ahead_new_text;
}

pub broadcast proof fn ahead_forced(was: HeapView, h: HeapView, s: Slot)
    requires
        ahead(was, h),
    ensures
        #[trigger] ahead(was, h.forced(s).0),
{
    broadcast use ahead_fail;
}

pub broadcast proof fn ahead_value_slot(was: HeapView, h: HeapView, v: Value)
    requires
        ahead(was, h),
    ensures
        #[trigger] ahead(was, h.value_slot(v).0),
{
    broadcast use ahead_new_slot;
}

pub broadcast proof fn ahead_str_value(was: HeapView, h: HeapView, t: Seq<char>)
    requires
        ahead(was, h),
    ensures
        #[trigger] ahead(was, h.str_value(t).0),
{
    broadcast use ahead_new_text;
}

pub broadcast proof fn ahead_path_value(was: HeapView, h: HeapView, t: Seq<char>)
    requires
        ahead(was, h),
    ensures
        #[trigger] ahead(was, h.path_value(t).0),
{
    broadcast use ahead_new_text;
}

pub broadcast proof fn ahead_list_value(was: HeapView, h: HeapView, l: Seq<usize>)
    requires
        ahead(was, h),
    ensures
        #[trigger] ahead(was, h.list_value(l).0),
{
    broadcast use ahead_new_list;
}

pub broadcast proof fn ahead_attrs_value(was: HeapView, h: HeapView, s: Seq<(Sym, Slot)>)
    requires
        ahead(was, h),
    ensures
        #[trigger] ahead(was, h.attrs_value(s).0),
{
    broadcast use ahead_new_set;
}

pub broadcast proof fn ahead_str_slot(was: HeapView, h: HeapView, t: Seq<char>)
    requires
        ahead(was, h),
    ensures
        #[trigger] ahead(was, h.str_slot(t).0),
{
    broadcast use {ahead_str_value, ahead_value_slot};
}

pub broadcast proof fn ahead_pending_slot(was: HeapView, h: HeapView, f: Value, args: Seq<usize>)
    requires
        ahead(was, h),
    ensures
        #[trigger] ahead(was, h.pending_slot(f, args).0),
{
    broadcast use {ahead_new_list, ahead_new_slot};
}

pub broadcast proof fn ahead_want_list(was: HeapView, h: HeapView, v: Value)
    requires
        ahead(was, h),
    ensures
        #[trigger] ahead(was, h.want_list(v).0),
{
    broadcast use ahead_fail;
}

pub broadcast proof fn ahead_want_attrs(was: HeapView, h: HeapView, v: Value)
    requires
        ahead(was, h),
    ensures
        #[trigger] ahead(was, h.want_attrs(v).0),
{
    broadcast use ahead_fail;
}

pub broadcast proof fn ahead_want_int(was: HeapView, h: HeapView, v: Value)
    requires
        ahead(was, h),
    ensures
        #[trigger] ahead(was, h.want_int(v).0),
{
    broadcast use ahead_fail;
}

pub broadcast proof fn ahead_want_str(was: HeapView, h: HeapView, v: Value)
    requires
        ahead(was, h),
    ensures
        #[trigger] ahead(was, h.want_str(v).0),
{
    broadcast use ahead_fail;
}

pub broadcast proof fn ahead_want_bool(was: HeapView, h: HeapView, v: Value)
    requires
        ahead(was, h),
    ensures
        #[trigger] ahead(was, h.want_bool(v).0),
{
    broadcast use ahead_fail;
}

pub broadcast proof fn ahead_coerce_interpolated(was: HeapView, h: HeapView, v: Value)
    requires
        ahead(was, h),
    ensures
        #[trigger] ahead(was, h.coerce_interpolated(v).0),
{
    broadcast use ahead_fail;
}

pub broadcast proof fn ahead_arg(was: HeapView, h: HeapView, args: usize, i: usize)
    requires
        ahead(was, h),
    ensures
        #[trigger] ahead(was, h.arg(args, i).0),
{
    broadcast use ahead_fail;
}

pub broadcast proof fn ahead_argv(was: HeapView, h: HeapView, args: usize, i: usize)
    requires
        ahead(was, h),
    ensures
        #[trigger] ahead(was, h.argv(args, i).0),
{
    broadcast use {ahead_arg, ahead_forced};
}

pub broadcast proof fn ahead_nth(was: HeapView, h: HeapView, items: usize, i: usize)
    requires
        ahead(was, h),
    ensures
        #[trigger] ahead(was, h.nth(items, i).0),
{
    broadcast use ahead_fail;
}

pub broadcast proof fn ahead_arg_list(was: HeapView, h: HeapView, args: usize, i: usize)
    requires
        ahead(was, h),
    ensures
        #[trigger] ahead(was, h.arg_list(args, i).0),
{
    broadcast use {ahead_argv, ahead_want_list};
}

pub broadcast proof fn ahead_arg_attrs(was: HeapView, h: HeapView, args: usize, i: usize)
    requires
        ahead(was, h),
    ensures
        #[trigger] ahead(was, h.arg_attrs(args, i).0),
{
    broadcast use {ahead_argv, ahead_want_attrs};
}

pub broadcast proof fn ahead_arg_str(was: HeapView, h: HeapView, args: usize, i: usize)
    requires
        ahead(was, h),
    ensures
        #[trigger] ahead(was, h.arg_str(args, i).0),
{
    broadcast use {ahead_argv, ahead_want_str};
}

pub broadcast proof fn ahead_arg_int(was: HeapView, h: HeapView, args: usize, i: usize)
    requires
        ahead(was, h),
    ensures
        #[trigger] ahead(was, h.arg_int(args, i).0),
{
    broadcast use {ahead_argv, ahead_want_int};
}

pub broadcast proof fn ahead_attr(was: HeapView, h: HeapView, set: usize, name: Seq<char>)
    requires
        ahead(was, h),
    ensures
        #[trigger] ahead(was, h.attr(set, name).0),
{
    broadcast use ahead_intern;
}

pub broadcast proof fn ahead_msym(was: HeapView, h: HeapView, module: usize, sym: u32)
    requires
        ahead(was, h),
    ensures
        #[trigger] ahead(was, h.msym(module, sym).0),
{
    broadcast use {ahead_fail, ahead_intern};
}

pub broadcast proof fn ahead_push_item(was: HeapView, h: HeapView, st: usize, x: Item)
    requires
        ahead(was, h),
    ensures
        #[trigger] ahead(was, h.push_item(st, x)),
{
    broadcast use ahead_work_put;
}

pub broadcast proof fn ahead_push_value(was: HeapView, h: HeapView, st: usize, v: Value)
    requires
        ahead(was, h),
    ensures
        #[trigger] ahead(was, h.push_value(st, v)),
{
    broadcast use ahead_push_item;
}

pub broadcast proof fn ahead_pop_item(was: HeapView, h: HeapView, st: usize)
    requires
        ahead(was, h),
    ensures
        #[trigger] ahead(was, h.pop_item(st).0),
{
    broadcast use {ahead_fail, ahead_work_put};
}

pub broadcast proof fn ahead_pop_value(was: HeapView, h: HeapView, st: usize)
    requires
        ahead(was, h),
    ensures
        #[trigger] ahead(was, h.pop_value(st).0),
{
    broadcast use {ahead_fail, ahead_pop_item};
}

pub broadcast proof fn ahead_pop_slot(was: HeapView, h: HeapView, st: usize)
    requires
        ahead(was, h),
    ensures
        #[trigger] ahead(was, h.pop_slot(st).0),
{
    broadcast use {ahead_fail, ahead_pop_item, ahead_value_slot};
}

pub broadcast proof fn ahead_pop_slots(
    was: HeapView,
    h: HeapView,
    st: usize,
    n: int,
    got: Seq<usize>,
)
    requires
        ahead(was, h),
    ensures
        #[trigger] ahead(was, h.pop_slots(st, n, got).0),
    decreases n,
{
    if n > 0 {
        let (g, r) = h.pop_slot(st);
        ahead_pop_slot(was, h, st);
        if r is Ok {
            ahead_pop_slots(was, g, st, n - 1, got.push(r->Ok_0));
        }
    }
}

pub broadcast proof fn ahead_pop_values(
    was: HeapView,
    h: HeapView,
    st: usize,
    n: int,
    got: Seq<Value>,
)
    requires
        ahead(was, h),
    ensures
        #[trigger] ahead(was, h.pop_values(st, n, got).0),
    decreases n,
{
    if n > 0 {
        let (g, r) = h.pop_value(st);
        ahead_pop_value(was, h, st);
        if r is Ok {
            ahead_pop_values(was, g, st, n - 1, got.push(r->Ok_0));
        }
    }
}

pub broadcast proof fn ahead_pop_pairs(
    was: HeapView,
    h: HeapView,
    st: usize,
    n: int,
    got: Seq<(Value, Slot)>,
)
    requires
        ahead(was, h),
    ensures
        #[trigger] ahead(was, h.pop_pairs(st, n, got).0),
    decreases n,
{
    if n > 0 {
        let (g, s) = h.pop_slot(st);
        ahead_pop_slot(was, h, st);
        if s is Ok {
            let (k, v) = g.pop_value(st);
            ahead_pop_value(was, g, st);
            if v is Ok {
                ahead_pop_pairs(was, k, st, n - 1, got.push((v->Ok_0, s->Ok_0)));
            }
        }
    }
}

pub broadcast proof fn ahead_entry_value(was: HeapView, h: HeapView, st: usize, off: int)
    requires
        ahead(was, h),
    ensures
        #[trigger] ahead(was, h.entry_value(st, off).0),
{
    broadcast use ahead_fail;
}

pub broadcast proof fn ahead_local(was: HeapView, h: HeapView, env: usize, depth: u16, slot: u16)
    requires
        ahead(was, h),
    ensures
        #[trigger] ahead(was, h.local(env, depth, slot).0),
    decreases depth,
{
    broadcast use ahead_fail;

    if depth > 0 {
        match h.env(env) {
            EnvNode::Frame { up, .. } => ahead_local(was, h, up, (depth - 1) as u16, slot),
            EnvNode::With { up, .. } => ahead_local(was, h, up, (depth - 1) as u16, slot),
            EnvNode::Root => {},
        }
    }
}

pub broadcast proof fn ahead_repointed(
    was: HeapView,
    h: HeapView,
    slots: Seq<usize>,
    env: usize,
    i: int,
    out: Seq<usize>,
)
    requires
        ahead(was, h),
    ensures
        #[trigger] ahead(was, h.repointed(slots, env, i, out).0),
    decreases slots.len() - i,
{
    if i < slots.len() {
        match h.slot(slots[i]) {
            SlotState::Thunk { module, unit, .. } => {
                let fresh = SlotState::Thunk { module, unit, env };
                ahead_new_slot(was, h, fresh);
                let (g, s) = h.new_slot(fresh);
                ahead_repointed(was, g, slots, env, i + 1, out.push(s));
            },
            _ => ahead_repointed(was, h, slots, env, i + 1, out.push(slots[i])),
        }
    }
}

pub broadcast proof fn ahead_op_ret(was: HeapView, h: HeapView, u: UnitFrame)
    requires
        ahead(was, h),
    ensures
        #[trigger] ahead(was, h.op_ret(u).0),
{
    broadcast use ahead_pop_value;
}

pub broadcast proof fn ahead_const_value(was: HeapView, h: HeapView, c: ConstView)
    requires
        ahead(was, h),
    ensures
        #[trigger] ahead(was, h.const_value(c).0),
{
    broadcast use {ahead_fail, ahead_path_value, ahead_str_value};
}

pub broadcast proof fn ahead_op_const(was: HeapView, h: HeapView, u: UnitFrame, idx: u32)
    requires
        ahead(was, h),
    ensures
        #[trigger] ahead(was, h.op_const(u, idx).0),
{
    broadcast use {ahead_const_value, ahead_fail, ahead_new_text, ahead_push_value};
}

pub broadcast proof fn ahead_op_local(
    was: HeapView,
    h: HeapView,
    u: UnitFrame,
    depth: u16,
    slot: u16,
    lazy: bool,
)
    requires
        ahead(was, h),
    ensures
        #[trigger] ahead(was, h.op_local(u, depth, slot, lazy).0),
{
    broadcast use {ahead_local, ahead_push_item};
}

pub broadcast proof fn ahead_op_unimplemented(was: HeapView, h: HeapView, u: UnitFrame, sym: u32)
    requires
        ahead(was, h),
    ensures
        #[trigger] ahead(was, h.op_unimplemented(u, sym).0),
{
    broadcast use {ahead_missing, ahead_msym};
}

pub broadcast proof fn ahead_op_apply(was: HeapView, h: HeapView, u: UnitFrame)
    requires
        ahead(was, h),
    ensures
        #[trigger] ahead(was, h.op_apply(u).0),
{
    broadcast use {ahead_entry_value, ahead_pop_item, ahead_pop_slot};
}

pub broadcast proof fn ahead_op_push_env(was: HeapView, h: HeapView, u: UnitFrame, n: u16)
    requires
        ahead(was, h),
    ensures
        #[trigger] ahead(was, h.op_push_env(u, n).0),
{
    broadcast use {ahead_list_put, ahead_new_env, ahead_new_list, ahead_pop_slots, ahead_repointed};
}

pub broadcast proof fn ahead_op_pop_env(was: HeapView, h: HeapView, u: UnitFrame)
    requires
        ahead(was, h),
    ensures
        #[trigger] ahead(was, h.op_pop_env(u).0),
{
    broadcast use ahead_fail;
}

pub broadcast proof fn ahead_op_push_with(was: HeapView, h: HeapView, u: UnitFrame)
    requires
        ahead(was, h),
    ensures
        #[trigger] ahead(was, h.op_push_with(u).0),
{
    broadcast use {ahead_new_env, ahead_pop_slot};
}

pub broadcast proof fn ahead_op_jump_if_false(was: HeapView, h: HeapView, u: UnitFrame, target: u32)
    requires
        ahead(was, h),
    ensures
        #[trigger] ahead(was, h.op_jump_if_false(u, target).0),
{
    broadcast use {ahead_fail_shown, ahead_pop_value};
}

pub broadcast proof fn ahead_coerce_concat(was: HeapView, h: HeapView, v: Value)
    requires
        ahead(was, h),
    ensures
        #[trigger] ahead(was, h.coerce_concat(v).0),
{
    broadcast use ahead_fail;
}

pub broadcast proof fn ahead_add_text(was: HeapView, h: HeapView, u: UnitFrame, l: Value, r: Value)
    requires
        ahead(was, h),
    ensures
        #[trigger] ahead(was, h.add_text(u, l, r).0),
{
    broadcast use {ahead_coerce_concat, ahead_path_value, ahead_push_value, ahead_str_value};
}

pub broadcast proof fn ahead_want_num(was: HeapView, h: HeapView, v: Value)
    requires
        ahead(was, h),
    ensures
        #[trigger] ahead(was, h.want_num(v).0),
{
    broadcast use ahead_fail;
}

pub broadcast proof fn ahead_add_numbers(
    was: HeapView,
    h: HeapView,
    u: UnitFrame,
    op: Arith,
    l: Value,
    r: Value,
)
    requires
        ahead(was, h),
    ensures
        #[trigger] ahead(was, h.add_numbers(u, op, l, r).0),
{
    broadcast use {ahead_fail, ahead_push_value, ahead_want_num};
}

pub broadcast proof fn ahead_op_arith(was: HeapView, h: HeapView, u: UnitFrame, op: Arith)
    requires
        ahead(was, h),
    ensures
        #[trigger] ahead(was, h.op_arith(u, op).0),
{
    broadcast use {ahead_add_numbers, ahead_add_text, ahead_pop_value};
}

pub broadcast proof fn ahead_deep_eq_slots(
    was: HeapView,
    h: HeapView,
    l: Slot,
    r: Slot,
    negate: bool,
)
    requires
        ahead(was, h),
    ensures
        #[trigger] ahead(was, h.deep_eq_slots(l, r, negate).0),
{
    broadcast use ahead_new_work;
}

pub broadcast proof fn ahead_deep_eq(was: HeapView, h: HeapView, l: Value, r: Value, negate: bool)
    requires
        ahead(was, h),
    ensures
        #[trigger] ahead(was, h.deep_eq(l, r, negate).0),
{
    broadcast use {ahead_deep_eq_slots, ahead_value_slot};
}

pub broadcast proof fn ahead_op_eq(was: HeapView, h: HeapView, u: UnitFrame, negate: bool)
    requires
        ahead(was, h),
    ensures
        #[trigger] ahead(was, h.op_eq(u, negate).0),
{
    broadcast use {ahead_deep_eq, ahead_pop_value};
}

pub broadcast proof fn ahead_compare(
    was: HeapView,
    h: HeapView,
    l: Value,
    r: Value,
    negate: bool,
)
    requires
        ahead(was, h),
    ensures
        #[trigger] ahead(was, h.compare(l, r, negate).0),
{
    broadcast use {ahead_new_work, ahead_value_slot};
}

pub broadcast proof fn ahead_op_order(
    was: HeapView,
    h: HeapView,
    u: UnitFrame,
    swap: bool,
    negate: bool,
)
    requires
        ahead(was, h),
    ensures
        #[trigger] ahead(was, h.op_order(u, swap, negate).0),
{
    broadcast use {ahead_compare, ahead_pop_value};
}

pub broadcast proof fn ahead_op_not(was: HeapView, h: HeapView, u: UnitFrame)
    requires
        ahead(was, h),
    ensures
        #[trigger] ahead(was, h.op_not(u).0),
{
    broadcast use {ahead_fail_shown, ahead_pop_value, ahead_push_value};
}

pub broadcast proof fn ahead_op_negate(was: HeapView, h: HeapView, u: UnitFrame)
    requires
        ahead(was, h),
    ensures
        #[trigger] ahead(was, h.op_negate(u).0),
{
    broadcast use {ahead_fail, ahead_pop_value, ahead_push_value};
}

pub broadcast proof fn ahead_interpolated(
    was: HeapView,
    h: HeapView,
    parts: Seq<Value>,
    i: int,
    out: Seq<char>,
)
    requires
        ahead(was, h),
    ensures
        #[trigger] ahead(was, h.interpolated(parts, i, out).0),
    decreases parts.len() - i,
{
    if i < parts.len() {
        ahead_coerce_interpolated(was, h, parts[i]);
        let (g, t) = h.coerce_interpolated(parts[i]);
        if t is Ok {
            ahead_interpolated(was, g, parts, i + 1, out + g.text(t->Ok_0));
        }
    }
}

pub broadcast proof fn ahead_op_concat_strings(was: HeapView, h: HeapView, u: UnitFrame, n: u16)
    requires
        ahead(was, h),
    ensures
        #[trigger] ahead(was, h.op_concat_strings(u, n).0),
{
    broadcast use {ahead_const_value, ahead_interpolated, ahead_pop_values, ahead_push_value};
}

pub broadcast proof fn ahead_op_mk_list(was: HeapView, h: HeapView, u: UnitFrame, n: u16)
    requires
        ahead(was, h),
    ensures
        #[trigger] ahead(was, h.op_mk_list(u, n).0),
{
    broadcast use {ahead_list_value, ahead_pop_slots, ahead_push_value};
}

pub broadcast proof fn ahead_op_concat_lists(was: HeapView, h: HeapView, u: UnitFrame)
    requires
        ahead(was, h),
    ensures
        #[trigger] ahead(was, h.op_concat_lists(u).0),
{
    broadcast use {ahead_fail, ahead_list_value, ahead_pop_value, ahead_push_value};
}

pub broadcast proof fn ahead_set_from(
    was: HeapView,
    h: HeapView,
    pairs: Seq<(Value, Slot)>,
    i: int,
    out: Seq<(Sym, Slot)>,
)
    requires
        ahead(was, h),
    ensures
        #[trigger] ahead(was, h.set_from(pairs, i, out).0),
    decreases pairs.len() - i,
{
    broadcast use {ahead_fail, ahead_fail_shown};

    if i < pairs.len() {
        match pairs[i].0 {
            Value::Null => ahead_set_from(was, h, pairs, i + 1, out),
            Value::Str(t) => {
                ahead_intern(was, h, h.text(t));
                let (g, k) = h.intern(h.text(t));
                ahead_set_from(was, g, pairs, i + 1, bind(out, k, pairs[i].1));
            },
            _ => {},
        }
    }
}

pub broadcast proof fn ahead_op_mk_attrs(was: HeapView, h: HeapView, u: UnitFrame, n: u16)
    requires
        ahead(was, h),
    ensures
        #[trigger] ahead(was, h.op_mk_attrs(u, n).0),
{
    broadcast use {ahead_attrs_value, ahead_pop_pairs, ahead_push_value, ahead_set_from};
}

pub broadcast proof fn ahead_op_update(was: HeapView, h: HeapView, u: UnitFrame)
    requires
        ahead(was, h),
    ensures
        #[trigger] ahead(was, h.op_update(u).0),
{
    broadcast use {ahead_attrs_value, ahead_fail, ahead_pop_value, ahead_push_value};
}

pub broadcast proof fn ahead_select_strict(was: HeapView, h: HeapView, set: Value, k: Sym)
    requires
        ahead(was, h),
    ensures
        #[trigger] ahead(was, h.select_strict(set, k).0),
{
    broadcast use {ahead_fail, ahead_fail_shown};
}

pub broadcast proof fn ahead_attr_sym(was: HeapView, h: HeapView, name: Value)
    requires
        ahead(was, h),
    ensures
        #[trigger] ahead(was, h.attr_sym(name).0),
{
    broadcast use {ahead_fail_shown, ahead_intern};
}

pub broadcast proof fn ahead_op_select(was: HeapView, h: HeapView, u: UnitFrame, sym: u32)
    requires
        ahead(was, h),
    ensures
        #[trigger] ahead(was, h.op_select(u, sym).0),
{
    broadcast use {ahead_msym, ahead_pop_value, ahead_select_strict};
}

pub broadcast proof fn ahead_op_select_dyn(was: HeapView, h: HeapView, u: UnitFrame)
    requires
        ahead(was, h),
    ensures
        #[trigger] ahead(was, h.op_select_dyn(u).0),
{
    broadcast use {ahead_attr_sym, ahead_pop_value, ahead_select_strict};
}

pub broadcast proof fn ahead_select_soft(was: HeapView, h: HeapView, u: UnitFrame, k: Sym)
    requires
        ahead(was, h),
    ensures
        #[trigger] ahead(was, h.select_soft(u, k).0),
{
    broadcast use {ahead_fail, ahead_pop_item, ahead_push_item};
}

pub broadcast proof fn ahead_op_select_soft(was: HeapView, h: HeapView, u: UnitFrame, sym: u32)
    requires
        ahead(was, h),
    ensures
        #[trigger] ahead(was, h.op_select_soft(u, sym).0),
{
    broadcast use {ahead_msym, ahead_select_soft};
}

pub broadcast proof fn ahead_pop_name(was: HeapView, h: HeapView, u: UnitFrame)
    requires
        ahead(was, h),
    ensures
        #[trigger] ahead(was, h.pop_name(u).0),
{
    broadcast use {ahead_attr_sym, ahead_pop_value};
}

pub broadcast proof fn ahead_op_select_soft_dyn(was: HeapView, h: HeapView, u: UnitFrame)
    requires
        ahead(was, h),
    ensures
        #[trigger] ahead(was, h.op_select_soft_dyn(u).0),
{
    broadcast use {ahead_pop_name, ahead_select_soft};
}

pub broadcast proof fn ahead_op_or_default(was: HeapView, h: HeapView, u: UnitFrame)
    requires
        ahead(was, h),
    ensures
        #[trigger] ahead(was, h.op_or_default(u).0),
{
    broadcast use {ahead_pop_item, ahead_pop_slot, ahead_push_item};
}

pub broadcast proof fn ahead_has_attr(was: HeapView, h: HeapView, u: UnitFrame, k: Sym)
    requires
        ahead(was, h),
    ensures
        #[trigger] ahead(was, h.has_attr(u, k).0),
{
    broadcast use {ahead_pop_item, ahead_push_value};
}

pub broadcast proof fn ahead_op_has_attr(was: HeapView, h: HeapView, u: UnitFrame, sym: u32)
    requires
        ahead(was, h),
    ensures
        #[trigger] ahead(was, h.op_has_attr(u, sym).0),
{
    broadcast use {ahead_has_attr, ahead_msym};
}

pub broadcast proof fn ahead_op_has_attr_dyn(was: HeapView, h: HeapView, u: UnitFrame)
    requires
        ahead(was, h),
    ensures
        #[trigger] ahead(was, h.op_has_attr_dyn(u).0),
{
    broadcast use {ahead_has_attr, ahead_pop_name};
}

pub broadcast proof fn ahead_op_resolve_with(was: HeapView, h: HeapView, u: UnitFrame, sym: u32)
    requires
        ahead(was, h),
    ensures
        #[trigger] ahead(was, h.op_resolve_with(u, sym).0),
{
    broadcast use ahead_msym;
}

pub broadcast proof fn ahead_op_assert(was: HeapView, h: HeapView, u: UnitFrame)
    requires
        ahead(was, h),
    ensures
        #[trigger] ahead(was, h.op_assert(u).0),
{
    broadcast use {ahead_fail, ahead_new_text, ahead_pop_value};
}

pub broadcast proof fn ahead_mk_value(was: HeapView, h: HeapView, idx: u16)
    requires
        ahead(was, h),
    ensures
        #[trigger] ahead(was, h.mk_value(idx).0),
{
    broadcast use ahead_new_list;
}

pub broadcast proof fn ahead_member_slot(was: HeapView, h: HeapView, name: Seq<char>)
    requires
        ahead(was, h),
    ensures
        #[trigger] ahead(was, h.member_slot(name).0),
{
    broadcast use {ahead_mk_value, ahead_new_slot, ahead_new_text, ahead_value_slot};
}

pub broadcast proof fn ahead_add_member(
    was: HeapView,
    h: HeapView,
    name: Seq<char>,
    set: Seq<(Sym, Slot)>,
)
    requires
        ahead(was, h),
    ensures
        #[trigger] ahead(was, h.add_member(name, set).0),
{
    broadcast use {ahead_intern, ahead_member_slot};
}

pub broadcast proof fn ahead_add_extras(was: HeapView, h: HeapView, i: usize, set: Seq<(Sym, Slot)>)
    requires
        ahead(was, h),
    ensures
        #[trigger] ahead(was, h.add_extras(i, set).0),
    decreases EXTRA_MEMBERS - i,
{
    if i < EXTRA_MEMBERS {
        ahead_add_member(was, h, extra_member_text(i), set);
        let (g, more) = h.add_member(extra_member_text(i), set);
        ahead_add_extras(was, g, (i + 1) as usize, more);
    }
}

pub broadcast proof fn ahead_add_primops(
    was: HeapView,
    h: HeapView,
    i: usize,
    set: Seq<(Sym, Slot)>,
)
    requires
        ahead(was, h),
    ensures
        #[trigger] ahead(was, h.add_primops(i, set).0),
    decreases PRIMOPS - i,
{
    if i < PRIMOPS {
        ahead_add_member(was, h, bare(primop_text(i)), set);
        let (g, more) = h.add_member(bare(primop_text(i)), set);
        ahead_add_primops(was, g, (i + 1) as usize, more);
    }
}

pub broadcast proof fn ahead_add_value(
    was: HeapView,
    h: HeapView,
    name: Seq<char>,
    v: Value,
    set: Seq<(Sym, Slot)>,
)
    requires
        ahead(was, h),
    ensures
        #[trigger] ahead(was, h.add_value(name, v, set).0),
{
    broadcast use {ahead_intern, ahead_value_slot};
}

pub broadcast proof fn ahead_builtins_set(was: HeapView, h: HeapView)
    requires
        ahead(was, h),
    ensures
        #[trigger] ahead(was, h.builtins_set().0),
{
    broadcast use {ahead_add_extras, ahead_add_primops, ahead_add_value, ahead_attrs_value};
}

pub broadcast proof fn ahead_exec_op(was: HeapView, h: HeapView, u: UnitFrame)
    requires
        ahead(was, h),
    ensures
        #[trigger] ahead(was, h.exec_op(u).0),
{
    broadcast use {
        ahead_builtins_set,
        ahead_missing,
        ahead_mk_value,
        ahead_new_slot,
        ahead_op_apply,
        ahead_op_arith,
        ahead_op_assert,
        ahead_op_concat_lists,
        ahead_op_concat_strings,
        ahead_op_const,
        ahead_op_eq,
        ahead_op_has_attr,
        ahead_op_has_attr_dyn,
        ahead_op_jump_if_false,
        ahead_op_local,
        ahead_op_mk_attrs,
        ahead_op_mk_list,
        ahead_op_negate,
        ahead_op_not,
        ahead_op_or_default,
        ahead_op_order,
        ahead_op_pop_env,
        ahead_op_push_env,
        ahead_op_push_with,
        ahead_op_resolve_with,
        ahead_op_ret,
        ahead_op_select,
        ahead_op_select_dyn,
        ahead_op_select_soft,
        ahead_op_select_soft_dyn,
        ahead_op_unimplemented,
        ahead_op_update,
        ahead_push_item,
        ahead_push_value,
    };
}

pub broadcast proof fn ahead_bi_length(was: HeapView, h: HeapView, args: usize)
    requires
        ahead(was, h),
    ensures
        #[trigger] ahead(was, h.bi_length(args).0),
{
    broadcast use ahead_arg_list;
}

pub broadcast proof fn ahead_bi_head(was: HeapView, h: HeapView, args: usize)
    requires
        ahead(was, h),
    ensures
        #[trigger] ahead(was, h.bi_head(args).0),
{
    broadcast use {ahead_arg_list, ahead_fail};
}

pub broadcast proof fn ahead_bi_tail(was: HeapView, h: HeapView, args: usize)
    requires
        ahead(was, h),
    ensures
        #[trigger] ahead(was, h.bi_tail(args).0),
{
    broadcast use {ahead_arg_list, ahead_fail, ahead_list_value};
}

pub broadcast proof fn ahead_bi_elem_at(was: HeapView, h: HeapView, args: usize)
    requires
        ahead(was, h),
    ensures
        #[trigger] ahead(was, h.bi_elem_at(args).0),
{
    broadcast use {ahead_arg_int, ahead_arg_list, ahead_fail};
}

pub broadcast proof fn ahead_bi_elem(was: HeapView, h: HeapView, args: usize)
    requires
        ahead(was, h),
    ensures
        #[trigger] ahead(was, h.bi_elem(args).0),
{
    broadcast use {ahead_arg, ahead_arg_list};
}

pub broadcast proof fn ahead_map_pending(
    was: HeapView,
    h: HeapView,
    f: Value,
    items: Seq<usize>,
    i: int,
    out: Seq<usize>,
)
    requires
        ahead(was, h),
    ensures
        #[trigger] ahead(was, h.map_pending(f, items, i, out).0),
    decreases items.len() - i,
{
    if i < items.len() {
        ahead_pending_slot(was, h, f, seq![items[i]]);
        let (g, s) = h.pending_slot(f, seq![items[i]]);
        ahead_map_pending(was, g, f, items, i + 1, out.push(s));
    }
}

pub broadcast proof fn ahead_fun_and_list(was: HeapView, h: HeapView, args: usize)
    requires
        ahead(was, h),
    ensures
        #[trigger] ahead(was, h.fun_and_list(args).0),
{
    broadcast use {ahead_arg_list, ahead_argv};
}

pub broadcast proof fn ahead_bi_map(was: HeapView, h: HeapView, args: usize)
    requires
        ahead(was, h),
    ensures
        #[trigger] ahead(was, h.bi_map(args).0),
{
    broadcast use {ahead_fun_and_list, ahead_list_value, ahead_map_pending};
}

pub broadcast proof fn ahead_bi_filter(was: HeapView, h: HeapView, args: usize)
    requires
        ahead(was, h),
    ensures
        #[trigger] ahead(was, h.bi_filter(args).0),
{
    broadcast use {ahead_fun_and_list, ahead_new_list};
}

pub broadcast proof fn ahead_any_all(was: HeapView, h: HeapView, args: usize, want: bool)
    requires
        ahead(was, h),
    ensures
        #[trigger] ahead(was, h.any_all(args, want).0),
{
    broadcast use ahead_fun_and_list;
}

pub broadcast proof fn ahead_force_each(was: HeapView, h: HeapView, items: usize, finish: Finish)
    requires
        ahead(was, h),
    ensures
        #[trigger] ahead(was, h.force_each(items, finish).0),
{
    broadcast use ahead_new_work;
}

pub broadcast proof fn ahead_bi_concat_lists(was: HeapView, h: HeapView, args: usize)
    requires
        ahead(was, h),
    ensures
        #[trigger] ahead(was, h.bi_concat_lists(args).0),
{
    broadcast use {ahead_arg_list, ahead_force_each};
}

pub broadcast proof fn ahead_bi_concat_map(was: HeapView, h: HeapView, args: usize)
    requires
        ahead(was, h),
    ensures
        #[trigger] ahead(was, h.bi_concat_map(args).0),
{
    broadcast use {ahead_fun_and_list, ahead_new_list};
}

pub broadcast proof fn ahead_gen_pending(
    was: HeapView,
    h: HeapView,
    f: Value,
    n: int,
    i: int,
    out: Seq<usize>,
)
    requires
        ahead(was, h),
    ensures
        #[trigger] ahead(was, h.gen_pending(f, n, i, out).0),
    decreases n - i,
{
    if i < n {
        ahead_value_slot(was, h, Value::Int(i as i64));
        let (g, num) = h.value_slot(Value::Int(i as i64));
        ahead_pending_slot(was, g, f, seq![num]);
        let (k, s) = g.pending_slot(f, seq![num]);
        ahead_gen_pending(was, k, f, n, i + 1, out.push(s));
    }
}

pub broadcast proof fn ahead_bi_gen_list(was: HeapView, h: HeapView, args: usize)
    requires
        ahead(was, h),
    ensures
        #[trigger] ahead(was, h.bi_gen_list(args).0),
{
    broadcast use {ahead_arg_int, ahead_argv, ahead_fail, ahead_gen_pending, ahead_list_value};
}

pub broadcast proof fn ahead_bi_foldl_strict(was: HeapView, h: HeapView, args: usize)
    requires
        ahead(was, h),
    ensures
        #[trigger] ahead(was, h.bi_foldl_strict(args).0),
{
    broadcast use {ahead_arg, ahead_arg_list, ahead_argv};
}

pub broadcast proof fn ahead_bi_sort(was: HeapView, h: HeapView, args: usize)
    requires
        ahead(was, h),
    ensures
        #[trigger] ahead(was, h.bi_sort(args).0),
{
    broadcast use {ahead_fun_and_list, ahead_new_list};
}

pub broadcast proof fn ahead_bi_partition(was: HeapView, h: HeapView, args: usize)
    requires
        ahead(was, h),
    ensures
        #[trigger] ahead(was, h.bi_partition(args).0),
{
    broadcast use {ahead_fun_and_list, ahead_new_list};
}

pub broadcast proof fn ahead_bi_group_by(was: HeapView, h: HeapView, args: usize)
    requires
        ahead(was, h),
    ensures
        #[trigger] ahead(was, h.bi_group_by(args).0),
{
    broadcast use {ahead_fun_and_list, ahead_new_set};
}

pub broadcast proof fn ahead_bi_type_of(was: HeapView, h: HeapView, args: usize)
    requires
        ahead(was, h),
    ensures
        #[trigger] ahead(was, h.bi_type_of(args).0),
{
    broadcast use {ahead_argv, ahead_str_value};
}

pub broadcast proof fn ahead_bi_is(was: HeapView, h: HeapView, args: usize, t: Test)
    requires
        ahead(was, h),
    ensures
        #[trigger] ahead(was, h.bi_is(args, t).0),
{
    broadcast use ahead_argv;
}

pub broadcast proof fn ahead_num_op(was: HeapView, h: HeapView, args: usize, op: Arith)
    requires
        ahead(was, h),
    ensures
        #[trigger] ahead(was, h.num_op(args, op).0),
{
    broadcast use {ahead_argv, ahead_fail, ahead_want_num};
}

pub broadcast proof fn ahead_bi_less_than(was: HeapView, h: HeapView, args: usize)
    requires
        ahead(was, h),
    ensures
        #[trigger] ahead(was, h.bi_less_than(args).0),
{
    broadcast use {ahead_argv, ahead_compare};
}

pub broadcast proof fn ahead_bit_op(was: HeapView, h: HeapView, args: usize, op: Bits)
    requires
        ahead(was, h),
    ensures
        #[trigger] ahead(was, h.bit_op(args, op).0),
{
    broadcast use ahead_arg_int;
}

pub broadcast proof fn ahead_bi_round(was: HeapView, h: HeapView, args: usize, up: bool)
    requires
        ahead(was, h),
    ensures
        #[trigger] ahead(was, h.bi_round(args, up).0),
{
    broadcast use {ahead_argv, ahead_want_num};
}

pub broadcast proof fn ahead_bi_throw(was: HeapView, h: HeapView, args: usize)
    requires
        ahead(was, h),
    ensures
        #[trigger] ahead(was, h.bi_throw(args).0),
{
    broadcast use ahead_arg_str;
}

pub broadcast proof fn ahead_bi_abort(was: HeapView, h: HeapView, args: usize)
    requires
        ahead(was, h),
    ensures
        #[trigger] ahead(was, h.bi_abort(args).0),
{
    broadcast use {ahead_arg_str, ahead_fail};
}

pub broadcast proof fn ahead_coerce_scalar(was: HeapView, h: HeapView, v: Value)
    requires
        ahead(was, h),
    ensures
        #[trigger] ahead(was, h.coerce_scalar(v).0),
{
    broadcast use ahead_fail;
}

pub broadcast proof fn ahead_coerce_task(was: HeapView, h: HeapView, s: Slot)
    requires
        ahead(was, h),
    ensures
        #[trigger] ahead(was, h.coerce_task(s).0),
{
    broadcast use {ahead_new_text, ahead_new_work};
}

pub broadcast proof fn ahead_bi_to_string(was: HeapView, h: HeapView, args: usize)
    requires
        ahead(was, h),
    ensures
        #[trigger] ahead(was, h.bi_to_string(args).0),
{
    broadcast use {ahead_arg, ahead_argv, ahead_coerce_scalar, ahead_coerce_task, ahead_str_value};
}

pub broadcast proof fn ahead_bi_base_name_of(was: HeapView, h: HeapView, args: usize)
    requires
        ahead(was, h),
    ensures
        #[trigger] ahead(was, h.bi_base_name_of(args).0),
{
    broadcast use {ahead_argv, ahead_fail, ahead_str_value};
}

pub broadcast proof fn ahead_bi_dir_of(was: HeapView, h: HeapView, args: usize)
    requires
        ahead(was, h),
    ensures
        #[trigger] ahead(was, h.bi_dir_of(args).0),
{
    broadcast use {ahead_argv, ahead_fail, ahead_path_value, ahead_str_value};
}

pub broadcast proof fn ahead_name_slots(
    was: HeapView,
    h: HeapView,
    entries: Seq<(Sym, Slot)>,
    i: int,
    out: Seq<usize>,
)
    requires
        ahead(was, h),
    ensures
        #[trigger] ahead(was, h.name_slots(entries, i, out).0),
    decreases entries.len() - i,
{
    if i < entries.len() {
        ahead_str_slot(was, h, h.sym_name(entries[i].0));
        let (g, s) = h.str_slot(h.sym_name(entries[i].0));
        ahead_name_slots(was, g, entries, i + 1, out.push(s));
    }
}

pub broadcast proof fn ahead_bi_attr_names(was: HeapView, h: HeapView, args: usize)
    requires
        ahead(was, h),
    ensures
        #[trigger] ahead(was, h.bi_attr_names(args).0),
{
    broadcast use {ahead_arg_attrs, ahead_list_value, ahead_name_slots};
}

pub broadcast proof fn ahead_bi_attr_values(was: HeapView, h: HeapView, args: usize)
    requires
        ahead(was, h),
    ensures
        #[trigger] ahead(was, h.bi_attr_values(args).0),
{
    broadcast use {ahead_arg_attrs, ahead_list_value};
}

pub broadcast proof fn ahead_name_and_set(was: HeapView, h: HeapView, args: usize)
    requires
        ahead(was, h),
    ensures
        #[trigger] ahead(was, h.name_and_set(args).0),
{
    broadcast use {ahead_arg_attrs, ahead_arg_str};
}

pub broadcast proof fn ahead_bi_get_attr(was: HeapView, h: HeapView, args: usize)
    requires
        ahead(was, h),
    ensures
        #[trigger] ahead(was, h.bi_get_attr(args).0),
{
    broadcast use {ahead_fail, ahead_intern, ahead_name_and_set};
}

pub broadcast proof fn ahead_bi_has_attr(was: HeapView, h: HeapView, args: usize)
    requires
        ahead(was, h),
    ensures
        #[trigger] ahead(was, h.bi_has_attr(args).0),
{
    broadcast use {ahead_intern, ahead_name_and_set};
}

pub broadcast proof fn ahead_bi_remove_attrs(was: HeapView, h: HeapView, args: usize)
    requires
        ahead(was, h),
    ensures
        #[trigger] ahead(was, h.bi_remove_attrs(args).0),
{
    broadcast use {ahead_arg_attrs, ahead_arg_list, ahead_force_each};
}

pub broadcast proof fn ahead_bi_intersect_attrs(was: HeapView, h: HeapView, args: usize)
    requires
        ahead(was, h),
    ensures
        #[trigger] ahead(was, h.bi_intersect_attrs(args).0),
{
    broadcast use {ahead_arg_attrs, ahead_attrs_value};
}

pub broadcast proof fn ahead_str_then_each(was: HeapView, h: HeapView, args: usize, finish: Finish)
    requires
        ahead(was, h),
    ensures
        #[trigger] ahead(was, h.str_then_each(args, finish).0),
{
    broadcast use {ahead_arg_list, ahead_arg_str, ahead_force_each};
}

pub broadcast proof fn ahead_bi_list_to_attrs(was: HeapView, h: HeapView, args: usize)
    requires
        ahead(was, h),
    ensures
        #[trigger] ahead(was, h.bi_list_to_attrs(args).0),
{
    broadcast use {ahead_arg_list, ahead_intern, ahead_new_set};
}

pub broadcast proof fn ahead_map_entries(
    was: HeapView,
    h: HeapView,
    f: Value,
    m: Seq<(Sym, Slot)>,
    i: int,
    out: Seq<(Sym, Slot)>,
)
    requires
        ahead(was, h),
    ensures
        #[trigger] ahead(was, h.map_entries(f, m, i, out).0),
    decreases m.len() - i,
{
    if i < m.len() {
        ahead_str_slot(was, h, h.sym_name(m[i].0));
        let (g, name) = h.str_slot(h.sym_name(m[i].0));
        ahead_pending_slot(was, g, f, seq![name, m[i].1]);
        let (k, s) = g.pending_slot(f, seq![name, m[i].1]);
        ahead_map_entries(was, k, f, m, i + 1, out.push((m[i].0, s)));
    }
}

pub broadcast proof fn ahead_bi_map_attrs(was: HeapView, h: HeapView, args: usize)
    requires
        ahead(was, h),
    ensures
        #[trigger] ahead(was, h.bi_map_attrs(args).0),
{
    broadcast use {ahead_arg_attrs, ahead_argv, ahead_attrs_value, ahead_map_entries};
}

pub broadcast proof fn ahead_bi_string_length(was: HeapView, h: HeapView, args: usize)
    requires
        ahead(was, h),
    ensures
        #[trigger] ahead(was, h.bi_string_length(args).0),
{
    broadcast use ahead_arg_str;
}

pub broadcast proof fn ahead_bi_substring(was: HeapView, h: HeapView, args: usize)
    requires
        ahead(was, h),
    ensures
        #[trigger] ahead(was, h.bi_substring(args).0),
{
    broadcast use {ahead_arg_int, ahead_arg_str, ahead_fail, ahead_str_value};
}

pub broadcast proof fn ahead_bi_replace_strings(was: HeapView, h: HeapView, args: usize)
    requires
        ahead(was, h),
    ensures
        #[trigger] ahead(was, h.bi_replace_strings(args).0),
{
    broadcast use {ahead_arg_list, ahead_arg_str, ahead_fail, ahead_new_list, ahead_new_work};
}

pub broadcast proof fn ahead_text_slots(
    was: HeapView,
    h: HeapView,
    parts: Seq<Seq<char>>,
    i: int,
    out: Seq<usize>,
)
    requires
        ahead(was, h),
    ensures
        #[trigger] ahead(was, h.text_slots(parts, i, out).0),
    decreases parts.len() - i,
{
    if i < parts.len() {
        ahead_str_slot(was, h, parts[i]);
        let (g, s) = h.str_slot(parts[i]);
        ahead_text_slots(was, g, parts, i + 1, out.push(s));
    }
}

pub broadcast proof fn ahead_bi_split_version(was: HeapView, h: HeapView, args: usize)
    requires
        ahead(was, h),
    ensures
        #[trigger] ahead(was, h.bi_split_version(args).0),
{
    broadcast use {ahead_arg_str, ahead_list_value, ahead_text_slots};
}

pub broadcast proof fn ahead_bi_compare_versions(was: HeapView, h: HeapView, args: usize)
    requires
        ahead(was, h),
    ensures
        #[trigger] ahead(was, h.bi_compare_versions(args).0),
{
    broadcast use ahead_arg_str;
}

pub broadcast proof fn ahead_bi_seq(was: HeapView, h: HeapView, args: usize)
    requires
        ahead(was, h),
    ensures
        #[trigger] ahead(was, h.bi_seq(args).0),
{
    broadcast use ahead_argv;
}

pub broadcast proof fn ahead_bi_deep_seq(was: HeapView, h: HeapView, args: usize)
    requires
        ahead(was, h),
    ensures
        #[trigger] ahead(was, h.bi_deep_seq(args).0),
{
    broadcast use {ahead_arg, ahead_new_list};
}

pub broadcast proof fn ahead_arg_path(was: HeapView, h: HeapView, args: usize)
    requires
        ahead(was, h),
    ensures
        #[trigger] ahead(was, h.arg_path(args).0),
{
    broadcast use {ahead_argv, ahead_fail};
}

pub broadcast proof fn ahead_ask_path(
    was: HeapView,
    h: HeapView,
    args: usize,
    mk: spec_fn(usize) -> Need,
)
    requires
        ahead(was, h),
    ensures
        #[trigger] ahead(was, h.ask_path(args, mk).0),
{
    broadcast use ahead_arg_path;
}

pub broadcast proof fn ahead_ask_str(
    was: HeapView,
    h: HeapView,
    args: usize,
    mk: spec_fn(usize) -> Need,
)
    requires
        ahead(was, h),
    ensures
        #[trigger] ahead(was, h.ask_str(args, mk).0),
{
    broadcast use ahead_arg_str;
}

pub broadcast proof fn ahead_field_flags(
    was: HeapView,
    h: HeapView,
    module: usize,
    fields: Seq<(u32, Option<u32>)>,
    i: int,
    out: Seq<(Sym, Slot)>,
)
    requires
        ahead(was, h),
    ensures
        #[trigger] ahead(was, h.field_flags(module, fields, i, out).0),
    decreases fields.len() - i,
{
    if i < fields.len() {
        ahead_intern(was, h, h.field_name(module, fields[i].0));
        let (g, k) = h.intern(h.field_name(module, fields[i].0));
        ahead_value_slot(was, g, Value::Bool(fields[i].1 is Some));
        let (v, s) = g.value_slot(Value::Bool(fields[i].1 is Some));
        ahead_field_flags(was, v, module, fields, i + 1, bind(out, k, s));
    }
}

pub broadcast proof fn ahead_bi_function_args(was: HeapView, h: HeapView, args: usize)
    requires
        ahead(was, h),
    ensures
        #[trigger] ahead(was, h.bi_function_args(args).0),
{
    broadcast use {ahead_argv, ahead_attrs_value, ahead_fail, ahead_field_flags};
}

pub broadcast proof fn ahead_bi_zip_attrs_with(was: HeapView, h: HeapView, args: usize)
    requires
        ahead(was, h),
    ensures
        #[trigger] ahead(was, h.bi_zip_attrs_with(args).0),
{
    broadcast use {ahead_arg_list, ahead_argv, ahead_fail, ahead_force_each};
}

pub broadcast proof fn ahead_bi_any(was: HeapView, h: HeapView, args: usize)
    requires
        ahead(was, h),
    ensures
        #[trigger] ahead(was, h.bi_any(args).0),
{
    broadcast use ahead_any_all;
}

pub broadcast proof fn ahead_bi_all(was: HeapView, h: HeapView, args: usize)
    requires
        ahead(was, h),
    ensures
        #[trigger] ahead(was, h.bi_all(args).0),
{
    broadcast use ahead_any_all;
}

pub broadcast proof fn ahead_bi_cat_attrs(was: HeapView, h: HeapView, args: usize)
    requires
        ahead(was, h),
    ensures
        #[trigger] ahead(was, h.bi_cat_attrs(args).0),
{
    broadcast use ahead_str_then_each;
}

pub broadcast proof fn ahead_bi_concat_strings_sep(was: HeapView, h: HeapView, args: usize)
    requires
        ahead(was, h),
    ensures
        #[trigger] ahead(was, h.bi_concat_strings_sep(args).0),
{
    broadcast use ahead_str_then_each;
}

pub broadcast proof fn ahead_bi_add(was: HeapView, h: HeapView, args: usize)
    requires
        ahead(was, h),
    ensures
        #[trigger] ahead(was, h.bi_add(args).0),
{
    broadcast use ahead_num_op;
}

pub broadcast proof fn ahead_bi_sub(was: HeapView, h: HeapView, args: usize)
    requires
        ahead(was, h),
    ensures
        #[trigger] ahead(was, h.bi_sub(args).0),
{
    broadcast use ahead_num_op;
}

pub broadcast proof fn ahead_bi_mul(was: HeapView, h: HeapView, args: usize)
    requires
        ahead(was, h),
    ensures
        #[trigger] ahead(was, h.bi_mul(args).0),
{
    broadcast use ahead_num_op;
}

pub broadcast proof fn ahead_bi_div(was: HeapView, h: HeapView, args: usize)
    requires
        ahead(was, h),
    ensures
        #[trigger] ahead(was, h.bi_div(args).0),
{
    broadcast use ahead_num_op;
}

pub broadcast proof fn ahead_bi_bit_and(was: HeapView, h: HeapView, args: usize)
    requires
        ahead(was, h),
    ensures
        #[trigger] ahead(was, h.bi_bit_and(args).0),
{
    broadcast use ahead_bit_op;
}

pub broadcast proof fn ahead_bi_bit_or(was: HeapView, h: HeapView, args: usize)
    requires
        ahead(was, h),
    ensures
        #[trigger] ahead(was, h.bi_bit_or(args).0),
{
    broadcast use ahead_bit_op;
}

pub broadcast proof fn ahead_bi_bit_xor(was: HeapView, h: HeapView, args: usize)
    requires
        ahead(was, h),
    ensures
        #[trigger] ahead(was, h.bi_bit_xor(args).0),
{
    broadcast use ahead_bit_op;
}

pub broadcast proof fn ahead_bi_floor(was: HeapView, h: HeapView, args: usize)
    requires
        ahead(was, h),
    ensures
        #[trigger] ahead(was, h.bi_floor(args).0),
{
    broadcast use ahead_bi_round;
}

pub broadcast proof fn ahead_bi_ceil(was: HeapView, h: HeapView, args: usize)
    requires
        ahead(was, h),
    ensures
        #[trigger] ahead(was, h.bi_ceil(args).0),
{
    broadcast use ahead_bi_round;
}

pub broadcast proof fn ahead_bi_try_eval(was: HeapView, h: HeapView, args: usize)
    requires
        ahead(was, h),
    ensures
        #[trigger] ahead(was, h.bi_try_eval(args).0),
{
}

pub broadcast proof fn ahead_bi_import(was: HeapView, h: HeapView, args: usize)
    requires
        ahead(was, h),
    ensures
        #[trigger] ahead(was, h.bi_import(args).0),
{
}

pub broadcast proof fn ahead_bi_read_file(was: HeapView, h: HeapView, args: usize)
    requires
        ahead(was, h),
    ensures
        #[trigger] ahead(was, h.bi_read_file(args).0),
{
    broadcast use ahead_ask_path;
}

pub broadcast proof fn ahead_bi_path_exists(was: HeapView, h: HeapView, args: usize)
    requires
        ahead(was, h),
    ensures
        #[trigger] ahead(was, h.bi_path_exists(args).0),
{
    broadcast use ahead_ask_path;
}

pub broadcast proof fn ahead_bi_read_dir(was: HeapView, h: HeapView, args: usize)
    requires
        ahead(was, h),
    ensures
        #[trigger] ahead(was, h.bi_read_dir(args).0),
{
    broadcast use ahead_ask_path;
}

pub broadcast proof fn ahead_bi_read_file_type(was: HeapView, h: HeapView, args: usize)
    requires
        ahead(was, h),
    ensures
        #[trigger] ahead(was, h.bi_read_file_type(args).0),
{
    broadcast use ahead_ask_path;
}

pub broadcast proof fn ahead_bi_get_env(was: HeapView, h: HeapView, args: usize)
    requires
        ahead(was, h),
    ensures
        #[trigger] ahead(was, h.bi_get_env(args).0),
{
    broadcast use ahead_ask_str;
}

pub broadcast proof fn ahead_bi_from_json(was: HeapView, h: HeapView, args: usize)
    requires
        ahead(was, h),
    ensures
        #[trigger] ahead(was, h.bi_from_json(args).0),
{
    broadcast use ahead_ask_str;
}

pub broadcast proof fn ahead_bi_from_toml(was: HeapView, h: HeapView, args: usize)
    requires
        ahead(was, h),
    ensures
        #[trigger] ahead(was, h.bi_from_toml(args).0),
{
    broadcast use ahead_ask_str;
}

pub broadcast proof fn ahead_bi_generic_closure(was: HeapView, h: HeapView, args: usize)
    requires
        ahead(was, h),
    ensures
        #[trigger] ahead(was, h.bi_generic_closure(args).0),
{
    broadcast use {ahead_arg_attrs, ahead_attr, ahead_fail, ahead_new_list, ahead_new_work};
}

pub broadcast proof fn ahead_bi_hash_string(was: HeapView, h: HeapView, args: usize)
    requires
        ahead(was, h),
    ensures
        #[trigger] ahead(was, h.bi_hash_string(args).0),
{
    broadcast use {ahead_arg_str, ahead_fail, ahead_str_value};
}

pub broadcast proof fn ahead_group_slots_from(
    was: HeapView,
    h: HeapView,
    groups: Seq<Option<Seq<char>>>,
    i: int,
    out: Seq<usize>,
)
    requires
        ahead(was, h),
    ensures
        #[trigger] ahead(was, h.group_slots_from(groups, i, out).0),
    decreases groups.len() - i,
{
    broadcast use {ahead_str_slot, ahead_value_slot};

    if i < groups.len() {
        let (g, s) = match groups[i] {
            Some(t) => h.str_slot(t),
            None => h.value_slot(Value::Null),
        };
        ahead_group_slots_from(was, g, groups, i + 1, out.push(s));
    }
}

pub broadcast proof fn ahead_group_list(was: HeapView, h: HeapView, groups: Seq<Option<Seq<char>>>)
    requires
        ahead(was, h),
    ensures
        #[trigger] ahead(was, h.group_list(groups).0),
{
    broadcast use {ahead_group_slots_from, ahead_list_value};
}

pub broadcast proof fn ahead_matched(
    was: HeapView,
    h: HeapView,
    re: Seq<char>,
    found: Option<Option<Seq<Option<Seq<char>>>>>,
)
    requires
        ahead(was, h),
    ensures
        #[trigger] ahead(was, h.matched(re, found).0),
{
    broadcast use {ahead_fail, ahead_group_list};
}

pub broadcast proof fn ahead_bi_match(was: HeapView, h: HeapView, args: usize)
    requires
        ahead(was, h),
    ensures
        #[trigger] ahead(was, h.bi_match(args).0),
{
    broadcast use {ahead_arg_str, ahead_matched};
}

pub broadcast proof fn ahead_split_from(
    was: HeapView,
    h: HeapView,
    s: Seq<char>,
    found: Seq<(Option<(usize, usize)>, Seq<Option<Seq<char>>>)>,
    i: int,
    last: int,
    out: Seq<usize>,
)
    requires
        ahead(was, h),
    ensures
        #[trigger] ahead(was, h.split_from(s, found, i, last, out).0),
    decreases found.len() - i,
{
    broadcast use {ahead_fail, ahead_str_slot, ahead_group_list, ahead_value_slot};

    if i < found.len() {
        match found[i].0 {
            None => ahead_split_from(was, h, s, found, i + 1, last, out),
            Some((start, end)) => match byte_cut(s, last, start as int) {
                None => {},
                Some(prefix) => {
                    let (g, p) = h.str_slot(prefix);
                    let (k, l) = g.group_list(found[i].1);
                    let (w, gs) = k.value_slot(l);
                    ahead_split_from(was, w, s, found, i + 1, end as int, out.push(p).push(gs));
                },
            },
        }
    }
}

pub broadcast proof fn ahead_split_up(
    was: HeapView,
    h: HeapView,
    re: Seq<char>,
    s: Seq<char>,
    found: Option<Seq<(Option<(usize, usize)>, Seq<Option<Seq<char>>>)>>,
)
    requires
        ahead(was, h),
    ensures
        #[trigger] ahead(was, h.split_up(re, s, found).0),
{
    broadcast use {ahead_fail, ahead_list_value, ahead_split_from, ahead_str_slot};
}

pub broadcast proof fn ahead_bi_split(was: HeapView, h: HeapView, args: usize)
    requires
        ahead(was, h),
    ensures
        #[trigger] ahead(was, h.bi_split(args).0),
{
    broadcast use {ahead_arg_str, ahead_split_up};
}

pub broadcast proof fn ahead_bi_to_json(was: HeapView, h: HeapView, args: usize)
    requires
        ahead(was, h),
    ensures
        #[trigger] ahead(was, h.bi_to_json(args).0),
{
    broadcast use {ahead_arg, ahead_new_text, ahead_new_work};
}

pub broadcast proof fn ahead_run(was: HeapView, h: HeapView, idx: u16, args: usize)
    requires
        ahead(was, h),
    ensures
        #[trigger] ahead(was, h.run(idx, args).0),
{
    broadcast use {
        ahead_bi_abort,
        ahead_bi_add,
        ahead_bi_all,
        ahead_bi_any,
        ahead_bi_attr_names,
        ahead_bi_attr_values,
        ahead_bi_base_name_of,
        ahead_bi_bit_and,
        ahead_bi_bit_or,
        ahead_bi_bit_xor,
        ahead_bi_cat_attrs,
        ahead_bi_ceil,
        ahead_bi_compare_versions,
        ahead_bi_concat_lists,
        ahead_bi_concat_map,
        ahead_bi_concat_strings_sep,
        ahead_bi_deep_seq,
        ahead_bi_dir_of,
        ahead_bi_div,
        ahead_bi_elem,
        ahead_bi_elem_at,
        ahead_bi_filter,
        ahead_bi_floor,
        ahead_bi_foldl_strict,
        ahead_bi_from_json,
        ahead_bi_from_toml,
        ahead_bi_function_args,
        ahead_bi_gen_list,
        ahead_bi_generic_closure,
        ahead_bi_get_attr,
        ahead_bi_get_env,
        ahead_bi_group_by,
        ahead_bi_has_attr,
        ahead_bi_hash_string,
        ahead_bi_head,
        ahead_bi_import,
        ahead_bi_intersect_attrs,
        ahead_bi_is,
        ahead_bi_length,
        ahead_bi_less_than,
        ahead_bi_list_to_attrs,
        ahead_bi_map,
        ahead_bi_map_attrs,
        ahead_bi_match,
        ahead_bi_mul,
        ahead_bi_partition,
        ahead_bi_path_exists,
        ahead_bi_read_dir,
        ahead_bi_read_file,
        ahead_bi_read_file_type,
        ahead_bi_remove_attrs,
        ahead_bi_replace_strings,
        ahead_bi_seq,
        ahead_bi_sort,
        ahead_bi_split,
        ahead_bi_split_version,
        ahead_bi_string_length,
        ahead_bi_sub,
        ahead_bi_substring,
        ahead_bi_tail,
        ahead_bi_throw,
        ahead_bi_to_json,
        ahead_bi_to_string,
        ahead_bi_try_eval,
        ahead_bi_type_of,
        ahead_bi_zip_attrs_with,
        ahead_fail,
    };
}

pub broadcast proof fn ahead_apply_next(
    was: HeapView,
    h: HeapView,
    c: Cont,
    f: Value,
    items: usize,
    i: usize,
    done: Value,
)
    requires
        ahead(was, h),
    ensures
        #[trigger] ahead(was, h.apply_next(c, f, items, i, done).0),
{
}

pub broadcast proof fn ahead_step_any_all(
    was: HeapView,
    h: HeapView,
    f: Value,
    items: usize,
    i: usize,
    want: bool,
    incoming: Option<Value>,
)
    requires
        ahead(was, h),
    ensures
        #[trigger] ahead(was, h.step_any_all(f, items, i, want, incoming).0),
{
    broadcast use {ahead_apply_next, ahead_want_bool};
}

pub broadcast proof fn ahead_stop(was: HeapView, h: HeapView, c: Cont, msg: Seq<char>)
    requires
        ahead(was, h),
    ensures
        #[trigger] ahead(was, h.stop(c, msg).0),
{
    broadcast use ahead_fail;
}

pub broadcast proof fn ahead_hand_back(
    was: HeapView,
    h: HeapView,
    c: Cont,
    incoming: Option<Value>,
    lost: Seq<char>,
)
    requires
        ahead(was, h),
    ensures
        #[trigger] ahead(was, h.hand_back(c, incoming, lost).0),
{
    broadcast use ahead_stop;
}

pub broadcast proof fn ahead_step_ask(
    was: HeapView,
    h: HeapView,
    asked: bool,
    need: Need,
    incoming: Option<Value>,
)
    requires
        ahead(was, h),
    ensures
        #[trigger] ahead(was, h.step_ask(asked, need, incoming).0),
{
    broadcast use ahead_hand_back;
}

pub broadcast proof fn ahead_step_concat_map(
    was: HeapView,
    h: HeapView,
    f: Value,
    items: usize,
    i: usize,
    out: usize,
    incoming: Option<Value>,
)
    requires
        ahead(was, h),
    ensures
        #[trigger] ahead(was, h.step_concat_map(f, items, i, out, incoming).0),
{
    broadcast use {ahead_apply_next, ahead_list_put, ahead_want_list};
}

pub broadcast proof fn ahead_mark(was: HeapView, h: HeapView, seen: usize, s: Slot)
    requires
        ahead(was, h),
    ensures
        #[trigger] ahead(was, h.mark(seen, s)),
{
    broadcast use ahead_list_put;
}

pub broadcast proof fn ahead_deep_next(
    was: HeapView,
    h: HeapView,
    work: usize,
    seen: usize,
    args: usize,
)
    requires
        ahead(was, h),
    ensures
        #[trigger] ahead(was, h.deep_next(work, seen, args).0),
    decreases h.list(work).len(),
{
    broadcast use {ahead_arg, ahead_mark};

    let w = h.list(work);
    if w.len() > 0 {
        ahead_list_put(was, h, work, w.drop_last());
        let g = h.list_put(work, w.drop_last());
        if is_marked(g.list(seen), w.last()) {
            ahead_deep_next(was, g, work, seen, args);
        }
    }
}

pub broadcast proof fn ahead_step_deep_seq(
    was: HeapView,
    h: HeapView,
    work: usize,
    seen: usize,
    tail: bool,
    args: usize,
    incoming: Option<Value>,
)
    requires
        ahead(was, h),
    ensures
        #[trigger] ahead(was, h.step_deep_seq(work, seen, tail, args, incoming).0),
{
    broadcast use {ahead_deep_next, ahead_hand_back, ahead_list_put};
}

pub broadcast proof fn ahead_step_elem(
    was: HeapView,
    h: HeapView,
    x: Slot,
    items: usize,
    i: usize,
    incoming: Option<Value>,
)
    requires
        ahead(was, h),
    ensures
        #[trigger] ahead(was, h.step_elem(x, items, i, incoming).0),
{
    broadcast use ahead_deep_eq_slots;
}

pub broadcast proof fn ahead_push_list(was: HeapView, h: HeapView, id: usize, x: usize)
    requires
        ahead(was, h),
    ensures
        #[trigger] ahead(was, h.push_list(id, x)),
{
    broadcast use ahead_list_put;
}

pub broadcast proof fn ahead_step_filter(
    was: HeapView,
    h: HeapView,
    f: Value,
    items: usize,
    i: usize,
    out: usize,
    incoming: Option<Value>,
)
    requires
        ahead(was, h),
    ensures
        #[trigger] ahead(was, h.step_filter(f, items, i, out, incoming).0),
{
    broadcast use {ahead_apply_next, ahead_nth, ahead_push_list, ahead_want_bool};
}

pub broadcast proof fn ahead_fold_next(
    was: HeapView,
    h: HeapView,
    f: Value,
    items: usize,
    i: usize,
    acc: Slot,
)
    requires
        ahead(was, h),
    ensures
        #[trigger] ahead(was, h.fold_next(f, items, i, acc).0),
{
}

pub broadcast proof fn ahead_step_foldl(
    was: HeapView,
    h: HeapView,
    f: Value,
    items: usize,
    i: usize,
    acc: Slot,
    half: bool,
    finishing: bool,
    incoming: Option<Value>,
)
    requires
        ahead(was, h),
    ensures
        #[trigger] ahead(was, h.step_foldl(f, items, i, acc, half, finishing, incoming).0),
{
    broadcast use {ahead_fold_next, ahead_hand_back, ahead_nth, ahead_value_slot};
}

pub broadcast proof fn ahead_cat_from(
    was: HeapView,
    h: HeapView,
    vals: Seq<Item>,
    k: Sym,
    i: int,
    out: Seq<usize>,
)
    requires
        ahead(was, h),
    ensures
        #[trigger] ahead(was, h.cat_from(vals, k, i, out).0),
    decreases vals.len() - i,
{
    if i < vals.len() {
        ahead_want_attrs(was, h, item_value(vals[i]));
        let (g, m) = h.want_attrs(item_value(vals[i]));
        if m is Ok {
            let more = match lookup(g.set(m->Ok_0), k) {
                Some(s) => out.push(s),
                None => out,
            };
            ahead_cat_from(was, g, vals, k, i + 1, more);
        }
    }
}

pub broadcast proof fn ahead_concat_from(
    was: HeapView,
    h: HeapView,
    vals: Seq<Item>,
    i: int,
    out: Seq<usize>,
)
    requires
        ahead(was, h),
    ensures
        #[trigger] ahead(was, h.concat_from(vals, i, out).0),
    decreases vals.len() - i,
{
    if i < vals.len() {
        ahead_want_list(was, h, item_value(vals[i]));
        let (g, l) = h.want_list(item_value(vals[i]));
        if l is Ok {
            ahead_concat_from(was, g, vals, i + 1, out + g.list(l->Ok_0));
        }
    }
}

pub broadcast proof fn ahead_remove_from(
    was: HeapView,
    h: HeapView,
    vals: Seq<Item>,
    i: int,
    out: Seq<(Sym, Slot)>,
)
    requires
        ahead(was, h),
    ensures
        #[trigger] ahead(was, h.remove_from(vals, i, out).0),
    decreases vals.len() - i,
{
    if i < vals.len() {
        ahead_want_str(was, h, item_value(vals[i]));
        let (g, t) = h.want_str(item_value(vals[i]));
        if t is Ok {
            ahead_intern(was, g, g.text(t->Ok_0));
            let (k, sym) = g.intern(g.text(t->Ok_0));
            ahead_remove_from(was, k, vals, i + 1, unbind(out, sym));
        }
    }
}

pub broadcast proof fn ahead_texts_from(
    was: HeapView,
    h: HeapView,
    vals: Seq<Item>,
    i: int,
    out: Seq<Seq<char>>,
)
    requires
        ahead(was, h),
    ensures
        #[trigger] ahead(was, h.texts_from(vals, i, out).0),
    decreases vals.len() - i,
{
    if i < vals.len() {
        ahead_coerce_interpolated(was, h, item_value(vals[i]));
        let (g, t) = h.coerce_interpolated(item_value(vals[i]));
        if t is Ok {
            ahead_texts_from(was, g, vals, i + 1, out.push(g.text(t->Ok_0)));
        }
    }
}

pub broadcast proof fn ahead_group_add(
    was: HeapView,
    h: HeapView,
    groups: Seq<(Sym, Slot)>,
    k: Sym,
    s: Slot,
)
    requires
        ahead(was, h),
    ensures
        #[trigger] ahead(was, h.group_add(groups, k, s).0),
{
    broadcast use {ahead_new_list, ahead_push_list};
}

pub broadcast proof fn ahead_zip_entries(
    was: HeapView,
    h: HeapView,
    m: Seq<(Sym, Slot)>,
    j: int,
    groups: Seq<(Sym, Slot)>,
)
    requires
        ahead(was, h),
    ensures
        #[trigger] ahead(was, h.zip_entries(m, j, groups).0),
    decreases m.len() - j,
{
    if j < m.len() {
        ahead_group_add(was, h, groups, m[j].0, m[j].1);
        let (k, g) = h.group_add(groups, m[j].0, m[j].1);
        ahead_zip_entries(was, k, m, j + 1, g);
    }
}

pub broadcast proof fn ahead_zip_from(
    was: HeapView,
    h: HeapView,
    vals: Seq<Item>,
    i: int,
    groups: Seq<(Sym, Slot)>,
)
    requires
        ahead(was, h),
    ensures
        #[trigger] ahead(was, h.zip_from(vals, i, groups).0),
    decreases vals.len() - i,
{
    if i < vals.len() {
        ahead_want_attrs(was, h, item_value(vals[i]));
        let (g, m) = h.want_attrs(item_value(vals[i]));
        if m is Ok {
            ahead_zip_entries(was, g, g.set(m->Ok_0), 0, groups);
            let (k, more) = g.zip_entries(g.set(m->Ok_0), 0, groups);
            ahead_zip_from(was, k, vals, i + 1, more);
        }
    }
}

pub broadcast proof fn ahead_zip_slots(
    was: HeapView,
    h: HeapView,
    f: Value,
    groups: Seq<(Sym, Slot)>,
    i: int,
    out: Seq<(Sym, Slot)>,
)
    requires
        ahead(was, h),
    ensures
        #[trigger] ahead(was, h.zip_slots(f, groups, i, out).0),
    decreases groups.len() - i,
{
    if i < groups.len() {
        ahead_str_slot(was, h, h.sym_name(groups[i].0));
        let (g, name) = h.str_slot(h.sym_name(groups[i].0));
        ahead_value_slot(was, g, Value::List(groups[i].1));
        let (k, vals) = g.value_slot(Value::List(groups[i].1));
        ahead_pending_slot(was, k, f, seq![name, vals]);
        let (w, s) = k.pending_slot(f, seq![name, vals]);
        ahead_zip_slots(was, w, f, groups, i + 1, out.push((groups[i].0, s)));
    }
}

pub broadcast proof fn ahead_finish(
    was: HeapView,
    h: HeapView,
    finish: Finish,
    vals: Seq<Item>,
    args: usize,
)
    requires
        ahead(was, h),
    ensures
        #[trigger] ahead(was, h.finish(finish, vals, args).0),
{
    broadcast use {
        ahead_arg_attrs,
        ahead_arg_str,
        ahead_argv,
        ahead_attrs_value,
        ahead_cat_from,
        ahead_concat_from,
        ahead_intern,
        ahead_list_value,
        ahead_remove_from,
        ahead_str_value,
        ahead_texts_from,
        ahead_zip_from,
        ahead_zip_slots,
    };
}

pub broadcast proof fn ahead_step_force_each(
    was: HeapView,
    h: HeapView,
    items: usize,
    i: usize,
    vals: usize,
    finish: Finish,
    args: usize,
    incoming: Option<Value>,
)
    requires
        ahead(was, h),
    ensures
        #[trigger] ahead(was, h.step_force_each(items, i, vals, finish, args, incoming).0),
{
    broadcast use {ahead_finish, ahead_work_put};
}

pub broadcast proof fn ahead_next_element(was: HeapView, h: HeapView, g: Generic)
    requires
        ahead(was, h),
    ensures
        #[trigger] ahead(was, h.next_element(g).0),
{
}

pub broadcast proof fn ahead_force_pending(was: HeapView, h: HeapView, g: Generic)
    requires
        ahead(was, h),
    ensures
        #[trigger] ahead(was, h.force_pending(g).0),
{
    broadcast use {ahead_list_put, ahead_next_element};
}

pub broadcast proof fn ahead_key_sought(
    was: HeapView,
    h: HeapView,
    g: Generic,
    found: Result<Sought, Fault>,
)
    requires
        ahead(was, h),
    ensures
        #[trigger] ahead(was, h.key_sought(g, found).0),
{
    broadcast use {ahead_next_element, ahead_push_list, ahead_stop, ahead_work_put};
}

pub broadcast proof fn ahead_key_order(was: HeapView, h: HeapView, a: Value, b: Value)
    requires
        ahead(was, h),
    ensures
        #[trigger] ahead(was, h.key_order(a, b).0),
{
    broadcast use {ahead_fail, ahead_missing};
}

pub broadcast proof fn ahead_seek(
    was: HeapView,
    h: HeapView,
    keys: Seq<Item>,
    k: Value,
    lo: usize,
    hi: usize,
)
    requires
        ahead(was, h),
    ensures
        #[trigger] ahead(was, h.seek(keys, k, lo, hi).0),
    decreases hi - lo,
{
    broadcast use ahead_fail;

    if lo < hi {
        let mid = (lo + (hi - lo) / 2) as usize;
        if mid < keys.len() {
            let other = item_value(keys[mid as int]);
            ahead_key_order(was, h, k, other);
            let g = h.key_order(k, other).0;
            ahead_seek(was, g, keys, k, lo, mid);
            ahead_seek(was, g, keys, k, (mid + 1) as usize, hi);
        }
    }
}

pub broadcast proof fn ahead_step_generic(
    was: HeapView,
    h: HeapView,
    g: Generic,
    args: usize,
    incoming: Option<Value>,
)
    requires
        ahead(was, h),
    ensures
        #[trigger] ahead(was, h.step_generic(g, args, incoming).0),
{
    broadcast use {
        ahead_arg_attrs,
        ahead_attr,
        ahead_force_pending,
        ahead_key_sought,
        ahead_list_put,
        ahead_next_element,
        ahead_seek,
        ahead_stop,
        ahead_want_attrs,
        ahead_want_list,
    };
}

pub broadcast proof fn ahead_group_slots(
    was: HeapView,
    h: HeapView,
    groups: Seq<(Sym, Slot)>,
    i: int,
    out: Seq<(Sym, Slot)>,
)
    requires
        ahead(was, h),
    ensures
        #[trigger] ahead(was, h.group_slots(groups, i, out).0),
    decreases groups.len() - i,
{
    if i < groups.len() {
        ahead_value_slot(was, h, Value::List(groups[i].1));
        let (g, s) = h.value_slot(Value::List(groups[i].1));
        ahead_group_slots(was, g, groups, i + 1, out.push((groups[i].0, s)));
    }
}

pub broadcast proof fn ahead_group_next(
    was: HeapView,
    h: HeapView,
    f: Value,
    items: usize,
    i: usize,
    out: usize,
)
    requires
        ahead(was, h),
    ensures
        #[trigger] ahead(was, h.group_next(f, items, i, out).0),
{
    broadcast use {ahead_attrs_value, ahead_group_slots};
}

pub broadcast proof fn ahead_step_group_by(
    was: HeapView,
    h: HeapView,
    f: Value,
    items: usize,
    i: usize,
    out: usize,
    incoming: Option<Value>,
)
    requires
        ahead(was, h),
    ensures
        #[trigger] ahead(was, h.step_group_by(f, items, i, out, incoming).0),
{
    broadcast use {
        ahead_group_add,
        ahead_group_next,
        ahead_intern,
        ahead_nth,
        ahead_set_put,
        ahead_want_str,
    };
}

pub broadcast proof fn ahead_answer_str(was: HeapView, h: HeapView, m: usize, name: Seq<char>)
    requires
        ahead(was, h),
    ensures
        #[trigger] ahead(was, h.answer_str(m, name).0),
{
    broadcast use {ahead_attr, ahead_fail, ahead_forced, ahead_want_str};
}

pub broadcast proof fn ahead_step_import(
    was: HeapView,
    h: HeapView,
    stage: u8,
    args: usize,
    incoming: Option<Value>,
)
    requires
        ahead(was, h),
    ensures
        #[trigger] ahead(was, h.step_import(stage, args, incoming).0),
{
    broadcast use {
        ahead_answer_str,
        ahead_arg_path,
        ahead_hand_back,
        ahead_new_env,
        ahead_new_slot,
        ahead_stop,
        ahead_want_attrs,
    };
}

pub broadcast proof fn ahead_list_to_attrs_next(
    was: HeapView,
    h: HeapView,
    items: usize,
    i: usize,
    out: usize,
    name_sym: Sym,
    value_sym: Sym,
)
    requires
        ahead(was, h),
    ensures
        #[trigger] ahead(was, h.list_to_attrs_next(items, i, out, name_sym, value_sym).0),
{
}

pub broadcast proof fn ahead_step_list_to_attrs(
    was: HeapView,
    h: HeapView,
    items: usize,
    i: usize,
    out: usize,
    cur: Option<usize>,
    name_sym: Sym,
    value_sym: Sym,
    incoming: Option<Value>,
)
    requires
        ahead(was, h),
    ensures
        #[trigger] ahead(
            was,
            h.step_list_to_attrs(items, i, out, cur, name_sym, value_sym, incoming).0,
        ),
{
    broadcast use {
        ahead_intern,
        ahead_list_to_attrs_next,
        ahead_set_put,
        ahead_stop,
        ahead_want_attrs,
        ahead_want_str,
    };
}

pub broadcast proof fn ahead_partition_next(
    was: HeapView,
    h: HeapView,
    f: Value,
    items: usize,
    i: usize,
    right: usize,
    wrong: usize,
)
    requires
        ahead(was, h),
    ensures
        #[trigger] ahead(was, h.partition_next(f, items, i, right, wrong).0),
{
    broadcast use {ahead_attrs_value, ahead_intern, ahead_value_slot};
}

pub broadcast proof fn ahead_step_partition(
    was: HeapView,
    h: HeapView,
    f: Value,
    items: usize,
    i: usize,
    right: usize,
    wrong: usize,
    incoming: Option<Value>,
)
    requires
        ahead(was, h),
    ensures
        #[trigger] ahead(was, h.step_partition(f, items, i, right, wrong, incoming).0),
{
    broadcast use {ahead_nth, ahead_partition_next, ahead_push_list, ahead_want_bool};
}

pub broadcast proof fn ahead_replace_next(
    was: HeapView,
    h: HeapView,
    froms: usize,
    plan: usize,
    used: usize,
    k: usize,
    tos: usize,
    to_items: usize,
)
    requires
        ahead(was, h),
    ensures
        #[trigger] ahead(was, h.replace_next(froms, plan, used, k, tos, to_items).0),
{
    broadcast use {ahead_nth, ahead_str_value};
}

pub broadcast proof fn ahead_store_plan(
    was: HeapView,
    h: HeapView,
    plan: Seq<PieceView>,
    i: int,
    out: Seq<Item>,
)
    requires
        ahead(was, h),
    ensures
        #[trigger] ahead(was, h.store_plan(plan, i, out).0),
    decreases plan.len() - i,
{
    if i < plan.len() {
        match plan[i] {
            PieceView::Lit(t) => {
                ahead_new_text(was, h, t);
                let (g, id) = h.new_text(t);
                ahead_store_plan(was, g, plan, i + 1, out.push(Item::Lit(id)));
            },
            PieceView::Use(j) => ahead_store_plan(was, h, plan, i + 1, out.push(Item::Use(j))),
        }
    }
}

pub broadcast proof fn ahead_replace_plan(
    was: HeapView,
    h: HeapView,
    froms: usize,
    plan: usize,
    used: usize,
    k: usize,
    tos: usize,
    args: usize,
    from_items: usize,
    to_items: usize,
)
    requires
        ahead(was, h),
    ensures
        #[trigger] ahead(
            was,
            h.replace_plan(froms, plan, used, k, tos, args, from_items, to_items).0,
        ),
{
    broadcast use {
        ahead_arg_str,
        ahead_list_put,
        ahead_replace_next,
        ahead_store_plan,
        ahead_work_put,
    };
}

pub broadcast proof fn ahead_replace_stage0(
    was: HeapView,
    h: HeapView,
    froms: usize,
    plan: usize,
    used: usize,
    k: usize,
    tos: usize,
    args: usize,
    from_items: usize,
    to_items: usize,
    incoming: Option<Value>,
)
    requires
        ahead(was, h),
    ensures
        #[trigger] ahead(
            was,
            h.replace_stage0(froms, plan, used, k, tos, args, from_items, to_items, incoming).0,
        ),
{
    broadcast use {ahead_push_list, ahead_replace_plan, ahead_want_str};
}

pub broadcast proof fn ahead_step_replace(
    was: HeapView,
    h: HeapView,
    stage: u8,
    froms: usize,
    plan: usize,
    used: usize,
    k: usize,
    tos: usize,
    args: usize,
    incoming: Option<Value>,
)
    requires
        ahead(was, h),
    ensures
        #[trigger] ahead(was, h.step_replace(stage, froms, plan, used, k, tos, args, incoming).0),
{
    broadcast use {
        ahead_arg_list,
        ahead_push_list,
        ahead_replace_next,
        ahead_replace_stage0,
        ahead_stop,
        ahead_want_str,
    };
}

pub broadcast proof fn ahead_sort_next(
    was: HeapView,
    h: HeapView,
    f: Value,
    items: usize,
    next: usize,
    sorted: usize,
    probe: usize,
)
    requires
        ahead(was, h),
    ensures
        #[trigger] ahead(was, h.sort_next(f, items, next, sorted, probe).0),
{
    broadcast use {ahead_apply_next, ahead_push_list};
}

pub broadcast proof fn ahead_step_sort(
    was: HeapView,
    h: HeapView,
    f: Value,
    items: usize,
    next: usize,
    sorted: usize,
    probe: usize,
    half: bool,
    incoming: Option<Value>,
)
    requires
        ahead(was, h),
    ensures
        #[trigger] ahead(was, h.step_sort(f, items, next, sorted, probe, half, incoming).0),
{
    broadcast use {ahead_list_put, ahead_nth, ahead_sort_next, ahead_stop, ahead_want_bool};
}

pub broadcast proof fn ahead_emit(was: HeapView, h: HeapView, out: usize, t: Seq<char>)
    requires
        ahead(was, h),
    ensures
        #[trigger] ahead(was, h.emit(out, t)),
{
    broadcast use ahead_text_put;
}

pub broadcast proof fn ahead_emit_answer(was: HeapView, h: HeapView, out: usize, v: Value)
    requires
        ahead(was, h),
    ensures
        #[trigger] ahead(was, h.emit_answer(out, v)),
{
    broadcast use ahead_emit;
}

pub broadcast proof fn ahead_json_drain(was: HeapView, h: HeapView, work: usize, out: usize)
    requires
        ahead(was, h),
    ensures
        #[trigger] ahead(was, h.json_drain(work, out).0),
    decreases h.work(work).len(),
{
    broadcast use {ahead_emit, ahead_stop};

    let w = h.work(work);
    if w.len() > 0 {
        ahead_work_put(was, h, work, w.drop_last());
        let g = h.work_put(work, w.drop_last());
        if let Item::Lit(t) = w.last() {
            ahead_json_drain(was, g.emit(out, g.text(t)), work, out);
        }
    }
}

pub broadcast proof fn ahead_enqueue(was: HeapView, h: HeapView, work: usize, q: Seq<Item>)
    requires
        ahead(was, h),
    ensures
        #[trigger] ahead(was, h.enqueue(work, q)),
{
    broadcast use ahead_work_put;
}

pub broadcast proof fn ahead_json_items(
    was: HeapView,
    h: HeapView,
    items: Seq<usize>,
    d: usize,
    i: int,
    q: Seq<Item>,
)
    requires
        ahead(was, h),
    ensures
        #[trigger] ahead(was, h.json_items(items, d, i, q).0),
    decreases items.len() - i,
{
    broadcast use ahead_new_text;

    if i < items.len() {
        if i == 0 {
            ahead_json_items(was, h, items, d, 1, q.push(Item::Deep(items[0], d)));
        } else {
            let (g, t) = h.new_text(","@);
            ahead_json_items(
                was,
                g,
                items,
                d,
                i + 1,
                q.push(Item::Lit(t)).push(Item::Deep(items[i], d)),
            );
        }
    }
}

pub broadcast proof fn ahead_json_members(
    was: HeapView,
    h: HeapView,
    entries: Seq<(Sym, Slot)>,
    d: usize,
    i: int,
    q: Seq<Item>,
)
    requires
        ahead(was, h),
    ensures
        #[trigger] ahead(was, h.json_members(entries, d, i, q).0),
    decreases entries.len() - i,
{
    broadcast use ahead_new_text;

    if i < entries.len() {
        let comma = if i > 0 {
            ","@
        } else {
            ""@
        };
        let (g, lead) = h.new_text(comma + json_quoted(h.sym_name(entries[i].0)) + ":"@);
        ahead_json_members(
            was,
            g,
            entries,
            d,
            i + 1,
            q.push(Item::Lit(lead)).push(Item::Deep(entries[i].1, d)),
        );
    }
}

pub broadcast proof fn ahead_json_render(
    was: HeapView,
    h: HeapView,
    work: usize,
    out: usize,
    v: Value,
    d: usize,
)
    requires
        ahead(was, h),
    ensures
        #[trigger] ahead(was, h.json_render(work, out, v, d).0),
{
    broadcast use {
        ahead_attr,
        ahead_emit,
        ahead_enqueue,
        ahead_json_drain,
        ahead_json_items,
        ahead_json_members,
        ahead_missing,
        ahead_stop,
        ahead_work_put,
    };
}

pub broadcast proof fn ahead_step_to_json(
    was: HeapView,
    h: HeapView,
    work: usize,
    out: usize,
    awaiting: Await,
    incoming: Option<Value>,
)
    requires
        ahead(was, h),
    ensures
        #[trigger] ahead(was, h.step_to_json(work, out, awaiting, incoming).0),
{
    broadcast use {
        ahead_emit,
        ahead_emit_answer,
        ahead_json_drain,
        ahead_json_render,
        ahead_value_slot,
        ahead_coerce_interpolated,
    };
}

pub broadcast proof fn ahead_try_eval_result(was: HeapView, h: HeapView, success: bool, v: Value)
    requires
        ahead(was, h),
    ensures
        #[trigger] ahead(was, h.try_eval_result(success, v).0),
{
    broadcast use {ahead_attrs_value, ahead_intern, ahead_value_slot};
}

pub broadcast proof fn ahead_step_try_eval(
    was: HeapView,
    h: HeapView,
    started: bool,
    args: usize,
    incoming: Option<Value>,
)
    requires
        ahead(was, h),
    ensures
        #[trigger] ahead(was, h.step_try_eval(started, args, incoming).0),
{
    broadcast use {ahead_nth, ahead_stop, ahead_try_eval_result};
}

pub broadcast proof fn ahead_step_cont(
    was: HeapView,
    h: HeapView,
    args: usize,
    c: Cont,
    incoming: Option<Value>,
)
    requires
        ahead(was, h),
    ensures
        #[trigger] ahead(was, h.step_cont(args, c, incoming).0),
{
    broadcast use {
        ahead_step_any_all,
        ahead_step_ask,
        ahead_step_concat_map,
        ahead_step_deep_seq,
        ahead_step_elem,
        ahead_step_filter,
        ahead_step_foldl,
        ahead_step_force_each,
        ahead_step_generic,
        ahead_step_group_by,
        ahead_step_import,
        ahead_step_list_to_attrs,
        ahead_step_partition,
        ahead_step_replace,
        ahead_step_sort,
        ahead_step_to_json,
        ahead_step_try_eval,
        ahead_stop,
    };
}

pub broadcast proof fn ahead_start(was: HeapView, h: HeapView, idx: u16, args: usize)
    requires
        ahead(was, h),
    ensures
        #[trigger] ahead(was, h.start(idx, args).0),
{
    broadcast use {ahead_run, ahead_step_cont};
}

pub broadcast proof fn ahead_drive(
    was: HeapView,
    h: HeapView,
    idx: u16,
    args: usize,
    c: Cont,
    incoming: Option<Value>,
)
    requires
        ahead(was, h),
    ensures
        #[trigger] ahead(was, h.drive(idx, args, c, incoming).0),
{
    broadcast use {ahead_hand_back, ahead_start, ahead_step_cont};
}

pub broadcast proof fn ahead_doc_text(was: HeapView, h: HeapView, from: Source, t: Seq<char>)
    requires
        ahead(was, h),
    ensures
        #[trigger] ahead(was, h.doc_text(from, t).0),
{
    broadcast use ahead_fail;
}

pub broadcast proof fn ahead_queue_list(
    was: HeapView,
    h: HeapView,
    items: Seq<usize>,
    i: int,
    q: Seq<Item>,
)
    requires
        ahead(was, h),
    ensures
        #[trigger] ahead(was, h.queue_list(items, i, q).0),
    decreases items.len() - i,
{
    broadcast use ahead_new_text;

    if i < items.len() {
        let (g, t) = h.new_text(" "@);
        ahead_queue_list(was, g, items, i + 1, q.push(Item::Lit(t)).push(Item::Lazy(items[i])));
    }
}

pub broadcast proof fn ahead_queue_set(
    was: HeapView,
    h: HeapView,
    entries: Seq<(Sym, Slot)>,
    i: int,
    q: Seq<Item>,
)
    requires
        ahead(was, h),
    ensures
        #[trigger] ahead(was, h.queue_set(entries, i, q).0),
    decreases entries.len() - i,
{
    broadcast use ahead_new_text;

    if i < entries.len() {
        let (g, lead) = h.new_text(" "@ + printed_name(h.sym_name(entries[i].0)) + " = "@);
        let (k, end) = g.new_text(";"@);
        ahead_queue_set(
            was,
            k,
            entries,
            i + 1,
            q.push(Item::Lit(lead)).push(Item::Lazy(entries[i].1)).push(Item::Lit(end)),
        );
    }
}

pub broadcast proof fn ahead_queue_spaced(
    was: HeapView,
    h: HeapView,
    items: Seq<usize>,
    i: int,
    q: Seq<Item>,
)
    requires
        ahead(was, h),
    ensures
        #[trigger] ahead(was, h.queue_spaced(items, i, q).0),
    decreases items.len() - i,
{
    broadcast use ahead_new_text;

    if i < items.len() {
        if i == 0 {
            ahead_queue_spaced(was, h, items, 1, q.push(Item::Lazy(items[0])));
        } else {
            let (g, t) = h.new_text(" "@);
            ahead_queue_spaced(was, g, items, i + 1, q.push(Item::Lit(t)).push(Item::Lazy(items[i])));
        }
    }
}

pub broadcast proof fn ahead_render_print(
    was: HeapView,
    h: HeapView,
    work: usize,
    out: usize,
    v: Value,
)
    requires
        ahead(was, h),
    ensures
        #[trigger] ahead(was, h.render_print(work, out, v)),
{
    broadcast use {ahead_emit, ahead_enqueue, ahead_queue_list, ahead_queue_set, ahead_work_put};
}

pub broadcast proof fn ahead_drain(
    was: HeapView,
    h: HeapView,
    coerce: bool,
    work: usize,
    out: usize,
)
    requires
        ahead(was, h),
    ensures
        #[trigger] ahead(was, h.drain(coerce, work, out).0),
    decreases h.work(work).len(),
{
    broadcast use {ahead_emit, ahead_fail};

    let w = h.work(work);
    if w.len() > 0 {
        ahead_work_put(was, h, work, w.drop_last());
        let g = h.work_put(work, w.drop_last());
        if let Item::Lit(t) = w.last() {
            ahead_drain(was, g.emit(out, g.text(t)), coerce, work, out);
        }
    }
}

pub broadcast proof fn ahead_step_print(
    was: HeapView,
    h: HeapView,
    work: usize,
    out: usize,
    raw: bool,
    incoming: Option<Value>,
)
    requires
        ahead(was, h),
    ensures
        #[trigger] ahead(was, h.step_print(work, out, raw, incoming).0),
{
    broadcast use {ahead_drain, ahead_emit_answer, ahead_render_print};
}

pub broadcast proof fn ahead_step_coerce(
    was: HeapView,
    h: HeapView,
    work: usize,
    out: usize,
    raw: bool,
    incoming: Option<Value>,
)
    requires
        ahead(was, h),
    ensures
        #[trigger] ahead(was, h.step_coerce(work, out, raw, incoming).0),
{
    broadcast use {
        ahead_coerce_scalar,
        ahead_drain,
        ahead_emit,
        ahead_emit_answer,
        ahead_enqueue,
        ahead_queue_spaced,
        ahead_work_put,
    };
}

pub broadcast proof fn ahead_print_task(was: HeapView, h: HeapView, v: Value)
    requires
        ahead(was, h),
    ensures
        #[trigger] ahead(was, h.print_task(v).0),
{
    broadcast use {ahead_new_text, ahead_new_work, ahead_value_slot};
}

pub broadcast proof fn ahead_shallow(was: HeapView, h: HeapView, work: usize, l: Value, r: Value)
    requires
        ahead(was, h),
    ensures
        #[trigger] ahead(was, h.shallow(work, l, r).0),
{
    broadcast use ahead_work_put;
}

pub broadcast proof fn ahead_eq_next(was: HeapView, h: HeapView, work: usize, negate: bool)
    requires
        ahead(was, h),
    ensures
        #[trigger] ahead(was, h.eq_next(work, negate).0),
{
    broadcast use ahead_work_put;
}

pub broadcast proof fn ahead_step_eq(
    was: HeapView,
    h: HeapView,
    work: usize,
    cur: Option<(Slot, Slot)>,
    stage: u8,
    negate: bool,
    incoming: Option<Value>,
)
    requires
        ahead(was, h),
    ensures
        #[trigger] ahead(was, h.step_eq(work, cur, stage, negate, incoming).0),
{
    broadcast use {ahead_eq_next, ahead_forced, ahead_shallow};
}

pub broadcast proof fn ahead_scalar_order(was: HeapView, h: HeapView, l: Value, r: Value)
    requires
        ahead(was, h),
    ensures
        #[trigger] ahead(was, h.scalar_order(l, r).0),
{
    broadcast use ahead_fail;
}

pub broadcast proof fn ahead_compare_next(was: HeapView, h: HeapView, stack: usize, negate: bool)
    requires
        ahead(was, h),
    ensures
        #[trigger] ahead(was, h.compare_next(stack, negate).0),
    decreases h.work(stack).len(),
{
    broadcast use {ahead_fail, ahead_work_put};

    let w = h.work(stack);
    if w.len() > 0 {
        if let Item::Pos { a, b: other, i } = w.last() {
            let (x, y) = (h.list(a), h.list(other));
            if (i >= x.len() || i >= y.len()) && x.len() == y.len() {
                ahead_compare_next(was, h.work_put(stack, w.drop_last()), stack, negate);
            }
        }
    }
}

pub broadcast proof fn ahead_compare_decided(
    was: HeapView,
    h: HeapView,
    stack: usize,
    negate: bool,
    o: Order,
)
    requires
        ahead(was, h),
    ensures
        #[trigger] ahead(was, h.compare_decided(stack, negate, o).0),
{
    broadcast use ahead_compare_next;
}

pub broadcast proof fn ahead_step_compare(
    was: HeapView,
    h: HeapView,
    stack: usize,
    cur: Option<(Slot, Slot)>,
    stage: u8,
    negate: bool,
    incoming: Option<Value>,
)
    requires
        ahead(was, h),
    ensures
        #[trigger] ahead(was, h.step_compare(stack, cur, stage, negate, incoming).0),
{
    broadcast use {
        ahead_compare_decided,
        ahead_compare_next,
        ahead_forced,
        ahead_scalar_order,
        ahead_work_put,
    };
}

pub broadcast proof fn ahead_walk_with(was: HeapView, h: HeapView, node: usize, sym: Sym)
    requires
        ahead(was, h),
    ensures
        #[trigger] ahead(was, h.walk_with(node, sym).0),
    decreases node,
{
    broadcast use ahead_fail;

    if let EnvNode::Frame { up, .. } = h.env(node) {
        if up < node {
            ahead_walk_with(was, h, up, sym);
        }
    }
}

pub broadcast proof fn ahead_step_with(
    was: HeapView,
    h: HeapView,
    node: usize,
    sym: Sym,
    search: Search,
    incoming: Option<Value>,
)
    requires
        ahead(was, h),
    ensures
        #[trigger] ahead(was, h.step_with(node, sym, search, incoming).0),
{
    broadcast use {ahead_fail, ahead_walk_with};
}

pub broadcast proof fn ahead_step_chain(
    was: HeapView,
    h: HeapView,
    f: Option<Value>,
    args: usize,
    i: usize,
    incoming: Option<Value>,
)
    requires
        ahead(was, h),
    ensures
        #[trigger] ahead(was, h.step_chain(f, args, i, incoming).0),
{
    broadcast use ahead_fail;
}

pub broadcast proof fn ahead_step_need(
    was: HeapView,
    h: HeapView,
    need: Need,
    asked: bool,
    incoming: Option<Value>,
)
    requires
        ahead(was, h),
    ensures
        #[trigger] ahead(was, h.step_need(need, asked, incoming).0),
{
    broadcast use ahead_fail;
}

pub broadcast proof fn ahead_step_tail(
    was: HeapView,
    h: HeapView,
    kind: ErrKind,
    text: usize,
    bits: u64,
    asked: bool,
    incoming: Option<Value>,
)
    requires
        ahead(was, h),
    ensures
        #[trigger] ahead(was, h.step_tail(kind, text, bits, asked, incoming).0),
{
    broadcast use ahead_new_text;
}

pub broadcast proof fn ahead_step_task(was: HeapView, h: HeapView, t: Task, incoming: Option<Value>)
    requires
        ahead(was, h),
    ensures
        #[trigger] ahead(was, h.step_task(t, incoming).0),
{
    broadcast use {
        ahead_drive,
        ahead_step_chain,
        ahead_step_coerce,
        ahead_step_compare,
        ahead_step_eq,
        ahead_step_need,
        ahead_step_print,
        ahead_step_tail,
        ahead_step_with,
    };
}

pub broadcast proof fn ahead_catch(was: HeapView, h: HeapView, t: Task, e: Fault)
    requires
        ahead(was, h),
    ensures
        #[trigger] ahead(was, h.catch(t, e).0),
{
    broadcast use ahead_try_eval_result;
}

pub broadcast proof fn ahead_bind_fields(
    was: HeapView,
    h: HeapView,
    module: usize,
    fields: Seq<(u32, Option<u32>)>,
    i: int,
    set: Seq<(Sym, Slot)>,
    env: usize,
    out: Seq<usize>,
)
    requires
        ahead(was, h),
    ensures
        #[trigger] ahead(was, h.bind_fields(module, fields, i, set, env, out).0),
    decreases fields.len() - i,
{
    broadcast use {ahead_fail, ahead_intern, ahead_new_slot};

    if i < fields.len() {
        let (g, k) = h.intern(h.field_name(module, fields[i].0));
        match lookup(set, k) {
            Some(s) => ahead_bind_fields(was, g, module, fields, i + 1, set, env, out.push(s)),
            None => match fields[i].1 {
                Some(unit) => {
                    let (w, s) = g.new_slot(SlotState::Thunk { module, unit, env });
                    ahead_bind_fields(was, w, module, fields, i + 1, set, env, out.push(s));
                },
                None => {},
            },
        }
    }
}

pub broadcast proof fn ahead_call_formals(
    was: HeapView,
    h: HeapView,
    module: usize,
    unit: u32,
    up: usize,
    fields: Seq<(u32, Option<u32>)>,
    ellipsis: bool,
    bind: bool,
    arg: Slot,
)
    requires
        ahead(was, h),
    ensures
        #[trigger] ahead(was, h.call_formals(module, unit, up, fields, ellipsis, bind, arg).0),
{
    broadcast use {
        ahead_bind_fields,
        ahead_fail,
        ahead_fail_shown,
        ahead_list_put,
        ahead_new_env,
        ahead_new_list,
    };
}

pub broadcast proof fn ahead_call_closure(
    was: HeapView,
    h: HeapView,
    module: usize,
    unit: u32,
    up: usize,
    arg: Slot,
)
    requires
        ahead(was, h),
    ensures
        #[trigger] ahead(was, h.call_closure(module, unit, up, arg).0),
{
    broadcast use {ahead_call_formals, ahead_fail, ahead_new_env, ahead_new_list};
}

pub broadcast proof fn ahead_call_builtin(
    was: HeapView,
    h: HeapView,
    idx: u16,
    args: usize,
    arg: Slot,
)
    requires
        ahead(was, h),
    ensures
        #[trigger] ahead(was, h.call_builtin(idx, args, arg).0),
{
    broadcast use {ahead_fail, ahead_new_list};
}

pub broadcast proof fn ahead_apply(was: HeapView, h: HeapView, f: Value, arg: Slot)
    requires
        ahead(was, h),
    ensures
        #[trigger] ahead(was, h.apply(f, arg).0),
{
    broadcast use {ahead_call_builtin, ahead_call_closure, ahead_fail};
}

// -- documents and answers ---------------------------------------------------

proof fn ahead_plant(
    was: HeapView,
    h: HeapView,
    from: Source,
    cells: Seq<DocCellView>,
    bits: Seq<u64>,
    i: usize,
    fuel: nat,
)
    requires
        ahead(was, h),
    ensures
        ahead(was, h.plant(from, cells, bits, i, fuel).0),
    decreases fuel, 0int,
{
    broadcast use {ahead_fail, ahead_missing, ahead_doc_text, ahead_str_value};

    if fuel > 0 && i < cells.len() {
        let next = (i + 1) as usize;
        let inner = (fuel - 1) as nat;
        match cells[i as int].node {
            DocNodeView::Array(n) => {
                ahead_plant_items(was, h, from, cells, bits, next, n, Seq::empty(), inner);
            },
            DocNodeView::Table(n) => {
                ahead_plant_entries(was, h, from, cells, bits, next, n, Seq::empty(), inner);
            },
            _ => {},
        }
    }
}

proof fn ahead_plant_items(
    was: HeapView,
    h: HeapView,
    from: Source,
    cells: Seq<DocCellView>,
    bits: Seq<u64>,
    i: usize,
    n: usize,
    out: Seq<usize>,
    fuel: nat,
)
    requires
        ahead(was, h),
    ensures
        ahead(was, h.plant_items(from, cells, bits, i, n, out, fuel).0),
    decreases fuel, n + 1,
{
    broadcast use {ahead_list_value, ahead_value_slot};

    if n > 0 {
        ahead_plant(was, h, from, cells, bits, i, fuel);
        let (g, r) = h.plant(from, cells, bits, i, fuel);
        if r is Ok {
            let (v, next) = r->Ok_0;
            let (k, s) = g.value_slot(v);
            ahead_plant_items(was, k, from, cells, bits, next, (n - 1) as usize, out.push(s), fuel);
        }
    }
}

proof fn ahead_plant_entries(
    was: HeapView,
    h: HeapView,
    from: Source,
    cells: Seq<DocCellView>,
    bits: Seq<u64>,
    i: usize,
    n: usize,
    out: Seq<(Sym, Slot)>,
    fuel: nat,
)
    requires
        ahead(was, h),
    ensures
        ahead(was, h.plant_entries(from, cells, bits, i, n, out, fuel).0),
    decreases fuel, n + 1,
{
    broadcast use {ahead_attrs_value, ahead_doc_text, ahead_intern, ahead_value_slot};

    if n > 0 {
        let key = if i < cells.len() && cells[i as int].key is Some {
            cells[i as int].key->0
        } else {
            Seq::empty()
        };
        let (d, e) = h.doc_text(from, key);
        if e is None {
            let (g, sym) = d.intern(key);
            ahead_plant(was, g, from, cells, bits, i, fuel);
            let (k, r) = g.plant(from, cells, bits, i, fuel);
            if r is Ok {
                let (v, next) = r->Ok_0;
                let (w, s) = k.value_slot(v);
                ahead_plant_entries(
                    was,
                    w,
                    from,
                    cells,
                    bits,
                    next,
                    (n - 1) as usize,
                    bind(out, sym, s),
                    fuel,
                );
            }
        }
    }
}

pub proof fn ahead_planted(
    was: HeapView,
    h: HeapView,
    from: Source,
    cells: Seq<DocCellView>,
    bits: Seq<u64>,
)
    requires
        ahead(was, h),
    ensures
        ahead(was, h.planted(from, cells, bits).0),
{
    ahead_plant(was, h, from, cells, bits, 0, cells.len());
}

pub proof fn ahead_entries_from(
    was: HeapView,
    h: HeapView,
    entries: Seq<(Seq<char>, FileType)>,
    i: int,
    out: Seq<(Sym, Slot)>,
)
    requires
        ahead(was, h),
    ensures
        ahead(was, h.entries_from(entries, i, out).0),
    decreases entries.len() - i,
{
    broadcast use {ahead_attrs_value, ahead_intern, ahead_str_slot};

    if i < entries.len() {
        let (g, k) = h.intern(entries[i].0);
        let (w, s) = g.str_slot(file_type_text(entries[i].1));
        ahead_entries_from(was, w, entries, i + 1, bind(out, k, s));
    }
}

} // verus!
