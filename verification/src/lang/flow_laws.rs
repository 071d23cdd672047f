//! What decides which code runs: `if`, `&&`, `||` and `->` run the operand
//! that they should, and only that one.
use crate::lang::code_laws::law_compiling_appends;
use crate::lang::compile::patched;
use crate::lang::frames::{Dest, Flow, Frame, UnitFrame};
use crate::lang::heap::{HeapView, Item, Value};
use crate::lang::ir::{ConstView, Op};
use crate::lang::operator_laws::{
    advances, lemma_moves_on, lemma_stays, lemma_unit_turn, reaches, under,
};
use crate::lang::scopes::{const_position, CompilerView};
use crate::lang::syntax::{Class, Kind, TreeView};
use crate::lang::tasks::catchable;
use crate::lang::units::{jumped, stepped, OpOut};
use crate::lang::vm::VmView;
use vstd::prelude::*;

verus! {

/// Whether a unit runs this code, with the constants of its compiler.
pub open spec fn is_loaded(h: HeapView, u: UnitFrame, c: CompilerView, code: Seq<Op>) -> bool {
    &&& u.module < h.modules.len()
    &&& u.unit < h.modules[u.module as int].units.len()
    &&& code.is_prefix_of(h.modules[u.module as int].units[u.unit as int].ops)
    &&& c.consts.is_prefix_of(h.modules[u.module as int].consts)
    &&& code.len() < u32::MAX
    &&& c.consts.len() < u32::MAX
}

/// Whether a machine is about to run the instruction at a place of the unit on
/// top, with these values on the unit's stack, the last one topmost.
pub open spec fn is_at(vm: VmView, u: UnitFrame, ip: int, on: Seq<Value>) -> bool {
    let w = vm.heap.work(u.stack);
    &&& advances(vm, Frame::Unit(u))
    &&& u.ip == ip
    &&& u.dest == Dest::Push
    &&& u.stack < vm.heap.works.len()
    &&& w.len() >= on.len()
    &&& forall|i: int|
        0 <= i < on.len() ==> w[w.len() - on.len() + i] == Item::Val(#[trigger] on[i])
}

/// The machine at another place, with these values in place of the topmost
/// `k`, and nothing else changed.
pub open spec fn moved(vm: VmView, u: UnitFrame, ip: int, k: int, vals: Seq<Value>) -> VmView {
    let w = vm.heap.work(u.stack);
    under(vm).with_heap(
        vm.heap.work_put(
            u.stack,
            w.take(w.len() - k) + Seq::new(vals.len(), |i: int| Item::Val(vals[i])),
        ),
    ).push(Frame::Unit(UnitFrame { ip: ip as usize, ..u })).go(Flow::Advance)
}

/// Whether a machine comes to another place of its unit, with these values in
/// place of the topmost `k`, and nothing else changed.
pub open spec fn arrives(vm: VmView, u: UnitFrame, ip: int, k: int, vals: Seq<Value>) -> bool {
    exists|turns: nat| #[trigger] reaches(vm, moved(vm, u, ip, k, vals), turns)
}

proof fn lemma_op(h: HeapView, u: UnitFrame, c: CompilerView, code: Seq<Op>, ip: int)
    requires
        is_loaded(h, u, c, code),
        0 <= ip < code.len(),
        u.ip == ip,
    ensures
        h.op_at(u.module, u.unit, u.ip) == Some(code[ip]),
{
    let ops = h.modules[u.module as int].units[u.unit as int].ops;
    assert(ops.take(code.len() as int)[ip] == ops[ip]);
}

proof fn lemma_const(h: HeapView, u: UnitFrame, c: CompilerView, code: Seq<Op>, idx: u32)
    requires
        is_loaded(h, u, c, code),
        idx < c.consts.len(),
    ensures
        h.const_at(u.module, idx) == Some(c.consts[idx as int]),
{
    let all = h.modules[u.module as int].consts;
    assert(all.take(c.consts.len() as int)[idx as int] == all[idx as int]);
}

/// A jump that depends on a Boolean.
proof fn lemma_branch(vm: VmView, u: UnitFrame, target: u32, b: bool)
    requires
        is_at(vm, u, u.ip as int, seq![Value::Bool(b)]),
        vm.heap.op_at(u.module, u.unit, u.ip) == Some(Op::JumpIfFalse { target }),
        u.ip + 1 + target < u32::MAX,
    ensures
        reaches(
            vm,
            moved(
                vm,
                u,
                if b {
                    u.ip + 1
                } else {
                    u.ip + 1 + target
                },
                1,
                seq![],
            ),
            1,
        ),
{
    let w = vm.heap.work(u.stack);
    let on = seq![Value::Bool(b)];
    assert(w[w.len() - 1 + 0] == Item::Val(on[0]));
    let h = vm.heap.work_put(u.stack, w.drop_last());
    let s = if b {
        stepped(u)
    } else {
        jumped(u, target)
    };
    assert(vm.heap.strict_at(u.stack, 1) is None);
    assert(vm.heap.gap_from(u.stack, 2, 1) is None);
    assert(vm.heap.gap(u.stack, 1) is None);
    assert(vm.heap.exec_op(u) == (h, OpOut::Go(s)));
    lemma_unit_turn(vm, u, h, OpOut::Go(s));
    let none = Seq::<Value>::empty();
    assert(w.take(w.len() - 1) + Seq::new(none.len(), |i: int| Item::Val(none[i]))
        =~= w.drop_last());
    let next = under(vm).with_heap(h).push(Frame::Unit(s)).go(Flow::Advance);
    lemma_stays(next);
    lemma_moves_on(vm, next, next, 0);
}

proof fn lemma_jump(vm: VmView, u: UnitFrame, target: u32)
    requires
        is_at(vm, u, u.ip as int, seq![]),
        vm.heap.op_at(u.module, u.unit, u.ip) == Some(Op::Jump { target }),
        u.ip + 1 + target < u32::MAX,
    ensures
        reaches(vm, moved(vm, u, u.ip + 1 + target, 0, seq![]), 1),
{
    let w = vm.heap.work(u.stack);
    let s = jumped(u, target);
    lemma_unit_turn(vm, u, vm.heap, OpOut::Go(s));
    let none = Seq::<Value>::empty();
    assert(w.take(w.len() - 0) + Seq::new(none.len(), |i: int| Item::Val(none[i])) =~= w);
    assert(vm.heap.works.update(u.stack as int, w) =~= vm.heap.works);
    let next = under(vm).with_heap(vm.heap).push(Frame::Unit(s)).go(Flow::Advance);
    assert(next == moved(vm, u, u.ip + 1 + target, 0, none));
    lemma_stays(next);
    lemma_moves_on(vm, next, next, 0);
}

proof fn lemma_push_bool(vm: VmView, u: UnitFrame, idx: u32, b: bool)
    requires
        is_at(vm, u, u.ip as int, seq![]),
        vm.heap.op_at(u.module, u.unit, u.ip) == Some(Op::Const(idx)),
        vm.heap.const_at(u.module, idx) == Some(ConstView::Bool(b)),
        u.ip + 1 < u32::MAX,
    ensures
        reaches(vm, moved(vm, u, u.ip + 1, 0, seq![Value::Bool(b)]), 1),
{
    let w = vm.heap.work(u.stack);
    let one = seq![Value::Bool(b)];
    let h = vm.heap.push_value(u.stack, Value::Bool(b));
    assert(vm.heap.exec_op(u) == (h, OpOut::Go(stepped(u))));
    lemma_unit_turn(vm, u, h, OpOut::Go(stepped(u)));
    assert(w.take(w.len() - 0) + Seq::new(one.len(), |i: int| Item::Val(one[i])) =~= w.push(
        Item::Val(Value::Bool(b)),
    ));
    let next = under(vm).with_heap(h).push(Frame::Unit(stepped(u))).go(Flow::Advance);
    assert(next == moved(vm, u, u.ip + 1, 0, one));
    lemma_stays(next);
    lemma_moves_on(vm, next, next, 0);
}

proof fn lemma_not(vm: VmView, u: UnitFrame, b: bool)
    requires
        is_at(vm, u, u.ip as int, seq![Value::Bool(b)]),
        vm.heap.op_at(u.module, u.unit, u.ip) == Some(Op::Not),
        u.ip + 1 < u32::MAX,
    ensures
        reaches(vm, moved(vm, u, u.ip + 1, 1, seq![Value::Bool(!b)]), 1),
{
    let w = vm.heap.work(u.stack);
    let on = seq![Value::Bool(b)];
    let one = seq![Value::Bool(!b)];
    assert(w[w.len() - 1 + 0] == Item::Val(on[0]));
    let g = vm.heap.work_put(u.stack, w.drop_last());
    let h = g.push_value(u.stack, Value::Bool(!b));
    assert(vm.heap.strict_at(u.stack, 1) is None);
    assert(vm.heap.gap_from(u.stack, 2, 1) is None);
    assert(vm.heap.gap(u.stack, 1) is None);
    assert(vm.heap.exec_op(u) == (h, OpOut::Go(stepped(u))));
    lemma_unit_turn(vm, u, h, OpOut::Go(stepped(u)));
    assert(w.take(w.len() - 1) + Seq::new(one.len(), |i: int| Item::Val(one[i]))
        =~= w.drop_last().push(Item::Val(Value::Bool(!b))));
    assert(g.work(u.stack) == w.drop_last());
    assert(h.works =~= vm.heap.works.update(
        u.stack as int,
        w.drop_last().push(Item::Val(Value::Bool(!b))),
    ));
    let next = under(vm).with_heap(h).push(Frame::Unit(stepped(u))).go(Flow::Advance);
    assert(next == moved(vm, u, u.ip + 1, 1, one));
    lemma_stays(next);
    lemma_moves_on(vm, next, next, 0);
}

/// Moving twice is moving once.
proof fn lemma_then(
    vm: VmView,
    u: UnitFrame,
    a: int,
    k: int,
    x: Seq<Value>,
    b: int,
    j: int,
    y: Seq<Value>,
    m: nat,
    n: nat,
)
    requires
        reaches(vm, moved(vm, u, a, k, x), m),
        reaches(
            moved(vm, u, a, k, x),
            moved(moved(vm, u, a, k, x), (UnitFrame { ip: a as usize, ..u }), b, j, y),
            n,
        ),
        vm.frames.len() > 0,
        0 <= k <= vm.heap.work(u.stack).len(),
        u.stack < vm.heap.works.len(),
        j == x.len(),
    ensures
        reaches(vm, moved(vm, u, b, k, y), m + n),
{
    let mid = moved(vm, u, a, k, x);
    let s = UnitFrame { ip: a as usize, ..u };
    let end = moved(mid, s, b, j, y);
    let w = vm.heap.work(u.stack);
    let items = Seq::new(x.len(), |i: int| Item::Val(x[i]));
    let more = Seq::new(y.len(), |i: int| Item::Val(y[i]));
    let w2 = w.take(w.len() - k) + items;
    assert(mid.heap.work(u.stack) == w2);
    assert(w2.take(w2.len() - j) =~= w.take(w.len() - k));
    assert(mid.heap.works.update(u.stack as int, w.take(w.len() - k) + more)
        =~= vm.heap.works.update(u.stack as int, w.take(w.len() - k) + more));
    assert(under(mid).frames =~= under(vm).frames);
    assert(end == moved(vm, u, b, k, y));
    reveal(reaches);
    crate::lang::laws::law_runs_compose(vm, m, n);
}

proof fn lemma_still_at(vm: VmView, u: UnitFrame, ip: int, k: int, vals: Seq<Value>)
    requires
        advances(vm, Frame::Unit(u)),
        u.dest == Dest::Push,
        u.stack < vm.heap.works.len(),
        0 <= k <= vm.heap.work(u.stack).len(),
        0 <= ip < u32::MAX,
    ensures
        is_at(moved(vm, u, ip, k, vals), (UnitFrame { ip: ip as usize, ..u }), ip, vals),
        moved(vm, u, ip, k, vals).heap.modules == vm.heap.modules,
        is_at(
            moved(vm, u, ip, k, vals),
            (UnitFrame { ip: ip as usize, ..u }),
            ip,
            Seq::<Value>::empty(),
        ),
{
}

/// A constant is where the compiler says.
proof fn lemma_konst(c: CompilerView, v: ConstView, i: int)
    requires
        0 <= i <= c.consts.len(),
    ensures
        i <= const_position(c.consts, v, i) <= c.consts.len(),
        const_position(c.consts, v, i) < c.consts.len() ==> c.consts[const_position(
            c.consts,
            v,
            i,
        )] == v,
    decreases c.consts.len() - i,
{
    if i < c.consts.len() && c.consts[i] != v {
        lemma_konst(c, v, i + 1);
    }
}

// -- && || -> ----------------------------------------------------------------

/// The code of an operator that may leave its right operand alone: where the
/// left operand ends, and where the right one does.
pub struct Halves {
    pub left: int,
    pub right: int,
    pub end: CompilerView,
    pub code: Seq<Op>,
}

/// Whether a node is such an operator, and compiles to this code.
pub open spec fn is_short(
    c: CompilerView,
    t: TreeView,
    e: usize,
    ops: Seq<Op>,
    fuel: nat,
    k: Kind,
    at: Halves,
) -> bool {
    let less = (fuel - 1) as nat;
    let lhs = t.nth(e, Class::Exprs, 0)->0;
    let rhs = t.nth(e, Class::Exprs, 1)->0;
    let left = c.compile(t, lhs, ops, less);
    let mid = if k == Kind::Or {
        left->Ok_0.1.push(Op::Not)
    } else {
        left->Ok_0.1
    }.push(Op::JumpIfFalse { target: 0 });
    let right = left->Ok_0.0.compile(t, rhs, mid, less);
    &&& fuel > 0
    &&& t.kind(e) == Kind::BinOp
    &&& t.nth(e, Class::Binary, 0) is Some
    &&& t.kind(t.nth(e, Class::Binary, 0)->0) == k
    &&& k == Kind::And || k == Kind::Or || k == Kind::Implication
    &&& t.nth(e, Class::Exprs, 0) is Some
    &&& t.nth(e, Class::Exprs, 1) is Some
    &&& c.compile(t, e, ops, fuel) == Ok::<_, crate::lang::scopes::CompileErrorView>(
        (at.end, at.code),
    )
    &&& at.left == left->Ok_0.1.len()
    &&& at.right == right->Ok_0.1.len()
}

proof fn lemma_short_code(
    c: CompilerView,
    t: TreeView,
    e: usize,
    ops: Seq<Op>,
    fuel: nat,
    k: Kind,
    at: Halves,
)
    requires
        is_short(c, t, e, ops, fuel, k, at),
        at.code.len() < u32::MAX,
        at.end.consts.len() < u32::MAX,
    ensures
        ({
            let jump = if k == Kind::Or {
                at.left + 1
            } else {
                at.left
            };
            let code = at.code;
            &&& jump < at.right
            &&& code.len() == at.right + 2
            &&& k == Kind::Or ==> code[at.left] == Op::Not
            &&& code[jump] == (Op::JumpIfFalse { target: (at.right - jump) as u32 })
            &&& code[at.right] == (Op::Jump { target: 1 })
            &&& code[at.right + 1] matches Op::Const(idx) && idx < at.end.consts.len()
                && at.end.consts[idx as int] == ConstView::Bool(k != Kind::And)
        }),
{
    let less = (fuel - 1) as nat;
    let lhs = t.nth(e, Class::Exprs, 0)->0;
    let rhs = t.nth(e, Class::Exprs, 1)->0;
    let invert = k == Kind::Or;
    let miss = k != Kind::And;
    assert(c.compile(t, e, ops, fuel) == c.compile_binop(t, e, ops, less));
    assert(c.compile_binop(t, e, ops, less) == c.compile_short(
        t,
        lhs,
        rhs,
        invert,
        miss,
        ops,
        less,
    ));
    let left = c.compile(t, lhs, ops, less);
    let base = if invert {
        left->Ok_0.1.push(Op::Not)
    } else {
        left->Ok_0.1
    };
    let mid = base.push(Op::JumpIfFalse { target: 0 });
    let right = left->Ok_0.0.compile(t, rhs, mid, less);
    law_compiling_appends(left->Ok_0.0, t, rhs, mid, less);
    let c2 = right->Ok_0.0;
    lemma_konst(c2, ConstView::Bool(miss), 0);
    let (c3, idx) = c2.konst(ConstView::Bool(miss));
    let all = right->Ok_0.1.push(Op::Jump { target: 1 }).push(Op::Const(idx));
    let jump = base.len() as int;
    assert(at.code == patched(all, jump, at.right + 1));
    assert(at.end == c3);
    let r = right->Ok_0.1;
    assert(r.take(mid.len() as int)[jump] == r[jump]);
    assert(mid[jump] == Op::JumpIfFalse { target: 0 });
    assert(all[jump] == Op::JumpIfFalse { target: 0 });
    if invert {
        assert(r.take(mid.len() as int)[at.left] == r[at.left]);
        assert(mid[at.left] == Op::Not);
    }
}

/// `&&`, `||` and `->` once their left operand has its value. Where that value
/// decides, the right operand is passed over, and the result is false for
/// `&&` and true for the others; where it does not, the right operand runs
/// next, with nothing left over from the left one.
pub proof fn law_left_operand_decides(
    c: CompilerView,
    t: TreeView,
    e: usize,
    ops: Seq<Op>,
    fuel: nat,
    k: Kind,
    at: Halves,
    vm: VmView,
    u: UnitFrame,
    b: bool,
)
    requires
        is_short(c, t, e, ops, fuel, k, at),
        is_loaded(vm.heap, u, at.end, at.code),
        is_at(vm, u, at.left, seq![Value::Bool(b)]),
    ensures
        k == Kind::And ==> if b {
            arrives(vm, u, at.left + 1, 1, seq![])
        } else {
            arrives(vm, u, at.code.len() as int, 1, seq![Value::Bool(false)])
        },
        k == Kind::Or ==> if b {
            arrives(vm, u, at.code.len() as int, 1, seq![Value::Bool(true)])
        } else {
            arrives(vm, u, at.left + 2, 1, seq![])
        },
        k == Kind::Implication ==> if b {
            arrives(vm, u, at.left + 1, 1, seq![])
        } else {
            arrives(vm, u, at.code.len() as int, 1, seq![Value::Bool(true)])
        },
{
    lemma_short_code(c, t, e, ops, fuel, k, at);
    let code = at.code;
    let jump = if k == Kind::Or {
        at.left + 1
    } else {
        at.left
    };
    let goes = if k == Kind::Or {
        !b
    } else {
        b
    };
    let target = (at.right - jump) as u32;
    lemma_op(vm.heap, u, at.end, code, at.left);
    // To the jump.
    let s = UnitFrame { ip: jump as usize, ..u };
    if k == Kind::Or {
        lemma_not(vm, u, b);
        lemma_still_at(vm, u, jump, 1, seq![Value::Bool(goes)]);
    }
    let here = if k == Kind::Or {
        moved(vm, u, jump, 1, seq![Value::Bool(goes)])
    } else {
        vm
    };
    assert(is_at(here, s, jump, seq![Value::Bool(goes)]));
    lemma_op(here.heap, s, at.end, code, jump);
    lemma_branch(here, s, target, goes);
    let to = if goes {
        jump + 1
    } else {
        at.right + 1
    };
    assert(to == if goes {
        s.ip + 1
    } else {
        s.ip + 1 + target
    });
    let none = Seq::<Value>::empty();
    let m: nat = if k == Kind::Or {
        2
    } else {
        1
    };
    assert(reaches(vm, moved(vm, u, to, 1, none), m)) by {
        if k == Kind::Or {
            lemma_then(vm, u, jump, 1, seq![Value::Bool(goes)], to, 1, none, 1, 1);
        }
    }
    if !goes {
        lemma_still_at(vm, u, to, 1, none);
        let last = moved(vm, u, to, 1, none);
        let z = UnitFrame { ip: to as usize, ..u };
        lemma_op(last.heap, z, at.end, code, to);
        let idx = code[to]->Const_0;
        lemma_const(last.heap, z, at.end, code, idx);
        let ans = Value::Bool(k != Kind::And);
        lemma_push_bool(last, z, idx, k != Kind::And);
        lemma_then(vm, u, to, 1, none, to + 1, 0, seq![ans], m, 1);
        assert(arrives(vm, u, code.len() as int, 1, seq![ans]));
    } else {
        assert(arrives(vm, u, to, 1, none));
    }
}

/// Once the right operand of such an operator has its value, that value is the
/// result.
pub proof fn law_right_operand_is_the_result(
    c: CompilerView,
    t: TreeView,
    e: usize,
    ops: Seq<Op>,
    fuel: nat,
    k: Kind,
    at: Halves,
    vm: VmView,
    u: UnitFrame,
)
    requires
        is_short(c, t, e, ops, fuel, k, at),
        is_loaded(vm.heap, u, at.end, at.code),
        is_at(vm, u, at.right, seq![]),
    ensures
        arrives(vm, u, at.code.len() as int, 0, seq![]),
{
    lemma_short_code(c, t, e, ops, fuel, k, at);
    lemma_op(vm.heap, u, at.end, at.code, at.right);
    lemma_jump(vm, u, 1);
    assert(u.ip + 1 + 1 == at.code.len());
}

// -- if ----------------------------------------------------------------------

/// The code of an `if`: where its condition ends, where what holds if it is
/// true does, and the whole.
pub struct Branches {
    pub condition: int,
    pub yes: int,
    pub end: CompilerView,
    pub code: Seq<Op>,
}

/// Whether a node is an `if`, and compiles to this code.
pub open spec fn is_if(
    c: CompilerView,
    t: TreeView,
    e: usize,
    ops: Seq<Op>,
    fuel: nat,
    at: Branches,
) -> bool {
    let less = (fuel - 1) as nat;
    let cond = c.compile(t, t.nth(e, Class::Exprs, 0)->0, ops, less);
    let one = cond->Ok_0.1.push(Op::JumpIfFalse { target: 0 });
    let yes = cond->Ok_0.0.compile(t, t.nth(e, Class::Exprs, 1)->0, one, less);
    &&& fuel > 0
    &&& t.kind(e) == Kind::IfElse
    &&& t.nth(e, Class::Exprs, 0) is Some
    &&& t.nth(e, Class::Exprs, 1) is Some
    &&& t.nth(e, Class::Exprs, 2) is Some
    &&& c.compile(t, e, ops, fuel) == Ok::<_, crate::lang::scopes::CompileErrorView>(
        (at.end, at.code),
    )
    &&& at.condition == cond->Ok_0.1.len()
    &&& at.yes == yes->Ok_0.1.len()
}

proof fn lemma_if_code(
    c: CompilerView,
    t: TreeView,
    e: usize,
    ops: Seq<Op>,
    fuel: nat,
    at: Branches,
)
    requires
        is_if(c, t, e, ops, fuel, at),
        at.code.len() < u32::MAX,
    ensures
        at.condition < at.yes < at.code.len(),
        at.code[at.condition] == (Op::JumpIfFalse { target: (at.yes - at.condition) as u32 }),
        at.code[at.yes] == (Op::Jump { target: (at.code.len() - at.yes - 1) as u32 }),
{
    let less = (fuel - 1) as nat;
    assert(c.compile(t, e, ops, fuel) == c.compile_if(t, e, ops, less));
    let cond = c.compile(t, t.nth(e, Class::Exprs, 0)->0, ops, less);
    let one = cond->Ok_0.1.push(Op::JumpIfFalse { target: 0 });
    let yes = cond->Ok_0.0.compile(t, t.nth(e, Class::Exprs, 1)->0, one, less);
    let y = yes->Ok_0.1;
    let two = y.push(Op::Jump { target: 0 });
    let no = yes->Ok_0.0.compile(t, t.nth(e, Class::Exprs, 2)->0, two, less);
    let n = no->Ok_0.1;
    law_compiling_appends(cond->Ok_0.0, t, t.nth(e, Class::Exprs, 1)->0, one, less);
    law_compiling_appends(yes->Ok_0.0, t, t.nth(e, Class::Exprs, 2)->0, two, less);
    assert(y.take(one.len() as int)[at.condition] == y[at.condition]);
    assert(n.take(two.len() as int)[at.condition] == n[at.condition]);
    assert(n.take(two.len() as int)[at.yes] == n[at.yes]);
    assert(one[at.condition] == Op::JumpIfFalse { target: 0 });
    assert(two[at.condition] == y[at.condition]);
    assert(n[at.condition] == Op::JumpIfFalse { target: 0 });
    assert(n[at.yes] == Op::Jump { target: 0 });
    let half = patched(n, at.condition, at.yes + 1);
    assert(at.code == patched(half, at.yes, n.len() as int));
}

/// `if` runs what stands behind `then` where the condition is true, and what
/// stands behind `else` where it is false.
pub proof fn law_if_runs_one_branch(
    c: CompilerView,
    t: TreeView,
    e: usize,
    ops: Seq<Op>,
    fuel: nat,
    at: Branches,
    vm: VmView,
    u: UnitFrame,
    b: bool,
)
    requires
        is_if(c, t, e, ops, fuel, at),
        is_loaded(vm.heap, u, at.end, at.code),
        is_at(vm, u, at.condition, seq![Value::Bool(b)]),
    ensures
        b ==> arrives(vm, u, at.condition + 1, 1, seq![]),
        !b ==> arrives(vm, u, at.yes + 1, 1, seq![]),
{
    lemma_if_code(c, t, e, ops, fuel, at);
    lemma_op(vm.heap, u, at.end, at.code, at.condition);
    lemma_branch(vm, u, (at.yes - at.condition) as u32, b);
}

/// Behind the first branch of an `if` the second one is passed over.
pub proof fn law_if_passes_over_the_other_branch(
    c: CompilerView,
    t: TreeView,
    e: usize,
    ops: Seq<Op>,
    fuel: nat,
    at: Branches,
    vm: VmView,
    u: UnitFrame,
)
    requires
        is_if(c, t, e, ops, fuel, at),
        is_loaded(vm.heap, u, at.end, at.code),
        is_at(vm, u, at.yes, seq![]),
    ensures
        arrives(vm, u, at.code.len() as int, 0, seq![]),
{
    lemma_if_code(c, t, e, ops, fuel, at);
    lemma_op(vm.heap, u, at.end, at.code, at.yes);
    lemma_jump(vm, u, (at.code.len() - at.yes - 1) as u32);
}

// -- assert ------------------------------------------------------------------

/// An assertion that holds lets its body run; one that does not fails, in the
/// way that can be caught.
pub proof fn law_assertion_guards_its_body(vm: VmView, u: UnitFrame, b: bool)
    requires
        is_at(vm, u, u.ip as int, seq![Value::Bool(b)]),
        vm.heap.op_at(u.module, u.unit, u.ip) == Some(Op::Assert),
        u.ip + 1 < u32::MAX,
    ensures
        b ==> arrives(vm, u, u.ip + 1, 1, seq![]),
        !b ==> exists|after: VmView| #[trigger]
            reaches(vm, after, 1) && (after.flow matches Flow::Unwind(e) && catchable(e)),
{
    let w = vm.heap.work(u.stack);
    let on = seq![Value::Bool(b)];
    assert(w[w.len() - 1 + 0] == Item::Val(on[0]));
    let h = vm.heap.work_put(u.stack, w.drop_last());
    assert(vm.heap.strict_at(u.stack, 1) is None);
    assert(vm.heap.gap_from(u.stack, 2, 1) is None);
    assert(vm.heap.gap(u.stack, 1) is None);
    let (g, o) = vm.heap.exec_op(u);
    lemma_unit_turn(vm, u, g, o);
    let none = Seq::<Value>::empty();
    assert(w.take(w.len() - 1) + Seq::new(none.len(), |i: int| Item::Val(none[i]))
        =~= w.drop_last());
    let low = under(vm).with_heap(g);
    if b {
        assert((g, o) == (h, OpOut::Go(stepped(u))));
        let next = low.push(Frame::Unit(stepped(u))).go(Flow::Advance);
        assert(next == moved(vm, u, u.ip + 1, 1, none));
        lemma_stays(next);
        lemma_moves_on(vm, next, next, 0);
    } else {
        let next = low.go(Flow::Unwind(o->Fail_0));
        lemma_stays(next);
        lemma_moves_on(vm, next, next, 0);
        assert(reaches(vm, next, 1));
    }
}

} // verus!
