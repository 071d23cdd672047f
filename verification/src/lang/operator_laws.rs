//! What the operators mean: what an operator written between two operands
//! comes to when both have their values.
use crate::lang::compile::strict_op;
use crate::lang::frames::{Dest, Flow, Frame, Task, UnitFrame, Yield};
use crate::lang::heap::{
    bind, lookup, place, ErrKind, Fault, HeapView, Item, Slot, SlotState, Sym, Value,
};
use crate::lang::ir::Op;
use crate::lang::lists::{int_arith, Arith};
use crate::lang::scopes::CompilerView;
use crate::lang::set_laws::{in_order, law_bound_name_is_found};
use crate::lang::strings::{text_order, text_order_from, Order};
use crate::lang::syntax::{Class, Kind, TreeView};
use crate::lang::units::{arith_words, stepped, updated, OpOut};
use crate::lang::vm::{Outcome, VmView};
use crate::lang::walks::{int_order, Ordered};
use crate::text::int_text;
use vstd::prelude::*;

verus! {

// -- a machine at an instruction ---------------------------------------------

/// Whether a machine is about to run an instruction of the unit on top, with
/// these values on the unit's stack, the last one topmost.
pub open spec fn about_to(vm: VmView, u: UnitFrame, op: Op, on: Seq<Value>) -> bool {
    let w = vm.heap.work(u.stack);
    &&& vm.pending is None
    &&& vm.flow == Flow::Advance
    &&& vm.frames.len() > 0
    &&& vm.frames.last() == Frame::Unit(u)
    &&& u.dest == Dest::Push
    &&& u.ip < usize::MAX
    &&& u.stack < vm.heap.works.len()
    &&& vm.heap.op_at(u.module, u.unit, u.ip) == Some(op)
    &&& w.len() >= on.len()
    &&& forall|i: int|
        0 <= i < on.len() ==> w[w.len() - on.len() + i] == Item::Val(#[trigger] on[i])
    &&& has_room(vm.heap)
}

/// Whether a few more of everything can be numbered.
pub open spec fn has_room(h: HeapView) -> bool {
    &&& h.slots.len() + 4 < usize::MAX
    &&& h.works.len() + 4 < usize::MAX
    &&& h.texts.len() + 4 < usize::MAX
    &&& h.lists.len() + 4 < usize::MAX
    &&& h.sets.len() + 4 < usize::MAX
}

/// Whether a machine, after so many turns, is past the instruction, with one
/// value in place of the `k` it took, and everything else of the unit as it
/// was.
pub open spec fn gives(vm: VmView, u: UnitFrame, k: int, v: Value, turns: nat) -> bool {
    exists|after: VmView| #[trigger] reaches(vm, after, turns) && past(vm, u, k, v, after)
}

/// Whether a machine is past the instruction that another one was at, with one
/// value in place of the `k` it took.
pub open spec fn past(vm: VmView, u: UnitFrame, k: int, v: Value, after: VmView) -> bool {
    let w = vm.heap.work(u.stack);
    &&& after.pending is None
    &&& after.flow == Flow::Advance
    &&& after.frames == vm.frames.drop_last().push(
        Frame::Unit(UnitFrame { ip: (u.ip + 1) as usize, ..u }),
    )
    &&& after.heap.work(u.stack) == w.take(w.len() - k).push(Item::Val(v))
    &&& after.heap.modules == vm.heap.modules
    &&& after.heap.envs == vm.heap.envs
    &&& vm.heap.texts.is_prefix_of(after.heap.texts)
    &&& vm.heap.lists.is_prefix_of(after.heap.lists)
    &&& vm.heap.sets.is_prefix_of(after.heap.sets)
}

/// Whether a machine gets past the instruction, with this value for the `k` it
/// took.
pub open spec fn comes_to(vm: VmView, u: UnitFrame, k: int, v: Value) -> bool {
    exists|turns: nat| #[trigger] gives(vm, u, k, v, turns)
}

/// Whether a machine fails at the instruction: with an error of the program,
/// and this message.
pub open spec fn fails_with(vm: VmView, message: Seq<char>) -> bool {
    exists|after: VmView| #[trigger] reaches(vm, after, 1) && unwinds_with(after, message)
}

/// Whether a failure with this message is on its way out.
pub open spec fn unwinds_with(after: VmView, message: Seq<char>) -> bool {
    &&& after.flow matches Flow::Unwind(e)
    &&& e matches Fault::Throw { kind, text, tail }
    &&& kind == ErrKind::Eval
    &&& tail is None
    &&& after.heap.text(text) == message
}

/// Whether a text comes before another: it is the beginning of the other, or
/// has the lower character where they first differ.
pub open spec fn comes_before(a: Seq<char>, b: Seq<char>) -> bool {
    exists|k: int| #[trigger]
        differs_at(a, b, k) && (k == a.len() || (k < b.len() && (a[k] as int) < (b[k] as int)))
}

/// Whether two texts agree up to a place and no further.
pub open spec fn differs_at(a: Seq<char>, b: Seq<char>, k: int) -> bool {
    &&& 0 <= k <= a.len()
    &&& k <= b.len()
    &&& k < a.len() || k < b.len()
    &&& forall|i: int| 0 <= i < k ==> a[i] == b[i]
    &&& k < a.len() && k < b.len() ==> a[k] != b[k]
}

pub proof fn lemma_text_order(a: Seq<char>, b: Seq<char>, i: int)
    requires
        0 <= i <= a.len(),
        i <= b.len(),
        forall|j: int| 0 <= j < i ==> a[j] == b[j],
    ensures
        text_order_from(a, b, i) == Order::Equal <==> a == b,
        text_order_from(a, b, i) == Order::Less <==> comes_before(a, b),
        text_order_from(a, b, i) == Order::Greater <==> comes_before(b, a),
    decreases a.len() - i,
{
    if i < a.len() && i < b.len() && a[i] == b[i] {
        lemma_text_order(a, b, i + 1);
    } else if i == a.len() && i == b.len() {
        assert(a =~= b);
        assert(forall|k: int| !differs_at(a, b, k));
    } else {
        assert(differs_at(a, b, i) && differs_at(b, a, i));
        assert forall|k: int| differs_at(a, b, k) || differs_at(b, a, k) implies k == i by {
            if k < i {
                assert(a[k] == b[k]);
            }
        }
        assert(a != b) by {
            if a == b {
                assert(a.len() == b.len());
            }
        }
    }
}

// -- turns -------------------------------------------------------------------

/// Whether one turn leads from one machine to the next.
#[verifier::opaque]
pub open spec fn moves(vm: VmView, next: VmView) -> bool {
    vm.turn() == (next, Outcome::More)
}

/// Whether so many turns lead from one machine to another.
#[verifier::opaque]
pub open spec fn reaches(vm: VmView, end: VmView, turns: nat) -> bool {
    vm.runs(turns) == (end, Outcome::More)
}

pub proof fn lemma_stays(vm: VmView)
    ensures
        reaches(vm, vm, 0),
{
    reveal(reaches);
}

pub proof fn lemma_moves_on(vm: VmView, next: VmView, end: VmView, turns: nat)
    requires
        moves(vm, next),
        reaches(next, end, turns),
    ensures
        reaches(vm, end, turns + 1),
{
    reveal(moves);
    reveal(reaches);
    assert((turns + 1 - 1) as nat == turns);
}

/// The machine without its topmost frame.
pub open spec fn under(vm: VmView) -> VmView {
    VmView { frames: vm.frames.drop_last(), ..vm }
}

/// Whether a machine is about to advance this frame.
pub open spec fn advances(vm: VmView, f: Frame) -> bool {
    &&& vm.pending is None
    &&& vm.flow == Flow::Advance
    &&& vm.frames.len() > 0
    &&& vm.frames.last() == f
}

/// Whether a machine is about to hand a value to this frame.
pub open spec fn hands(vm: VmView, v: Value, f: Frame) -> bool {
    &&& vm.pending is None
    &&& vm.flow == Flow::Deliver(v)
    &&& vm.frames.len() > 0
    &&& vm.frames.last() == f
}

/// What a machine does when a task has taken a step.
pub open spec fn after_task(low: VmView, h: HeapView, t: Task, y: Result<Yield, Fault>) -> VmView {
    let vm = low.with_heap(h);
    match y {
        Err(e) => vm.push(Frame::Task(t)).go(Flow::Unwind(e)),
        Ok(Yield::Need(need)) => VmView {
            pending: Some(need),
            ..vm.push(Frame::Task(t)).go(Flow::Advance)
        },
        Ok(Yield::Done(v)) => vm.go(Flow::Deliver(v)),
        Ok(Yield::Force(s)) => vm.push(Frame::Task(t)).push_force(s).go(Flow::Advance),
        Ok(Yield::Apply(f, arg)) => vm.push(Frame::Task(t)).push(Frame::Apply { f, arg }).go(
            Flow::Advance,
        ),
        Ok(Yield::Sub(sub)) => vm.push(Frame::Task(t)).push(Frame::Task(sub)).go(Flow::Advance),
    }
}

pub proof fn lemma_eq_turn(
    vm: VmView,
    work: usize,
    cur: Option<(usize, usize)>,
    stage: u8,
    negate: bool,
)
    requires
        advances(vm, Frame::Task(Task::DeepEq { work, cur, stage, negate })),
    ensures
        ({
            let (h, (t, y)) = vm.heap.step_eq(work, cur, stage, negate, None);
            moves(vm, after_task(under(vm), h, t, y))
        }),
{
    reveal(moves);
    assert(vm.go(Flow::Advance) == vm);
}

pub proof fn lemma_eq_handed(
    vm: VmView,
    work: usize,
    cur: Option<(usize, usize)>,
    stage: u8,
    negate: bool,
    v: Value,
)
    requires
        hands(vm, v, Frame::Task(Task::DeepEq { work, cur, stage, negate })),
    ensures
        ({
            let (h, (t, y)) = vm.heap.step_eq(work, cur, stage, negate, Some(v));
            moves(vm, after_task(under(vm).go(Flow::Advance), h, t, y))
        }),
{
    reveal(moves);
}

pub proof fn lemma_compare_turn(
    vm: VmView,
    stack: usize,
    cur: Option<(usize, usize)>,
    stage: u8,
    negate: bool,
)
    requires
        advances(vm, Frame::Task(Task::Compare { stack, cur, stage, negate })),
    ensures
        ({
            let (h, (t, y)) = vm.heap.step_compare(stack, cur, stage, negate, None);
            moves(vm, after_task(under(vm), h, t, y))
        }),
{
    reveal(moves);
    assert(vm.go(Flow::Advance) == vm);
}

/// A slot that has its value hands it over.
pub proof fn lemma_force_turn(vm: VmView, slot: usize, v: Value)
    requires
        advances(vm, (Frame::Force { slot, entered: false })),
        vm.heap.slot(slot) == SlotState::Value(v),
    ensures
        moves(vm, under(vm).go(Flow::Deliver(v))),
{
    reveal(moves);
    assert(vm.go(Flow::Advance) == vm);
}

/// A value that a unit waited for lands on its stack.
pub proof fn lemma_unit_handed(vm: VmView, u: UnitFrame, v: Value)
    requires
        hands(vm, v, Frame::Unit(u)),
        u.dest == Dest::Push,
    ensures
        moves(
            vm,
            under(vm).with_heap(vm.heap.push_value(u.stack, v)).push(Frame::Unit(u)).go(
                Flow::Advance,
            ),
        ),
{
    reveal(moves);
    assert(UnitFrame { dest: Dest::Push, ..u } == u);
}

pub proof fn lemma_unit_turn(vm: VmView, u: UnitFrame, h: HeapView, o: OpOut)
    requires
        advances(vm, Frame::Unit(u)),
        vm.heap.exec_op(u) == (h, o),
    ensures
        ({
            let low = under(vm).with_heap(h);
            &&& o matches OpOut::Go(s) ==> moves(vm, low.push(Frame::Unit(s)).go(Flow::Advance))
            &&& o matches OpOut::Run(s, t) ==> moves(
                vm,
                low.push(Frame::Unit(s)).push(Frame::Task(t)).go(Flow::Advance),
            )
            &&& o matches OpOut::Fail(e) ==> moves(vm, low.go(Flow::Unwind(e)))
            &&& o matches OpOut::Force(s, slot) ==> moves(
                vm,
                low.push(Frame::Unit(s)).push_force(slot).go(Flow::Advance),
            )
            &&& o matches OpOut::Call(s, f, arg) ==> moves(
                vm,
                low.push(Frame::Unit(s)).push(Frame::Apply { f, arg }).go(Flow::Advance),
            )
            &&& o matches OpOut::Deliver(v) ==> moves(vm, low.go(Flow::Deliver(v)))
        }),
{
    reveal(moves);
    assert(vm.go(Flow::Advance) == vm);
}

/// The heap once the topmost values are off a stack.
pub open spec fn popped(h: HeapView, st: usize, k: int) -> HeapView {
    h.work_put(st, h.work(st).take(h.work(st).len() - k))
}

pub proof fn lemma_no_gap(vm: VmView, u: UnitFrame, op: Op, on: Seq<Value>, off: int, k: int)
    requires
        about_to(vm, u, op, on),
        1 <= off,
        k <= on.len(),
    ensures
        vm.heap.gap_from(u.stack, off, k) is None,
    decreases k - off + 1,
{
    if off <= k {
        let w = vm.heap.work(u.stack);
        assert(w[w.len() - on.len() + (on.len() - off)] == Item::Val(on[on.len() - off]));
        lemma_no_gap(vm, u, op, on, off + 1, k);
    }
}

proof fn lemma_two(vm: VmView, u: UnitFrame, op: Op, l: Value, r: Value)
    requires
        about_to(vm, u, op, seq![l, r]),
    ensures
        vm.heap.gap(u.stack, 2) is None,
        ({
            let (h, x) = vm.heap.pop_value(u.stack);
            let (g, y) = h.pop_value(u.stack);
            &&& x == Ok::<Value, Fault>(r)
            &&& y == Ok::<Value, Fault>(l)
            &&& g == popped(vm.heap, u.stack, 2)
        }),
{
    let on = seq![l, r];
    let w = vm.heap.work(u.stack);
    lemma_no_gap(vm, u, op, on, 1, 2);
    assert(w[w.len() - 2 + 0] == Item::Val(on[0]));
    assert(w[w.len() - 2 + 1] == Item::Val(on[1]));
    assert(w.last() == Item::Val(r));
    let h = vm.heap.work_put(u.stack, w.drop_last());
    assert(h.work(u.stack) == w.drop_last());
    assert(w.drop_last().last() == Item::Val(l));
    let g = h.work_put(u.stack, w.drop_last().drop_last());
    assert(w.drop_last().drop_last() =~= w.take(w.len() - 2));
    assert(h.works.update(u.stack as int, w.take(w.len() - 2)) =~= vm.heap.works.update(
        u.stack as int,
        w.take(w.len() - 2),
    ));
}

pub proof fn lemma_one(vm: VmView, u: UnitFrame, op: Op, v: Value)
    requires
        about_to(vm, u, op, seq![v]),
    ensures
        vm.heap.gap(u.stack, 1) is None,
        vm.heap.pop_value(u.stack) == (popped(vm.heap, u.stack, 1), Ok::<Value, Fault>(v)),
{
    let on = seq![v];
    let w = vm.heap.work(u.stack);
    lemma_no_gap(vm, u, op, on, 1, 1);
    assert(w[w.len() - 1 + 0] == Item::Val(on[0]));
    assert(w.last() == Item::Val(v));
    assert(w.drop_last() =~= w.take(w.len() - 1));
}

/// An instruction that is done in one turn.
pub proof fn lemma_at_once(vm: VmView, u: UnitFrame, op: Op, on: Seq<Value>, k: int, h: HeapView, v: Value)
    requires
        about_to(vm, u, op, on),
        0 <= k <= vm.heap.work(u.stack).len(),
        vm.heap.exec_op(u) == (h.push_value(u.stack, v), OpOut::Go(stepped(u))),
        h.work(u.stack) == vm.heap.work(u.stack).take(vm.heap.work(u.stack).len() - k),
        u.stack < h.works.len(),
        h.modules == vm.heap.modules,
        h.envs == vm.heap.envs,
        vm.heap.texts.is_prefix_of(h.texts),
        vm.heap.lists.is_prefix_of(h.lists),
        vm.heap.sets.is_prefix_of(h.sets),
    ensures
        gives(vm, u, k, v, 1),
        reaches(
            vm,
            under(vm).with_heap(h.push_value(u.stack, v)).push(Frame::Unit(stepped(u))).go(
                Flow::Advance,
            ),
            1,
        ),
{
    let g = h.push_value(u.stack, v);
    let next = under(vm).with_heap(g).push(Frame::Unit(stepped(u))).go(Flow::Advance);
    lemma_unit_turn(vm, u, g, OpOut::Go(stepped(u)));
    lemma_stays(next);
    lemma_moves_on(vm, next, next, 0);
    assert(past(vm, u, k, v, next));
}

pub proof fn lemma_fails_at_once(vm: VmView, u: UnitFrame, op: Op, on: Seq<Value>, h: HeapView, m: Seq<char>)
    requires
        about_to(vm, u, op, on),
        vm.heap.exec_op(u) == (h.fail::<Value>(m).0, OpOut::Fail(h.fail::<Value>(m).1->Err_0)),
        h.texts == vm.heap.texts,
    ensures
        fails_with(vm, m),
{
    let (g, e) = h.fail::<Value>(m);
    let next = under(vm).with_heap(g).go(Flow::Unwind(e->Err_0));
    lemma_unit_turn(vm, u, g, OpOut::Fail(e->Err_0));
    lemma_stays(next);
    lemma_moves_on(vm, next, next, 0);
    assert(unwinds_with(next, m));
}

// -- ordering ----------------------------------------------------------------

proof fn lemma_ordered(
    vm: VmView,
    u: UnitFrame,
    op: Op,
    l: Value,
    r: Value,
    swap: bool,
    negate: bool,
    o: Order,
)
    requires
        about_to(vm, u, op, seq![l, r]),
        vm.heap.exec_op(u) == vm.heap.op_order(u, swap, negate),
        !(l is List) && !(r is List),
        (if swap {
            vm.heap.scalar_order(r, l)
        } else {
            vm.heap.scalar_order(l, r)
        }) == (vm.heap, Ok::<Ordered, Fault>(Ordered::Known(o))),
    ensures
        gives(vm, u, 2, Value::Bool((o == Order::Less) != negate), 3),
{
    lemma_two(vm, u, op, l, r);
    let w = vm.heap.work(u.stack);
    let g = popped(vm.heap, u.stack, 2);
    let (x, y) = if swap {
        (r, l)
    } else {
        (l, r)
    };
    let (h, t) = g.compare(x, y, negate);
    let s = stepped(u);
    let low = under(vm);
    let base = low.with_heap(h).push(Frame::Unit(s)).go(Flow::Advance);
    let one = base.push(Frame::Task(t));
    lemma_unit_turn(vm, u, h, OpOut::Run(s, t));
    let ls = g.slots.len() as usize;
    let rs = (ls + 1) as usize;
    let stack = g.works.len() as usize;
    assert(t == (Task::Compare { stack, cur: Some((ls, rs)), stage: 1, negate }));
    assert(h.slots == g.slots.push(SlotState::Value(x)).push(SlotState::Value(y)));
    assert(h.slot(ls) == SlotState::Value(x));
    assert(h.slot(rs) == SlotState::Value(y));
    assert(h.work(stack) == Seq::<Item>::empty());
    let ans = Value::Bool((o == Order::Less) != negate);
    assert(h.scalar_order(x, y).1 == Ok::<Ordered, Fault>(Ordered::Known(o)));
    assert(h.scalar_order(x, y).0 == h);
    let (h2, (t2, y2)) = h.step_compare(stack, Some((ls, rs)), 1, negate, None);
    assert(h2 == h && y2 == Ok::<Yield, Fault>(Yield::Done(ans)));
    assert(one.frames.drop_last() =~= base.frames);
    lemma_compare_turn(one, stack, Some((ls, rs)), 1, negate);
    let two = base.go(Flow::Deliver(ans));
    assert(after_task(under(one), h2, t2, y2) == two);
    assert(two.frames.drop_last() =~= low.frames);
    lemma_unit_handed(two, s, ans);
    let three = low.with_heap(h.push_value(u.stack, ans)).push(Frame::Unit(s)).go(Flow::Advance);
    assert(under(two).with_heap(h.push_value(u.stack, ans)).push(Frame::Unit(s)).go(Flow::Advance)
        == three);
    lemma_stays(three);
    lemma_moves_on(two, three, three, 0);
    lemma_moves_on(one, two, three, 1);
    lemma_moves_on(vm, one, three, 2);
    assert(h.work(u.stack) == w.take(w.len() - 2));
    assert(three.heap.work(u.stack) == w.take(w.len() - 2).push(Item::Val(ans)));
    assert(past(vm, u, 2, ans, three));
}

// -- equality ----------------------------------------------------------------

/// Whether two values have no parts that have to be compared, nor need a
/// float to be.
pub open spec fn is_plain(v: Value) -> bool {
    !(v is List) && !(v is Attrs) && !(v is Float)
}

/// Whether two values without parts are equal: of one kind, and the same
/// there. Functions equal nothing.
pub open spec fn plainly_equal(h: HeapView, l: Value, r: Value) -> bool {
    match (l, r) {
        (Value::Int(a), Value::Int(b)) => a == b,
        (Value::Bool(a), Value::Bool(b)) => a == b,
        (Value::Null, Value::Null) => true,
        (Value::Str(a), Value::Str(b)) => h.text(a) == h.text(b),
        (Value::Path(a), Value::Path(b)) => h.text(a) == h.text(b),
        _ => false,
    }
}

proof fn lemma_equal(vm: VmView, u: UnitFrame, op: Op, l: Value, r: Value, negate: bool)
    requires
        about_to(vm, u, op, seq![l, r]),
        vm.heap.exec_op(u) == vm.heap.op_eq(u, negate),
        is_plain(l) && is_plain(r),
    ensures
        gives(vm, u, 2, Value::Bool(plainly_equal(vm.heap, l, r) != negate), 7),
{
    lemma_two(vm, u, op, l, r);
    let w = vm.heap.work(u.stack);
    let g = popped(vm.heap, u.stack, 2);
    let (h, t) = g.deep_eq(l, r, negate);
    let s = stepped(u);
    let low = under(vm);
    let base = low.with_heap(h).push(Frame::Unit(s)).go(Flow::Advance);
    let one = base.push(Frame::Task(t));
    lemma_unit_turn(vm, u, h, OpOut::Run(s, t));
    let ls = g.slots.len() as usize;
    let rs = (ls + 1) as usize;
    let work = g.works.len() as usize;
    assert(t == (Task::DeepEq { work, cur: None, stage: 0, negate }));
    assert(h.slots == g.slots.push(SlotState::Value(l)).push(SlotState::Value(r)));
    assert(h.slot(ls) == SlotState::Value(l));
    assert(h.slot(rs) == SlotState::Value(r));
    assert(h.work(work) == seq![Item::Pair(ls, rs)]);
    // The pair is taken, and its left side forced.
    let h2 = h.work_put(work, Seq::empty());
    assert(seq![Item::Pair(ls, rs)].drop_last() =~= Seq::<Item>::empty());
    let t2 = Task::DeepEq { work, cur: Some((ls, rs)), stage: 0, negate };
    assert(h.step_eq(work, None, 0, negate, None) == (
        h2,
        (t2, Ok::<Yield, Fault>(Yield::Force(ls))),
    ));
    assert(under(one).frames =~= base.frames);
    let with = base.with_heap(h2);
    let mid = with.push(Frame::Task(t2));
    let two = mid.push_force(ls);
    lemma_eq_turn(one, work, None, 0, negate);
    assert(h2.slot(ls) == SlotState::Value(l) && h2.slot(rs) == SlotState::Value(r));
    assert(under(two).frames =~= mid.frames);
    let three = mid.go(Flow::Deliver(l));
    lemma_force_turn(two, ls, l);
    assert(under(two).go(Flow::Deliver(l)) == three);
    // Then its right side.
    let t3 = Task::DeepEq { work, cur: Some((ls, rs)), stage: 1, negate };
    assert(h2.step_eq(work, Some((ls, rs)), 0, negate, Some(l)) == (
        h2,
        (t3, Ok::<Yield, Fault>(Yield::Force(rs))),
    ));
    assert(under(three).frames =~= with.frames);
    let last = with.push(Frame::Task(t3));
    let four = last.push_force(rs);
    lemma_eq_handed(three, work, Some((ls, rs)), 0, negate, l);
    assert(under(three).go(Flow::Advance) == with);
    assert(under(four).frames =~= last.frames);
    let five = last.go(Flow::Deliver(r));
    lemma_force_turn(four, rs, r);
    assert(under(four).go(Flow::Deliver(r)) == five);
    // Then they are compared.
    let same = plainly_equal(vm.heap, l, r);
    let ans = Value::Bool(same != negate);
    lemma_compared(h2, work, ls, rs, l, r, negate);
    assert(under(five).frames =~= with.frames);
    let six = with.go(Flow::Deliver(ans));
    lemma_eq_handed(five, work, Some((ls, rs)), 1, negate, r);
    assert(under(five).go(Flow::Advance) == with);
    assert(with.frames.drop_last() =~= low.frames);
    let seven = low.with_heap(h2.push_value(u.stack, ans)).push(Frame::Unit(s)).go(Flow::Advance);
    lemma_unit_handed(six, s, ans);
    assert(under(six).with_heap(h2.push_value(u.stack, ans)).push(Frame::Unit(s)).go(Flow::Advance)
        == seven);
    lemma_stays(seven);
    lemma_moves_on(six, seven, seven, 0);
    lemma_moves_on(five, six, seven, 1);
    lemma_moves_on(four, five, seven, 2);
    lemma_moves_on(three, four, seven, 3);
    lemma_moves_on(two, three, seven, 4);
    lemma_moves_on(one, two, seven, 5);
    lemma_moves_on(vm, one, seven, 6);
    assert(h2.work(u.stack) == w.take(w.len() - 2));
    assert(seven.heap.work(u.stack) == w.take(w.len() - 2).push(Item::Val(ans)));
    assert(past(vm, u, 2, ans, seven));
}

/// Comparing two plain values that are forced decides at once.
proof fn lemma_compared(
    h: HeapView,
    work: usize,
    ls: usize,
    rs: usize,
    l: Value,
    r: Value,
    negate: bool,
)
    requires
        is_plain(l) && is_plain(r),
        ls != rs,
        h.slot(ls) == SlotState::Value(l),
        h.slot(rs) == SlotState::Value(r),
        h.work(work).len() == 0,
    ensures
        ({
            let (g, (t, y)) = h.step_eq(work, Some((ls, rs)), 1, negate, Some(r));
            g == h && y == Ok::<Yield, Fault>(
                Yield::Done(Value::Bool(plainly_equal(h, l, r) != negate)),
            )
        }),
{
}

// -- what is written ---------------------------------------------------------

/// Whether a node is a binary operator of this kind between two operands, and
/// compiles to this code, behind the code that was there.
pub open spec fn is_written(
    c: CompilerView,
    t: TreeView,
    e: usize,
    ops: Seq<Op>,
    fuel: nat,
    k: Kind,
    code: Seq<Op>,
) -> bool {
    &&& fuel > 0
    &&& t.kind(e) == Kind::BinOp
    &&& t.nth(e, Class::Binary, 0) is Some
    &&& t.kind(t.nth(e, Class::Binary, 0)->0) == k
    &&& t.nth(e, Class::Exprs, 0) is Some
    &&& t.nth(e, Class::Exprs, 1) is Some
    &&& c.compile(t, e, ops, fuel) is Ok
    &&& c.compile(t, e, ops, fuel)->Ok_0.1 == code
}

/// Whether an operator takes both its operands whatever they are.
pub open spec fn is_strict(k: Kind) -> bool {
    k != Kind::And && k != Kind::Or && k != Kind::Implication
}

/// The code of an operator is that of its left operand, that of its right one,
/// and one instruction.
pub proof fn law_operands_come_first(
    c: CompilerView,
    t: TreeView,
    e: usize,
    ops: Seq<Op>,
    fuel: nat,
    k: Kind,
    code: Seq<Op>,
)
    requires
        is_written(c, t, e, ops, fuel, k, code),
        is_strict(k),
    ensures
        ({
            let left = c.compile(t, t.nth(e, Class::Exprs, 0)->0, ops, (fuel - 1) as nat);
            let right = left->Ok_0.0.compile(
                t,
                t.nth(e, Class::Exprs, 1)->0,
                left->Ok_0.1,
                (fuel - 1) as nat,
            );
            &&& left is Ok
            &&& right is Ok
            &&& code == right->Ok_0.1.push(code.last())
            &&& c.compile(t, e, ops, fuel)->Ok_0.0 == right->Ok_0.0
        }),
{
    lemma_strict_code(c, t, e, ops, fuel, k, code);
}

proof fn lemma_strict_code(
    c: CompilerView,
    t: TreeView,
    e: usize,
    ops: Seq<Op>,
    fuel: nat,
    k: Kind,
    code: Seq<Op>,
)
    requires
        is_written(c, t, e, ops, fuel, k, code),
        is_strict(k),
    ensures
        ({
            let left = c.compile(t, t.nth(e, Class::Exprs, 0)->0, ops, (fuel - 1) as nat);
            let right = left->Ok_0.0.compile(
                t,
                t.nth(e, Class::Exprs, 1)->0,
                left->Ok_0.1,
                (fuel - 1) as nat,
            );
            &&& left is Ok
            &&& right is Ok
            &&& strict_op(k) is Some
            &&& code == right->Ok_0.1.push(strict_op(k)->0)
            &&& c.compile(t, e, ops, fuel)->Ok_0.0 == right->Ok_0.0
        }),
{
    let less = (fuel - 1) as nat;
    let lhs = t.nth(e, Class::Exprs, 0)->0;
    let rhs = t.nth(e, Class::Exprs, 1)->0;
    assert(c.compile(t, e, ops, fuel) == c.compile_binop(t, e, ops, less));
    assert(c.compile_binop(t, e, ops, less) == c.compile_strict(t, lhs, rhs, k, ops, less));
}

/// The instruction of a strict operator.
proof fn lemma_instruction(
    c: CompilerView,
    t: TreeView,
    e: usize,
    ops: Seq<Op>,
    fuel: nat,
    k: Kind,
    code: Seq<Op>,
)
    requires
        is_written(c, t, e, ops, fuel, k, code),
        is_strict(k),
    ensures
        strict_op(k) == Some(code.last()),
{
    lemma_strict_code(c, t, e, ops, fuel, k, code);
}

/// `==` and `!=` of two values without parts: whether they are of one kind and
/// the same, and whether not. One is always the opposite of the other.
pub proof fn law_equality_means_equal(
    c: CompilerView,
    t: TreeView,
    e: usize,
    ops: Seq<Op>,
    fuel: nat,
    k: Kind,
    code: Seq<Op>,
    vm: VmView,
    u: UnitFrame,
    l: Value,
    r: Value,
)
    requires
        is_written(c, t, e, ops, fuel, k, code),
        about_to(vm, u, code.last(), seq![l, r]),
        is_plain(l) && is_plain(r),
    ensures
        k == Kind::Equal ==> comes_to(vm, u, 2, Value::Bool(plainly_equal(vm.heap, l, r))),
        k == Kind::NotEqual ==> comes_to(vm, u, 2, Value::Bool(!plainly_equal(vm.heap, l, r))),
{
    if k == Kind::Equal || k == Kind::NotEqual {
        lemma_instruction(c, t, e, ops, fuel, k, code);
        lemma_equal(vm, u, code.last(), l, r, k == Kind::NotEqual);
    }
}

/// `<`, `<=`, `>` and `>=` of two integers compare the integers.
pub proof fn law_order_of_integers(
    c: CompilerView,
    t: TreeView,
    e: usize,
    ops: Seq<Op>,
    fuel: nat,
    k: Kind,
    code: Seq<Op>,
    vm: VmView,
    u: UnitFrame,
    a: i64,
    b: i64,
)
    requires
        is_written(c, t, e, ops, fuel, k, code),
        about_to(vm, u, code.last(), seq![Value::Int(a), Value::Int(b)]),
    ensures
        k == Kind::Less ==> comes_to(vm, u, 2, Value::Bool(a < b)),
        k == Kind::LessOrEq ==> comes_to(vm, u, 2, Value::Bool(a <= b)),
        k == Kind::More ==> comes_to(vm, u, 2, Value::Bool(a > b)),
        k == Kind::MoreOrEq ==> comes_to(vm, u, 2, Value::Bool(a >= b)),
{
    if k == Kind::Less || k == Kind::LessOrEq || k == Kind::More || k == Kind::MoreOrEq {
        lemma_instruction(c, t, e, ops, fuel, k, code);
        let swap = k == Kind::More || k == Kind::LessOrEq;
        let negate = k == Kind::LessOrEq || k == Kind::MoreOrEq;
        let o = if swap {
            int_order(b, a)
        } else {
            int_order(a, b)
        };
        lemma_ordered(vm, u, code.last(), Value::Int(a), Value::Int(b), swap, negate, o);
    }
}

/// `<`, `<=`, `>` and `>=` of two strings, or of two paths, compare their
/// characters from the front.
pub proof fn law_order_of_texts(
    c: CompilerView,
    t: TreeView,
    e: usize,
    ops: Seq<Op>,
    fuel: nat,
    k: Kind,
    code: Seq<Op>,
    vm: VmView,
    u: UnitFrame,
    l: Value,
    r: Value,
    a: usize,
    b: usize,
)
    requires
        is_written(c, t, e, ops, fuel, k, code),
        (l == Value::Str(a) && r == Value::Str(b)) || (l == Value::Path(a) && r == Value::Path(b)),
        about_to(vm, u, code.last(), seq![l, r]),
    ensures
        ({
            let x = vm.heap.text(a);
            let y = vm.heap.text(b);
            &&& k == Kind::Less ==> comes_to(vm, u, 2, Value::Bool(comes_before(x, y)))
            &&& k == Kind::LessOrEq ==> comes_to(
                vm,
                u,
                2,
                Value::Bool(comes_before(x, y) || x == y),
            )
            &&& k == Kind::More ==> comes_to(vm, u, 2, Value::Bool(comes_before(y, x)))
            &&& k == Kind::MoreOrEq ==> comes_to(
                vm,
                u,
                2,
                Value::Bool(comes_before(y, x) || x == y),
            )
        }),
{
    if k == Kind::Less || k == Kind::LessOrEq || k == Kind::More || k == Kind::MoreOrEq {
        lemma_instruction(c, t, e, ops, fuel, k, code);
        let swap = k == Kind::More || k == Kind::LessOrEq;
        let negate = k == Kind::LessOrEq || k == Kind::MoreOrEq;
        let x = vm.heap.text(a);
        let y = vm.heap.text(b);
        lemma_text_order(x, y, 0);
        lemma_text_order(y, x, 0);
        let o = if swap {
            text_order(y, x)
        } else {
            text_order(x, y)
        };
        lemma_ordered(vm, u, code.last(), l, r, swap, negate, o);
    }
}

/// The rest of a division that rounds toward zero.
pub open spec fn is_quotient(a: int, b: int, q: int) -> bool {
    let rest = a - q * b;
    &&& (if rest >= 0 {
        rest
    } else {
        -rest
    }) < (if b >= 0 {
        b
    } else {
        -b
    })
    &&& a >= 0 ==> rest >= 0
    &&& a <= 0 ==> rest <= 0
}

pub proof fn lemma_quotient(a: i64, b: i64)
    requires
        b != 0,
    ensures
        a.checked_div(b) matches Some(q) ==> is_quotient(a as int, b as int, q as int),
        a.checked_div(b) is None ==> a == i64::MIN && b == -1,
{
    let x: int = if a >= 0 {
        a as int
    } else {
        -(a as int)
    };
    let d: int = if b >= 0 {
        b as int
    } else {
        -(b as int)
    };
    let q = x / d;
    let m = x % d;
    assert(x == q * d + m && 0 <= m < d && 0 <= q <= x) by (nonlinear_arith)
        requires
            x >= 0,
            d > 0,
            q == x / d,
            m == x % d,
    ;
    assert(d > 1 && x > 0 ==> q < x) by (nonlinear_arith)
        requires
            x == q * d + m,
            0 <= m < d,
            0 <= q <= x,
    ;
    assert((-q) * (-d) == q * d && (-q) * d == -(q * d) && q * (-d) == -(q * d)) by (nonlinear_arith);
    assert(a.checked_div(b) matches Some(z) ==> (z == q || z == -q));
}

/// `+`, `-`, `*` and `/` of two integers are the sum, the difference, the
/// product and the quotient rounded toward zero, where that fits; else they
/// fail and say what did not fit. Dividing by zero fails.
pub proof fn law_arithmetic_of_integers(
    c: CompilerView,
    t: TreeView,
    e: usize,
    ops: Seq<Op>,
    fuel: nat,
    k: Kind,
    code: Seq<Op>,
    vm: VmView,
    u: UnitFrame,
    a: i64,
    b: i64,
)
    requires
        is_written(c, t, e, ops, fuel, k, code),
        about_to(vm, u, code.last(), seq![Value::Int(a), Value::Int(b)]),
    ensures
        k == Kind::Add ==> if i64::MIN <= a + b <= i64::MAX {
            comes_to(vm, u, 2, Value::Int((a + b) as i64))
        } else {
            fails_with(
                vm,
                "integer overflow in adding "@ + int_text(a as int) + " + "@ + int_text(b as int),
            )
        },
        k == Kind::Sub ==> if i64::MIN <= a - b <= i64::MAX {
            comes_to(vm, u, 2, Value::Int((a - b) as i64))
        } else {
            fails_with(
                vm,
                "integer overflow in subtracting "@ + int_text(a as int) + " - "@ + int_text(
                    b as int,
                ),
            )
        },
        k == Kind::Mul ==> if i64::MIN <= a * b <= i64::MAX {
            comes_to(vm, u, 2, Value::Int((a * b) as i64))
        } else {
            fails_with(
                vm,
                "integer overflow in multiplying "@ + int_text(a as int) + " * "@ + int_text(
                    b as int,
                ),
            )
        },
        k == Kind::Div ==> if b == 0 {
            fails_with(vm, "division by zero"@)
        } else if a == i64::MIN && b == -1 {
            fails_with(
                vm,
                "integer overflow in dividing "@ + int_text(a as int) + " / "@ + int_text(b as int),
            )
        } else {
            exists|q: i64| #[trigger]
                comes_to(vm, u, 2, Value::Int(q)) && is_quotient(a as int, b as int, q as int)
        },
{
    if k == Kind::Add || k == Kind::Sub || k == Kind::Mul || k == Kind::Div {
        lemma_instruction(c, t, e, ops, fuel, k, code);
        let op = if k == Kind::Add {
            Arith::Add
        } else if k == Kind::Sub {
            Arith::Sub
        } else if k == Kind::Mul {
            Arith::Mul
        } else {
            Arith::Div
        };
        let l = Value::Int(a);
        let r = Value::Int(b);
        lemma_two(vm, u, code.last(), l, r);
        let g = popped(vm.heap, u.stack, 2);
        assert(vm.heap.exec_op(u) == g.add_numbers(u, op, l, r));
        let on = seq![l, r];
        if b != 0 {
            lemma_quotient(a, b);
        }
        if op == Arith::Div && b == 0 {
            lemma_fails_at_once(vm, u, code.last(), on, g, "division by zero"@);
        } else {
            match int_arith(op, a, b) {
                Some(n) => {
                    lemma_same(vm.heap);
                    lemma_at_once(vm, u, code.last(), on, 2, g, Value::Int(n));
                    assert(gives(vm, u, 2, Value::Int(n), 1));
                    assert(comes_to(vm, u, 2, Value::Int(n)));
                },
                None => {
                    let (verb, sign) = arith_words(op);
                    let m = "integer overflow in "@ + verb + int_text(a as int) + sign + int_text(
                        b as int,
                    );
                    lemma_fails_at_once(vm, u, code.last(), on, g, m);
                    lemma_words(op);
                    assert("integer overflow in "@ + verb == whole_words(op));
                },
            }
        }
    }
}

spec fn whole_words(op: Arith) -> Seq<char> {
    match op {
        Arith::Add => "integer overflow in adding "@,
        Arith::Sub => "integer overflow in subtracting "@,
        Arith::Mul => "integer overflow in multiplying "@,
        Arith::Div => "integer overflow in dividing "@,
    }
}

proof fn lemma_words(op: Arith)
    ensures
        "integer overflow in "@ + arith_words(op).0 == whole_words(op),
{
    reveal_strlit("integer overflow in ");
    reveal_strlit("adding ");
    reveal_strlit("subtracting ");
    reveal_strlit("multiplying ");
    reveal_strlit("dividing ");
    reveal_strlit("integer overflow in adding ");
    reveal_strlit("integer overflow in subtracting ");
    reveal_strlit("integer overflow in multiplying ");
    reveal_strlit("integer overflow in dividing ");
    assert("integer overflow in "@ + arith_words(op).0 =~= whole_words(op));
}

pub proof fn lemma_same(h: HeapView)
    ensures
        h.texts.is_prefix_of(h.texts),
        h.lists.is_prefix_of(h.lists),
        h.sets.is_prefix_of(h.sets),
{
    assert(h.texts.take(h.texts.len() as int) =~= h.texts);
    assert(h.lists.take(h.lists.len() as int) =~= h.lists);
    assert(h.sets.take(h.sets.len() as int) =~= h.sets);
}

/// Whether a machine gets past the instruction with a string of this text for
/// the `k` values it took.
pub open spec fn comes_to_text(vm: VmView, u: UnitFrame, k: int, text: Seq<char>) -> bool {
    exists|after: VmView, turns: nat, id: usize| #[trigger]
        reaches(vm, after, turns) && #[trigger] past(vm, u, k, Value::Str(id), after)
            && after.heap.text(id) == text
}

pub open spec fn comes_to_list(vm: VmView, u: UnitFrame, k: int, items: Seq<usize>) -> bool {
    exists|after: VmView, turns: nat, id: usize| #[trigger]
        reaches(vm, after, turns) && #[trigger] past(vm, u, k, Value::List(id), after)
            && after.heap.list(id) == items
}

/// Whether a machine gets past the instruction with a set that has what the
/// second of two sets has, and for other names what the first has.
pub open spec fn comes_to_union(
    vm: VmView,
    u: UnitFrame,
    k: int,
    first: Seq<(Sym, Slot)>,
    second: Seq<(Sym, Slot)>,
) -> bool {
    exists|after: VmView, turns: nat, id: usize| #[trigger]
        reaches(vm, after, turns) && #[trigger] past(vm, u, k, Value::Attrs(id), after)
            && is_union(first, second, after.heap.set(id))
}

pub open spec fn is_union(
    first: Seq<(Sym, Slot)>,
    second: Seq<(Sym, Slot)>,
    both: Seq<(Sym, Slot)>,
) -> bool {
    &&& in_order(both)
    &&& forall|k: Sym| #[trigger]
        lookup(both, k) == if lookup(second, k) is Some {
            lookup(second, k)
        } else {
            lookup(first, k)
        }
}

/// `+` of a string and a string is one text behind the other.
pub proof fn law_adding_strings_joins_them(
    c: CompilerView,
    t: TreeView,
    e: usize,
    ops: Seq<Op>,
    fuel: nat,
    code: Seq<Op>,
    vm: VmView,
    u: UnitFrame,
    a: usize,
    b: usize,
)
    requires
        is_written(c, t, e, ops, fuel, Kind::Add, code),
        about_to(vm, u, code.last(), seq![Value::Str(a), Value::Str(b)]),
    ensures
        comes_to_text(vm, u, 2, vm.heap.text(a) + vm.heap.text(b)),
{
    lemma_instruction(c, t, e, ops, fuel, Kind::Add, code);
    let l = Value::Str(a);
    let r = Value::Str(b);
    lemma_two(vm, u, code.last(), l, r);
    let g = popped(vm.heap, u.stack, 2);
    let all = vm.heap.text(a) + vm.heap.text(b);
    let (h, v) = g.str_value(all);
    assert(g.text(a) == vm.heap.text(a) && g.text(b) == vm.heap.text(b));
    assert(vm.heap.exec_op(u) == (h.push_value(u.stack, v), OpOut::Go(stepped(u))));
    lemma_same(vm.heap);
    assert(h.texts.take(vm.heap.texts.len() as int) =~= vm.heap.texts);
    lemma_at_once(vm, u, code.last(), seq![l, r], 2, h, v);
    let after = choose|after: VmView| #[trigger]
        reaches(vm, after, 1) && past(vm, u, 2, v, after);
    let known = under(vm).with_heap(h.push_value(u.stack, v)).push(Frame::Unit(stepped(u))).go(
        Flow::Advance,
    );
    lemma_one_end(vm, after, known, 1);
    assert(known.heap.text(v->Str_0) == all);
}

/// `++` of two lists is the elements of one behind those of the other.
pub proof fn law_concatenating_lists_joins_them(
    c: CompilerView,
    t: TreeView,
    e: usize,
    ops: Seq<Op>,
    fuel: nat,
    code: Seq<Op>,
    vm: VmView,
    u: UnitFrame,
    a: usize,
    b: usize,
)
    requires
        is_written(c, t, e, ops, fuel, Kind::Concat, code),
        about_to(vm, u, code.last(), seq![Value::List(a), Value::List(b)]),
    ensures
        comes_to_list(vm, u, 2, vm.heap.list(a) + vm.heap.list(b)),
{
    lemma_instruction(c, t, e, ops, fuel, Kind::Concat, code);
    let l = Value::List(a);
    let r = Value::List(b);
    lemma_two(vm, u, code.last(), l, r);
    let g = popped(vm.heap, u.stack, 2);
    let all = vm.heap.list(a) + vm.heap.list(b);
    let (h, v) = g.list_value(all);
    assert(g.list(a) == vm.heap.list(a) && g.list(b) == vm.heap.list(b));
    assert(vm.heap.exec_op(u) == (h.push_value(u.stack, v), OpOut::Go(stepped(u))));
    lemma_same(vm.heap);
    assert(h.lists.take(vm.heap.lists.len() as int) =~= vm.heap.lists);
    lemma_at_once(vm, u, code.last(), seq![l, r], 2, h, v);
    let after = choose|after: VmView| #[trigger]
        reaches(vm, after, 1) && past(vm, u, 2, v, after);
    let known = under(vm).with_heap(h.push_value(u.stack, v)).push(Frame::Unit(stepped(u))).go(
        Flow::Advance,
    );
    lemma_one_end(vm, after, known, 1);
    assert(known.heap.list(v->List_0) == all);
}

/// `//` of two sets has what the right one has, and for other names what the
/// left one has.
pub proof fn law_updating_prefers_the_right(
    c: CompilerView,
    t: TreeView,
    e: usize,
    ops: Seq<Op>,
    fuel: nat,
    code: Seq<Op>,
    vm: VmView,
    u: UnitFrame,
    a: usize,
    b: usize,
)
    requires
        is_written(c, t, e, ops, fuel, Kind::Update, code),
        about_to(vm, u, code.last(), seq![Value::Attrs(a), Value::Attrs(b)]),
        in_order(vm.heap.set(a)),
        in_order(vm.heap.set(b)),
    ensures
        comes_to_union(vm, u, 2, vm.heap.set(a), vm.heap.set(b)),
{
    lemma_instruction(c, t, e, ops, fuel, Kind::Update, code);
    let l = Value::Attrs(a);
    let r = Value::Attrs(b);
    lemma_two(vm, u, code.last(), l, r);
    let g = popped(vm.heap, u.stack, 2);
    let all = updated(vm.heap.set(a), vm.heap.set(b));
    let (h, v) = g.attrs_value(all);
    assert(g.set(a) == vm.heap.set(a) && g.set(b) == vm.heap.set(b));
    assert(vm.heap.exec_op(u) == (h.push_value(u.stack, v), OpOut::Go(stepped(u))));
    lemma_same(vm.heap);
    assert(h.sets.take(vm.heap.sets.len() as int) =~= vm.heap.sets);
    lemma_at_once(vm, u, code.last(), seq![l, r], 2, h, v);
    let after = choose|after: VmView| #[trigger]
        reaches(vm, after, 1) && past(vm, u, 2, v, after);
    let known = under(vm).with_heap(h.push_value(u.stack, v)).push(Frame::Unit(stepped(u))).go(
        Flow::Advance,
    );
    lemma_one_end(vm, after, known, 1);
    assert(known.heap.set(v->Attrs_0) == all);
    lemma_updated(vm.heap.set(a), vm.heap.set(b));
}

/// One set laid over another has what both say, the second before the first.
pub proof fn lemma_updated(a: Seq<(Sym, Slot)>, b: Seq<(Sym, Slot)>)
    requires
        in_order(a),
        in_order(b),
    ensures
        is_union(a, b, updated(a, b)),
    decreases b.len(),
{
    if b.len() == 0 {
        assert(forall|k: Sym| lookup(b, k) is None);
    } else {
        let low = b.drop_last();
        let (x, s) = b.last();
        assert(in_order(low)) by {
            assert forall|i: int, j: int| 0 <= i < j < low.len() implies (#[trigger] low[i]).0 < (
            #[trigger] low[j]).0 by {
                assert(low[i] == b[i] && low[j] == b[j]);
            }
        }
        lemma_updated(a, low);
        let so_far = updated(a, low);
        let all = updated(a, b);
        assert(low.push((x, s)) =~= b);
        assert forall|k: Sym| #[trigger]
            lookup(all, k) == if lookup(b, k) is Some {
                lookup(b, k)
            } else {
                lookup(a, k)
            } by {
            law_bound_name_is_found(so_far, x, s, k);
            lemma_last_bound(low, x, s, k);
            assert(lookup(so_far, k) == if lookup(low, k) is Some {
                lookup(low, k)
            } else {
                lookup(a, k)
            });
        }
        law_bound_name_is_found(so_far, x, s, x);
    }
}

/// A set with one more name behind the others is the set with it bound.
proof fn lemma_last_bound(low: Seq<(Sym, Slot)>, x: Sym, s: Slot, k: Sym)
    requires
        in_order(low.push((x, s))),
        in_order(low),
    ensures
        lookup(low.push((x, s)), k) == if k == x {
            Some(s)
        } else {
            lookup(low, k)
        },
{
    let all = low.push((x, s));
    lemma_end_place(low, x, 0);
    assert(bind(low, x, s) =~= all) by {
        assert forall|i: int| 0 <= i < low.len() implies low[i].0 < x by {
            assert(all[i].0 < all[low.len() as int].0);
        }
        lemma_end_place(low, x, 0);
    }
    law_bound_name_is_found(low, x, s, k);
}

proof fn lemma_end_place(low: Seq<(Sym, Slot)>, x: Sym, i: int)
    requires
        0 <= i <= low.len(),
    ensures
        (forall|j: int| 0 <= j < low.len() ==> (#[trigger] low[j]).0 < x) ==> place(low, x, i)
            == low.len(),
    decreases low.len() - i,
{
    if i < low.len() {
        lemma_end_place(low, x, i + 1);
    }
}

/// A machine comes to one place in so many turns.
proof fn lemma_one_end(vm: VmView, a: VmView, b: VmView, turns: nat)
    requires
        reaches(vm, a, turns),
        reaches(vm, b, turns),
    ensures
        a == b,
{
    reveal(reaches);
}

/// `!` of a Boolean is its opposite, and `-` of an integer is that integer
/// below zero, or above; the one integer without an opposite fails.
pub proof fn law_unary_operators(
    c: CompilerView,
    t: TreeView,
    e: usize,
    ops: Seq<Op>,
    fuel: nat,
    vm: VmView,
    u: UnitFrame,
    v: Value,
)
    requires
        fuel > 0,
        t.kind(e) == Kind::UnaryOp,
        c.compile(t, e, ops, fuel) is Ok,
        about_to(vm, u, c.compile(t, e, ops, fuel)->Ok_0.1.last(), seq![v]),
        v is Bool || v is Int,
    ensures
        ({
            let k = t.kind(t.nth(e, Class::Unary, 0)->0);
            &&& k == Kind::Invert ==> (v matches Value::Bool(b) ==> comes_to(
                vm,
                u,
                1,
                Value::Bool(!b),
            ))
            &&& k == Kind::Sub ==> (v matches Value::Int(n) ==> if n == i64::MIN {
                fails_with(vm, "integer overflow in negation"@)
            } else {
                comes_to(vm, u, 1, Value::Int((0 - n) as i64))
            })
        }),
{
    let k = t.kind(t.nth(e, Class::Unary, 0)->0);
    let op = c.compile(t, e, ops, fuel)->Ok_0.1.last();
    assert(c.compile(t, e, ops, fuel) == c.compile_unary(t, e, ops, (fuel - 1) as nat));
    assert(op == if k == Kind::Invert {
        Op::Not
    } else {
        Op::Negate
    });
    lemma_one(vm, u, op, v);
    lemma_same(vm.heap);
    let g = popped(vm.heap, u.stack, 1);
    if k == Kind::Invert && v is Bool {
        lemma_at_once(vm, u, op, seq![v], 1, g, Value::Bool(!v->Bool_0));
    }
    if k == Kind::Sub && v is Int {
        let n = v->Int_0;
        if n == i64::MIN {
            lemma_fails_at_once(vm, u, op, seq![v], g, "integer overflow in negation"@);
        } else {
            lemma_at_once(vm, u, op, seq![v], 1, g, Value::Int((0 - n) as i64));
        }
    }
}

} // verus!
