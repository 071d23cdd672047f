//! Executing one instruction of a code unit.
use crate::lang::conts::{bump, bumped};
use crate::lang::frames::{Dest, FloatAsk, Need, Search, Task, UnitFrame};
use crate::lang::heap::{
    bind, lookup, set_bind, set_lookup, EnvNode, ErrKind, Fault, Heap, HeapView, Item, Slot,
    SlotState, Sym, Value,
};
use crate::lang::ir::{Const, ConstView, Op};
use crate::lang::lists::{float_arith, float_arith_of, int_arith, int_arith_of, Arith};
use crate::lang::ops::{kind_name, reversed, type_text};
use crate::lang::strings::{normal_path, normal_path_of, nul_check, nul_complaint};
use crate::lang::walks::{float_task, new_float_task};
use crate::text::{append_all, append_int, append_str, copy_of, int_text, text_of, Text};
use vstd::prelude::*;

verus! {

/// What one instruction leads to.
#[derive(Debug, Clone, Copy)]
pub enum OpOut {
    /// Carry on with the unit.
    Go(UnitFrame),
    /// Force a slot, then carry on.
    Force(UnitFrame, Slot),
    /// Run a task, then carry on with its value.
    Run(UnitFrame, Task),
    /// Apply a function, then carry on with the result.
    Call(UnitFrame, Value, Slot),
    /// The unit is finished.
    Deliver(Value),
    Fail(Fault),
}

/// The unit one instruction further.
pub open spec fn stepped(u: UnitFrame) -> UnitFrame {
    UnitFrame { ip: bump(u.ip), ..u }
}

fn step_on(u: UnitFrame) -> (r: UnitFrame)
    ensures
        r == stepped(u),
{
    UnitFrame { ip: bumped(u.ip), ..u }
}

/// The unit past a forward jump.
pub open spec fn jumped(u: UnitFrame, target: u32) -> UnitFrame {
    UnitFrame {
        ip: if bump(u.ip) + target <= usize::MAX {
            (bump(u.ip) + target) as usize
        } else {
            usize::MAX
        },
        ..u
    }
}

fn jump_on(u: UnitFrame, target: u32) -> (r: UnitFrame)
    ensures
        r == jumped(u, target),
{
    let ip = bumped(u.ip);
    UnitFrame {
        ip: if target as usize <= usize::MAX - ip {
            ip + target as usize
        } else {
            usize::MAX
        },
        ..u
    }
}

/// Negation flips a float's sign bit.
pub open spec fn float_negated(x: u64) -> u64 {
    x ^ 0x8000_0000_0000_0000u64
}

/// What an arithmetic operation is called when it overflows.
pub open spec fn arith_words(op: Arith) -> (Seq<char>, Seq<char>) {
    match op {
        Arith::Add => ("adding "@, " + "@),
        Arith::Sub => ("subtracting "@, " - "@),
        Arith::Mul => ("multiplying "@, " * "@),
        Arith::Div => ("dividing "@, " / "@),
    }
}

fn arith_verb(op: Arith) -> (r: &'static str)
    ensures
        r@ == arith_words(op).0,
{
    match op {
        Arith::Add => "adding ",
        Arith::Sub => "subtracting ",
        Arith::Mul => "multiplying ",
        Arith::Div => "dividing ",
    }
}

fn arith_sign(op: Arith) -> (r: &'static str)
    ensures
        r@ == arith_words(op).1,
{
    match op {
        Arith::Add => " + ",
        Arith::Sub => " - ",
        Arith::Mul => " * ",
        Arith::Div => " / ",
    }
}

/// The last of `n` positions.
pub open spec fn last_of(n: int) -> usize {
    if n > 0 {
        (n - 1) as usize
    } else {
        0
    }
}

fn before(n: usize) -> (r: usize)
    ensures
        r == last_of(n as int),
{
    if n > 0 {
        n - 1
    } else {
        0
    }
}

impl HeapView {
    // -- the operand stack ---------------------------------------------------

    /// The unforced operand at one position from the top (1 is the top), and
    /// where it lies.
    pub open spec fn strict_at(self, st: usize, off: int) -> Option<(usize, Slot)> {
        let w = self.work(st);
        if off <= 0 || off > w.len() {
            None
        } else {
            match w[w.len() - off] {
                Item::Lazy(s) => Some(((w.len() - off) as usize, s)),
                _ => None,
            }
        }
    }

    /// The topmost unforced operand from position `off` down to position `k`.
    pub open spec fn gap_from(self, st: usize, off: int, k: int) -> Option<(usize, Slot)>
        decreases k - off + 1,
    {
        if off > k {
            None
        } else {
            match self.strict_at(st, off) {
                Some(g) => Some(g),
                None => self.gap_from(st, off + 1, k),
            }
        }
    }

    /// The topmost unforced operand among the top `k`.
    pub open spec fn gap(self, st: usize, k: int) -> Option<(usize, Slot)> {
        self.gap_from(st, 1, k)
    }

    /// The topmost unforced name among the (name, value) pairs from pair `j`
    /// on.
    pub open spec fn names_gap(self, st: usize, j: int, n: int) -> Option<(usize, Slot)>
        decreases n - j,
    {
        if j >= n {
            None
        } else {
            match self.strict_at(st, 2 + 2 * j) {
                Some(g) => Some(g),
                None => self.names_gap(st, j + 1, n),
            }
        }
    }

    pub open spec fn push_item(self, st: usize, x: Item) -> HeapView {
        self.work_put(st, self.work(st).push(x))
    }

    pub open spec fn push_value(self, st: usize, v: Value) -> HeapView {
        self.push_item(st, Item::Val(v))
    }

    pub open spec fn pop_item(self, st: usize) -> (HeapView, Result<Item, Fault>) {
        let w = self.work(st);
        if w.len() == 0 {
            self.fail("internal: stack underflow"@)
        } else {
            (self.work_put(st, w.drop_last()), Ok(w.last()))
        }
    }

    pub open spec fn pop_value(self, st: usize) -> (HeapView, Result<Value, Fault>) {
        match self.pop_item(st) {
            (h, Err(e)) => (h, Err(e)),
            (h, Ok(Item::Val(v))) => (h, Ok(v)),
            (h, Ok(Item::Lazy(_))) => h.fail("internal: unforced stack entry"@),
            (h, Ok(_)) => h.fail("internal: miss escaped selection"@),
        }
    }

    pub open spec fn pop_slot(self, st: usize) -> (HeapView, Result<Slot, Fault>) {
        match self.pop_item(st) {
            (h, Err(e)) => (h, Err(e)),
            (h, Ok(Item::Val(v))) => {
                let (h, s) = h.value_slot(v);
                (h, Ok(s))
            },
            (h, Ok(Item::Lazy(s))) => (h, Ok(s)),
            (h, Ok(_)) => h.fail("internal: miss escaped selection"@),
        }
    }

    /// Pops `n` slots, the topmost first.
    pub open spec fn pop_slots(self, st: usize, n: int, got: Seq<usize>) -> (
        HeapView,
        Result<Seq<usize>, Fault>,
    )
        decreases n,
    {
        if n <= 0 {
            (self, Ok(got))
        } else {
            match self.pop_slot(st) {
                (h, Err(e)) => (h, Err(e)),
                (h, Ok(s)) => h.pop_slots(st, n - 1, got.push(s)),
            }
        }
    }

    /// Pops `n` values, the topmost first.
    pub open spec fn pop_values(self, st: usize, n: int, got: Seq<Value>) -> (
        HeapView,
        Result<Seq<Value>, Fault>,
    )
        decreases n,
    {
        if n <= 0 {
            (self, Ok(got))
        } else {
            match self.pop_value(st) {
                (h, Err(e)) => (h, Err(e)),
                (h, Ok(v)) => h.pop_values(st, n - 1, got.push(v)),
            }
        }
    }

    /// Pops `n` (name, value) pairs, the topmost first.
    pub open spec fn pop_pairs(self, st: usize, n: int, got: Seq<(Value, Slot)>) -> (
        HeapView,
        Result<Seq<(Value, Slot)>, Fault>,
    )
        decreases n,
    {
        if n <= 0 {
            (self, Ok(got))
        } else {
            match self.pop_slot(st) {
                (h, Err(e)) => (h, Err(e)),
                (h, Ok(s)) => match h.pop_value(st) {
                    (h, Err(e)) => (h, Err(e)),
                    (h, Ok(k)) => h.pop_pairs(st, n - 1, got.push((k, s))),
                },
            }
        }
    }

    /// The value under the top operand.
    pub open spec fn entry_value(self, st: usize, off: int) -> (HeapView, Result<Value, Fault>) {
        let w = self.work(st);
        if off <= 0 || off > w.len() {
            self.fail("internal: stack underflow"@)
        } else {
            match w[w.len() - off] {
                Item::Val(v) => (self, Ok(v)),
                Item::Lazy(_) => self.fail("internal: unforced stack entry"@),
                _ => self.fail("internal: miss escaped selection"@),
            }
        }
    }

    // -- environments --------------------------------------------------------

    /// The slot at a depth and position of an environment.
    pub open spec fn local(self, env: usize, depth: u16, slot: u16) -> (
        HeapView,
        Result<Slot, Fault>,
    )
        decreases depth,
    {
        match self.env(env) {
            EnvNode::Frame { up, slots } => if depth == 0 {
                if slot < self.list(slots).len() {
                    (self, Ok(self.list(slots)[slot as int]))
                } else {
                    self.fail("internal: bad local slot"@)
                }
            } else {
                self.local(up, (depth - 1) as u16, slot)
            },
            EnvNode::With { up, .. } => if depth == 0 {
                self.fail("internal: local depth hit with-scope"@)
            } else {
                self.local(up, (depth - 1) as u16, slot)
            },
            EnvNode::Root => self.fail("internal: local depth underflow"@),
        }
    }

    /// Thunks rebased onto the frame they belong to; other slots unchanged.
    pub open spec fn repointed(self, slots: Seq<usize>, env: usize, i: int, out: Seq<usize>) -> (
        HeapView,
        Seq<usize>,
    )
        decreases slots.len() - i,
    {
        if i >= slots.len() {
            (self, out)
        } else {
            match self.slot(slots[i]) {
                SlotState::Thunk { module, unit, .. } => {
                    let (h, s) = self.new_slot(SlotState::Thunk { module, unit, env });
                    h.repointed(slots, env, i + 1, out.push(s))
                },
                _ => self.repointed(slots, env, i + 1, out.push(slots[i])),
            }
        }
    }

    // -- the instructions ----------------------------------------------------

    pub open spec fn op_ret(self, u: UnitFrame) -> (HeapView, OpOut) {
        match self.gap(u.stack, 1) {
            Some((i, s)) => (self, OpOut::Force(UnitFrame { dest: Dest::Stack(i), ..u }, s)),
            None => match self.pop_value(u.stack) {
                (h, Err(e)) => (h, OpOut::Fail(e)),
                (h, Ok(v)) => (h, OpOut::Deliver(v)),
            },
        }
    }

    pub open spec fn const_value(self, c: ConstView) -> (HeapView, Result<Value, Fault>) {
        match c {
            ConstView::Int(n) => (self, Ok(Value::Int(n))),
            ConstView::Float(x) => (self, Ok(Value::Float(x))),
            ConstView::Digits(t) => {
                let (h, v) = self.str_value(t);
                (h, Ok(v))
            },
            ConstView::Bool(b) => (self, Ok(Value::Bool(b))),
            ConstView::Null => (self, Ok(Value::Null)),
            ConstView::Str(t) => if t.contains('\0') {
                self.fail(nul_complaint(t))
            } else {
                let (h, v) = self.str_value(t);
                (h, Ok(v))
            },
            ConstView::Path(t) => {
                let (h, v) = self.path_value(t);
                (h, Ok(v))
            },
        }
    }

    pub open spec fn op_const(self, u: UnitFrame, idx: u32) -> (HeapView, OpOut) {
        match self.const_at(u.module, idx) {
            None => {
                let (h, r) = self.fail::<Value>("internal: bad const index"@);
                (h, OpOut::Fail(r->Err_0))
            },
            Some(ConstView::Digits(t)) => {
                let (h, text) = self.new_text(t);
                (h, OpOut::Run(stepped(u), Task::Ask { need: Need::Number(text), asked: false }))
            },
            Some(c) => match self.const_value(c) {
                (h, Err(e)) => (h, OpOut::Fail(e)),
                (h, Ok(v)) => (h.push_value(u.stack, v), OpOut::Go(stepped(u))),
            },
        }
    }

    pub open spec fn op_local(self, u: UnitFrame, depth: u16, slot: u16, lazy: bool) -> (
        HeapView,
        OpOut,
    ) {
        match self.local(u.env, depth, slot) {
            (h, Err(e)) => (h, OpOut::Fail(e)),
            (h, Ok(s)) => if lazy {
                (h.push_item(u.stack, Item::Lazy(s)), OpOut::Go(stepped(u)))
            } else {
                (h, OpOut::Force(stepped(u), s))
            },
        }
    }

    pub open spec fn op_unimplemented(self, u: UnitFrame, sym: u32) -> (HeapView, OpOut) {
        match self.msym(u.module, sym) {
            (h, Err(e)) => (h, OpOut::Fail(e)),
            (h, Ok(g)) => {
                let (h, r) = h.missing::<Value>("global "@ + h.sym_name(g));
                (h, OpOut::Fail(r->Err_0))
            },
        }
    }

    pub open spec fn op_apply(self, u: UnitFrame) -> (HeapView, OpOut) {
        match self.strict_at(u.stack, 2) {
            Some((i, s)) => (self, OpOut::Force(UnitFrame { dest: Dest::Stack(i), ..u }, s)),
            None => match self.entry_value(u.stack, 2) {
                (h, Err(e)) => (h, OpOut::Fail(e)),
                (h, Ok(f)) => match h.pop_slot(u.stack) {
                    (h, Err(e)) => (h, OpOut::Fail(e)),
                    (h, Ok(arg)) => match h.pop_item(u.stack) {
                        (h, Err(e)) => (h, OpOut::Fail(e)),
                        (h, Ok(_)) => (h, OpOut::Call(stepped(u), f, arg)),
                    },
                },
            },
        }
    }

    pub open spec fn op_push_env(self, u: UnitFrame, n: u16) -> (HeapView, OpOut) {
        match self.pop_slots(u.stack, n as int, Seq::empty()) {
            (h, Err(e)) => (h, OpOut::Fail(e)),
            (h, Ok(got)) => {
                let (h, slots) = h.new_list(Seq::empty());
                let (h, env) = h.new_env(EnvNode::Frame { up: u.env, slots });
                let (h, out) = h.repointed(got.reverse(), env, 0, Seq::empty());
                (h.list_put(slots, out), OpOut::Go(stepped(UnitFrame { env, ..u })))
            },
        }
    }

    pub open spec fn op_pop_env(self, u: UnitFrame) -> (HeapView, OpOut) {
        match self.env(u.env) {
            EnvNode::Frame { up, .. } => (self, OpOut::Go(stepped(UnitFrame { env: up, ..u }))),
            EnvNode::With { up, .. } => (self, OpOut::Go(stepped(UnitFrame { env: up, ..u }))),
            EnvNode::Root => {
                let (h, r) = self.fail::<Value>("internal: env underflow"@);
                (h, OpOut::Fail(r->Err_0))
            },
        }
    }

    pub open spec fn op_push_with(self, u: UnitFrame) -> (HeapView, OpOut) {
        match self.pop_slot(u.stack) {
            (h, Err(e)) => (h, OpOut::Fail(e)),
            (h, Ok(subject)) => {
                let (h, env) = h.new_env(EnvNode::With { up: u.env, subject });
                (h, OpOut::Go(stepped(UnitFrame { env, ..u })))
            },
        }
    }

    pub open spec fn op_jump_if_false(self, u: UnitFrame, target: u32) -> (HeapView, OpOut) {
        match self.gap(u.stack, 1) {
            Some((i, s)) => (self, OpOut::Force(UnitFrame { dest: Dest::Stack(i), ..u }, s)),
            None => match self.pop_value(u.stack) {
                (h, Err(e)) => (h, OpOut::Fail(e)),
                (h, Ok(v)) => match v {
                    Value::Bool(b) => (
                        h,
                        OpOut::Go(
                            if b {
                                stepped(u)
                            } else {
                                jumped(u, target)
                            },
                        ),
                    ),
                    _ => {
                        let (h, r) = h.fail_shown::<Value>("expected a Boolean but found "@, v);
                        (h, OpOut::Fail(r->Err_0))
                    },
                },
            },
        }
    }

    /// The text that a value contributes to a concatenation with `+`.
    pub open spec fn coerce_concat(self, v: Value) -> (HeapView, Result<Seq<char>, Fault>) {
        match v {
            Value::Str(s) => (self, Ok(self.text(s))),
            Value::Path(p) => (self, Ok(self.text(p))),
            Value::Int(n) => (self, Ok(int_text(n as int))),
            _ => self.fail("cannot coerce "@ + type_text(v) + " to a string"@),
        }
    }

    /// A string or a path with something added. A path stays canonical; a
    /// string does not. A float on the right is first turned into its text,
    /// in place, and the instruction runs again.
    pub open spec fn add_text(self, u: UnitFrame, l: Value, r: Value) -> (HeapView, OpOut) {
        match r {
            Value::Float(x) => {
                let h = self.push_value(u.stack, l).push_value(u.stack, r);
                (
                    h,
                    OpOut::Run(
                        UnitFrame {
                            dest: Dest::Stack(last_of(h.work(u.stack).len() as int)),
                            ..u
                        },
                        float_task(FloatAsk::Show(x)),
                    ),
                )
            },
            _ => match self.coerce_concat(r) {
                (h, Err(e)) => (h, OpOut::Fail(e)),
                (h, Ok(b)) => {
                    let (h, v) = match l {
                        Value::Path(a) => h.path_value(normal_path(h.text(a) + b)),
                        Value::Str(a) => h.str_value(h.text(a) + b),
                        _ => h.str_value(b),
                    };
                    (h.push_value(u.stack, v), OpOut::Go(stepped(u)))
                },
            },
        }
    }

    pub open spec fn add_numbers(self, u: UnitFrame, op: Arith, l: Value, r: Value) -> (
        HeapView,
        OpOut,
    ) {
        match (l, r) {
            (Value::Int(a), Value::Int(b)) => if op == Arith::Div && b == 0 {
                let (h, r) = self.fail::<Value>("division by zero"@);
                (h, OpOut::Fail(r->Err_0))
            } else {
                match int_arith(op, a, b) {
                    Some(n) => (self.push_value(u.stack, Value::Int(n)), OpOut::Go(stepped(u))),
                    None => {
                        let (verb, sign) = arith_words(op);
                        let (h, r) = self.fail::<Value>(
                            "integer overflow in "@ + verb + int_text(a as int) + sign + int_text(
                                b as int,
                            ),
                        );
                        (h, OpOut::Fail(r->Err_0))
                    },
                }
            },
            _ => match self.want_num(l) {
                (h, Err(e)) => (h, OpOut::Fail(e)),
                (h, Ok(a)) => match h.want_num(r) {
                    (h, Err(e)) => (h, OpOut::Fail(e)),
                    (h, Ok(b)) => (h, OpOut::Run(stepped(u), float_task(float_arith(op, a, b)))),
                },
            },
        }
    }

    pub open spec fn op_arith(self, u: UnitFrame, op: Arith) -> (HeapView, OpOut) {
        match self.gap(u.stack, 2) {
            Some((i, s)) => (self, OpOut::Force(UnitFrame { dest: Dest::Stack(i), ..u }, s)),
            None => match self.pop_value(u.stack) {
                (h, Err(e)) => (h, OpOut::Fail(e)),
                (h, Ok(r)) => match h.pop_value(u.stack) {
                    (h, Err(e)) => (h, OpOut::Fail(e)),
                    (h, Ok(l)) => if op == Arith::Add && (l is Str || l is Path) {
                        h.add_text(u, l, r)
                    } else {
                        h.add_numbers(u, op, l, r)
                    },
                },
            },
        }
    }

    pub open spec fn op_eq(self, u: UnitFrame, negate: bool) -> (HeapView, OpOut) {
        match self.gap(u.stack, 2) {
            Some((i, s)) => (self, OpOut::Force(UnitFrame { dest: Dest::Stack(i), ..u }, s)),
            None => match self.pop_value(u.stack) {
                (h, Err(e)) => (h, OpOut::Fail(e)),
                (h, Ok(r)) => match h.pop_value(u.stack) {
                    (h, Err(e)) => (h, OpOut::Fail(e)),
                    (h, Ok(l)) => {
                        let (h, t) = h.deep_eq(l, r, negate);
                        (h, OpOut::Run(stepped(u), t))
                    },
                },
            },
        }
    }

    /// Ordering: only `<` exists underneath; the other three are it with the
    /// operands swapped, negated, or both.
    pub open spec fn op_order(self, u: UnitFrame, swap: bool, negate: bool) -> (HeapView, OpOut) {
        match self.gap(u.stack, 2) {
            Some((i, s)) => (self, OpOut::Force(UnitFrame { dest: Dest::Stack(i), ..u }, s)),
            None => match self.pop_value(u.stack) {
                (h, Err(e)) => (h, OpOut::Fail(e)),
                (h, Ok(r)) => match h.pop_value(u.stack) {
                    (h, Err(e)) => (h, OpOut::Fail(e)),
                    (h, Ok(l)) => {
                        let (h, t) = if swap {
                            h.compare(r, l, negate)
                        } else {
                            h.compare(l, r, negate)
                        };
                        (h, OpOut::Run(stepped(u), t))
                    },
                },
            },
        }
    }

    pub open spec fn op_not(self, u: UnitFrame) -> (HeapView, OpOut) {
        match self.gap(u.stack, 1) {
            Some((i, s)) => (self, OpOut::Force(UnitFrame { dest: Dest::Stack(i), ..u }, s)),
            None => match self.pop_value(u.stack) {
                (h, Err(e)) => (h, OpOut::Fail(e)),
                (h, Ok(v)) => match v {
                    Value::Bool(b) => (
                        h.push_value(u.stack, Value::Bool(!b)),
                        OpOut::Go(stepped(u)),
                    ),
                    _ => {
                        let (h, r) = h.fail_shown::<Value>("expected a Boolean but found "@, v);
                        (h, OpOut::Fail(r->Err_0))
                    },
                },
            },
        }
    }

    pub open spec fn op_negate(self, u: UnitFrame) -> (HeapView, OpOut) {
        match self.gap(u.stack, 1) {
            Some((i, s)) => (self, OpOut::Force(UnitFrame { dest: Dest::Stack(i), ..u }, s)),
            None => match self.pop_value(u.stack) {
                (h, Err(e)) => (h, OpOut::Fail(e)),
                (h, Ok(v)) => match v {
                    Value::Int(n) => if n == i64::MIN {
                        let (h, r) = h.fail::<Value>("integer overflow in negation"@);
                        (h, OpOut::Fail(r->Err_0))
                    } else {
                        (
                            h.push_value(u.stack, Value::Int((-n) as i64)),
                            OpOut::Go(stepped(u)),
                        )
                    },
                    Value::Float(x) => (
                        h.push_value(u.stack, Value::Float(float_negated(x))),
                        OpOut::Go(stepped(u)),
                    ),
                    _ => {
                        let (h, r) = h.fail::<Value>(
                            "expected an integer or float but found "@ + type_text(v),
                        );
                        (h, OpOut::Fail(r->Err_0))
                    },
                },
            },
        }
    }

    /// The texts of interpolated values, one after the other.
    pub open spec fn interpolated(self, parts: Seq<Value>, i: int, out: Seq<char>) -> (
        HeapView,
        Result<Seq<char>, Fault>,
    )
        decreases parts.len() - i,
    {
        if i >= parts.len() {
            (self, Ok(out))
        } else {
            match self.coerce_interpolated(parts[i]) {
                (h, Err(e)) => (h, Err(e)),
                (h, Ok(t)) => h.interpolated(parts, i + 1, out + h.text(t)),
            }
        }
    }

    pub open spec fn op_concat_strings(self, u: UnitFrame, n: u16) -> (HeapView, OpOut) {
        match self.gap(u.stack, n as int) {
            Some((i, s)) => (self, OpOut::Force(UnitFrame { dest: Dest::Stack(i), ..u }, s)),
            None => match self.pop_values(u.stack, n as int, Seq::empty()) {
                (h, Err(e)) => (h, OpOut::Fail(e)),
                (h, Ok(got)) => match h.interpolated(got.reverse(), 0, Seq::empty()) {
                    (h, Err(e)) => (h, OpOut::Fail(e)),
                    (h, Ok(t)) => match h.const_value(ConstView::Str(t)) {
                        (h, Err(e)) => (h, OpOut::Fail(e)),
                        (h, Ok(v)) => (h.push_value(u.stack, v), OpOut::Go(stepped(u))),
                    },
                },
            },
        }
    }

    pub open spec fn op_mk_list(self, u: UnitFrame, n: u16) -> (HeapView, OpOut) {
        match self.pop_slots(u.stack, n as int, Seq::empty()) {
            (h, Err(e)) => (h, OpOut::Fail(e)),
            (h, Ok(got)) => {
                let (h, v) = h.list_value(got.reverse());
                (h.push_value(u.stack, v), OpOut::Go(stepped(u)))
            },
        }
    }

    pub open spec fn op_concat_lists(self, u: UnitFrame) -> (HeapView, OpOut) {
        match self.gap(u.stack, 2) {
            Some((i, s)) => (self, OpOut::Force(UnitFrame { dest: Dest::Stack(i), ..u }, s)),
            None => match self.pop_value(u.stack) {
                (h, Err(e)) => (h, OpOut::Fail(e)),
                (h, Ok(r)) => match h.pop_value(u.stack) {
                    (h, Err(e)) => (h, OpOut::Fail(e)),
                    (h, Ok(l)) => match (l, r) {
                        (Value::List(a), Value::List(b)) => {
                            let (h, v) = h.list_value(h.list(a) + h.list(b));
                            (h.push_value(u.stack, v), OpOut::Go(stepped(u)))
                        },
                        _ => {
                            let (h, r) = h.fail::<Value>(
                                "expected a list but found "@ + type_text(l),
                            );
                            (h, OpOut::Fail(r->Err_0))
                        },
                    },
                },
            },
        }
    }

    /// A set from (name, value) pairs: a null name is skipped, and no name
    /// may come twice.
    pub open spec fn set_from(self, pairs: Seq<(Value, Slot)>, i: int, out: Seq<(Sym, Slot)>) -> (
        HeapView,
        Result<Seq<(Sym, Slot)>, Fault>,
    )
        decreases pairs.len() - i,
    {
        if i >= pairs.len() {
            (self, Ok(out))
        } else {
            match pairs[i].0 {
                Value::Null => self.set_from(pairs, i + 1, out),
                Value::Str(t) => {
                    let (h, k) = self.intern(self.text(t));
                    if lookup(out, k) is Some {
                        h.fail("attribute '"@ + h.text(t) + "' already defined"@)
                    } else {
                        h.set_from(pairs, i + 1, bind(out, k, pairs[i].1))
                    }
                },
                k => self.fail_shown("expected a string but found "@, k),
            }
        }
    }

    pub open spec fn op_mk_attrs(self, u: UnitFrame, n: u16) -> (HeapView, OpOut) {
        match self.names_gap(u.stack, 0, n as int) {
            Some((i, s)) => (self, OpOut::Force(UnitFrame { dest: Dest::Stack(i), ..u }, s)),
            None => match self.pop_pairs(u.stack, n as int, Seq::empty()) {
                (h, Err(e)) => (h, OpOut::Fail(e)),
                (h, Ok(got)) => match h.set_from(got.reverse(), 0, Seq::empty()) {
                    (h, Err(e)) => (h, OpOut::Fail(e)),
                    (h, Ok(set)) => {
                        let (h, v) = h.attrs_value(set);
                        (h.push_value(u.stack, v), OpOut::Go(stepped(u)))
                    },
                },
            },
        }
    }
}

/// The second set laid over the first.
pub open spec fn updated(a: Seq<(Sym, Slot)>, b: Seq<(Sym, Slot)>) -> Seq<(Sym, Slot)>
    decreases b.len(),
{
    if b.len() == 0 {
        a
    } else {
        bind(updated(a, b.drop_last()), b.last().0, b.last().1)
    }
}

impl HeapView {
    pub open spec fn op_update(self, u: UnitFrame) -> (HeapView, OpOut) {
        match self.gap(u.stack, 2) {
            Some((i, s)) => (self, OpOut::Force(UnitFrame { dest: Dest::Stack(i), ..u }, s)),
            None => match self.pop_value(u.stack) {
                (h, Err(e)) => (h, OpOut::Fail(e)),
                (h, Ok(r)) => match h.pop_value(u.stack) {
                    (h, Err(e)) => (h, OpOut::Fail(e)),
                    (h, Ok(l)) => match (l, r) {
                        (Value::Attrs(a), Value::Attrs(b)) => {
                            let (h, v) = h.attrs_value(updated(h.set(a), h.set(b)));
                            (h.push_value(u.stack, v), OpOut::Go(stepped(u)))
                        },
                        _ => {
                            let bad = if l is Attrs {
                                r
                            } else {
                                l
                            };
                            let (h, r) = h.fail::<Value>(
                                "expected a set but found "@ + type_text(bad),
                            );
                            (h, OpOut::Fail(r->Err_0))
                        },
                    },
                },
            },
        }
    }

    /// The slot of an attribute, or a complaint.
    pub open spec fn select_strict(self, set: Value, k: Sym) -> (HeapView, Result<Slot, Fault>) {
        match set {
            Value::Attrs(m) => match lookup(self.set(m), k) {
                Some(s) => (self, Ok(s)),
                None => self.fail("attribute '"@ + self.sym_name(k) + "' missing"@),
            },
            _ => self.fail_shown("expected a set but found "@, set),
        }
    }

    /// The symbol of a computed attribute name.
    pub open spec fn attr_sym(self, name: Value) -> (HeapView, Result<Sym, Fault>) {
        match name {
            Value::Str(t) => {
                let (h, k) = self.intern(self.text(t));
                (h, Ok(k))
            },
            _ => self.fail_shown("expected a string but found "@, name),
        }
    }

    pub open spec fn op_select(self, u: UnitFrame, sym: u32) -> (HeapView, OpOut) {
        match self.gap(u.stack, 1) {
            Some((i, s)) => (self, OpOut::Force(UnitFrame { dest: Dest::Stack(i), ..u }, s)),
            None => match self.msym(u.module, sym) {
                (h, Err(e)) => (h, OpOut::Fail(e)),
                (h, Ok(k)) => match h.pop_value(u.stack) {
                    (h, Err(e)) => (h, OpOut::Fail(e)),
                    (h, Ok(set)) => match h.select_strict(set, k) {
                        (h, Err(e)) => (h, OpOut::Fail(e)),
                        (h, Ok(s)) => (h, OpOut::Force(stepped(u), s)),
                    },
                },
            },
        }
    }

    pub open spec fn op_select_dyn(self, u: UnitFrame) -> (HeapView, OpOut) {
        match self.gap(u.stack, 2) {
            Some((i, s)) => (self, OpOut::Force(UnitFrame { dest: Dest::Stack(i), ..u }, s)),
            None => match self.pop_value(u.stack) {
                (h, Err(e)) => (h, OpOut::Fail(e)),
                (h, Ok(name)) => match h.pop_value(u.stack) {
                    (h, Err(e)) => (h, OpOut::Fail(e)),
                    (h, Ok(set)) => match h.attr_sym(name) {
                        (h, Err(e)) => (h, OpOut::Fail(e)),
                        (h, Ok(k)) => match h.select_strict(set, k) {
                            (h, Err(e)) => (h, OpOut::Fail(e)),
                            (h, Ok(s)) => (h, OpOut::Force(stepped(u), s)),
                        },
                    },
                },
            },
        }
    }

    /// Selects from the top operand, leaving a miss where there is nothing.
    pub open spec fn select_soft(self, u: UnitFrame, k: Sym) -> (HeapView, OpOut) {
        match self.pop_item(u.stack) {
            (h, Err(e)) => (h, OpOut::Fail(e)),
            (h, Ok(Item::Lazy(_))) => {
                let (h, r) = h.fail::<Value>("internal: unforced stack entry"@);
                (h, OpOut::Fail(r->Err_0))
            },
            (h, Ok(Item::Val(Value::Attrs(m)))) => match lookup(h.set(m), k) {
                Some(s) => (h, OpOut::Force(stepped(u), s)),
                None => (h.push_item(u.stack, Item::Miss), OpOut::Go(stepped(u))),
            },
            (h, Ok(_)) => (h.push_item(u.stack, Item::Miss), OpOut::Go(stepped(u))),
        }
    }

    pub open spec fn op_select_soft(self, u: UnitFrame, sym: u32) -> (HeapView, OpOut) {
        match self.gap(u.stack, 1) {
            Some((i, s)) => (self, OpOut::Force(UnitFrame { dest: Dest::Stack(i), ..u }, s)),
            None => match self.msym(u.module, sym) {
                (h, Err(e)) => (h, OpOut::Fail(e)),
                (h, Ok(k)) => h.select_soft(u, k),
            },
        }
    }

    /// The symbol of the computed name on top of the stack.
    pub open spec fn pop_name(self, u: UnitFrame) -> (HeapView, Result<Sym, Fault>) {
        match self.pop_value(u.stack) {
            (h, Err(e)) => (h, Err(e)),
            (h, Ok(name)) => h.attr_sym(name),
        }
    }

    pub open spec fn op_select_soft_dyn(self, u: UnitFrame) -> (HeapView, OpOut) {
        match self.gap(u.stack, 2) {
            Some((i, s)) => (self, OpOut::Force(UnitFrame { dest: Dest::Stack(i), ..u }, s)),
            None => match self.pop_name(u) {
                (h, Err(e)) => (h, OpOut::Fail(e)),
                (h, Ok(k)) => h.select_soft(u, k),
            },
        }
    }

    pub open spec fn op_or_default(self, u: UnitFrame) -> (HeapView, OpOut) {
        match self.pop_slot(u.stack) {
            (h, Err(e)) => (h, OpOut::Fail(e)),
            (h, Ok(default)) => match h.pop_item(u.stack) {
                (h, Err(e)) => (h, OpOut::Fail(e)),
                (h, Ok(Item::Miss)) => (h, OpOut::Force(stepped(u), default)),
                (h, Ok(other)) => (h.push_item(u.stack, other), OpOut::Go(stepped(u))),
            },
        }
    }

    /// Whether the top operand is a set with an attribute.
    pub open spec fn has_attr(self, u: UnitFrame, k: Sym) -> (HeapView, OpOut) {
        match self.pop_item(u.stack) {
            (h, Err(e)) => (h, OpOut::Fail(e)),
            (h, Ok(Item::Val(Value::Attrs(m)))) => (
                h.push_value(u.stack, Value::Bool(lookup(h.set(m), k) is Some)),
                OpOut::Go(stepped(u)),
            ),
            (h, Ok(_)) => (h.push_value(u.stack, Value::Bool(false)), OpOut::Go(stepped(u))),
        }
    }

    pub open spec fn op_has_attr(self, u: UnitFrame, sym: u32) -> (HeapView, OpOut) {
        match self.gap(u.stack, 1) {
            Some((i, s)) => (self, OpOut::Force(UnitFrame { dest: Dest::Stack(i), ..u }, s)),
            None => match self.msym(u.module, sym) {
                (h, Err(e)) => (h, OpOut::Fail(e)),
                (h, Ok(k)) => h.has_attr(u, k),
            },
        }
    }

    pub open spec fn op_has_attr_dyn(self, u: UnitFrame) -> (HeapView, OpOut) {
        match self.gap(u.stack, 2) {
            Some((i, s)) => (self, OpOut::Force(UnitFrame { dest: Dest::Stack(i), ..u }, s)),
            None => match self.pop_name(u) {
                (h, Err(e)) => (h, OpOut::Fail(e)),
                (h, Ok(k)) => h.has_attr(u, k),
            },
        }
    }

    pub open spec fn op_resolve_with(self, u: UnitFrame, sym: u32) -> (HeapView, OpOut) {
        match self.msym(u.module, sym) {
            (h, Err(e)) => (h, OpOut::Fail(e)),
            (h, Ok(k)) => (
                h,
                OpOut::Run(
                    stepped(u),
                    Task::ResolveWith { node: u.env, sym: k, search: Search::Walk },
                ),
            ),
        }
    }

    pub open spec fn op_assert(self, u: UnitFrame) -> (HeapView, OpOut) {
        match self.gap(u.stack, 1) {
            Some((i, s)) => (self, OpOut::Force(UnitFrame { dest: Dest::Stack(i), ..u }, s)),
            None => match self.pop_value(u.stack) {
                (h, Err(e)) => (h, OpOut::Fail(e)),
                (h, Ok(v)) => match v {
                    Value::Bool(b) => if b {
                        (h, OpOut::Go(stepped(u)))
                    } else {
                        let (h, text) = h.new_text("assertion failed"@);
                        (
                            h,
                            OpOut::Fail(
                                Fault::Throw { kind: ErrKind::Assertion, text, tail: None },
                            ),
                        )
                    },
                    _ => {
                        let (h, r) = h.fail::<Value>(
                            "expected a Boolean but found "@ + type_text(v),
                        );
                        (h, OpOut::Fail(r->Err_0))
                    },
                },
            },
        }
    }

    /// One instruction. Running off the end returns, as `Ret` does.
    pub open spec fn exec_op(self, u: UnitFrame) -> (HeapView, OpOut) {
        match self.op_at(u.module, u.unit, u.ip) {
            None => self.op_ret(u),
            Some(op) => match op {
                Op::Ret => self.op_ret(u),
                Op::Const(idx) => self.op_const(u, idx),
                Op::GetLocal { depth, slot } => self.op_local(u, depth, slot, false),
                Op::GetLocalLazy { depth, slot } => self.op_local(u, depth, slot, true),
                Op::Builtin { idx } => {
                    let (h, v) = self.mk_value(idx);
                    (h.push_value(u.stack, v), OpOut::Go(stepped(u)))
                },
                Op::BuiltinsSet => {
                    let (h, v) = self.builtins_set();
                    (h.push_value(u.stack, v), OpOut::Go(stepped(u)))
                },
                Op::UnimplementedGlobal { sym } => self.op_unimplemented(u, sym),
                Op::Thunk { unit } => {
                    let (h, s) = self.new_slot(
                        SlotState::Thunk { module: u.module, unit, env: u.env },
                    );
                    (h.push_item(u.stack, Item::Lazy(s)), OpOut::Go(stepped(u)))
                },
                Op::Closure { unit } => (
                    self.push_value(
                        u.stack,
                        Value::Closure { module: u.module, unit, env: u.env },
                    ),
                    OpOut::Go(stepped(u)),
                ),
                Op::Apply => self.op_apply(u),
                Op::PushEnv { n } => self.op_push_env(u, n),
                Op::PopEnv => self.op_pop_env(u),
                Op::JumpIfFalse { target } => self.op_jump_if_false(u, target),
                Op::Jump { target } => (self, OpOut::Go(jumped(u, target))),
                Op::Add => self.op_arith(u, Arith::Add),
                Op::Sub => self.op_arith(u, Arith::Sub),
                Op::Mul => self.op_arith(u, Arith::Mul),
                Op::Div => self.op_arith(u, Arith::Div),
                Op::Eq => self.op_eq(u, false),
                Op::Neq => self.op_eq(u, true),
                Op::Lt => self.op_order(u, false, false),
                Op::Gt => self.op_order(u, true, false),
                Op::Leq => self.op_order(u, true, true),
                Op::Geq => self.op_order(u, false, true),
                Op::Not => self.op_not(u),
                Op::Negate => self.op_negate(u),
                Op::ConcatStrings { n } => self.op_concat_strings(u, n),
                Op::MkList { n } => self.op_mk_list(u, n),
                Op::ConcatLists => self.op_concat_lists(u),
                Op::MkAttrs { n, .. } => self.op_mk_attrs(u, n),
                Op::Update => self.op_update(u),
                Op::Select { sym } => self.op_select(u, sym),
                Op::SelectDyn => self.op_select_dyn(u),
                Op::SelectSoft { sym } => self.op_select_soft(u, sym),
                Op::SelectSoftDyn => self.op_select_soft_dyn(u),
                Op::OrDefault => self.op_or_default(u),
                Op::HasAttr { sym } => self.op_has_attr(u, sym),
                Op::HasAttrDyn => self.op_has_attr_dyn(u),
                Op::PushWith => self.op_push_with(u),
                Op::ResolveWith { sym } => self.op_resolve_with(u, sym),
                Op::CallBuiltin { .. } => {
                    let (h, r) = self.missing::<Value>("CallBuiltin"@);
                    (h, OpOut::Fail(r->Err_0))
                },
                Op::Assert => self.op_assert(u),
            },
        }
    }
}

/// The fault of a refused operation.
fn refused(r: Result<Value, Fault>) -> (o: OpOut)
    ensures
        r is Err ==> o == OpOut::Fail(r->Err_0),
{
    match r {
        Err(e) => OpOut::Fail(e),
        Ok(v) => OpOut::Deliver(v),
    }
}

pub fn negate_float(x: u64) -> (r: u64)
    ensures
        r == float_negated(x),
{
    x ^ 0x8000_0000_0000_0000u64
}

/// The second set laid over the first.
pub fn update_sets(a: &Vec<(Sym, Slot)>, b: &Vec<(Sym, Slot)>) -> (r: Vec<(Sym, Slot)>)
    ensures
        r@ == updated(a@, b@),
{
    let mut out = copy_of(a);
    let mut i: usize = 0;
    assert(b@.take(0) =~= Seq::empty());
    while i < b.len()
        invariant
            i <= b.len(),
            out@ == updated(a@, b@.take(i as int)),
        decreases b.len() - i,
    {
        proof {
            assert(b@.take(i + 1).drop_last() =~= b@.take(i as int));
        }
        set_bind(&mut out, b[i].0, b[i].1);
        i += 1;
    }
    assert(b@.take(i as int) =~= b@);
    out
}

impl Heap {
    pub fn strict_at(&self, st: usize, off: usize) -> (r: Option<(usize, Slot)>)
        ensures
            r == self@.strict_at(st, off as int),
    {
        let n = self.work_len(st);
        if off == 0 || off > n {
            return None;
        }
        match self.work_get(st, n - off) {
            Some(Item::Lazy(s)) => Some((n - off, s)),
            _ => None,
        }
    }

    pub fn gap(&self, st: usize, k: usize) -> (r: Option<(usize, Slot)>)
        ensures
            r == self@.gap(st, k as int),
    {
        let mut left: usize = k;
        while left > 0
            invariant
                left <= k,
                self@.gap_from(st, k - left + 1, k as int) == self@.gap(st, k as int),
            decreases left,
        {
            let off = k - left + 1;
            match self.strict_at(st, off) {
                Some(g) => return Some(g),
                None => {
                    left -= 1;
                },
            }
        }
        None
    }

    pub fn names_gap(&self, st: usize, n: u16) -> (r: Option<(usize, Slot)>)
        ensures
            r == self@.names_gap(st, 0, n as int),
    {
        let mut j: u16 = 0;
        while j < n
            invariant
                j <= n,
                self@.names_gap(st, j as int, n as int) == self@.names_gap(st, 0, n as int),
            decreases n - j,
        {
            match self.strict_at(st, 2 + 2 * (j as usize)) {
                Some(g) => return Some(g),
                None => {
                    j += 1;
                },
            }
        }
        None
    }

    pub fn push_item(&mut self, st: usize, x: Item)
        ensures
            final(self)@ == old(self)@.push_item(st, x),
    {
        self.work_push(st, x);
    }

    pub fn push_value(&mut self, st: usize, v: Value)
        ensures
            final(self)@ == old(self)@.push_value(st, v),
    {
        self.work_push(st, Item::Val(v));
    }

    pub fn pop_item(&mut self, st: usize) -> (r: Result<Item, Fault>)
        ensures
            old(self)@.pop_item(st) == (final(self)@, r),
    {
        match self.work_pop(st) {
            Some(x) => Ok(x),
            None => self.fail_str("internal: stack underflow"),
        }
    }

    pub fn pop_value(&mut self, st: usize) -> (r: Result<Value, Fault>)
        ensures
            old(self)@.pop_value(st) == (final(self)@, r),
    {
        match self.pop_item(st) {
            Err(e) => Err(e),
            Ok(Item::Val(v)) => Ok(v),
            Ok(Item::Lazy(_)) => self.fail_str("internal: unforced stack entry"),
            Ok(_) => self.fail_str("internal: miss escaped selection"),
        }
    }

    pub fn pop_slot(&mut self, st: usize) -> (r: Result<Slot, Fault>)
        ensures
            old(self)@.pop_slot(st) == (final(self)@, r),
    {
        match self.pop_item(st) {
            Err(e) => Err(e),
            Ok(Item::Val(v)) => Ok(self.value_slot(v)),
            Ok(Item::Lazy(s)) => Ok(s),
            Ok(_) => self.fail_str("internal: miss escaped selection"),
        }
    }

    pub fn pop_slots(&mut self, st: usize, n: u16) -> (r: Result<Vec<usize>, Fault>)
        ensures
            match r {
                Ok(v) => old(self)@.pop_slots(st, n as int, Seq::empty()) == (
                    final(self)@,
                    Ok::<Seq<usize>, Fault>(v@),
                ),
                Err(e) => old(self)@.pop_slots(st, n as int, Seq::empty()) == (
                    final(self)@,
                    Err::<Seq<usize>, Fault>(e),
                ),
            },
    {
        let mut got: Vec<usize> = Vec::new();
        let mut left: u16 = n;
        while left > 0
            invariant
                self@.pop_slots(st, left as int, got@) == old(self)@.pop_slots(
                    st,
                    n as int,
                    Seq::empty(),
                ),
            decreases left,
        {
            match self.pop_slot(st) {
                Err(e) => return Err(e),
                Ok(s) => {
                    got.push(s);
                    left -= 1;
                },
            }
        }
        Ok(got)
    }

    pub fn pop_values(&mut self, st: usize, n: u16) -> (r: Result<Vec<Value>, Fault>)
        ensures
            match r {
                Ok(v) => old(self)@.pop_values(st, n as int, Seq::empty()) == (
                    final(self)@,
                    Ok::<Seq<Value>, Fault>(v@),
                ),
                Err(e) => old(self)@.pop_values(st, n as int, Seq::empty()) == (
                    final(self)@,
                    Err::<Seq<Value>, Fault>(e),
                ),
            },
    {
        let mut got: Vec<Value> = Vec::new();
        let mut left: u16 = n;
        while left > 0
            invariant
                self@.pop_values(st, left as int, got@) == old(self)@.pop_values(
                    st,
                    n as int,
                    Seq::empty(),
                ),
            decreases left,
        {
            match self.pop_value(st) {
                Err(e) => return Err(e),
                Ok(s) => {
                    got.push(s);
                    left -= 1;
                },
            }
        }
        Ok(got)
    }

    pub fn pop_pairs(&mut self, st: usize, n: u16) -> (r: Result<Vec<(Value, Slot)>, Fault>)
        ensures
            match r {
                Ok(v) => old(self)@.pop_pairs(st, n as int, Seq::empty()) == (
                    final(self)@,
                    Ok::<Seq<(Value, Slot)>, Fault>(v@),
                ),
                Err(e) => old(self)@.pop_pairs(st, n as int, Seq::empty()) == (
                    final(self)@,
                    Err::<Seq<(Value, Slot)>, Fault>(e),
                ),
            },
    {
        let mut got: Vec<(Value, Slot)> = Vec::new();
        let mut left: u16 = n;
        while left > 0
            invariant
                self@.pop_pairs(st, left as int, got@) == old(self)@.pop_pairs(
                    st,
                    n as int,
                    Seq::empty(),
                ),
            decreases left,
        {
            match self.pop_slot(st) {
                Err(e) => return Err(e),
                Ok(s) => match self.pop_value(st) {
                    Err(e) => return Err(e),
                    Ok(k) => {
                        got.push((k, s));
                        left -= 1;
                    },
                },
            }
        }
        Ok(got)
    }

    pub fn entry_value(&mut self, st: usize, off: usize) -> (r: Result<Value, Fault>)
        ensures
            old(self)@.entry_value(st, off as int) == (final(self)@, r),
    {
        let n = self.work_len(st);
        if off == 0 || off > n {
            return self.fail_str("internal: stack underflow");
        }
        match self.work_get(st, n - off) {
            Some(Item::Val(v)) => Ok(v),
            Some(Item::Lazy(_)) => self.fail_str("internal: unforced stack entry"),
            _ => self.fail_str("internal: miss escaped selection"),
        }
    }

    pub fn local(&mut self, env: usize, depth: u16, slot: u16) -> (r: Result<Slot, Fault>)
        ensures
            old(self)@.local(env, depth, slot) == (final(self)@, r),
    {
        let mut node: usize = env;
        let mut d: u16 = depth;
        while d > 0
            invariant
                self@ == old(self)@,
                self@.local(node, d, slot) == old(self)@.local(env, depth, slot),
            decreases d,
        {
            match self.env(node) {
                EnvNode::Frame { up, .. } => {
                    node = up;
                },
                EnvNode::With { up, .. } => {
                    node = up;
                },
                EnvNode::Root => return self.fail_str("internal: local depth underflow"),
            }
            d -= 1;
        }
        match self.env(node) {
            EnvNode::Frame { slots, .. } => match self.list_get(slots, slot as usize) {
                Some(s) => Ok(s),
                None => self.fail_str("internal: bad local slot"),
            },
            EnvNode::With { .. } => self.fail_str("internal: local depth hit with-scope"),
            EnvNode::Root => self.fail_str("internal: local depth underflow"),
        }
    }

    pub fn repointed(&mut self, slots: &Vec<usize>, env: usize) -> (r: Vec<usize>)
        ensures
            old(self)@.repointed(slots@, env, 0, Seq::empty()) == (final(self)@, r@),
    {
        let mut out: Vec<usize> = Vec::new();
        let mut i: usize = 0;
        while i < slots.len()
            invariant
                i <= slots.len(),
                self@.repointed(slots@, env, i as int, out@) == old(self)@.repointed(
                    slots@,
                    env,
                    0,
                    Seq::empty(),
                ),
            decreases slots.len() - i,
        {
            match self.slot(slots[i]) {
                SlotState::Thunk { module, unit, .. } => {
                    let s = self.new_slot(SlotState::Thunk { module, unit, env });
                    out.push(s);
                },
                _ => {
                    out.push(slots[i]);
                },
            }
            i += 1;
        }
        out
    }

    /// The constant at an index.
    pub fn const_at(&self, module: usize, idx: u32) -> (r: Option<Const>)
        ensures
            match r {
                Some(c) => self@.const_at(module, idx) == Some(c@),
                None => self@.const_at(module, idx) is None,
            },
    {
        if module < self.modules.len() && (idx as usize) < self.modules[module].consts.len() {
            Some(
                match &self.modules[module].consts[idx as usize] {
                    Const::Int(n) => Const::Int(*n),
                    Const::Float(x) => Const::Float(*x),
                    Const::Digits(t) => Const::Digits(copy_of(t)),
                    Const::Bool(b) => Const::Bool(*b),
                    Const::Null => Const::Null,
                    Const::Str(t) => Const::Str(copy_of(t)),
                    Const::Path(t) => Const::Path(copy_of(t)),
                },
            )
        } else {
            None
        }
    }

    pub fn const_value(&mut self, c: Const) -> (r: Result<Value, Fault>)
        ensures
            old(self)@.const_value(c@) == (final(self)@, r),
    {
        match c {
            Const::Int(n) => Ok(Value::Int(n)),
            Const::Float(x) => Ok(Value::Float(x)),
            Const::Digits(t) => Ok(self.str_value(t)),
            Const::Bool(b) => Ok(Value::Bool(b)),
            Const::Null => Ok(Value::Null),
            Const::Str(t) => match nul_check(&t) {
                Some(msg) => self.fail(msg),
                None => Ok(self.str_value(t)),
            },
            Const::Path(t) => Ok(self.path_value(t)),
        }
    }

    pub fn op_ret(&mut self, u: UnitFrame) -> (r: OpOut)
        ensures
            old(self)@.op_ret(u) == (final(self)@, r),
    {
        match self.gap(u.stack, 1) {
            Some((i, s)) => OpOut::Force(UnitFrame { dest: Dest::Stack(i), ..u }, s),
            None => match self.pop_value(u.stack) {
                Err(e) => OpOut::Fail(e),
                Ok(v) => OpOut::Deliver(v),
            },
        }
    }

    pub fn op_const(&mut self, u: UnitFrame, idx: u32) -> (r: OpOut)
        ensures
            old(self)@.op_const(u, idx) == (final(self)@, r),
    {
        match self.const_at(u.module, idx) {
            None => refused(self.fail_str("internal: bad const index")),
            Some(Const::Digits(t)) => {
                let text = self.new_text(t);
                OpOut::Run(step_on(u), Task::Ask { need: Need::Number(text), asked: false })
            },
            Some(c) => match self.const_value(c) {
                Err(e) => OpOut::Fail(e),
                Ok(v) => {
                    self.push_value(u.stack, v);
                    OpOut::Go(step_on(u))
                },
            },
        }
    }

    pub fn op_local(&mut self, u: UnitFrame, depth: u16, slot: u16, lazy: bool) -> (r: OpOut)
        ensures
            old(self)@.op_local(u, depth, slot, lazy) == (final(self)@, r),
    {
        match self.local(u.env, depth, slot) {
            Err(e) => OpOut::Fail(e),
            Ok(s) => if lazy {
                self.push_item(u.stack, Item::Lazy(s));
                OpOut::Go(step_on(u))
            } else {
                OpOut::Force(step_on(u), s)
            },
        }
    }

    pub fn op_unimplemented(&mut self, u: UnitFrame, sym: u32) -> (r: OpOut)
        ensures
            old(self)@.op_unimplemented(u, sym) == (final(self)@, r),
    {
        match self.msym(u.module, sym) {
            Err(e) => OpOut::Fail(e),
            Ok(g) => {
                let mut t = text_of("global ");
                append_all(&mut t, &self.sym_name(g));
                refused(self.missing(t))
            },
        }
    }

    pub fn op_apply(&mut self, u: UnitFrame) -> (r: OpOut)
        ensures
            old(self)@.op_apply(u) == (final(self)@, r),
    {
        match self.strict_at(u.stack, 2) {
            Some((i, s)) => OpOut::Force(UnitFrame { dest: Dest::Stack(i), ..u }, s),
            None => match self.entry_value(u.stack, 2) {
                Err(e) => OpOut::Fail(e),
                Ok(f) => match self.pop_slot(u.stack) {
                    Err(e) => OpOut::Fail(e),
                    Ok(arg) => match self.pop_item(u.stack) {
                        Err(e) => OpOut::Fail(e),
                        Ok(_) => OpOut::Call(step_on(u), f, arg),
                    },
                },
            },
        }
    }

    pub fn op_push_env(&mut self, u: UnitFrame, n: u16) -> (r: OpOut)
        ensures
            old(self)@.op_push_env(u, n) == (final(self)@, r),
    {
        match self.pop_slots(u.stack, n) {
            Err(e) => OpOut::Fail(e),
            Ok(got) => {
                let slots = self.new_list(Vec::new());
                let env = self.new_env(EnvNode::Frame { up: u.env, slots });
                let out = self.repointed(&reversed(&got), env);
                self.list_put(slots, out);
                OpOut::Go(step_on(UnitFrame { env, ..u }))
            },
        }
    }

    pub fn op_pop_env(&mut self, u: UnitFrame) -> (r: OpOut)
        ensures
            old(self)@.op_pop_env(u) == (final(self)@, r),
    {
        match self.env(u.env) {
            EnvNode::Frame { up, .. } => OpOut::Go(step_on(UnitFrame { env: up, ..u })),
            EnvNode::With { up, .. } => OpOut::Go(step_on(UnitFrame { env: up, ..u })),
            EnvNode::Root => refused(self.fail_str("internal: env underflow")),
        }
    }

    pub fn op_push_with(&mut self, u: UnitFrame) -> (r: OpOut)
        ensures
            old(self)@.op_push_with(u) == (final(self)@, r),
    {
        match self.pop_slot(u.stack) {
            Err(e) => OpOut::Fail(e),
            Ok(subject) => {
                let env = self.new_env(EnvNode::With { up: u.env, subject });
                OpOut::Go(step_on(UnitFrame { env, ..u }))
            },
        }
    }

    pub fn op_jump_if_false(&mut self, u: UnitFrame, target: u32) -> (r: OpOut)
        ensures
            old(self)@.op_jump_if_false(u, target) == (final(self)@, r),
    {
        match self.gap(u.stack, 1) {
            Some((i, s)) => OpOut::Force(UnitFrame { dest: Dest::Stack(i), ..u }, s),
            None => match self.pop_value(u.stack) {
                Err(e) => OpOut::Fail(e),
                Ok(v) => match v {
                    Value::Bool(b) => OpOut::Go(
                        if b {
                            step_on(u)
                        } else {
                            jump_on(u, target)
                        },
                    ),
                    _ => refused(self.fail_shown("expected a Boolean but found ", v)),
                },
            },
        }
    }

    pub fn coerce_concat(&mut self, v: Value) -> (r: Result<Text, Fault>)
        ensures
            match r {
                Ok(t) => old(self)@.coerce_concat(v) == (final(self)@, Ok::<Seq<char>, Fault>(t@)),
                Err(e) => old(self)@.coerce_concat(v) == (final(self)@, Err::<Seq<char>, Fault>(e)),
            },
    {
        match v {
            Value::Str(s) => Ok(self.text(s)),
            Value::Path(p) => Ok(self.text(p)),
            Value::Int(n) => {
                let mut t: Text = Vec::new();
                append_int(&mut t, n as i128);
                Ok(t)
            },
            _ => self.fail_with("cannot coerce ", &text_of(kind_name(v)), " to a string"),
        }
    }

    pub fn add_text(&mut self, u: UnitFrame, l: Value, r: Value) -> (out: OpOut)
        ensures
            old(self)@.add_text(u, l, r) == (final(self)@, out),
    {
        match r {
            Value::Float(x) => {
                self.push_value(u.stack, l);
                self.push_value(u.stack, r);
                let n = self.work_len(u.stack);
                OpOut::Run(
                    UnitFrame { dest: Dest::Stack(before(n)), ..u },
                    new_float_task(FloatAsk::Show(x)),
                )
            },
            _ => match self.coerce_concat(r) {
                Err(e) => OpOut::Fail(e),
                Ok(b) => {
                    let v = match l {
                        Value::Path(a) => {
                            let mut t = self.text(a);
                            append_all(&mut t, &b);
                            let t = normal_path_of(&t);
                            self.path_value(t)
                        },
                        Value::Str(a) => {
                            let mut t = self.text(a);
                            append_all(&mut t, &b);
                            self.str_value(t)
                        },
                        _ => self.str_value(b),
                    };
                    self.push_value(u.stack, v);
                    OpOut::Go(step_on(u))
                },
            },
        }
    }

    pub fn add_numbers(&mut self, u: UnitFrame, op: Arith, l: Value, r: Value) -> (out: OpOut)
        ensures
            old(self)@.add_numbers(u, op, l, r) == (final(self)@, out),
    {
        if let (Value::Int(a), Value::Int(b)) = (l, r) {
            if op == Arith::Div && b == 0 {
                return refused(self.fail_str("division by zero"));
            }
            match int_arith_of(op, a, b) {
                Some(n) => {
                    self.push_value(u.stack, Value::Int(n));
                    OpOut::Go(step_on(u))
                },
                None => {
                    let mut t = text_of("integer overflow in ");
                    append_str(&mut t, arith_verb(op));
                    append_int(&mut t, a as i128);
                    append_str(&mut t, arith_sign(op));
                    append_int(&mut t, b as i128);
                    refused(self.fail(t))
                },
            }
        } else {
            match self.want_num(l) {
                Err(e) => OpOut::Fail(e),
                Ok(a) => match self.want_num(r) {
                    Err(e) => OpOut::Fail(e),
                    Ok(b) => OpOut::Run(step_on(u), new_float_task(float_arith_of(op, a, b))),
                },
            }
        }
    }

    pub fn op_arith(&mut self, u: UnitFrame, op: Arith) -> (r: OpOut)
        ensures
            old(self)@.op_arith(u, op) == (final(self)@, r),
    {
        match self.gap(u.stack, 2) {
            Some((i, s)) => OpOut::Force(UnitFrame { dest: Dest::Stack(i), ..u }, s),
            None => match self.pop_value(u.stack) {
                Err(e) => OpOut::Fail(e),
                Ok(r) => match self.pop_value(u.stack) {
                    Err(e) => OpOut::Fail(e),
                    Ok(l) => if op == Arith::Add && matches!(l, Value::Str(_) | Value::Path(_)) {
                        self.add_text(u, l, r)
                    } else {
                        self.add_numbers(u, op, l, r)
                    },
                },
            },
        }
    }

    pub fn op_eq(&mut self, u: UnitFrame, negate: bool) -> (r: OpOut)
        ensures
            old(self)@.op_eq(u, negate) == (final(self)@, r),
    {
        match self.gap(u.stack, 2) {
            Some((i, s)) => OpOut::Force(UnitFrame { dest: Dest::Stack(i), ..u }, s),
            None => match self.pop_value(u.stack) {
                Err(e) => OpOut::Fail(e),
                Ok(r) => match self.pop_value(u.stack) {
                    Err(e) => OpOut::Fail(e),
                    Ok(l) => {
                        let t = self.deep_eq(l, r, negate);
                        OpOut::Run(step_on(u), t)
                    },
                },
            },
        }
    }

    pub fn op_order(&mut self, u: UnitFrame, swap: bool, negate: bool) -> (r: OpOut)
        ensures
            old(self)@.op_order(u, swap, negate) == (final(self)@, r),
    {
        match self.gap(u.stack, 2) {
            Some((i, s)) => OpOut::Force(UnitFrame { dest: Dest::Stack(i), ..u }, s),
            None => match self.pop_value(u.stack) {
                Err(e) => OpOut::Fail(e),
                Ok(r) => match self.pop_value(u.stack) {
                    Err(e) => OpOut::Fail(e),
                    Ok(l) => {
                        let t = if swap {
                            self.compare(r, l, negate)
                        } else {
                            self.compare(l, r, negate)
                        };
                        OpOut::Run(step_on(u), t)
                    },
                },
            },
        }
    }

    pub fn op_not(&mut self, u: UnitFrame) -> (r: OpOut)
        ensures
            old(self)@.op_not(u) == (final(self)@, r),
    {
        match self.gap(u.stack, 1) {
            Some((i, s)) => OpOut::Force(UnitFrame { dest: Dest::Stack(i), ..u }, s),
            None => match self.pop_value(u.stack) {
                Err(e) => OpOut::Fail(e),
                Ok(v) => match v {
                    Value::Bool(b) => {
                        self.push_value(u.stack, Value::Bool(!b));
                        OpOut::Go(step_on(u))
                    },
                    _ => refused(self.fail_shown("expected a Boolean but found ", v)),
                },
            },
        }
    }

    pub fn op_negate(&mut self, u: UnitFrame) -> (r: OpOut)
        ensures
            old(self)@.op_negate(u) == (final(self)@, r),
    {
        match self.gap(u.stack, 1) {
            Some((i, s)) => OpOut::Force(UnitFrame { dest: Dest::Stack(i), ..u }, s),
            None => match self.pop_value(u.stack) {
                Err(e) => OpOut::Fail(e),
                Ok(v) => match v {
                    Value::Int(n) => if n == i64::MIN {
                        refused(self.fail_str("integer overflow in negation"))
                    } else {
                        self.push_value(u.stack, Value::Int(-n));
                        OpOut::Go(step_on(u))
                    },
                    Value::Float(x) => {
                        self.push_value(u.stack, Value::Float(negate_float(x)));
                        OpOut::Go(step_on(u))
                    },
                    _ => refused(
                        self.fail_type("expected an integer or float but found ", v),
                    ),
                },
            },
        }
    }

    pub fn interpolated(&mut self, parts: &Vec<Value>) -> (r: Result<Text, Fault>)
        ensures
            match r {
                Ok(t) => old(self)@.interpolated(parts@, 0, Seq::empty()) == (
                    final(self)@,
                    Ok::<Seq<char>, Fault>(t@),
                ),
                Err(e) => old(self)@.interpolated(parts@, 0, Seq::empty()) == (
                    final(self)@,
                    Err::<Seq<char>, Fault>(e),
                ),
            },
    {
        let mut out: Text = Vec::new();
        let mut i: usize = 0;
        while i < parts.len()
            invariant
                i <= parts.len(),
                self@.interpolated(parts@, i as int, out@) == old(self)@.interpolated(
                    parts@,
                    0,
                    Seq::empty(),
                ),
            decreases parts.len() - i,
        {
            match self.coerce_interpolated(parts[i]) {
                Err(e) => return Err(e),
                Ok(t) => {
                    append_all(&mut out, &self.text(t));
                },
            }
            i += 1;
        }
        Ok(out)
    }

    pub fn op_concat_strings(&mut self, u: UnitFrame, n: u16) -> (r: OpOut)
        ensures
            old(self)@.op_concat_strings(u, n) == (final(self)@, r),
    {
        match self.gap(u.stack, n as usize) {
            Some((i, s)) => OpOut::Force(UnitFrame { dest: Dest::Stack(i), ..u }, s),
            None => match self.pop_values(u.stack, n) {
                Err(e) => OpOut::Fail(e),
                Ok(got) => match self.interpolated(&reversed(&got)) {
                    Err(e) => OpOut::Fail(e),
                    Ok(t) => match self.const_value(Const::Str(t)) {
                        Err(e) => OpOut::Fail(e),
                        Ok(v) => {
                            self.push_value(u.stack, v);
                            OpOut::Go(step_on(u))
                        },
                    },
                },
            },
        }
    }

    pub fn op_mk_list(&mut self, u: UnitFrame, n: u16) -> (r: OpOut)
        ensures
            old(self)@.op_mk_list(u, n) == (final(self)@, r),
    {
        match self.pop_slots(u.stack, n) {
            Err(e) => OpOut::Fail(e),
            Ok(got) => {
                let v = self.list_value(reversed(&got));
                self.push_value(u.stack, v);
                OpOut::Go(step_on(u))
            },
        }
    }

    pub fn op_concat_lists(&mut self, u: UnitFrame) -> (r: OpOut)
        ensures
            old(self)@.op_concat_lists(u) == (final(self)@, r),
    {
        match self.gap(u.stack, 2) {
            Some((i, s)) => OpOut::Force(UnitFrame { dest: Dest::Stack(i), ..u }, s),
            None => match self.pop_value(u.stack) {
                Err(e) => OpOut::Fail(e),
                Ok(r) => match self.pop_value(u.stack) {
                    Err(e) => OpOut::Fail(e),
                    Ok(l) => match (l, r) {
                        (Value::List(a), Value::List(b)) => {
                            let mut out = self.list(a);
                            append_all(&mut out, &self.list(b));
                            let v = self.list_value(out);
                            self.push_value(u.stack, v);
                            OpOut::Go(step_on(u))
                        },
                        _ => refused(self.fail_type("expected a list but found ", l)),
                    },
                },
            },
        }
    }

    pub fn set_from(&mut self, pairs: &Vec<(Value, Slot)>) -> (r: Result<
        Vec<(Sym, Slot)>,
        Fault,
    >)
        ensures
            match r {
                Ok(m) => old(self)@.set_from(pairs@, 0, Seq::empty()) == (
                    final(self)@,
                    Ok::<Seq<(Sym, Slot)>, Fault>(m@),
                ),
                Err(e) => old(self)@.set_from(pairs@, 0, Seq::empty()) == (
                    final(self)@,
                    Err::<Seq<(Sym, Slot)>, Fault>(e),
                ),
            },
    {
        let mut out: Vec<(Sym, Slot)> = Vec::new();
        let mut i: usize = 0;
        while i < pairs.len()
            invariant
                i <= pairs.len(),
                self@.set_from(pairs@, i as int, out@) == old(self)@.set_from(
                    pairs@,
                    0,
                    Seq::empty(),
                ),
            decreases pairs.len() - i,
        {
            match pairs[i].0 {
                Value::Null => {},
                Value::Str(t) => {
                    let name = self.text(t);
                    let k = self.intern(&name);
                    if set_lookup(&out, k).is_some() {
                        return self.fail_with("attribute '", &name, "' already defined");
                    }
                    set_bind(&mut out, k, pairs[i].1);
                },
                k => return self.fail_shown("expected a string but found ", k),
            }
            i += 1;
        }
        Ok(out)
    }

    pub fn op_mk_attrs(&mut self, u: UnitFrame, n: u16) -> (r: OpOut)
        ensures
            old(self)@.op_mk_attrs(u, n) == (final(self)@, r),
    {
        match self.names_gap(u.stack, n) {
            Some((i, s)) => OpOut::Force(UnitFrame { dest: Dest::Stack(i), ..u }, s),
            None => match self.pop_pairs(u.stack, n) {
                Err(e) => OpOut::Fail(e),
                Ok(got) => match self.set_from(&reversed(&got)) {
                    Err(e) => OpOut::Fail(e),
                    Ok(set) => {
                        let v = self.attrs_value(set);
                        self.push_value(u.stack, v);
                        OpOut::Go(step_on(u))
                    },
                },
            },
        }
    }

    pub fn op_update(&mut self, u: UnitFrame) -> (r: OpOut)
        ensures
            old(self)@.op_update(u) == (final(self)@, r),
    {
        match self.gap(u.stack, 2) {
            Some((i, s)) => OpOut::Force(UnitFrame { dest: Dest::Stack(i), ..u }, s),
            None => match self.pop_value(u.stack) {
                Err(e) => OpOut::Fail(e),
                Ok(r) => match self.pop_value(u.stack) {
                    Err(e) => OpOut::Fail(e),
                    Ok(l) => match (l, r) {
                        (Value::Attrs(a), Value::Attrs(b)) => {
                            let out = update_sets(&self.set(a), &self.set(b));
                            let v = self.attrs_value(out);
                            self.push_value(u.stack, v);
                            OpOut::Go(step_on(u))
                        },
                        _ => {
                            let bad = if matches!(l, Value::Attrs(_)) {
                                r
                            } else {
                                l
                            };
                            refused(self.fail_type("expected a set but found ", bad))
                        },
                    },
                },
            },
        }
    }

    pub fn select_strict(&mut self, set: Value, k: Sym) -> (r: Result<Slot, Fault>)
        ensures
            old(self)@.select_strict(set, k) == (final(self)@, r),
    {
        match set {
            Value::Attrs(m) => match self.set_get(m, k) {
                Some(s) => Ok(s),
                None => {
                    let name = self.sym_name(k);
                    self.fail_with("attribute '", &name, "' missing")
                },
            },
            _ => self.fail_shown("expected a set but found ", set),
        }
    }

    pub fn attr_sym(&mut self, name: Value) -> (r: Result<Sym, Fault>)
        ensures
            old(self)@.attr_sym(name) == (final(self)@, r),
    {
        match name {
            Value::Str(t) => {
                let name = self.text(t);
                Ok(self.intern(&name))
            },
            _ => self.fail_shown("expected a string but found ", name),
        }
    }

    pub fn pop_name(&mut self, u: UnitFrame) -> (r: Result<Sym, Fault>)
        ensures
            old(self)@.pop_name(u) == (final(self)@, r),
    {
        match self.pop_value(u.stack) {
            Err(e) => Err(e),
            Ok(name) => self.attr_sym(name),
        }
    }

    pub fn op_select(&mut self, u: UnitFrame, sym: u32) -> (r: OpOut)
        ensures
            old(self)@.op_select(u, sym) == (final(self)@, r),
    {
        match self.gap(u.stack, 1) {
            Some((i, s)) => OpOut::Force(UnitFrame { dest: Dest::Stack(i), ..u }, s),
            None => match self.msym(u.module, sym) {
                Err(e) => OpOut::Fail(e),
                Ok(k) => match self.pop_value(u.stack) {
                    Err(e) => OpOut::Fail(e),
                    Ok(set) => match self.select_strict(set, k) {
                        Err(e) => OpOut::Fail(e),
                        Ok(s) => OpOut::Force(step_on(u), s),
                    },
                },
            },
        }
    }

    pub fn op_select_dyn(&mut self, u: UnitFrame) -> (r: OpOut)
        ensures
            old(self)@.op_select_dyn(u) == (final(self)@, r),
    {
        match self.gap(u.stack, 2) {
            Some((i, s)) => OpOut::Force(UnitFrame { dest: Dest::Stack(i), ..u }, s),
            None => match self.pop_value(u.stack) {
                Err(e) => OpOut::Fail(e),
                Ok(name) => match self.pop_value(u.stack) {
                    Err(e) => OpOut::Fail(e),
                    Ok(set) => match self.attr_sym(name) {
                        Err(e) => OpOut::Fail(e),
                        Ok(k) => match self.select_strict(set, k) {
                            Err(e) => OpOut::Fail(e),
                            Ok(s) => OpOut::Force(step_on(u), s),
                        },
                    },
                },
            },
        }
    }

    pub fn select_soft(&mut self, u: UnitFrame, k: Sym) -> (r: OpOut)
        ensures
            old(self)@.select_soft(u, k) == (final(self)@, r),
    {
        match self.pop_item(u.stack) {
            Err(e) => OpOut::Fail(e),
            Ok(Item::Lazy(_)) => refused(self.fail_str("internal: unforced stack entry")),
            Ok(Item::Val(Value::Attrs(m))) => match self.set_get(m, k) {
                Some(s) => OpOut::Force(step_on(u), s),
                None => {
                    self.push_item(u.stack, Item::Miss);
                    OpOut::Go(step_on(u))
                },
            },
            Ok(_) => {
                self.push_item(u.stack, Item::Miss);
                OpOut::Go(step_on(u))
            },
        }
    }

    pub fn op_select_soft(&mut self, u: UnitFrame, sym: u32) -> (r: OpOut)
        ensures
            old(self)@.op_select_soft(u, sym) == (final(self)@, r),
    {
        match self.gap(u.stack, 1) {
            Some((i, s)) => OpOut::Force(UnitFrame { dest: Dest::Stack(i), ..u }, s),
            None => match self.msym(u.module, sym) {
                Err(e) => OpOut::Fail(e),
                Ok(k) => self.select_soft(u, k),
            },
        }
    }

    pub fn op_select_soft_dyn(&mut self, u: UnitFrame) -> (r: OpOut)
        ensures
            old(self)@.op_select_soft_dyn(u) == (final(self)@, r),
    {
        match self.gap(u.stack, 2) {
            Some((i, s)) => OpOut::Force(UnitFrame { dest: Dest::Stack(i), ..u }, s),
            None => match self.pop_name(u) {
                Err(e) => OpOut::Fail(e),
                Ok(k) => self.select_soft(u, k),
            },
        }
    }

    pub fn op_or_default(&mut self, u: UnitFrame) -> (r: OpOut)
        ensures
            old(self)@.op_or_default(u) == (final(self)@, r),
    {
        match self.pop_slot(u.stack) {
            Err(e) => OpOut::Fail(e),
            Ok(default) => match self.pop_item(u.stack) {
                Err(e) => OpOut::Fail(e),
                Ok(Item::Miss) => OpOut::Force(step_on(u), default),
                Ok(other) => {
                    self.push_item(u.stack, other);
                    OpOut::Go(step_on(u))
                },
            },
        }
    }

    pub fn has_attr(&mut self, u: UnitFrame, k: Sym) -> (r: OpOut)
        ensures
            old(self)@.has_attr(u, k) == (final(self)@, r),
    {
        match self.pop_item(u.stack) {
            Err(e) => OpOut::Fail(e),
            Ok(Item::Val(Value::Attrs(m))) => {
                let has = self.set_get(m, k).is_some();
                self.push_value(u.stack, Value::Bool(has));
                OpOut::Go(step_on(u))
            },
            Ok(_) => {
                self.push_value(u.stack, Value::Bool(false));
                OpOut::Go(step_on(u))
            },
        }
    }

    pub fn op_has_attr(&mut self, u: UnitFrame, sym: u32) -> (r: OpOut)
        ensures
            old(self)@.op_has_attr(u, sym) == (final(self)@, r),
    {
        match self.gap(u.stack, 1) {
            Some((i, s)) => OpOut::Force(UnitFrame { dest: Dest::Stack(i), ..u }, s),
            None => match self.msym(u.module, sym) {
                Err(e) => OpOut::Fail(e),
                Ok(k) => self.has_attr(u, k),
            },
        }
    }

    pub fn op_has_attr_dyn(&mut self, u: UnitFrame) -> (r: OpOut)
        ensures
            old(self)@.op_has_attr_dyn(u) == (final(self)@, r),
    {
        match self.gap(u.stack, 2) {
            Some((i, s)) => OpOut::Force(UnitFrame { dest: Dest::Stack(i), ..u }, s),
            None => match self.pop_name(u) {
                Err(e) => OpOut::Fail(e),
                Ok(k) => self.has_attr(u, k),
            },
        }
    }

    pub fn op_resolve_with(&mut self, u: UnitFrame, sym: u32) -> (r: OpOut)
        ensures
            old(self)@.op_resolve_with(u, sym) == (final(self)@, r),
    {
        match self.msym(u.module, sym) {
            Err(e) => OpOut::Fail(e),
            Ok(k) => OpOut::Run(
                step_on(u),
                Task::ResolveWith { node: u.env, sym: k, search: Search::Walk },
            ),
        }
    }

    pub fn op_assert(&mut self, u: UnitFrame) -> (r: OpOut)
        ensures
            old(self)@.op_assert(u) == (final(self)@, r),
    {
        match self.gap(u.stack, 1) {
            Some((i, s)) => OpOut::Force(UnitFrame { dest: Dest::Stack(i), ..u }, s),
            None => match self.pop_value(u.stack) {
                Err(e) => OpOut::Fail(e),
                Ok(v) => match v {
                    Value::Bool(b) => if b {
                        OpOut::Go(step_on(u))
                    } else {
                        let text = self.new_text(text_of("assertion failed"));
                        OpOut::Fail(Fault::Throw { kind: ErrKind::Assertion, text, tail: None })
                    },
                    _ => refused(self.fail_type("expected a Boolean but found ", v)),
                },
            },
        }
    }

    pub fn exec_op(&mut self, u: UnitFrame) -> (r: OpOut)
        ensures
            old(self)@.exec_op(u) == (final(self)@, r),
    {
        match self.op_at(u.module, u.unit, u.ip) {
            None => self.op_ret(u),
            Some(op) => match op {
                Op::Ret => self.op_ret(u),
                Op::Const(idx) => self.op_const(u, idx),
                Op::GetLocal { depth, slot } => self.op_local(u, depth, slot, false),
                Op::GetLocalLazy { depth, slot } => self.op_local(u, depth, slot, true),
                Op::Builtin { idx } => {
                    let v = self.mk_value(idx);
                    self.push_value(u.stack, v);
                    OpOut::Go(step_on(u))
                },
                Op::BuiltinsSet => {
                    let v = self.builtins_set();
                    self.push_value(u.stack, v);
                    OpOut::Go(step_on(u))
                },
                Op::UnimplementedGlobal { sym } => self.op_unimplemented(u, sym),
                Op::Thunk { unit } => {
                    let s = self.new_slot(
                        SlotState::Thunk { module: u.module, unit, env: u.env },
                    );
                    self.push_item(u.stack, Item::Lazy(s));
                    OpOut::Go(step_on(u))
                },
                Op::Closure { unit } => {
                    self.push_value(
                        u.stack,
                        Value::Closure { module: u.module, unit, env: u.env },
                    );
                    OpOut::Go(step_on(u))
                },
                Op::Apply => self.op_apply(u),
                Op::PushEnv { n } => self.op_push_env(u, n),
                Op::PopEnv => self.op_pop_env(u),
                Op::JumpIfFalse { target } => self.op_jump_if_false(u, target),
                Op::Jump { target } => OpOut::Go(jump_on(u, target)),
                Op::Add => self.op_arith(u, Arith::Add),
                Op::Sub => self.op_arith(u, Arith::Sub),
                Op::Mul => self.op_arith(u, Arith::Mul),
                Op::Div => self.op_arith(u, Arith::Div),
                Op::Eq => self.op_eq(u, false),
                Op::Neq => self.op_eq(u, true),
                Op::Lt => self.op_order(u, false, false),
                Op::Gt => self.op_order(u, true, false),
                Op::Leq => self.op_order(u, true, true),
                Op::Geq => self.op_order(u, false, true),
                Op::Not => self.op_not(u),
                Op::Negate => self.op_negate(u),
                Op::ConcatStrings { n } => self.op_concat_strings(u, n),
                Op::MkList { n } => self.op_mk_list(u, n),
                Op::ConcatLists => self.op_concat_lists(u),
                Op::MkAttrs { n, .. } => self.op_mk_attrs(u, n),
                Op::Update => self.op_update(u),
                Op::Select { sym } => self.op_select(u, sym),
                Op::SelectDyn => self.op_select_dyn(u),
                Op::SelectSoft { sym } => self.op_select_soft(u, sym),
                Op::SelectSoftDyn => self.op_select_soft_dyn(u),
                Op::OrDefault => self.op_or_default(u),
                Op::HasAttr { sym } => self.op_has_attr(u, sym),
                Op::HasAttrDyn => self.op_has_attr_dyn(u),
                Op::PushWith => self.op_push_with(u),
                Op::ResolveWith { sym } => self.op_resolve_with(u, sym),
                Op::CallBuiltin { .. } => refused(self.missing(text_of("CallBuiltin"))),
                Op::Assert => self.op_assert(u),
            },
        }
    }
}

} // verus!
