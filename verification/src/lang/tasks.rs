//! Stepping a task, whatever it walks, and what a task can catch.
use crate::lang::conts::Walked;
use crate::lang::frames::{Cont, FloatAsk, Need, Task, Yield};
use crate::lang::heap::{ErrKind, Fault, Heap, HeapView, Value};
use crate::lang::walks::Stepped;
use crate::text::append_all;
use vstd::prelude::*;

verus! {

/// A builtin's step as its task's step.
pub open spec fn as_task(idx: u16, args: usize, w: (HeapView, Walked)) -> (HeapView, Stepped) {
    (w.0, (Task::Builtin { idx, args, cont: w.1.0 }, w.1.1))
}

/// Whether `tryEval` turns a failure into a value.
pub open spec fn catchable(e: Fault) -> bool {
    e matches Fault::Throw { kind, .. } && kind != ErrKind::Eval
}

pub fn can_catch(e: Fault) -> (r: bool)
    ensures
        r == catchable(e),
{
    match e {
        Fault::Throw { kind, .. } => kind != ErrKind::Eval,
        Fault::Unimplemented(_) => false,
    }
}

impl HeapView {
    /// Asks for the text of the float that completes a message, then fails
    /// with the whole of it.
    pub open spec fn step_tail(
        self,
        kind: ErrKind,
        text: usize,
        bits: u64,
        asked: bool,
        incoming: Option<Value>,
    ) -> (HeapView, Stepped) {
        let after = Task::Tail { kind, text, bits, asked: true };
        if !asked {
            (self, (after, Ok(Yield::Need(Need::Float(FloatAsk::Show(bits))))))
        } else {
            match incoming {
                Some(Value::Str(t)) => {
                    let (h, whole) = self.new_text(self.text(text) + self.text(t));
                    (h, (after, Err(Fault::Throw { kind, text: whole, tail: None })))
                },
                _ => (self, (after, Err(Fault::Throw { kind, text, tail: None }))),
            }
        }
    }

    /// One step of a task, with the value it was waiting for.
    pub open spec fn step_task(self, t: Task, incoming: Option<Value>) -> (HeapView, Stepped) {
        match t {
            Task::Builtin { idx, args, cont } => as_task(
                idx,
                args,
                self.drive(idx, args, cont, incoming),
            ),
            Task::DeepEq { work, cur, stage, negate } => self.step_eq(
                work,
                cur,
                stage,
                negate,
                incoming,
            ),
            Task::Compare { stack, cur, stage, negate } => self.step_compare(
                stack,
                cur,
                stage,
                negate,
                incoming,
            ),
            Task::ResolveWith { node, sym, search } => self.step_with(node, sym, search, incoming),
            Task::Print { work, out, raw } => self.step_print(work, out, raw, incoming),
            Task::Coerce { work, out, raw } => self.step_coerce(work, out, raw, incoming),
            Task::ApplyChain { f, args, i } => self.step_chain(f, args, i, incoming),
            Task::Ask { need, asked } => self.step_need(need, asked, incoming),
            Task::Tail { kind, text, bits, asked } => self.step_tail(
                kind,
                text,
                bits,
                asked,
                incoming,
            ),
        }
    }

    /// `tryEval` is the only barrier: it turns a catchable failure of the
    /// expression it is forcing into a value.
    pub open spec fn catch(self, t: Task, e: Fault) -> (HeapView, Option<Value>) {
        match t {
            Task::Builtin { cont: Cont::TryEval { started: true }, .. } => if catchable(e) {
                let (h, v) = self.try_eval_result(false, Value::Bool(false));
                (h, Some(v))
            } else {
                (self, None)
            },
            _ => (self, None),
        }
    }
}

impl Heap {
    pub fn step_tail(
        &mut self,
        kind: ErrKind,
        text: usize,
        bits: u64,
        asked: bool,
        incoming: Option<Value>,
    ) -> (r: Stepped)
        ensures
            old(self)@.step_tail(kind, text, bits, asked, incoming) == (final(self)@, r),
    {
        let after = Task::Tail { kind, text, bits, asked: true };
        if !asked {
            return (after, Ok(Yield::Need(Need::Float(FloatAsk::Show(bits)))));
        }
        match incoming {
            Some(Value::Str(t)) => {
                let mut msg = self.text(text);
                append_all(&mut msg, &self.text(t));
                let whole = self.new_text(msg);
                (after, Err(Fault::Throw { kind, text: whole, tail: None }))
            },
            _ => (after, Err(Fault::Throw { kind, text, tail: None })),
        }
    }

    pub fn step_task(&mut self, t: Task, incoming: Option<Value>) -> (r: Stepped)
        ensures
            old(self)@.step_task(t, incoming) == (final(self)@, r),
    {
        match t {
            Task::Builtin { idx, args, cont } => {
                let (cont, y) = self.drive(idx, args, cont, incoming);
                (Task::Builtin { idx, args, cont }, y)
            },
            Task::DeepEq { work, cur, stage, negate } => self.step_eq(
                work,
                cur,
                stage,
                negate,
                incoming,
            ),
            Task::Compare { stack, cur, stage, negate } => self.step_compare(
                stack,
                cur,
                stage,
                negate,
                incoming,
            ),
            Task::ResolveWith { node, sym, search } => self.step_with(node, sym, search, incoming),
            Task::Print { work, out, raw } => self.step_print(work, out, raw, incoming),
            Task::Coerce { work, out, raw } => self.step_coerce(work, out, raw, incoming),
            Task::ApplyChain { f, args, i } => self.step_chain(f, args, i, incoming),
            Task::Ask { need, asked } => self.step_need(need, asked, incoming),
            Task::Tail { kind, text, bits, asked } => self.step_tail(
                kind,
                text,
                bits,
                asked,
                incoming,
            ),
        }
    }

    pub fn catch(&mut self, t: Task, e: Fault) -> (r: Option<Value>)
        ensures
            old(self)@.catch(t, e) == (final(self)@, r),
    {
        match t {
            Task::Builtin { cont: Cont::TryEval { started: true }, .. } => if can_catch(e) {
                Some(self.try_eval_result(false, Value::Bool(false)))
            } else {
                None
            },
            _ => None,
        }
    }
}

} // verus!
