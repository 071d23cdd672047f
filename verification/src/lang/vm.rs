//! The machine: frames, what to do next, and the scheduler's surface.
//!
//! Forcing a thunk, applying a closure, running a builtin and walking a value
//! all push frames, so nothing here recurses in proportion to the depth of a
//! value or of a call. [`Vm::poll`] runs until the program has a value or
//! asks the scheduler for something; [`Vm::resume`] answers.
use crate::lang::builtins::{arity, arity_of, BUILTINS};
use crate::lang::frames::{Cont, Dest, Flow, Frame, Need, Task, UnitFrame, Yield};
use crate::lang::heap::{
    lookup, set_lookup, EnvNode, Fault, Heap, HeapView, Item, Slot, SlotState, Sym, Value,
};
use crate::lang::ir::{Module, ModuleView, ParamView};
use crate::lang::ops::{type_text, Shape};
use crate::lang::step::{
    eval_error, poll_view, NeedPath, ResumeToken, Step, StepView, VmError, VmErrorView,
};
use crate::lang::units::OpOut;
use crate::text::Text;
use vstd::prelude::*;

verus! {

/// What applying a function leads to.
#[derive(Debug, Clone, Copy)]
pub enum Applied {
    /// Run a unit in an environment.
    Enter { module: usize, unit: u32, env: usize },
    /// The argument has to be forced first.
    Wait,
    Deliver(Value),
    Run(Task),
    Fail(Fault),
}

impl HeapView {
    /// The slots of a destructured argument, in declaration order: what the
    /// set binds, or else the field's default.
    pub open spec fn bind_fields(
        self,
        module: usize,
        fields: Seq<(u32, Option<u32>)>,
        i: int,
        set: Seq<(Sym, Slot)>,
        env: usize,
        out: Seq<usize>,
    ) -> (HeapView, Result<Seq<usize>, Fault>)
        decreases fields.len() - i,
    {
        if i >= fields.len() {
            (self, Ok(out))
        } else {
            let name = self.field_name(module, fields[i].0);
            let (h, k) = self.intern(name);
            match lookup(set, k) {
                Some(s) => h.bind_fields(module, fields, i + 1, set, env, out.push(s)),
                None => match fields[i].1 {
                    Some(unit) => {
                        let (h, s) = h.new_slot(SlotState::Thunk { module, unit, env });
                        h.bind_fields(module, fields, i + 1, set, env, out.push(s))
                    },
                    None => h.fail(
                        "function called without required argument '"@ + name + "'"@,
                    ),
                },
            }
        }
    }

    /// Whether a field has this name.
    pub open spec fn has_field(
        self,
        module: usize,
        fields: Seq<(u32, Option<u32>)>,
        name: Seq<char>,
        i: int,
    ) -> bool
        decreases fields.len() - i,
    {
        if i >= fields.len() {
            false
        } else {
            self.local_name(module, fields[i].0) == Some(name) || self.has_field(
                module,
                fields,
                name,
                i + 1,
            )
        }
    }

    /// The position of the first attribute from `i` on that is no field.
    pub open spec fn stray(
        self,
        module: usize,
        fields: Seq<(u32, Option<u32>)>,
        set: Seq<(Sym, Slot)>,
        i: int,
    ) -> int
        decreases set.len() - i,
    {
        if i >= set.len() || !self.has_field(module, fields, self.sym_name(set[i].0), 0) {
            i
        } else {
            self.stray(module, fields, set, i + 1)
        }
    }

    /// Calls a function whose parameter destructures a set.
    pub open spec fn call_formals(
        self,
        module: usize,
        unit: u32,
        up: usize,
        fields: Seq<(u32, Option<u32>)>,
        ellipsis: bool,
        bind: bool,
        arg: Slot,
    ) -> (HeapView, Applied) {
        match self.peek(arg) {
            None => (self, Applied::Wait),
            Some(Value::Attrs(m)) => {
                let set = self.set(m);
                let (h, slots) = self.new_list(Seq::empty());
                let (h, env) = h.new_env(EnvNode::Frame { up, slots });
                match h.bind_fields(module, fields, 0, set, env, Seq::empty()) {
                    (h, Err(e)) => (h, Applied::Fail(e)),
                    (h, Ok(out)) => {
                        let out = if bind {
                            out.push(arg)
                        } else {
                            out
                        };
                        let at = h.stray(module, fields, set, 0);
                        if !ellipsis && at < set.len() {
                            let (h, r) = h.fail::<Value>(
                                "function called with unexpected argument '"@ + h.sym_name(
                                    set[at].0,
                                ) + "'"@,
                            );
                            (h, Applied::Fail(r->Err_0))
                        } else {
                            (h.list_put(slots, out), Applied::Enter { module, unit, env })
                        }
                    },
                }
            },
            Some(v) => {
                let (h, r) = self.fail_shown::<Value>("expected a set but found "@, v);
                (h, Applied::Fail(r->Err_0))
            },
        }
    }

    pub open spec fn call_closure(self, module: usize, unit: u32, up: usize, arg: Slot) -> (
        HeapView,
        Applied,
    ) {
        match self.param_at(module, unit) {
            None => {
                let (h, r) = self.fail::<Value>("internal: bad closure unit"@);
                (h, Applied::Fail(r->Err_0))
            },
            Some(None) => {
                let (h, r) = self.fail::<Value>("internal: closure without param"@);
                (h, Applied::Fail(r->Err_0))
            },
            Some(Some(ParamView::Ident(_))) => {
                let (h, slots) = self.new_list(seq![arg]);
                let (h, env) = h.new_env(EnvNode::Frame { up, slots });
                (h, Applied::Enter { module, unit, env })
            },
            Some(Some(ParamView::Formals { fields, ellipsis, bind })) => self.call_formals(
                module,
                unit,
                up,
                fields,
                ellipsis,
                bind is Some,
                arg,
            ),
        }
    }

    pub open spec fn call_builtin(self, idx: u16, args: usize, arg: Slot) -> (HeapView, Applied) {
        if idx >= BUILTINS {
            let (h, r) = self.fail::<Value>("internal: bad builtin index"@);
            (h, Applied::Fail(r->Err_0))
        } else {
            let all = self.list(args).push(arg);
            let (h, id) = self.new_list(all);
            if all.len() < arity(idx) {
                (h, Applied::Deliver(Value::Builtin { idx, args: id }))
            } else {
                (h, Applied::Run(Task::Builtin { idx, args: id, cont: Cont::Args(0) }))
            }
        }
    }

    pub open spec fn apply(self, f: Value, arg: Slot) -> (HeapView, Applied) {
        match f {
            Value::Closure { module, unit, env } => self.call_closure(module, unit, env, arg),
            Value::Builtin { idx, args } => self.call_builtin(idx, args, arg),
            _ => {
                let (h, r) = self.fail::<Value>(
                    "attempt to call something which is not a function but "@ + type_text(f),
                );
                (h, Applied::Fail(r->Err_0))
            },
        }
    }
}

fn denied(r: Result<Value, Fault>) -> (o: Applied)
    ensures
        r is Err ==> o == Applied::Fail(r->Err_0),
{
    match r {
        Err(e) => Applied::Fail(e),
        Ok(v) => Applied::Deliver(v),
    }
}

impl Heap {
    pub fn bind_fields(
        &mut self,
        module: usize,
        fields: &Vec<(u32, Option<u32>)>,
        set: &Vec<(Sym, Slot)>,
        env: usize,
    ) -> (r: Result<Vec<usize>, Fault>)
        ensures
            match r {
                Ok(v) => old(self)@.bind_fields(module, fields@, 0, set@, env, Seq::empty()) == (
                    final(self)@,
                    Ok::<Seq<usize>, Fault>(v@),
                ),
                Err(e) => old(self)@.bind_fields(module, fields@, 0, set@, env, Seq::empty()) == (
                    final(self)@,
                    Err::<Seq<usize>, Fault>(e),
                ),
            },
    {
        let mut out: Vec<usize> = Vec::new();
        let mut i: usize = 0;
        while i < fields.len()
            invariant
                i <= fields.len(),
                self@.bind_fields(module, fields@, i as int, set@, env, out@)
                    == old(self)@.bind_fields(module, fields@, 0, set@, env, Seq::empty()),
            decreases fields.len() - i,
        {
            let name = self.field_name(module, fields[i].0);
            let k = self.intern(&name);
            match set_lookup(set, k) {
                Some(s) => {
                    out.push(s);
                },
                None => match fields[i].1 {
                    Some(unit) => {
                        let s = self.new_slot(SlotState::Thunk { module, unit, env });
                        out.push(s);
                    },
                    None => {
                        return self.fail_with(
                            "function called without required argument '",
                            &name,
                            "'",
                        );
                    },
                },
            }
            i += 1;
        }
        Ok(out)
    }

    pub fn has_field(&self, module: usize, fields: &Vec<(u32, Option<u32>)>, name: &Text) -> (r:
        bool)
        ensures
            r == self@.has_field(module, fields@, name@, 0),
    {
        let mut i: usize = 0;
        while i < fields.len()
            invariant
                i <= fields.len(),
                self@.has_field(module, fields@, name@, i as int) == self@.has_field(
                    module,
                    fields@,
                    name@,
                    0,
                ),
            decreases fields.len() - i,
        {
            match self.local_name(module, fields[i].0) {
                Some(t) => {
                    if crate::lang::heap::same_text(&t, name) {
                        return true;
                    }
                },
                None => {},
            }
            i += 1;
        }
        false
    }

    pub fn stray(
        &self,
        module: usize,
        fields: &Vec<(u32, Option<u32>)>,
        set: &Vec<(Sym, Slot)>,
    ) -> (r: usize)
        ensures
            r == self@.stray(module, fields@, set@, 0),
            r <= set.len(),
    {
        let mut i: usize = 0;
        while i < set.len() && self.has_field(module, fields, &self.sym_name(set[i].0))
            invariant
                i <= set.len(),
                self@.stray(module, fields@, set@, i as int) == self@.stray(
                    module,
                    fields@,
                    set@,
                    0,
                ),
            decreases set.len() - i,
        {
            i += 1;
        }
        i
    }

    pub fn call_formals(
        &mut self,
        module: usize,
        unit: u32,
        up: usize,
        fields: &Vec<(u32, Option<u32>)>,
        ellipsis: bool,
        bind: bool,
        arg: Slot,
    ) -> (r: Applied)
        ensures
            old(self)@.call_formals(module, unit, up, fields@, ellipsis, bind, arg) == (
                final(self)@,
                r,
            ),
    {
        match self.peek(arg) {
            None => Applied::Wait,
            Some(Value::Attrs(m)) => {
                let set = self.set(m);
                let slots = self.new_list(Vec::new());
                let env = self.new_env(EnvNode::Frame { up, slots });
                match self.bind_fields(module, fields, &set, env) {
                    Err(e) => Applied::Fail(e),
                    Ok(mut out) => {
                        if bind {
                            out.push(arg);
                        }
                        let at = self.stray(module, fields, &set);
                        if !ellipsis && at < set.len() {
                            let name = self.sym_name(set[at].0);
                            denied(
                                self.fail_with(
                                    "function called with unexpected argument '",
                                    &name,
                                    "'",
                                ),
                            )
                        } else {
                            self.list_put(slots, out);
                            Applied::Enter { module, unit, env }
                        }
                    },
                }
            },
            Some(v) => denied(self.fail_shown("expected a set but found ", v)),
        }
    }

    pub fn call_closure(&mut self, module: usize, unit: u32, up: usize, arg: Slot) -> (r: Applied)
        ensures
            old(self)@.call_closure(module, unit, up, arg) == (final(self)@, r),
    {
        match self.shape_at(module, unit) {
            Shape::NoUnit => denied(self.fail_str("internal: bad closure unit")),
            Shape::NoParam => denied(self.fail_str("internal: closure without param")),
            Shape::Ident => {
                let mut one: Vec<usize> = Vec::new();
                one.push(arg);
                assert(one@ =~= seq![arg]);
                let slots = self.new_list(one);
                let env = self.new_env(EnvNode::Frame { up, slots });
                Applied::Enter { module, unit, env }
            },
            Shape::Formals { fields, ellipsis, bind } => self.call_formals(
                module,
                unit,
                up,
                &fields,
                ellipsis,
                bind,
                arg,
            ),
        }
    }

    pub fn call_builtin(&mut self, idx: u16, args: usize, arg: Slot) -> (r: Applied)
        ensures
            old(self)@.call_builtin(idx, args, arg) == (final(self)@, r),
    {
        if idx >= BUILTINS {
            return denied(self.fail_str("internal: bad builtin index"));
        }
        let mut all = self.list(args);
        all.push(arg);
        let n = all.len();
        let id = self.new_list(all);
        if n < arity_of(idx) {
            Applied::Deliver(Value::Builtin { idx, args: id })
        } else {
            Applied::Run(Task::Builtin { idx, args: id, cont: Cont::Args(0) })
        }
    }

    pub fn apply(&mut self, f: Value, arg: Slot) -> (r: Applied)
        ensures
            old(self)@.apply(f, arg) == (final(self)@, r),
    {
        match f {
            Value::Closure { module, unit, env } => self.call_closure(module, unit, env, arg),
            Value::Builtin { idx, args } => self.call_builtin(idx, args, arg),
            _ => denied(
                self.fail_type(
                    "attempt to call something which is not a function but ",
                    f,
                ),
            ),
        }
    }
}

// -- the machine -------------------------------------------------------------

/// How one turn of the machine ends.
#[derive(Debug, Clone, Copy)]
pub enum Outcome {
    /// There is more to do.
    More,
    Done(Value),
    Need(Need),
    Fault(Fault),
}

/// The model of [`Vm`].
#[verifier::ext_equal]
pub struct VmView {
    pub heap: HeapView,
    pub frames: Seq<Frame>,
    pub flow: Flow,
    /// Set while the scheduler owes an answer.
    pub suspended: Option<u64>,
    pub next_token: u64,
    /// A question raised by the frame on top, waiting to leave `poll`.
    pub pending: Option<Need>,
}

/// The evaluator's machine.
pub struct Vm {
    pub heap: Heap,
    pub frames: Vec<Frame>,
    pub flow: Flow,
    pub suspended: Option<u64>,
    pub next_token: u64,
    pub pending: Option<Need>,
}

impl View for Vm {
    type V = VmView;

    open spec fn view(&self) -> VmView {
        VmView {
            heap: self.heap@,
            frames: self.frames@,
            flow: self.flow,
            suspended: self.suspended,
            next_token: self.next_token,
            pending: self.pending,
        }
    }
}

impl VmView {
    pub open spec fn with_heap(self, heap: HeapView) -> VmView {
        VmView { heap, ..self }
    }

    pub open spec fn push(self, f: Frame) -> VmView {
        VmView { frames: self.frames.push(f), ..self }
    }

    pub open spec fn go(self, flow: Flow) -> VmView {
        VmView { flow, ..self }
    }

    /// Puts a fresh activation of a unit on top.
    pub open spec fn push_unit(self, module: usize, unit: u32, env: usize) -> VmView {
        let (heap, stack) = self.heap.new_work(Seq::empty());
        self.with_heap(heap).push(
            Frame::Unit(UnitFrame { module, unit, ip: 0, stack, env, dest: Dest::Push }),
        )
    }

    pub open spec fn push_force(self, slot: Slot) -> VmView {
        self.push(Frame::Force { slot, entered: false })
    }

    /// Fails with an internal message.
    pub open spec fn broken(self, msg: Seq<char>) -> VmView {
        let (heap, r) = self.heap.fail::<Value>(msg);
        self.with_heap(heap).go(Flow::Unwind(r->Err_0))
    }

    pub open spec fn advance_unit(self, u: UnitFrame) -> VmView {
        let (heap, o) = self.heap.exec_op(u);
        let vm = self.with_heap(heap);
        match o {
            OpOut::Go(u) => vm.push(Frame::Unit(u)).go(Flow::Advance),
            OpOut::Force(u, s) => vm.push(Frame::Unit(u)).push_force(s).go(Flow::Advance),
            OpOut::Run(u, t) => vm.push(Frame::Unit(u)).push(Frame::Task(t)).go(Flow::Advance),
            OpOut::Call(u, f, arg) => vm.push(Frame::Unit(u)).push(Frame::Apply { f, arg }).go(
                Flow::Advance,
            ),
            OpOut::Deliver(v) => vm.go(Flow::Deliver(v)),
            OpOut::Fail(e) => vm.go(Flow::Unwind(e)),
        }
    }

    /// Enters a slot: hands its value over, or runs what computes it behind
    /// a mark that tells a cycle from a second reader.
    pub open spec fn advance_force(self, slot: Slot, entered: bool) -> VmView {
        if entered {
            self.broken("internal: re-entered a running force"@)
        } else {
            let held = self.with_heap(self.heap.slot_put(slot, SlotState::Blackhole)).push(
                Frame::Force { slot, entered: true },
            );
            match self.heap.slot(slot) {
                SlotState::Value(v) => self.go(Flow::Deliver(v)),
                SlotState::Blackhole => self.broken("infinite recursion encountered"@),
                SlotState::Unimplemented(t) => self.go(Flow::Unwind(Fault::Unimplemented(t))),
                SlotState::Failed(e) => self.go(Flow::Unwind(e)),
                SlotState::Thunk { module, unit, env } => held.push_unit(module, unit, env).go(
                    Flow::Advance,
                ),
                SlotState::PendingApply { f, args } => held.push(
                    Frame::Task(Task::ApplyChain { f: Some(f), args, i: 0 }),
                ).go(Flow::Advance),
            }
        }
    }

    pub open spec fn advance_apply(self, f: Value, arg: Slot) -> VmView {
        let (heap, o) = self.heap.apply(f, arg);
        let vm = self.with_heap(heap);
        match o {
            Applied::Enter { module, unit, env } => vm.push_unit(module, unit, env).go(
                Flow::Advance,
            ),
            Applied::Wait => vm.push(Frame::Apply { f, arg }).push_force(arg).go(Flow::Advance),
            Applied::Deliver(v) => vm.go(Flow::Deliver(v)),
            Applied::Run(t) => vm.push(Frame::Task(t)).go(Flow::Advance),
            Applied::Fail(e) => vm.go(Flow::Unwind(e)),
        }
    }

    /// Steps a task. A task that fails stays where `tryEval` can catch.
    pub open spec fn advance_task(self, t: Task, incoming: Option<Value>) -> VmView {
        let (heap, (t, y)) = self.heap.step_task(t, incoming);
        let vm = self.with_heap(heap);
        match y {
            Err(e) => vm.push(Frame::Task(t)).go(Flow::Unwind(e)),
            Ok(Yield::Need(need)) => VmView {
                pending: Some(need),
                ..vm.push(Frame::Task(t)).go(Flow::Advance)
            },
            Ok(Yield::Done(v)) => vm.go(Flow::Deliver(v)),
            Ok(Yield::Force(s)) => vm.push(Frame::Task(t)).push_force(s).go(Flow::Advance),
            Ok(Yield::Apply(f, arg)) => vm.push(Frame::Task(t)).push(Frame::Apply { f, arg }).go(
                Flow::Advance,
            ),
            Ok(Yield::Sub(sub)) => vm.push(Frame::Task(t)).push(Frame::Task(sub)).go(
                Flow::Advance,
            ),
        }
    }

    /// Advances the topmost frame.
    pub open spec fn advance(self) -> VmView {
        if self.frames.len() == 0 {
            self.broken("internal: nothing left to advance"@)
        } else {
            let vm = VmView { frames: self.frames.drop_last(), ..self };
            match self.frames.last() {
                Frame::Unit(u) => vm.advance_unit(u),
                Frame::Force { slot, entered } => vm.advance_force(slot, entered),
                Frame::Apply { f, arg } => vm.advance_apply(f, arg),
                Frame::Task(t) => vm.advance_task(t, None),
            }
        }
    }

    /// Lands a value in a unit: appended, or over the operand that was
    /// forced in place.
    pub open spec fn deliver_unit(self, u: UnitFrame, v: Value) -> VmView {
        let w = self.heap.work(u.stack);
        let after = Frame::Unit(UnitFrame { dest: Dest::Push, ..u });
        match u.dest {
            Dest::Push => self.with_heap(self.heap.push_value(u.stack, v)).push(after).go(
                Flow::Advance,
            ),
            Dest::Stack(i) => if i < w.len() {
                self.with_heap(
                    self.heap.work_put(u.stack, w.update(i as int, Item::Val(v))),
                ).push(after).go(Flow::Advance)
            } else {
                self.broken("internal: stale force destination"@)
            },
        }
    }

    /// Hands a value to the topmost frame.
    pub open spec fn deliver(self, v: Value) -> VmView {
        if self.frames.len() == 0 {
            self.broken("internal: delivery with no frame"@)
        } else {
            let vm = VmView { frames: self.frames.drop_last(), ..self };
            match self.frames.last() {
                Frame::Unit(u) => vm.deliver_unit(u, v),
                Frame::Force { slot, entered } => if !entered {
                    vm.broken("internal: delivery to an unentered force"@)
                } else {
                    vm.with_heap(vm.heap.slot_put(slot, SlotState::Value(v))).go(Flow::Deliver(v))
                },
                Frame::Apply { f, arg } => vm.advance_apply(f, arg),
                Frame::Task(t) => vm.advance_task(t, Some(v)),
            }
        }
    }

    /// Pops frames until something catches. `Force` frames memoize the
    /// failure into their slot on the way past, which is what makes forcing
    /// a throwing thunk again rethrow the same error.
    pub open spec fn unwind(self, e: Fault) -> (VmView, Option<Fault>)
        decreases self.frames.len(),
    {
        if self.frames.len() == 0 {
            (self, Some(e))
        } else {
            let vm = VmView { frames: self.frames.drop_last(), ..self };
            match self.frames.last() {
                Frame::Force { slot, entered } => if entered && e is Throw {
                    vm.with_heap(vm.heap.slot_put(slot, SlotState::Failed(e))).unwind(e)
                } else {
                    vm.unwind(e)
                },
                Frame::Task(t) => match vm.heap.catch(t, e) {
                    (heap, Some(v)) => (vm.with_heap(heap).go(Flow::Deliver(v)), None),
                    (heap, None) => vm.with_heap(heap).unwind(e),
                },
                _ => vm.unwind(e),
            }
        }
    }

    /// Ends with a failure that nothing caught, once its message is whole.
    pub open spec fn end(self, e: Fault) -> (VmView, Outcome) {
        match e {
            Fault::Throw { kind, text, tail: Some(bits) } => (
                self.push(Frame::Task(Task::Tail { kind, text, bits, asked: false })),
                Outcome::More,
            ),
            _ => (self, Outcome::Fault(e)),
        }
    }

    /// One turn of the machine.
    pub open spec fn turn(self) -> (VmView, Outcome) {
        match self.pending {
            Some(need) => (VmView { pending: None, ..self }, Outcome::Need(need)),
            None => {
                let vm = self.go(Flow::Advance);
                match self.flow {
                    Flow::Advance => (vm.advance(), Outcome::More),
                    Flow::Deliver(v) => if self.frames.len() == 0 {
                        (vm, Outcome::Done(v))
                    } else {
                        (vm.deliver(v), Outcome::More)
                    },
                    Flow::Unwind(e) => match vm.unwind(e) {
                        (vm, None) => (vm, Outcome::More),
                        (vm, Some(e)) => vm.end(e),
                    },
                }
            },
        }
    }

    /// At most `fuel` turns, up to the first that has an outcome.
    pub open spec fn runs(self, fuel: nat) -> (VmView, Outcome)
        decreases fuel,
    {
        if fuel == 0 {
            (self, Outcome::More)
        } else {
            match self.turn() {
                (vm, Outcome::More) => vm.runs((fuel - 1) as nat),
                (vm, o) => (vm, o),
            }
        }
    }

    /// Opens a suspension.
    pub open spec fn mint(self) -> (VmView, ResumeToken) {
        let id = self.next_token.wrapping_add(1);
        (VmView { next_token: id, suspended: Some(id), ..self }, ResumeToken(id))
    }

    /// Runs until there is a value, a failure or a question, which opens a
    /// suspension. The number of turns in one run is bounded by the machine
    /// word that counts them.
    pub open spec fn poll(self) -> (VmView, Result<StepView, VmErrorView>) {
        if self.suspended is Some {
            (self, Err(eval_error("internal: poll while a suspension is open"@)))
        } else {
            match self.runs(u64::MAX as nat) {
                (vm, Outcome::More) => (vm, Err(eval_error("internal: out of turns"@))),
                (vm, Outcome::Done(v)) => (vm, Ok(StepView::Done(v))),
                (vm, Outcome::Fault(e)) => (vm, Err(vm.heap.fault_error(e))),
                (vm, Outcome::Need(need)) => {
                    let (vm, token) = vm.mint();
                    (vm, Ok(vm.heap.need_step(need, token)))
                },
            }
        }
    }

    /// The machine with no frames and nothing owed.
    pub open spec fn cleared(self) -> VmView {
        VmView {
            frames: Seq::empty(),
            flow: Flow::Advance,
            suspended: None,
            pending: None,
            ..self
        }
    }

    /// The machine about to run a module's entry unit.
    pub open spec fn start_module(self, module: ModuleView) -> VmView {
        let heap = HeapView { modules: self.heap.modules.push(module), ..self.heap };
        let id = self.heap.modules.len() as usize;
        let (heap, env) = heap.new_env(EnvNode::Root);
        self.cleared().with_heap(heap).push_unit(id, module.entry, env)
    }

    /// The machine about to print a value strictly.
    pub open spec fn start_print(self, v: Value) -> VmView {
        let (heap, t) = self.heap.print_task(v);
        self.cleared().with_heap(heap).push(Frame::Task(t))
    }

    /// An answered suspension.
    pub open spec fn resume(self, token: ResumeToken, value: Value) -> (
        VmView,
        Result<(), VmErrorView>,
    ) {
        if self.suspended != Some(token.0) {
            (self, Err(eval_error("internal: resume with a stale token"@)))
        } else {
            (VmView { suspended: None, flow: Flow::Deliver(value), ..self }, Ok(()))
        }
    }
}

/// A machine with nothing to do and nothing held.
pub open spec fn new_vm() -> VmView {
    VmView {
        heap: HeapView {
            slots: Seq::empty(),
            lists: Seq::empty(),
            sets: Seq::empty(),
            texts: Seq::empty(),
            works: Seq::empty(),
            envs: Seq::empty(),
            symbols: Seq::empty(),
            modules: Seq::empty(),
            imports: Seq::empty(),
        },
        frames: Seq::empty(),
        flow: Flow::Advance,
        suspended: None,
        next_token: 0,
        pending: None,
    }
}

impl Vm {
    /// A machine with nothing to do.
    pub fn new() -> (vm: Vm)
        ensures
            vm@ == new_vm(),
    {
        Vm {
            heap: Heap::new(),
            frames: Vec::new(),
            flow: Flow::Advance,
            suspended: None,
            next_token: 0,
            pending: None,
        }
    }

    fn push(&mut self, f: Frame)
        ensures
            final(self)@ == old(self)@.push(f),
    {
        self.frames.push(f);
    }

    fn go(&mut self, flow: Flow)
        ensures
            final(self)@ == old(self)@.go(flow),
    {
        self.flow = flow;
    }

    fn push_unit(&mut self, module: usize, unit: u32, env: usize)
        ensures
            final(self)@ == old(self)@.push_unit(module, unit, env),
    {
        let stack = self.heap.new_work(Vec::new());
        self.push(Frame::Unit(UnitFrame { module, unit, ip: 0, stack, env, dest: Dest::Push }));
    }

    fn push_force(&mut self, slot: Slot)
        ensures
            final(self)@ == old(self)@.push_force(slot),
    {
        self.push(Frame::Force { slot, entered: false });
    }

    fn broken(&mut self, msg: &str)
        ensures
            final(self)@ == old(self)@.broken(msg@),
    {
        let r = self.heap.fail_str::<Value>(msg);
        match r {
            Err(e) => self.go(Flow::Unwind(e)),
            Ok(_) => {},
        }
    }

    fn advance_unit(&mut self, u: UnitFrame)
        ensures
            final(self)@ == old(self)@.advance_unit(u),
    {
        match self.heap.exec_op(u) {
            OpOut::Go(u) => {
                self.push(Frame::Unit(u));
                self.go(Flow::Advance);
            },
            OpOut::Force(u, s) => {
                self.push(Frame::Unit(u));
                self.push_force(s);
                self.go(Flow::Advance);
            },
            OpOut::Run(u, t) => {
                self.push(Frame::Unit(u));
                self.push(Frame::Task(t));
                self.go(Flow::Advance);
            },
            OpOut::Call(u, f, arg) => {
                self.push(Frame::Unit(u));
                self.push(Frame::Apply { f, arg });
                self.go(Flow::Advance);
            },
            OpOut::Deliver(v) => self.go(Flow::Deliver(v)),
            OpOut::Fail(e) => self.go(Flow::Unwind(e)),
        }
    }

    fn advance_force(&mut self, slot: Slot, entered: bool)
        ensures
            final(self)@ == old(self)@.advance_force(slot, entered),
    {
        if entered {
            return self.broken("internal: re-entered a running force");
        }
        match self.heap.slot(slot) {
            SlotState::Value(v) => self.go(Flow::Deliver(v)),
            SlotState::Blackhole => self.broken("infinite recursion encountered"),
            SlotState::Unimplemented(t) => self.go(Flow::Unwind(Fault::Unimplemented(t))),
            SlotState::Failed(e) => self.go(Flow::Unwind(e)),
            SlotState::Thunk { module, unit, env } => {
                self.heap.slot_put(slot, SlotState::Blackhole);
                self.push(Frame::Force { slot, entered: true });
                self.push_unit(module, unit, env);
                self.go(Flow::Advance);
            },
            SlotState::PendingApply { f, args } => {
                self.heap.slot_put(slot, SlotState::Blackhole);
                self.push(Frame::Force { slot, entered: true });
                self.push(Frame::Task(Task::ApplyChain { f: Some(f), args, i: 0 }));
                self.go(Flow::Advance);
            },
        }
    }

    fn advance_apply(&mut self, f: Value, arg: Slot)
        ensures
            final(self)@ == old(self)@.advance_apply(f, arg),
    {
        match self.heap.apply(f, arg) {
            Applied::Enter { module, unit, env } => {
                self.push_unit(module, unit, env);
                self.go(Flow::Advance);
            },
            Applied::Wait => {
                self.push(Frame::Apply { f, arg });
                self.push_force(arg);
                self.go(Flow::Advance);
            },
            Applied::Deliver(v) => self.go(Flow::Deliver(v)),
            Applied::Run(t) => {
                self.push(Frame::Task(t));
                self.go(Flow::Advance);
            },
            Applied::Fail(e) => self.go(Flow::Unwind(e)),
        }
    }

    fn advance_task(&mut self, t: Task, incoming: Option<Value>)
        ensures
            final(self)@ == old(self)@.advance_task(t, incoming),
    {
        let (t, y) = self.heap.step_task(t, incoming);
        match y {
            Err(e) => {
                self.push(Frame::Task(t));
                self.go(Flow::Unwind(e));
            },
            Ok(Yield::Need(need)) => {
                self.push(Frame::Task(t));
                self.go(Flow::Advance);
                self.pending = Some(need);
            },
            Ok(Yield::Done(v)) => self.go(Flow::Deliver(v)),
            Ok(Yield::Force(s)) => {
                self.push(Frame::Task(t));
                self.push_force(s);
                self.go(Flow::Advance);
            },
            Ok(Yield::Apply(f, arg)) => {
                self.push(Frame::Task(t));
                self.push(Frame::Apply { f, arg });
                self.go(Flow::Advance);
            },
            Ok(Yield::Sub(sub)) => {
                self.push(Frame::Task(t));
                self.push(Frame::Task(sub));
                self.go(Flow::Advance);
            },
        }
    }

    fn advance(&mut self)
        ensures
            final(self)@ == old(self)@.advance(),
    {
        match self.frames.pop() {
            None => self.broken("internal: nothing left to advance"),
            Some(Frame::Unit(u)) => self.advance_unit(u),
            Some(Frame::Force { slot, entered }) => self.advance_force(slot, entered),
            Some(Frame::Apply { f, arg }) => self.advance_apply(f, arg),
            Some(Frame::Task(t)) => self.advance_task(t, None),
        }
    }

    fn deliver_unit(&mut self, u: UnitFrame, v: Value)
        ensures
            final(self)@ == old(self)@.deliver_unit(u, v),
    {
        let after = Frame::Unit(UnitFrame { dest: Dest::Push, ..u });
        match u.dest {
            Dest::Push => {
                self.heap.push_value(u.stack, v);
                self.push(after);
                self.go(Flow::Advance);
            },
            Dest::Stack(i) => if i < self.heap.work_len(u.stack) {
                self.heap.work_set(u.stack, i, Item::Val(v));
                self.push(after);
                self.go(Flow::Advance);
            } else {
                self.broken("internal: stale force destination");
            },
        }
    }

    fn deliver(&mut self, v: Value)
        ensures
            final(self)@ == old(self)@.deliver(v),
    {
        match self.frames.pop() {
            None => self.broken("internal: delivery with no frame"),
            Some(Frame::Unit(u)) => self.deliver_unit(u, v),
            Some(Frame::Force { slot, entered }) => if !entered {
                self.broken("internal: delivery to an unentered force");
            } else {
                self.heap.slot_put(slot, SlotState::Value(v));
                self.go(Flow::Deliver(v));
            },
            Some(Frame::Apply { f, arg }) => self.advance_apply(f, arg),
            Some(Frame::Task(t)) => self.advance_task(t, Some(v)),
        }
    }

    fn unwind(&mut self, e: Fault) -> (r: Option<Fault>)
        ensures
            old(self)@.unwind(e) == (final(self)@, r),
    {
        while self.frames.len() > 0
            invariant
                self@.unwind(e) == old(self)@.unwind(e),
            decreases self.frames.len(),
        {
            match self.frames.pop() {
                Some(Frame::Force { slot, entered }) => {
                    if entered && matches!(e, Fault::Throw { .. }) {
                        self.heap.slot_put(slot, SlotState::Failed(e));
                    }
                },
                Some(Frame::Task(t)) => match self.heap.catch(t, e) {
                    Some(v) => {
                        self.go(Flow::Deliver(v));
                        return None;
                    },
                    None => {},
                },
                _ => {},
            }
        }
        Some(e)
    }

    fn end(&mut self, e: Fault) -> (r: Outcome)
        ensures
            old(self)@.end(e) == (final(self)@, r),
    {
        match e {
            Fault::Throw { kind, text, tail: Some(bits) } => {
                self.push(Frame::Task(Task::Tail { kind, text, bits, asked: false }));
                Outcome::More
            },
            _ => Outcome::Fault(e),
        }
    }

    fn turn(&mut self) -> (r: Outcome)
        ensures
            old(self)@.turn() == (final(self)@, r),
    {
        if let Some(need) = self.pending {
            self.pending = None;
            return Outcome::Need(need);
        }
        let flow = self.flow;
        self.go(Flow::Advance);
        match flow {
            Flow::Advance => {
                self.advance();
                Outcome::More
            },
            Flow::Deliver(v) => if self.frames.len() == 0 {
                Outcome::Done(v)
            } else {
                self.deliver(v);
                Outcome::More
            },
            Flow::Unwind(e) => match self.unwind(e) {
                None => Outcome::More,
                Some(e) => self.end(e),
            },
        }
    }

    fn runs(&mut self) -> (r: Outcome)
        ensures
            old(self)@.runs(u64::MAX as nat) == (final(self)@, r),
    {
        let mut fuel: u64 = u64::MAX;
        while fuel > 0
            invariant
                self@.runs(fuel as nat) == old(self)@.runs(u64::MAX as nat),
            decreases fuel,
        {
            match self.turn() {
                Outcome::More => {
                    fuel -= 1;
                },
                o => return o,
            }
        }
        Outcome::More
    }

    fn mint(&mut self) -> (r: ResumeToken)
        ensures
            old(self)@.mint() == (final(self)@, r),
    {
        let id = self.next_token.wrapping_add(1);
        self.next_token = id;
        self.suspended = Some(id);
        ResumeToken(id)
    }

    /// Runs until the program finishes or asks the scheduler for something.
    pub fn poll(&mut self) -> (r: Result<Step, VmError>)
        ensures
            old(self)@.poll() == (final(self)@, poll_view(r)),
    {
        if self.suspended.is_some() {
            return Err(
                VmError::eval("internal: poll while a suspension is open".to_owned()),
            );
        }
        match self.runs() {
            Outcome::More => Err(VmError::eval("internal: out of turns".to_owned())),
            Outcome::Done(v) => Ok(Step::Done(v)),
            Outcome::Fault(e) => Err(self.heap.fault_error(e)),
            Outcome::Need(need) => {
                let token = self.mint();
                Ok(self.heap.need_step(need, token))
            },
        }
    }

    /// Suspends for an effect the scheduler must run. The frames stay put;
    /// the answer arrives through `resume`.
    pub fn suspend_perform(&mut self, domain: String, request: Vec<u8>) -> (r: Step)
        ensures
            final(self)@ == old(self)@.mint().0,
            r@ == (StepView::Perform {
                domain: domain@,
                request: request@,
                resume: old(self)@.mint().1,
            }),
    {
        let resume = self.mint();
        Step::Perform { domain, request, resume }
    }

    /// Suspends for a question about a path.
    pub fn suspend_path(&mut self, need: NeedPath) -> (r: Step)
        ensures
            final(self)@ == old(self)@.mint().0,
            r@ == (StepView::NeedPath { need: need@, resume: old(self)@.mint().1 }),
    {
        let resume = self.mint();
        Step::NeedPath { need, resume }
    }

    /// Answers an outstanding suspension. The value is delivered to the
    /// frame that suspended, exactly as a completed sub-evaluation would be.
    pub fn resume(&mut self, token: ResumeToken, value: Value) -> (r: Result<(), VmError>)
        ensures
            old(self)@.resume(token, value) == (
                final(self)@,
                match r {
                    Ok(_) => Ok::<(), VmErrorView>(()),
                    Err(e) => Err::<(), VmErrorView>(e@),
                },
            ),
    {
        let live = match self.suspended {
            Some(id) => id == token.0,
            None => false,
        };
        if !live {
            return Err(VmError::eval("internal: resume with a stale token".to_owned()));
        }
        self.suspended = None;
        self.flow = Flow::Deliver(value);
        Ok(())
    }

    fn clear(&mut self)
        ensures
            final(self)@ == old(self)@.cleared(),
    {
        self.frames = Vec::new();
        self.flow = Flow::Advance;
        self.suspended = None;
        self.pending = None;
    }

    /// Seeds the machine with a module's entry unit.
    pub fn start_module(&mut self, module: Module)
        ensures
            final(self)@ == old(self)@.start_module(module@),
    {
        self.clear();
        let entry = module.entry;
        let id = self.heap.modules.len();
        self.heap.modules.push(module);
        let env = self.heap.new_env(EnvNode::Root);
        self.push_unit(id, entry, env);
    }

    /// Seeds the machine with the strict printer over an already evaluated
    /// value. The result is a `Value::Str` holding the rendered text.
    pub fn start_print(&mut self, v: Value)
        ensures
            final(self)@ == old(self)@.start_print(v),
    {
        self.clear();
        let t = self.heap.print_task(v);
        self.push(Frame::Task(t));
    }
}

} // verus!
