//! What holds of the machine, whatever is evaluated: suspensions, failures,
//! imports and equality.
use crate::lang::frames::{Cont, Flow, Frame, Task};
use crate::lang::heap::{Fault, HeapView, Slot, SlotState, Value};
use crate::lang::ir::ModuleView;
use crate::lang::scopes::CompileErrorView;
use crate::lang::step::{eval_error, ResumeToken, StepView, VmErrorView};
use crate::lang::tasks::catchable;
use crate::lang::vm::{Outcome, VmView};
use crate::lang::walks::Verdict;
use vstd::prelude::*;

verus! {

// -- suspensions -------------------------------------------------------------

/// While an answer is owed, polling is refused and changes nothing.
pub proof fn law_no_poll_while_suspended(vm: VmView)
    requires
        vm.suspended is Some,
    ensures
        vm.poll() == (
            vm,
            Err::<StepView, VmErrorView>(
                eval_error("internal: poll while a suspension is open"@),
            ),
        ),
{
}

/// A token that is not the open one is refused and changes nothing.
pub proof fn law_stale_token_is_refused(vm: VmView, token: ResumeToken, value: Value)
    requires
        vm.suspended != Some(token.0),
    ensures
        vm.resume(token, value) == (
            vm,
            Err::<(), VmErrorView>(eval_error("internal: resume with a stale token"@)),
        ),
{
}

/// A token answers once: the same one is stale afterwards.
pub proof fn law_token_answers_once(
    vm: VmView,
    token: ResumeToken,
    value: Value,
    again: Value,
)
    requires
        vm.resume(token, value).1 is Ok,
    ensures
        vm.resume(token, value).0.resume(token, again).1 is Err,
        vm.resume(token, value).0.resume(token, again).0 == vm.resume(token, value).0,
{
}

/// The open token hands its value to the frame that was running; heap and
/// frames are as they were.
pub proof fn law_answer_reaches_the_running_frame(vm: VmView, token: ResumeToken, value: Value)
    requires
        vm.suspended == Some(token.0),
    ensures
        vm.resume(token, value).1 == Ok::<(), VmErrorView>(()),
        vm.resume(token, value).0.frames == vm.frames,
        vm.resume(token, value).0.heap == vm.heap,
        vm.resume(token, value).0.flow == Flow::Deliver(value),
        vm.resume(token, value).0.suspended is None,
{
}

/// A poll that ends in a question leaves exactly one suspension open, whose
/// token is a new one.
pub proof fn law_question_opens_a_suspension(vm: VmView)
    requires
        vm.suspended is None,
        vm.runs(u64::MAX as nat).1 is Need,
    ensures
        vm.poll().1 is Ok,
        vm.poll().0.suspended == Some(vm.poll().0.next_token),
        vm.poll().0.next_token == vm.runs(u64::MAX as nat).0.next_token.wrapping_add(1),
        vm.poll().0.frames == vm.runs(u64::MAX as nat).0.frames,
{
}

/// Running on is running from where the machine stopped.
pub proof fn law_runs_compose(vm: VmView, m: nat, n: nat)
    ensures
        vm.runs(m + n) == match vm.runs(m) {
            (mid, Outcome::More) => mid.runs(n),
            stopped => stopped,
        },
    decreases m,
{
    if m > 0 {
        let (next, o) = vm.turn();
        if o is More {
            law_runs_compose(next, (m - 1) as nat, n);
        }
    }
}

// -- failures ----------------------------------------------------------------

/// Whether a frame is `tryEval` waiting for the expression it guards.
pub open spec fn guards(f: Frame) -> bool {
    f matches Frame::Task(Task::Builtin { cont: Cont::TryEval { started: true }, .. })
}

/// A failure that cannot be caught, or that no `tryEval` guards, reaches the
/// top through every frame, and leaves none.
pub proof fn law_uncatchable_reaches_the_top(vm: VmView, e: Fault)
    requires
        !catchable(e) || forall|i: int| 0 <= i < vm.frames.len() ==> !guards(#[trigger] vm.frames[i]),
    ensures
        vm.unwind(e).1 == Some(e),
        vm.unwind(e).0.frames.len() == 0,
    decreases vm.frames.len(),
{
    if vm.frames.len() > 0 {
        let low = VmView { frames: vm.frames.drop_last(), ..vm };
        assert(catchable(e) ==> !guards(vm.frames[vm.frames.len() - 1]));
        assert(catchable(e) ==> forall|i: int|
            0 <= i < low.frames.len() ==> !guards(#[trigger] low.frames[i])) by {
            assert forall|i: int| catchable(e) && 0 <= i < low.frames.len() implies !guards(
                #[trigger] low.frames[i],
            ) by {
                assert(!guards(vm.frames[i]));
            }
        }
        match vm.frames.last() {
            Frame::Force { slot, entered } => {
                law_uncatchable_reaches_the_top(low, e);
                law_uncatchable_reaches_the_top(
                    low.with_heap(low.heap.slot_put(slot, SlotState::Failed(e))),
                    e,
                );
            },
            Frame::Task(t) => {
                law_uncatchable_reaches_the_top(low.with_heap(low.heap.catch(t, e).0), e);
            },
            _ => law_uncatchable_reaches_the_top(low, e),
        }
    }
}

/// A failure that can be caught is caught by the innermost `tryEval`, and by
/// nothing else: the frames below it are as they were, and it is told that
/// the expression did not succeed.
pub proof fn law_caught_by_the_innermost_guard(vm: VmView, e: Fault, k: int)
    requires
        catchable(e),
        0 <= k < vm.frames.len(),
        guards(vm.frames[k]),
        forall|i: int| k < i < vm.frames.len() ==> !guards(#[trigger] vm.frames[i]),
    ensures
        ({
            let (after, left) = vm.unwind(e);
            &&& left is None
            &&& after.frames == vm.frames.take(k)
            &&& exists|h: HeapView|
                after.flow == Flow::Deliver(
                    (#[trigger] h.try_eval_result(false, Value::Bool(false))).1,
                )
        }),
    decreases vm.frames.len(),
{
    let low = VmView { frames: vm.frames.drop_last(), ..vm };
    if k == vm.frames.len() - 1 {
        assert(low.frames =~= vm.frames.take(k));
        assert(low.heap.try_eval_result(false, Value::Bool(false)).1 == low.heap.try_eval_result(
            false,
            Value::Bool(false),
        ).1);
    } else {
        assert(!guards(vm.frames[vm.frames.len() - 1]));
        assert(low.frames[k] == vm.frames[k]);
        assert forall|i: int| k < i < low.frames.len() implies !guards(
            #[trigger] low.frames[i],
        ) by {
            assert(!guards(vm.frames[i]));
        }
        assert(low.frames.take(k) =~= vm.frames.take(k));
        match vm.frames.last() {
            Frame::Force { slot, entered } => {
                law_caught_by_the_innermost_guard(low, e, k);
                law_caught_by_the_innermost_guard(
                    low.with_heap(low.heap.slot_put(slot, SlotState::Failed(e))),
                    e,
                    k,
                );
            },
            Frame::Task(t) => {
                law_caught_by_the_innermost_guard(low.with_heap(low.heap.catch(t, e).0), e, k);
            },
            _ => law_caught_by_the_innermost_guard(low, e, k),
        }
    }
}

/// Entering a slot that is under evaluation is a cycle.
pub proof fn law_running_slot_is_a_cycle(vm: VmView, slot: usize)
    requires
        vm.heap.slot(slot) == SlotState::Blackhole,
    ensures
        vm.advance_force(slot, false) == vm.broken("infinite recursion encountered"@),
{
}

/// Entering a slot that failed fails with the same error, and leaves the heap
/// as it was.
pub proof fn law_failed_slot_fails_again(vm: VmView, slot: usize, e: Fault)
    requires
        vm.heap.slot(slot) == SlotState::Failed(e),
    ensures
        vm.advance_force(slot, false) == vm.go(Flow::Unwind(e)),
{
}

/// Entering a slot that has its value hands the value over without computing
/// it again, and leaves the heap as it was.
pub proof fn law_forced_slot_is_not_computed_again(vm: VmView, slot: usize, v: Value)
    requires
        vm.heap.slot(slot) == SlotState::Value(v),
    ensures
        vm.advance_force(slot, false) == vm.go(Flow::Deliver(v)),
{
}

/// A failure that passes a slot under evaluation is remembered in the slot.
pub proof fn law_failure_is_remembered(vm: VmView, slot: usize, e: Fault)
    requires
        vm.frames.len() > 0,
        vm.frames.last() == (Frame::Force { slot, entered: true }),
        e is Throw,
        slot < vm.heap.slots.len(),
    ensures
        ({
            let below = VmView { frames: vm.frames.drop_last(), ..vm };
            let kept = below.with_heap(below.heap.slot_put(slot, SlotState::Failed(e)));
            kept.heap.slot(slot) == SlotState::Failed(e) && vm.unwind(e) == kept.unwind(e)
        }),
{
}

// -- imports -----------------------------------------------------------------

/// A file is compiled once: importing it again finds the same module and
/// changes nothing, whatever its text has become.
pub proof fn law_import_compiles_once(
    vm: VmView,
    path: Seq<char>,
    first: Result<ModuleView, CompileErrorView>,
    again: Result<ModuleView, CompileErrorView>,
)
    requires
        vm.import_module(path, first) is Ok,
        vm.heap.texts.len() < usize::MAX,
        vm.heap.modules.len() < usize::MAX,
        forall|i: int|
            0 <= i < vm.heap.imports.len() ==> (#[trigger] vm.heap.imports[i]).0
                < vm.heap.texts.len(),
    ensures
        ({
            let (after, id) = vm.import_module(path, first)->Ok_0;
            after.import_module(path, again) == Ok::<(VmView, usize), VmErrorView>((after, id))
        }),
{
    if vm.heap.module_for(path, 0) is None {
        let after = vm.import_module(path, first)->Ok_0.0;
        assert(after.heap.imports.drop_last() =~= vm.heap.imports);
        lemma_module_found(vm.heap, after.heap, path, 0);
    }
}

/// A module that was not there is found once it was added.
proof fn lemma_module_found(old_heap: HeapView, new_heap: HeapView, path: Seq<char>, i: int)
    requires
        0 <= i <= old_heap.imports.len(),
        old_heap.module_for(path, i) is None,
        new_heap.imports.drop_last() == old_heap.imports,
        new_heap.imports.len() == old_heap.imports.len() + 1,
        new_heap.text(new_heap.imports.last().0) == path,
        forall|j: int|
            0 <= j < old_heap.imports.len() ==> new_heap.text(
                (#[trigger] old_heap.imports[j]).0,
            ) == old_heap.text(old_heap.imports[j].0),
    ensures
        new_heap.module_for(path, i) == Some(new_heap.imports.last().1),
    decreases old_heap.imports.len() - i,
{
    if i < old_heap.imports.len() {
        assert(new_heap.imports[i] == new_heap.imports.drop_last()[i]);
        assert(new_heap.text(old_heap.imports[i].0) == old_heap.text(old_heap.imports[i].0));
        lemma_module_found(old_heap, new_heap, path, i + 1);
    } else {
        assert(new_heap.imports[i] == new_heap.imports.last());
    }
}

// -- equality ----------------------------------------------------------------

/// Whether a value is a function.
pub open spec fn is_function(v: Value) -> bool {
    v is Closure || v is Builtin
}

/// A function equals nothing, not even a function.
pub proof fn law_functions_equal_nothing(h: HeapView, work: usize, l: Value, r: Value)
    requires
        is_function(l) || is_function(r),
    ensures
        h.shallow(work, l, r) == (h, Verdict::Unequal),
{
}

/// A cell equals itself whatever it holds: once it is forced, the walk goes
/// on with the next pair.
pub proof fn law_a_cell_equals_itself(
    h: HeapView,
    work: usize,
    cell: Slot,
    negate: bool,
    incoming: Option<Value>,
)
    ensures
        h.step_eq(work, Some((cell, cell)), 1, negate, incoming) == h.eq_next(work, negate),
{
}

} // verus!
