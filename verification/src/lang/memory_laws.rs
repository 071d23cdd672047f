//! A slot is a computation until it is entered, and its outcome for ever after.
use crate::lang::compile::compiled;
use crate::lang::docs::{toml_document, Source};
use crate::lang::eval::{
    answers, answers_import, answers_path, asked, dialogue, entries_view, ran, says_floats,
    step_token, Answer,
};
use crate::lang::frames::{Flow, Frame, Task};
use crate::lang::heap::{Fault, HeapView, Slot, SlotState, Value};
use crate::lang::host::{
    file_type_text, says_contents, says_entries, says_env, says_float, says_import, says_kind,
    FileType, FloatAnswer, Host,
};
use crate::lang::ir::ModuleView;
use crate::lang::literals::exact_json;
use crate::lang::memory::{
    ahead, ahead_apply, ahead_attrs_value, ahead_catch, ahead_entries_from, ahead_exec_op,
    ahead_fail, ahead_intern, ahead_planted, ahead_print_task, ahead_push_value, ahead_step_task,
    ahead_str_slot, ahead_str_value,
};
use crate::lang::step::{NeedPathView, ResumeToken, StepView, VmError, VmErrorView};
use crate::lang::strings::dir_name;
use crate::lang::syntax::parsed;
use crate::lang::vm::VmView;
use vstd::prelude::*;

verus! {

/// Whether a slot has come to its end: a value, a failure, or a report that
/// there is no implementation.
pub open spec fn settled(s: SlotState) -> bool {
    s is Value || s is Failed || s is Unimplemented
}

/// Whether every slot that had come to its end is as it was.
pub open spec fn remembers(a: HeapView, b: HeapView) -> bool {
    &&& a.slots.len() <= b.slots.len()
    &&& forall|i: int|
        0 <= i < a.slots.len() && settled(#[trigger] a.slots[i]) ==> b.slots[i] == a.slots[i]
}

/// Whether a frame computes a slot.
pub open spec fn computes(f: Frame, slot: Slot) -> bool {
    f == (Frame::Force { slot, entered: true })
}

/// What every machine keeps: a slot that a frame computes is marked as under
/// evaluation, and no two frames compute the same slot.
pub open spec fn marked(vm: VmView) -> bool {
    &&& forall|i: int, slot: Slot|
        0 <= i < vm.frames.len() && #[trigger] computes(vm.frames[i], slot) ==> slot
            < vm.heap.slots.len() && vm.heap.slots[slot as int] == SlotState::Blackhole
    &&& forall|i: int, j: int, slot: Slot|
        0 <= i < vm.frames.len() && 0 <= j < vm.frames.len() && #[trigger] computes(
            vm.frames[i],
            slot,
        ) && #[trigger] computes(vm.frames[j], slot) ==> i == j
}

proof fn lemma_ahead_remembers(a: HeapView, b: HeapView)
    requires
        ahead(a, b),
    ensures
        remembers(a, b),
{
    reveal(ahead);
}

proof fn lemma_ahead_same(a: HeapView)
    ensures
        ahead(a, a),
{
    reveal(ahead);
}

/// More frames that compute nothing, over a heap that keeps its slots.
proof fn lemma_marked_more(a: VmView, b: VmView)
    requires
        marked(a),
        ahead(a.heap, b.heap),
        a.frames.len() <= b.frames.len(),
        forall|i: int| 0 <= i < a.frames.len() ==> #[trigger] b.frames[i] == a.frames[i],
        forall|i: int, slot: Slot|
            a.frames.len() <= i < b.frames.len() ==> !#[trigger] computes(b.frames[i], slot),
    ensures
        marked(b),
        remembers(a.heap, b.heap),
{
    reveal(ahead);
    assert forall|i: int, slot: Slot|
        0 <= i < b.frames.len() && #[trigger] computes(b.frames[i], slot) implies slot
        < b.heap.slots.len() && b.heap.slots[slot as int] == SlotState::Blackhole by {
        assert(computes(a.frames[i], slot));
    }
    assert forall|i: int, j: int, slot: Slot|
        0 <= i < b.frames.len() && 0 <= j < b.frames.len() && #[trigger] computes(
            b.frames[i],
            slot,
        ) && #[trigger] computes(b.frames[j], slot) implies i == j by {
        assert(computes(a.frames[i], slot));
        assert(computes(a.frames[j], slot));
    }
}

/// A machine without its topmost frame.
pub open spec fn popped(vm: VmView) -> VmView {
    VmView { frames: vm.frames.drop_last(), ..vm }
}

proof fn lemma_marked_popped(vm: VmView)
    requires
        marked(vm),
        vm.frames.len() > 0,
    ensures
        marked(popped(vm)),
{
    let low = popped(vm);
    assert forall|i: int, slot: Slot|
        0 <= i < low.frames.len() && #[trigger] computes(low.frames[i], slot) implies slot
        < low.heap.slots.len() && low.heap.slots[slot as int] == SlotState::Blackhole by {
        assert(computes(vm.frames[i], slot));
    }
    assert forall|i: int, j: int, slot: Slot|
        0 <= i < low.frames.len() && 0 <= j < low.frames.len() && #[trigger] computes(
            low.frames[i],
            slot,
        ) && #[trigger] computes(low.frames[j], slot) implies i == j by {
        assert(computes(vm.frames[i], slot));
        assert(computes(vm.frames[j], slot));
    }
}

/// The slot of a frame that is done gets its outcome.
proof fn lemma_outcome(vm: VmView, slot: Slot, s: SlotState)
    requires
        marked(vm),
        vm.frames.len() > 0,
        computes(vm.frames.last(), slot),
    ensures
        marked(popped(vm).with_heap(vm.heap.slot_put(slot, s))),
        remembers(vm.heap, vm.heap.slot_put(slot, s)),
{
    lemma_marked_popped(vm);
    let low = popped(vm);
    let top = vm.frames.len() - 1;
    assert(computes(vm.frames[top], slot));
    let after = low.with_heap(vm.heap.slot_put(slot, s));
    assert forall|i: int, other: Slot|
        0 <= i < after.frames.len() && #[trigger] computes(after.frames[i], other) implies other
        < after.heap.slots.len() && after.heap.slots[other as int] == SlotState::Blackhole by {
        assert(computes(low.frames[i], other));
        assert(computes(vm.frames[i], other));
        if other == slot {
            assert(computes(vm.frames[top], other));
            assert(i == top);
        }
    }
    assert forall|i: int, j: int, other: Slot|
        0 <= i < after.frames.len() && 0 <= j < after.frames.len() && #[trigger] computes(
            after.frames[i],
            other,
        ) && #[trigger] computes(after.frames[j], other) implies i == j by {
        assert(computes(low.frames[i], other));
        assert(computes(low.frames[j], other));
    }
}

/// A slot that is entered is marked, and its frame is the only one.
proof fn lemma_entered(vm: VmView, slot: Slot)
    requires
        marked(vm),
        slot < vm.heap.slots.len(),
        vm.heap.slots[slot as int] != SlotState::Blackhole,
        !settled(vm.heap.slots[slot as int]),
    ensures
        ({
            let held = vm.with_heap(vm.heap.slot_put(slot, SlotState::Blackhole)).push(
                Frame::Force { slot, entered: true },
            );
            marked(held) && remembers(vm.heap, held.heap)
        }),
{
    let held = vm.with_heap(vm.heap.slot_put(slot, SlotState::Blackhole)).push(
        Frame::Force { slot, entered: true },
    );
    let top = vm.frames.len() as int;
    assert forall|i: int, other: Slot|
        0 <= i < held.frames.len() && #[trigger] computes(held.frames[i], other) implies other
        < held.heap.slots.len() && held.heap.slots[other as int] == SlotState::Blackhole by {
        if i < top {
            assert(computes(vm.frames[i], other));
        }
    }
    assert forall|i: int, j: int, other: Slot|
        0 <= i < held.frames.len() && 0 <= j < held.frames.len() && #[trigger] computes(
            held.frames[i],
            other,
        ) && #[trigger] computes(held.frames[j], other) implies i == j by {
        if i < top {
            assert(computes(vm.frames[i], other));
        }
        if j < top {
            assert(computes(vm.frames[j], other));
        }
    }
}

proof fn lemma_broken(vm: VmView, msg: Seq<char>)
    requires
        marked(vm),
    ensures
        marked(vm.broken(msg)),
        remembers(vm.heap, vm.broken(msg).heap),
{
    lemma_ahead_same(vm.heap);
    ahead_fail::<Value>(vm.heap, vm.heap, msg);
    lemma_marked_more(vm, vm.broken(msg));
}

proof fn lemma_advance_force(vm: VmView, slot: Slot, entered: bool)
    requires
        marked(vm),
    ensures
        marked(vm.advance_force(slot, entered)),
        remembers(vm.heap, vm.advance_force(slot, entered).heap),
{
    if entered {
        lemma_broken(vm, "internal: re-entered a running force"@);
    } else {
        let after = vm.advance_force(slot, false);
        let held = vm.with_heap(vm.heap.slot_put(slot, SlotState::Blackhole)).push(
            Frame::Force { slot, entered: true },
        );
        match vm.heap.slot(slot) {
            SlotState::Blackhole => lemma_broken(vm, "infinite recursion encountered"@),
            SlotState::Thunk { .. } => {
                lemma_entered(vm, slot);
                assert(ahead(held.heap, after.heap)) by {
                    reveal(ahead);
                }
                lemma_marked_more(held, after);
            },
            SlotState::PendingApply { .. } => {
                lemma_entered(vm, slot);
                lemma_ahead_same(held.heap);
                lemma_marked_more(held, after);
            },
            _ => {
                lemma_ahead_same(vm.heap);
                lemma_marked_more(vm, after);
            },
        }
    }
}

proof fn lemma_advance_apply(vm: VmView, f: Value, arg: Slot)
    requires
        marked(vm),
    ensures
        marked(vm.advance_apply(f, arg)),
        remembers(vm.heap, vm.advance_apply(f, arg).heap),
{
    lemma_ahead_same(vm.heap);
    ahead_apply(vm.heap, vm.heap, f, arg);
    let after = vm.advance_apply(f, arg);
    assert(ahead(vm.heap, after.heap)) by {
        reveal(ahead);
    }
    lemma_marked_more(vm, after);
}

proof fn lemma_advance_task(vm: VmView, t: Task, incoming: Option<Value>)
    requires
        marked(vm),
    ensures
        marked(vm.advance_task(t, incoming)),
        remembers(vm.heap, vm.advance_task(t, incoming).heap),
{
    lemma_ahead_same(vm.heap);
    ahead_step_task(vm.heap, vm.heap, t, incoming);
    lemma_marked_more(vm, vm.advance_task(t, incoming));
}

proof fn lemma_advance(vm: VmView)
    requires
        marked(vm),
    ensures
        marked(vm.advance()),
        remembers(vm.heap, vm.advance().heap),
{
    if vm.frames.len() == 0 {
        lemma_broken(vm, "internal: nothing left to advance"@);
    } else {
        lemma_marked_popped(vm);
        let low = popped(vm);
        match vm.frames.last() {
            Frame::Unit(u) => {
                lemma_ahead_same(low.heap);
                ahead_exec_op(low.heap, low.heap, u);
                lemma_marked_more(low, low.advance_unit(u));
            },
            Frame::Force { slot, entered } => lemma_advance_force(low, slot, entered),
            Frame::Apply { f, arg } => lemma_advance_apply(low, f, arg),
            Frame::Task(t) => lemma_advance_task(low, t, None),
        }
    }
}

proof fn lemma_deliver(vm: VmView, v: Value)
    requires
        marked(vm),
    ensures
        marked(vm.deliver(v)),
        remembers(vm.heap, vm.deliver(v).heap),
{
    if vm.frames.len() == 0 {
        lemma_broken(vm, "internal: delivery with no frame"@);
    } else {
        lemma_marked_popped(vm);
        let low = popped(vm);
        lemma_ahead_same(low.heap);
        match vm.frames.last() {
            Frame::Unit(u) => {
                ahead_push_value(low.heap, low.heap, u.stack, v);
                lemma_broken(low, "internal: stale force destination"@);
                let after = low.deliver_unit(u, v);
                if after != low.broken("internal: stale force destination"@) {
                    assert(ahead(low.heap, after.heap)) by {
                        reveal(ahead);
                    }
                    lemma_marked_more(low, after);
                }
            },
            Frame::Force { slot, entered } => if entered {
                lemma_outcome(vm, slot, SlotState::Value(v));
                let done = low.with_heap(vm.heap.slot_put(slot, SlotState::Value(v)));
                lemma_ahead_same(done.heap);
                lemma_marked_more(done, vm.deliver(v));
            } else {
                lemma_broken(low, "internal: delivery to an unentered force"@);
            },
            Frame::Apply { f, arg } => lemma_advance_apply(low, f, arg),
            Frame::Task(t) => lemma_advance_task(low, t, Some(v)),
        }
    }
}

proof fn lemma_remembers_on(a: HeapView, b: HeapView, c: HeapView)
    requires
        remembers(a, b),
        remembers(b, c),
    ensures
        remembers(a, c),
{
    assert forall|i: int| 0 <= i < a.slots.len() && settled(#[trigger] a.slots[i]) implies c.slots[i]
        == a.slots[i] by {
        assert(settled(b.slots[i]));
    }
}

proof fn lemma_unwind(vm: VmView, e: Fault)
    requires
        marked(vm),
    ensures
        marked(vm.unwind(e).0),
        remembers(vm.heap, vm.unwind(e).0.heap),
    decreases vm.frames.len(),
{
    if vm.frames.len() > 0 {
        lemma_marked_popped(vm);
        let low = popped(vm);
        lemma_ahead_same(low.heap);
        match vm.frames.last() {
            Frame::Force { slot, entered } => if entered && e is Throw {
                lemma_outcome(vm, slot, SlotState::Failed(e));
                let next = low.with_heap(vm.heap.slot_put(slot, SlotState::Failed(e)));
                lemma_unwind(next, e);
                lemma_remembers_on(vm.heap, next.heap, vm.unwind(e).0.heap);
            } else {
                lemma_unwind(low, e);
            },
            Frame::Task(t) => {
                ahead_catch(low.heap, low.heap, t, e);
                let next = low.with_heap(low.heap.catch(t, e).0);
                lemma_marked_more(low, next);
                if low.heap.catch(t, e).1 is None {
                    lemma_unwind(next, e);
                    lemma_remembers_on(vm.heap, next.heap, vm.unwind(e).0.heap);
                } else {
                    lemma_marked_more(low, vm.unwind(e).0);
                }
            },
            _ => lemma_unwind(low, e),
        }
    }
}

proof fn lemma_turn(vm: VmView)
    requires
        marked(vm),
    ensures
        marked(vm.turn().0),
        remembers(vm.heap, vm.turn().0.heap),
{
    lemma_ahead_same(vm.heap);
    match vm.pending {
        Some(_) => lemma_marked_more(vm, vm.turn().0),
        None => {
            let on = vm.go(Flow::Advance);
            lemma_marked_more(vm, on);
            match vm.flow {
                Flow::Advance => lemma_advance(on),
                Flow::Deliver(v) => if vm.frames.len() > 0 {
                    lemma_deliver(on, v);
                },
                Flow::Unwind(e) => {
                    lemma_unwind(on, e);
                    let (after, left) = on.unwind(e);
                    if left is Some {
                        lemma_ahead_same(after.heap);
                        lemma_marked_more(after, after.end(left->0).0);
                    }
                },
            }
        },
    }
}

/// However long a machine runs, a slot that has come to its end stays as it
/// is: a value is never computed again, and a failure stays the same failure.
pub proof fn law_settled_slots_stay(vm: VmView, fuel: nat)
    requires
        marked(vm),
    ensures
        marked(vm.runs(fuel).0),
        remembers(vm.heap, vm.runs(fuel).0.heap),
    decreases fuel,
{
    if fuel == 0 {
        lemma_ahead_same(vm.heap);
        lemma_ahead_remembers(vm.heap, vm.heap);
    } else {
        lemma_turn(vm);
        let next = vm.turn().0;
        law_settled_slots_stay(next, (fuel - 1) as nat);
        lemma_remembers_on(vm.heap, next.heap, next.runs((fuel - 1) as nat).0.heap);
    }
}

/// Polling keeps what has come to its end.
pub proof fn law_polling_keeps_settled_slots(vm: VmView)
    requires
        marked(vm),
    ensures
        marked(vm.poll().0),
        remembers(vm.heap, vm.poll().0.heap),
{
    lemma_ahead_same(vm.heap);
    lemma_ahead_remembers(vm.heap, vm.heap);
    law_settled_slots_stay(vm, u64::MAX as nat);
    let ran_to = vm.runs(u64::MAX as nat).0;
    if vm.suspended is None {
        lemma_ahead_same(ran_to.heap);
        lemma_marked_more(ran_to, vm.poll().0);
    }
}

/// A machine that starts on a module or on printing computes nothing yet.
pub proof fn law_starting_marks_nothing(vm: VmView, m: ModuleView, v: Value)
    ensures
        marked(vm.start_module(m)),
        marked(vm.start_print(v)),
        remembers(vm.heap, vm.start_module(m).heap),
        remembers(vm.heap, vm.start_print(v).heap),
{
    lemma_ahead_same(vm.heap);
    ahead_print_task(vm.heap, vm.heap, v);
    lemma_ahead_remembers(vm.heap, vm.start_print(v).heap);
}

// -- answers -----------------------------------------------------------------

/// An answer changes nothing but the heap, which keeps its slots.
proof fn lemma_answer<H: Host>(host: &H, step: StepView, vm: VmView, q: VmView, v: Value)
    requires
        answers(host, step, vm, Ok((q, v))),
    ensures
        ahead(vm.heap, q.heap),
        q.frames == vm.frames,
{
    lemma_ahead_same(vm.heap);
    let a: Answer = Ok((q, v));
    match step {
        StepView::Done(_) => {},
        StepView::Perform { .. } => {},
        StepView::NeedPath { need, .. } => {
            lemma_path_answer(host, need, vm, q, v);
        },
        StepView::NeedEnv { name, .. } => {
            let t = choose|t: String| #[trigger]
                says_env(host, name, t) && a == vm.answer_str(t@);
            ahead_str_value(vm.heap, vm.heap, t@);
        },
        StepView::NeedFloat { ask, .. } => {
            let x = choose|x: FloatAnswer| #[trigger]
                says_float(host, ask, x) && a == vm.answer_float(x);
            if let FloatAnswer::Text(t) = x {
                ahead_str_value(vm.heap, vm.heap, t@);
            }
        },
        StepView::NeedNumber { .. } => {},
        StepView::NeedJson { text, .. } => {
            let doc = exact_json(text);
            let bits = choose|bits: Seq<u64>| #[trigger]
                says_floats(host, doc, bits) && a == vm.answer_document(Source::Json, doc, bits);
            ahead_planted(vm.heap, vm.heap, Source::Json, doc->Ok_0, bits);
        },
        StepView::NeedToml { text, .. } => {
            let doc = toml_document(text);
            let bits = choose|bits: Seq<u64>| #[trigger]
                says_floats(host, doc, bits) && a == vm.answer_document(Source::Toml, doc, bits);
            ahead_planted(vm.heap, vm.heap, Source::Toml, doc->Ok_0, bits);
        },
    }
}

proof fn lemma_path_answer<H: Host>(host: &H, need: NeedPathView, vm: VmView, q: VmView, v: Value)
    requires
        answers_path(host, need, vm, Ok((q, v))),
    ensures
        ahead(vm.heap, q.heap),
        q.frames == vm.frames,
{
    lemma_ahead_same(vm.heap);
    let a: Answer = Ok((q, v));
    match need {
        NeedPathView::Import(p) => {
            let said = choose|said: Result<String, String>| #[trigger]
                says_import(host, p, said) && match said {
                    Err(_) => false,
                    Ok(file) => answers_import(host, file@, vm, a),
                };
            let file = said->Ok_0@;
            let text = choose|said: Result<String, String>| #[trigger]
                says_contents(host, file, said) && match said {
                    Err(_) => false,
                    Ok(t) => a == vm.answer_import(file, t@),
                };
            lemma_import_answer(vm, file, text->Ok_0@);
        },
        NeedPathView::Contents(p) => {
            let said = choose|said: Result<String, String>| #[trigger]
                says_contents(host, p, said) && match said {
                    Err(_) => false,
                    Ok(t) => a == vm.answer_str(t@),
                };
            ahead_str_value(vm.heap, vm.heap, said->Ok_0@);
        },
        NeedPathView::Exists(_) => {},
        NeedPathView::Entries(p) => {
            let said = choose|said: Result<Vec<(String, FileType)>, String>| #[trigger]
                says_entries(host, p, said) && match said {
                    Err(_) => false,
                    Ok(es) => a == vm.answer_entries(entries_view(es@)),
                };
            ahead_entries_from(vm.heap, vm.heap, entries_view(said->Ok_0@), 0, Seq::empty());
        },
        NeedPathView::Kind(p) => {
            let said = choose|said: Result<FileType, String>| #[trigger]
                says_kind(host, p, said) && match said {
                    Err(_) => false,
                    Ok(t) => a == vm.answer_str(file_type_text(t)),
                };
            ahead_str_value(vm.heap, vm.heap, file_type_text(said->Ok_0));
        },
    }
}

proof fn lemma_import_answer(vm: VmView, path: Seq<char>, text: Seq<char>)
    requires
        vm.answer_import(path, text) is Ok,
    ensures
        ahead(vm.heap, vm.answer_import(path, text)->Ok_0.0.heap),
        vm.answer_import(path, text)->Ok_0.0.frames == vm.frames,
{
    broadcast use {ahead_attrs_value, ahead_intern, ahead_str_slot};

    let module = compiled(parsed(text), dir_name(path));
    let after = vm.import_module(path, module)->Ok_0.0;
    assert(ahead(vm.heap, after.heap)) by {
        reveal(ahead);
    }
    assert(after.frames == vm.frames);
}

/// A question and its answer keep what has come to its end, whatever the
/// answer is.
pub proof fn law_answers_keep_settled_slots<H: Host>(host: &H, from: VmView, to: VmView)
    requires
        marked(from),
        asked(host, from, to),
    ensures
        marked(to),
        remembers(from.heap, to.heap),
{
    law_polling_keeps_settled_slots(from);
    let (p, r) = from.poll();
    let step = r->Ok_0;
    let (q, token, v) = choose|q: VmView, token: ResumeToken, v: Value|
        answers(host, step, p, Ok((q, v))) && step_token(step, token) && #[trigger] q.resume(
            token,
            v,
        ) == (to, Ok::<(), VmErrorView>(()));
    lemma_answer(host, step, p, q, v);
    lemma_marked_more(p, q);
    lemma_ahead_same(q.heap);
    lemma_marked_more(q, to);
    lemma_remembers_on(p.heap, q.heap, to.heap);
    lemma_remembers_on(from.heap, p.heap, to.heap);
}

proof fn lemma_dialogue<H: Host>(host: &H, states: Seq<VmView>, n: int)
    requires
        dialogue(host, states),
        marked(states[0]),
        0 <= n < states.len(),
    ensures
        marked(states[n]),
        remembers(states[0].heap, states[n].heap),
    decreases n,
{
    if n == 0 {
        lemma_ahead_same(states[0].heap);
        lemma_ahead_remembers(states[0].heap, states[0].heap);
    } else {
        lemma_dialogue(host, states, n - 1);
        assert(asked(host, states[n - 1], states[n]));
        law_answers_keep_settled_slots(host, states[n - 1], states[n]);
        lemma_remembers_on(states[0].heap, states[n - 1].heap, states[n].heap);
    }
}

/// A run that ends with a value kept, from its beginning to its end, every
/// slot that came to its end, whatever the host answered.
pub proof fn law_runs_keep_settled_slots<H: Host>(
    host: &H,
    start: VmView,
    states: Seq<VmView>,
    end: VmView,
    r: Result<Value, VmError>,
)
    requires
        marked(start),
        ran(host, start, states, end, r),
        r is Ok,
    ensures
        marked(end),
        remembers(start.heap, end.heap),
{
    let n = states.len() - 1;
    lemma_dialogue(host, states, n);
    law_polling_keeps_settled_slots(states[n]);
    lemma_remembers_on(start.heap, states[n].heap, end.heap);
}

} // verus!
