//! The machine's frames and resumable tasks, as plain words. Each walk over a
//! value is a work list plus a cursor, so the depth of the value costs heap,
//! never host stack.
use crate::lang::heap::{ErrKind, Fault, Slot, Sym, Value};
use vstd::prelude::*;

verus! {

/// A number of either kind.
#[derive(Debug, Clone, Copy, PartialEq, Eq, Structural)]
pub enum Num {
    Int(i64),
    /// A float's bit pattern.
    Float(u64),
}

/// A floating-point question for the scheduler. An integer operand is
/// converted to a float first.
#[derive(Debug, Clone, Copy, PartialEq, Eq, Structural)]
pub enum FloatAsk {
    /// Arithmetic; the answer is a float.
    Add(Num, Num),
    Sub(Num, Num),
    Mul(Num, Num),
    Div(Num, Num),
    /// Rounding; the answer is an integer.
    Floor(Num),
    Ceil(Num),
    /// Whether the two are equal; the answer is a Boolean.
    Equal(Num, Num),
    /// -1, 0 or 1 as the first is below, not ordered from, or above the
    /// second.
    Order(Num, Num),
    /// The text of a float to six significant digits.
    Show(u64),
    /// The text of a float in JSON.
    Json(u64),
}

/// What the scheduler is being asked for; texts are arena indices.
#[derive(Debug, Clone, Copy, PartialEq, Eq, Structural)]
pub enum Need {
    /// The file to import: its resolved path and its text, with the module
    /// compiled from it already known to the machine.
    Import(usize),
    Contents(usize),
    Exists(usize),
    Entries(usize),
    Kind(usize),
    /// An environment variable.
    Env(usize),
    Float(FloatAsk),
    /// The float a decimal literal stands for.
    Number(usize),
    /// The value a JSON text stands for.
    Json(usize),
    /// The value a TOML text stands for.
    Toml(usize),
}

/// How a list of forced values is turned into a result.
#[derive(Debug, Clone, Copy, PartialEq, Eq, Structural)]
pub enum Finish {
    ConcatLists,
    RemoveAttrs,
    CatAttrs,
    ConcatSep,
    ZipAttrs,
}

/// Where a builtin under way is.
#[derive(Debug, Clone, Copy, PartialEq, Eq, Structural)]
pub enum Cont {
    /// Forcing argument `i` before the body runs.
    Args(usize),
    /// Run the builtin body.
    Start,
    /// Hand back the next value delivered.
    Result,
    Filter { f: Value, items: usize, i: usize, out: usize },
    /// Stop at the first element whose predicate equals `want`.
    AnyAll { f: Value, items: usize, i: usize, want: bool },
    ConcatMap { f: Value, items: usize, i: usize, out: usize },
    /// `half` marks that `f acc` has been computed for the current element;
    /// `finishing` that the accumulator itself is being forced.
    Foldl { f: Value, items: usize, i: usize, acc: Slot, half: bool, finishing: bool },
    /// Insertion sort, which is stable and whose comparator can throw.
    Sort { f: Value, items: usize, next: usize, sorted: usize, probe: usize, half: bool },
    /// `out` binds each key to the list of its elements.
    GroupBy { f: Value, items: usize, i: usize, out: usize },
    Partition { f: Value, items: usize, i: usize, right: usize, wrong: usize },
    Elem { x: Slot, items: usize, i: usize },
    /// Force every element, then finish.
    ForceEach { items: usize, i: usize, vals: usize, finish: Finish },
    ListToAttrs {
        items: usize,
        i: usize,
        out: usize,
        cur: Option<usize>,
        name_sym: Sym,
        value_sym: Sym,
    },
    Replace { stage: u8, froms: usize, plan: usize, used: usize, k: usize, tos: usize },
    /// `seen` marks the slots already visited; `tail` that the second
    /// argument is being forced.
    DeepSeq { work: usize, seen: usize, tail: bool },
    TryEval { started: bool },
    /// Waiting on the scheduler's answer.
    Ask { asked: bool, need: Need },
    /// Ask for the file, force its entry, hand the value back.
    Import { stage: u8 },
    Generic(Generic),
    ToJson { work: usize, out: usize, awaiting: Await },
}

/// Where a closure computation is: which forced value comes next.
#[derive(Debug, Clone, Copy, PartialEq, Eq, Structural)]
pub enum Stage {
    Fresh,
    StartSet,
    Operator,
    /// The element taken off the work queue.
    Elem,
    /// That element's `key` attribute.
    Key,
    /// The outcome of a floating-point key comparison.
    Probe,
    /// What the operator returned.
    OpResult,
    /// One element of the operator's result.
    OpElem,
}

/// A closure computation: queue, results, the keys already emitted in order,
/// and the element under way.
#[derive(Debug, Clone, Copy, PartialEq, Eq, Structural)]
pub struct Generic {
    pub start: Slot,
    pub stage: Stage,
    pub work: usize,
    /// How much of the queue has been taken.
    pub taken: usize,
    pub res: usize,
    pub keys: usize,
    pub op: Value,
    pub cur: Slot,
    pub key: Value,
    pub lo: usize,
    pub hi: usize,
    pub pending: usize,
    pub pi: usize,
}

/// What the value about to be handed to the JSON walk means.
#[derive(Debug, Clone, Copy, PartialEq, Eq, Structural)]
pub enum Await {
    /// A queued slot's value, to be rendered at this depth.
    Depth(usize),
    /// The digits of a float.
    Digits,
    /// The `__toString` attribute of this set, about to be applied to it.
    ToStrFn(Value),
    /// What `__toString` returned.
    ToStrResult,
}

/// Where the search through `with` scopes is.
#[derive(Debug, Clone, Copy, PartialEq, Eq, Structural)]
pub enum Search {
    Walk,
    AwaitSubject,
    AwaitValue,
}

/// A resumable walk.
#[derive(Debug, Clone, Copy)]
pub enum Task {
    Builtin { idx: u16, args: usize, cont: Cont },
    /// Structural equality. Stage 0: the left side is being forced; 1: the
    /// right side is; 2: a floating-point comparison is being made.
    DeepEq { work: usize, cur: Option<(Slot, Slot)>, stage: u8, negate: bool },
    /// `a < b`, with the same stages.
    Compare { stack: usize, cur: Option<(Slot, Slot)>, stage: u8, negate: bool },
    ResolveWith { node: usize, sym: Sym, search: Search },
    /// `raw` marks that the next value is text to emit as it is.
    Print { work: usize, out: usize, raw: bool },
    Coerce { work: usize, out: usize, raw: bool },
    /// A deferred application, spent one argument at a time.
    ApplyChain { f: Option<Value>, args: usize, i: usize },
    /// A question whose answer is the value.
    Ask { need: Need, asked: bool },
    /// A failure that nothing caught, whose message ends in a float's text.
    Tail { kind: ErrKind, text: usize, bits: u64, asked: bool },
}

/// What a task wants next.
#[derive(Debug, Clone, Copy)]
pub enum Yield {
    Done(Value),
    /// Force this slot and step again with its value.
    Force(Slot),
    /// Apply this function and step again with the result.
    Apply(Value, Slot),
    /// Run another computation and step again with its value.
    Sub(Task),
    /// Ask the scheduler and step again with its answer.
    Need(Need),
}

/// How a builtin body starts: with an answer, with one thing to evaluate
/// whose value is the answer, or with a continuation to drive.
#[derive(Debug, Clone, Copy)]
pub enum Begin {
    Done(Value),
    Force(Slot),
    Sub(Task),
    Cont(Cont),
}

/// Where a completed sub-evaluation's value lands in the frame that asked
/// for it: appended, or written over the operand that was forced in place.
#[derive(Debug, Clone, Copy, PartialEq, Eq, Structural)]
pub enum Dest {
    Push,
    Stack(usize),
}

/// A unit under execution; the operand stack is a work list.
#[derive(Debug, Clone, Copy, PartialEq, Eq, Structural)]
pub struct UnitFrame {
    pub module: usize,
    pub unit: u32,
    pub ip: usize,
    pub stack: usize,
    pub env: usize,
    pub dest: Dest,
}

#[derive(Debug, Clone, Copy)]
pub enum Frame {
    Unit(UnitFrame),
    /// Forcing one slot. `entered` marks that the slot has been blackholed
    /// and its thunk is running above.
    Force { slot: Slot, entered: bool },
    Apply { f: Value, arg: Slot },
    Task(Task),
}

/// What to do next.
#[derive(Debug, Clone, Copy, PartialEq, Eq, Structural)]
pub enum Flow {
    /// Advance the topmost frame.
    Advance,
    /// Hand this value to the topmost frame (or halt when there is none).
    Deliver(Value),
    /// Unwind, letting `Force` frames memoize failures and `tryEval` catch.
    Unwind(Fault),
}

} // verus!
