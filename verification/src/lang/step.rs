//! What the machine hands its scheduler: results, questions and errors, with
//! their texts spelled out.
use crate::lang::frames::{FloatAsk, Need};
use crate::lang::heap::{ErrKind, Fault, Heap, HeapView, Value};
use crate::lang::strings::{nul_check, nul_complaint};
use crate::text::{string_of, text_of};
use vstd::prelude::*;

verus! {

/// An error the language can observe (`tryEval`) or report. `catchable`
/// marks the classes `tryEval` intercepts: throw and assert, not abort or
/// type errors.
#[derive(Debug, Clone)]
pub struct Catchable {
    pub message: String,
    pub catchable: bool,
    pub kind: ErrKind,
}

#[derive(Debug)]
pub enum VmError {
    Throw(Catchable),
    Unimplemented(String),
}

/// The model of [`VmError`].
pub enum VmErrorView {
    Throw { message: Seq<char>, catchable: bool, kind: ErrKind },
    Unimplemented(Seq<char>),
}

impl View for VmError {
    type V = VmErrorView;

    open spec fn view(&self) -> VmErrorView {
        match self {
            VmError::Throw(c) => VmErrorView::Throw {
                message: c.message@,
                catchable: c.catchable,
                kind: c.kind,
            },
            VmError::Unimplemented(w) => VmErrorView::Unimplemented(w@),
        }
    }
}

/// An ordinary evaluation error.
pub open spec fn eval_error(msg: Seq<char>) -> VmErrorView {
    VmErrorView::Throw { message: msg, catchable: false, kind: ErrKind::Eval }
}

impl VmError {
    /// An ordinary evaluation error, which `tryEval` lets pass.
    pub fn eval(msg: String) -> (r: VmError)
        ensures
            r@ == eval_error(msg@),
    {
        VmError::Throw(Catchable { message: msg, catchable: false, kind: ErrKind::Eval })
    }

    /// `builtins.throw`: catchable by `tryEval`.
    pub fn thrown(msg: String) -> (r: VmError)
        ensures
            r@ == (VmErrorView::Throw { message: msg@, catchable: true, kind: ErrKind::Thrown }),
    {
        VmError::Throw(Catchable { message: msg, catchable: true, kind: ErrKind::Thrown })
    }

    /// A failed assertion: catchable.
    pub fn assertion(msg: String) -> (r: VmError)
        ensures
            r@ == (VmErrorView::Throw {
                message: msg@,
                catchable: true,
                kind: ErrKind::Assertion,
            }),
    {
        VmError::Throw(Catchable { message: msg, catchable: true, kind: ErrKind::Assertion })
    }
}

/// Refuses text carrying an interior null character, since a string reaches
/// the store and the system as a C string.
pub fn check_no_nul(s: &str) -> (r: Result<(), VmError>)
    ensures
        match r {
            Ok(_) => !s@.contains('\0'),
            Err(e) => s@.contains('\0') && e@ == eval_error(nul_complaint(s@)),
        },
{
    match nul_check(&text_of(s)) {
        None => Ok(()),
        Some(msg) => Err(VmError::eval(string_of(&msg))),
    }
}

/// A question about a path.
#[derive(Debug, Clone)]
pub enum NeedPath {
    /// The file to import and its text.
    Import(String),
    /// `readFile`.
    Contents(String),
    /// `pathExists`.
    Exists(String),
    /// `readDir`.
    Entries(String),
    /// `readFileType`.
    Kind(String),
}

/// The model of [`NeedPath`].
pub enum NeedPathView {
    Import(Seq<char>),
    Contents(Seq<char>),
    Exists(Seq<char>),
    Entries(Seq<char>),
    Kind(Seq<char>),
}

impl View for NeedPath {
    type V = NeedPathView;

    open spec fn view(&self) -> NeedPathView {
        match self {
            NeedPath::Import(p) => NeedPathView::Import(p@),
            NeedPath::Contents(p) => NeedPathView::Contents(p@),
            NeedPath::Exists(p) => NeedPathView::Exists(p@),
            NeedPath::Entries(p) => NeedPathView::Entries(p@),
            NeedPath::Kind(p) => NeedPathView::Kind(p@),
        }
    }
}

/// Names one outstanding suspension. Minted by a suspension, spent by
/// `resume`; a stale token is refused.
#[derive(Debug, Clone, Copy, PartialEq, Eq, Structural)]
pub struct ResumeToken(pub u64);

/// What one `poll` returns. All but `Done` hand control to the scheduler,
/// which answers through `resume`.
#[derive(Debug)]
pub enum Step {
    Done(Value),
    Perform { domain: String, request: Vec<u8>, resume: ResumeToken },
    NeedPath { need: NeedPath, resume: ResumeToken },
    /// An environment variable.
    NeedEnv { name: String, resume: ResumeToken },
    /// Floating-point work.
    NeedFloat { ask: FloatAsk, resume: ResumeToken },
    /// The float a decimal literal stands for.
    NeedNumber { digits: String, resume: ResumeToken },
    /// The value of a JSON text.
    NeedJson { text: String, resume: ResumeToken },
    /// The value of a TOML text.
    NeedToml { text: String, resume: ResumeToken },
}

/// The model of [`Step`].
pub enum StepView {
    Done(Value),
    Perform { domain: Seq<char>, request: Seq<u8>, resume: ResumeToken },
    NeedPath { need: NeedPathView, resume: ResumeToken },
    NeedEnv { name: Seq<char>, resume: ResumeToken },
    NeedFloat { ask: FloatAsk, resume: ResumeToken },
    NeedNumber { digits: Seq<char>, resume: ResumeToken },
    NeedJson { text: Seq<char>, resume: ResumeToken },
    NeedToml { text: Seq<char>, resume: ResumeToken },
}

impl View for Step {
    type V = StepView;

    open spec fn view(&self) -> StepView {
        match self {
            Step::Done(v) => StepView::Done(*v),
            Step::Perform { domain, request, resume } => StepView::Perform {
                domain: domain@,
                request: request@,
                resume: *resume,
            },
            Step::NeedPath { need, resume } => StepView::NeedPath { need: need@, resume: *resume },
            Step::NeedEnv { name, resume } => StepView::NeedEnv { name: name@, resume: *resume },
            Step::NeedFloat { ask, resume } => StepView::NeedFloat { ask: *ask, resume: *resume },
            Step::NeedNumber { digits, resume } => StepView::NeedNumber {
                digits: digits@,
                resume: *resume,
            },
            Step::NeedJson { text, resume } => StepView::NeedJson { text: text@, resume: *resume },
            Step::NeedToml { text, resume } => StepView::NeedToml { text: text@, resume: *resume },
        }
    }
}

/// The result of a poll as its model.
pub open spec fn poll_view(r: Result<Step, VmError>) -> Result<StepView, VmErrorView> {
    match r {
        Ok(s) => Ok(s@),
        Err(e) => Err(e@),
    }
}

impl HeapView {
    /// A question with its texts spelled out.
    pub open spec fn need_step(self, need: Need, resume: ResumeToken) -> StepView {
        match need {
            Need::Import(p) => StepView::NeedPath {
                need: NeedPathView::Import(self.text(p)),
                resume,
            },
            Need::Contents(p) => StepView::NeedPath {
                need: NeedPathView::Contents(self.text(p)),
                resume,
            },
            Need::Exists(p) => StepView::NeedPath {
                need: NeedPathView::Exists(self.text(p)),
                resume,
            },
            Need::Entries(p) => StepView::NeedPath {
                need: NeedPathView::Entries(self.text(p)),
                resume,
            },
            Need::Kind(p) => StepView::NeedPath { need: NeedPathView::Kind(self.text(p)), resume },
            Need::Env(t) => StepView::NeedEnv { name: self.text(t), resume },
            Need::Float(ask) => StepView::NeedFloat { ask, resume },
            Need::Number(t) => StepView::NeedNumber { digits: self.text(t), resume },
            Need::Json(t) => StepView::NeedJson { text: self.text(t), resume },
            Need::Toml(t) => StepView::NeedToml { text: self.text(t), resume },
        }
    }

    /// A failure with its message spelled out. A float that completes the
    /// message has been asked for before.
    pub open spec fn fault_error(self, e: Fault) -> VmErrorView {
        match e {
            Fault::Throw { kind, text, .. } => VmErrorView::Throw {
                message: self.text(text),
                catchable: kind != ErrKind::Eval,
                kind,
            },
            Fault::Unimplemented(t) => VmErrorView::Unimplemented(self.text(t)),
        }
    }
}

impl Heap {
    fn string(&self, t: usize) -> (s: String)
        ensures
            s@ == self@.text(t),
    {
        string_of(&self.text(t))
    }

    pub fn need_step(&self, need: Need, resume: ResumeToken) -> (r: Step)
        ensures
            r@ == self@.need_step(need, resume),
    {
        match need {
            Need::Import(p) => Step::NeedPath { need: NeedPath::Import(self.string(p)), resume },
            Need::Contents(p) => Step::NeedPath {
                need: NeedPath::Contents(self.string(p)),
                resume,
            },
            Need::Exists(p) => Step::NeedPath { need: NeedPath::Exists(self.string(p)), resume },
            Need::Entries(p) => Step::NeedPath { need: NeedPath::Entries(self.string(p)), resume },
            Need::Kind(p) => Step::NeedPath { need: NeedPath::Kind(self.string(p)), resume },
            Need::Env(t) => Step::NeedEnv { name: self.string(t), resume },
            Need::Float(ask) => Step::NeedFloat { ask, resume },
            Need::Number(t) => Step::NeedNumber { digits: self.string(t), resume },
            Need::Json(t) => Step::NeedJson { text: self.string(t), resume },
            Need::Toml(t) => Step::NeedToml { text: self.string(t), resume },
        }
    }

    pub fn fault_error(&self, e: Fault) -> (r: VmError)
        ensures
            r@ == self@.fault_error(e),
    {
        match e {
            Fault::Throw { kind, text, .. } => VmError::Throw(
                Catchable {
                    message: self.string(text),
                    catchable: kind != ErrKind::Eval,
                    kind,
                },
            ),
            Fault::Unimplemented(t) => VmError::Unimplemented(self.string(t)),
        }
    }
}

} // verus!
