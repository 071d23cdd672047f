//! Source text to printed value: compile, run the machine, answer what it
//! asks, print.
use crate::lang::compile::{compile_source, compiled};
use crate::lang::docs::{
    cells_view, doc_view, json_number, json_number_of, read_toml, toml_document, DocCell,
    DocCellView, DocNode, DocNodeView, JsonNumber, Source,
};
use crate::lang::frames::FloatAsk;
use crate::lang::heap::{bind, set_bind, ErrKind, HeapView, Slot, Sym, Value};
use crate::lang::host::{
    file_type_text, says_contents, says_entries, says_env, says_exists, says_float, says_import,
    says_kind, says_number, FileType, FloatAnswer, Host,
};
use crate::lang::ir::{Module, ModuleView};
use crate::lang::literals::{exact_json, read_exact_json};
use crate::lang::scopes::{CompileError, CompileErrorView};
use crate::lang::step::{
    eval_error, NeedPath, NeedPathView, ResumeToken, Step, StepView, VmError, VmErrorView,
};
use crate::lang::strings::{dir_name, dir_name_of, nul_visible};
use crate::lang::syntax::parsed;
use crate::lang::vm::{new_vm, Vm, VmView};
use crate::text::{append_str, string_of, text_of, Text};
use vstd::prelude::*;

verus! {

/// Why an evaluation has no value.
#[derive(Debug)]
pub enum EvalError {
    /// A construct without an implementation; the payload names it.
    Unimplemented(String),
    /// A real evaluation failure, with its class.
    Eval(ErrKind, String),
    Parse(String),
}

/// The model of [`EvalError`].
pub enum EvalErrorView {
    Unimplemented(Seq<char>),
    Eval(ErrKind, Seq<char>),
    Parse(Seq<char>),
}

impl View for EvalError {
    type V = EvalErrorView;

    open spec fn view(&self) -> EvalErrorView {
        match self {
            EvalError::Unimplemented(w) => EvalErrorView::Unimplemented(w@),
            EvalError::Eval(k, m) => EvalErrorView::Eval(*k, m@),
            EvalError::Parse(m) => EvalErrorView::Parse(m@),
        }
    }
}

// -- errors ------------------------------------------------------------------

/// A compilation error as the evaluation's.
pub open spec fn compile_failure(e: CompileErrorView) -> EvalErrorView {
    match e {
        CompileErrorView::Unimplemented(w) => EvalErrorView::Unimplemented(w),
        CompileErrorView::UndefinedVariable(n) => EvalErrorView::Eval(
            ErrKind::Eval,
            "undefined variable '"@ + n + "'"@,
        ),
        CompileErrorView::Parse(m) => EvalErrorView::Parse(m),
    }
}

/// A machine error as the evaluation's.
pub open spec fn run_failure(e: VmErrorView) -> EvalErrorView {
    match e {
        VmErrorView::Unimplemented(w) => EvalErrorView::Unimplemented(w),
        VmErrorView::Throw { message, kind, .. } => EvalErrorView::Eval(kind, message),
    }
}

/// A compilation error of an imported file as the machine's.
pub open spec fn import_failure(e: CompileErrorView, path: Seq<char>) -> VmErrorView {
    match e {
        CompileErrorView::Unimplemented(w) => VmErrorView::Unimplemented(w),
        CompileErrorView::UndefinedVariable(n) => eval_error("undefined variable '"@ + n + "'"@),
        CompileErrorView::Parse(m) => eval_error("in imported file '"@ + path + "': "@ + m),
    }
}

fn quoted(lead: &str, name: &String, end: &str) -> (s: String)
    ensures
        s@ == lead@ + name@ + end@,
{
    let mut t = text_of(lead);
    append_str(&mut t, name);
    append_str(&mut t, end);
    string_of(&t)
}

pub fn map_compile_err(e: CompileError) -> (r: EvalError)
    ensures
        r@ == compile_failure(e@),
{
    match e {
        CompileError::Unimplemented(w) => EvalError::Unimplemented(w),
        CompileError::UndefinedVariable(n) => EvalError::Eval(
            ErrKind::Eval,
            quoted("undefined variable '", &n, "'"),
        ),
        CompileError::Parse(m) => EvalError::Parse(m),
    }
}

pub fn map_vm_err(e: VmError) -> (r: EvalError)
    ensures
        r@ == run_failure(e@),
{
    match e {
        VmError::Unimplemented(w) => EvalError::Unimplemented(w),
        VmError::Throw(c) => EvalError::Eval(c.kind, c.message),
    }
}

fn map_import_err(e: CompileError, path: &str) -> (r: VmError)
    ensures
        r@ == import_failure(e@, path@),
{
    match e {
        CompileError::Unimplemented(w) => VmError::Unimplemented(w),
        CompileError::UndefinedVariable(n) => VmError::eval(
            quoted("undefined variable '", &n, "'"),
        ),
        CompileError::Parse(m) => {
            let mut t = text_of("in imported file '");
            append_str(&mut t, path);
            append_str(&mut t, "': ");
            append_str(&mut t, &m);
            VmError::eval(string_of(&t))
        },
    }
}

// -- answers -----------------------------------------------------------------

/// What an answer leads to: the machine and the value to hand it, or an
/// error that ends the run.
pub type Answer = Result<(VmView, Value), VmErrorView>;

/// An answer as its model.
pub open spec fn answer_view(r: Result<Value, VmError>, vm: VmView) -> Answer {
    match r {
        Ok(v) => Ok((vm, v)),
        Err(e) => Err(e@),
    }
}

impl HeapView {
    /// The entries from position `i` on, as a set of their types.
    pub open spec fn entries_from(
        self,
        entries: Seq<(Seq<char>, FileType)>,
        i: int,
        out: Seq<(Sym, Slot)>,
    ) -> (HeapView, Value)
        decreases entries.len() - i,
    {
        if i >= entries.len() {
            self.attrs_value(out)
        } else {
            let (h, k) = self.intern(entries[i].0);
            let (h, s) = h.str_slot(file_type_text(entries[i].1));
            h.entries_from(entries, i + 1, bind(out, k, s))
        }
    }

    /// The floating-point answer as a value.
    pub open spec fn float_value(self, a: FloatAnswer) -> (HeapView, Value) {
        match a {
            FloatAnswer::Float(x) => (self, Value::Float(x)),
            FloatAnswer::Int(n) => (self, Value::Int(n)),
            FloatAnswer::Bool(b) => (self, Value::Bool(b)),
            FloatAnswer::Text(t) => self.str_value(t@),
        }
    }
}

/// Directory entries as their model.
pub open spec fn entries_view(v: Seq<(String, FileType)>) -> Seq<(Seq<char>, FileType)> {
    Seq::new(v.len(), |i: int| (v[i].0@, v[i].1))
}

impl VmView {
    /// The module compiled from an imported file, compiling it on first use.
    pub open spec fn import_module(
        self,
        path: Seq<char>,
        module: Result<ModuleView, CompileErrorView>,
    ) -> Result<(VmView, usize), VmErrorView> {
        match self.heap.module_for(path, 0) {
            Some(id) => Ok((self, id)),
            None => match module {
                Err(e) => Err(import_failure(e, path)),
                Ok(m) => {
                    let (h, t) = self.heap.new_text(path);
                    let id = h.modules.len() as usize;
                    Ok(
                        (
                            self.with_heap(
                                HeapView {
                                    modules: h.modules.push(m),
                                    imports: h.imports.push((t, id)),
                                    ..h
                                },
                            ),
                            id,
                        ),
                    )
                },
            },
        }
    }

    /// The answer to an import: the resolved path and the text of the file,
    /// with the module compiled from it known to the machine.
    pub open spec fn answer_import(self, path: Seq<char>, text: Seq<char>) -> Answer {
        match self.import_module(path, compiled(parsed(text), dir_name(path))) {
            Err(e) => Err(e),
            Ok((vm, _)) => {
                let (h, a) = vm.heap.intern("path"@);
                let (h, p) = h.str_slot(path);
                let (h, b) = h.intern("text"@);
                let (h, t) = h.str_slot(text);
                let (h, v) = h.attrs_value(bind(bind(Seq::empty(), a, p), b, t));
                Ok((vm.with_heap(h), v))
            },
        }
    }

    pub open spec fn answer_str(self, t: Seq<char>) -> Answer {
        let (h, v) = self.heap.str_value(t);
        Ok((self.with_heap(h), v))
    }

    pub open spec fn answer_float(self, a: FloatAnswer) -> Answer {
        let (h, v) = self.heap.float_value(a);
        Ok((self.with_heap(h), v))
    }

    pub open spec fn answer_entries(self, entries: Seq<(Seq<char>, FileType)>) -> Answer {
        let (h, v) = self.heap.entries_from(entries, 0, Seq::empty());
        Ok((self.with_heap(h), v))
    }

    /// The answer to `fromJSON` or `fromTOML`, given what the parser made of
    /// the text and the floats that its numbers stand for.
    pub open spec fn answer_document(
        self,
        from: Source,
        doc: Result<Seq<DocCellView>, Seq<char>>,
        bits: Seq<u64>,
    ) -> Answer {
        match doc {
            Err(m) => Err(
                eval_error(
                    match from {
                        Source::Json => "while decoding a JSON string: "@,
                        Source::Toml => "while parsing TOML: "@,
                    } + m,
                ),
            ),
            Ok(cells) => match self.heap.planted(from, cells, bits) {
                (h, Err(e)) => Err(h.fault_error(e)),
                (h, Ok(v)) => Ok((self.with_heap(h), v)),
            },
        }
    }
}

/// A module id or an error, as its model.
pub open spec fn import_view(r: Result<usize, VmError>, vm: VmView) -> Result<
    (VmView, usize),
    VmErrorView,
> {
    match r {
        Ok(id) => Ok((vm, id)),
        Err(e) => Err(e@),
    }
}

impl Vm {
    /// The compiled module for an imported file, compiling it on first use.
    pub fn import_module(&mut self, path: &str, text: &str, base: &str) -> (r: Result<
        usize,
        VmError,
    >)
        ensures
            import_view(r, final(self)@) == old(self)@.import_module(
                path@,
                compiled(parsed(text@), base@),
            ),
    {
        if let Some(id) = self.heap.module_for(&text_of(path)) {
            return Ok(id);
        }
        match compile_source(text, base) {
            Err(e) => Err(map_import_err(e, path)),
            Ok(m) => {
                let t = self.heap.new_text(text_of(path));
                let id = self.heap.modules.len();
                let ghost before = self.heap@;
                self.heap.modules.push(m);
                self.heap.imports.push((t, id));
                assert(self.heap@.modules =~= before.modules.push(m@));
                assert(self.heap@ =~= (HeapView {
                    modules: before.modules.push(m@),
                    imports: before.imports.push((t, id)),
                    ..before
                }));
                Ok(id)
            },
        }
    }

    /// Answers an import.
    pub fn answer_import(&mut self, path: &str, text: &str) -> (r: Result<Value, VmError>)
        ensures
            answer_view(r, final(self)@) == old(self)@.answer_import(path@, text@),
    {
        let base = string_of(&dir_name_of(&text_of(path)));
        match self.import_module(path, text, &base) {
            Err(e) => Err(e),
            Ok(_) => {
                let a = self.heap.intern(&text_of("path"));
                let p = self.heap.str_slot(text_of(path));
                let b = self.heap.intern(&text_of("text"));
                let t = self.heap.str_slot(text_of(text));
                let mut set: Vec<(Sym, Slot)> = Vec::new();
                set_bind(&mut set, a, p);
                set_bind(&mut set, b, t);
                Ok(self.heap.attrs_value(set))
            },
        }
    }

    /// Answers with a string.
    pub fn answer_str(&mut self, t: &str) -> (r: Result<Value, VmError>)
        ensures
            answer_view(r, final(self)@) == old(self)@.answer_str(t@),
    {
        Ok(self.heap.str_value(text_of(t)))
    }

    /// Answers `readDir`.
    pub fn answer_entries(&mut self, entries: &Vec<(String, FileType)>) -> (r: Result<
        Value,
        VmError,
    >)
        ensures
            answer_view(r, final(self)@) == old(self)@.answer_entries(entries_view(entries@)),
    {
        let mut out: Vec<(Sym, Slot)> = Vec::new();
        let mut i: usize = 0;
        while i < entries.len()
            invariant
                i <= entries.len(),
                self@ == old(self)@.with_heap(self.heap@),
                self.heap@.entries_from(entries_view(entries@), i as int, out@)
                    == old(self)@.heap.entries_from(entries_view(entries@), 0, Seq::empty()),
            decreases entries.len() - i,
        {
            let k = self.heap.intern(&text_of(&entries[i].0));
            let s = self.heap.str_slot(text_of(entries[i].1.as_str()));
            set_bind(&mut out, k, s);
            i += 1;
        }
        Ok(self.heap.attrs_value(out))
    }

    /// Answers `fromJSON` and `fromTOML`.
    pub fn answer_document(
        &mut self,
        from: Source,
        doc: &Result<Vec<DocCell>, String>,
        bits: &Vec<u64>,
    ) -> (r: Result<Value, VmError>)
        ensures
            answer_view(r, final(self)@) == old(self)@.answer_document(
                from,
                doc_view(*doc),
                bits@,
            ),
    {
        match doc {
            Err(m) => {
                let mut t = text_of(
                    match from {
                        Source::Json => "while decoding a JSON string: ",
                        Source::Toml => "while parsing TOML: ",
                    },
                );
                append_str(&mut t, m);
                Err(VmError::eval(string_of(&t)))
            },
            Ok(cells) => match self.heap.planted(from, cells, bits) {
                Err(e) => Err(self.heap.fault_error(e)),
                Ok(v) => Ok(v),
            },
        }
    }

    /// Answers a floating-point question.
    pub fn answer_float(&mut self, a: FloatAnswer) -> (r: Result<Value, VmError>)
        ensures
            answer_view(r, final(self)@) == old(self)@.answer_float(a),
    {
        match a {
            FloatAnswer::Float(x) => Ok(Value::Float(x)),
            FloatAnswer::Int(n) => Ok(Value::Int(n)),
            FloatAnswer::Bool(b) => Ok(Value::Bool(b)),
            FloatAnswer::Text(t) => self.answer_str(&t),
        }
    }
}

// -- the scheduler -----------------------------------------------------------

/// Whether this is an answer that a question can get from a host: the host is
/// asked exactly what the machine asks, and what it says is handed on.
pub open spec fn answers<H: Host>(host: &H, step: StepView, vm: VmView, a: Answer) -> bool {
    match step {
        StepView::Done(_) => false,
        StepView::Perform { domain, .. } => a == Err::<(VmView, Value), VmErrorView>(
            VmErrorView::Unimplemented("effect domain '"@ + domain + "'"@),
        ),
        StepView::NeedPath { need, .. } => answers_path(host, need, vm, a),
        StepView::NeedEnv { name, .. } => answers_env(host, name, vm, a),
        StepView::NeedFloat { ask, .. } => answers_ask(host, ask, vm, a),
        StepView::NeedNumber { digits, .. } => answers_number(host, digits, vm, a),
        StepView::NeedJson { text, .. } => answers_document(
            host,
            Source::Json,
            exact_json(text),
            vm,
            a,
        ),
        StepView::NeedToml { text, .. } => answers_document(
            host,
            Source::Toml,
            toml_document(text),
            vm,
            a,
        ),
    }
}

/// The answers that a question about a path can get from a host.
pub open spec fn answers_path<H: Host>(
    host: &H,
    need: NeedPathView,
    vm: VmView,
    a: Answer,
) -> bool {
    match need {
        NeedPathView::Import(p) => answers_target(host, p, vm, a),
        NeedPathView::Contents(p) => answers_contents(host, p, vm, a),
        NeedPathView::Exists(p) => answers_exists(host, p, vm, a),
        NeedPathView::Entries(p) => answers_entries(host, p, vm, a),
        NeedPathView::Kind(p) => answers_kind(host, p, vm, a),
    }
}

/// A host's refusal as the answer.
pub open spec fn refusal(e: String) -> Answer {
    Err(eval_error(e@))
}

/// The answers about an environment variable.
pub open spec fn answers_env<H: Host>(
    host: &H,
    name: Seq<char>,
    vm: VmView,
    a: Answer,
) -> bool {
    exists|t: String| #[trigger] says_env(host, name, t) && a == vm.answer_str(t@)
}

/// The answers to a floating-point question.
pub open spec fn answers_ask<H: Host>(host: &H, ask: FloatAsk, vm: VmView, a: Answer) -> bool {
    exists|x: FloatAnswer| #[trigger] says_float(host, ask, x) && a == vm.answer_float(x)
}

/// The answers about a decimal text.
pub open spec fn answers_number<H: Host>(
    host: &H,
    digits: Seq<char>,
    vm: VmView,
    a: Answer,
) -> bool {
    exists|x: u64| #[trigger]
        says_number(host, digits, x) && a == Ok::<(VmView, Value), VmErrorView>(
            (vm, Value::Float(x)),
        )
}

/// The answers about a document.
pub open spec fn answers_document<H: Host>(
    host: &H,
    from: Source,
    doc: Result<Seq<DocCellView>, Seq<char>>,
    vm: VmView,
    a: Answer,
) -> bool {
    exists|bits: Seq<u64>| #[trigger]
        says_floats(host, doc, bits) && a == vm.answer_document(from, doc, bits)
}

/// The answers to an import.
pub open spec fn answers_target<H: Host>(
    host: &H,
    path: Seq<char>,
    vm: VmView,
    a: Answer,
) -> bool {
    exists|said: Result<String, String>| #[trigger]
        says_import(host, path, said) && match said {
            Err(e) => a == refusal(e),
            Ok(file) => answers_import(host, file@, vm, a),
        }
}

/// The answers to an import once the file that it reads is known.
pub open spec fn answers_import<H: Host>(
    host: &H,
    file: Seq<char>,
    vm: VmView,
    a: Answer,
) -> bool {
    exists|said: Result<String, String>| #[trigger]
        says_contents(host, file, said) && match said {
            Err(e) => a == refusal(e),
            Ok(t) => a == vm.answer_import(file, t@),
        }
}

/// The answers about a file's contents.
pub open spec fn answers_contents<H: Host>(
    host: &H,
    path: Seq<char>,
    vm: VmView,
    a: Answer,
) -> bool {
    exists|said: Result<String, String>| #[trigger]
        says_contents(host, path, said) && match said {
            Err(e) => a == refusal(e),
            Ok(t) => a == vm.answer_str(t@),
        }
}

/// The answers about something being there.
pub open spec fn answers_exists<H: Host>(
    host: &H,
    path: Seq<char>,
    vm: VmView,
    a: Answer,
) -> bool {
    exists|said: bool| #[trigger]
        says_exists(host, path, said) && a == Ok::<(VmView, Value), VmErrorView>(
            (vm, Value::Bool(said)),
        )
}

/// The answers about a directory's entries.
pub open spec fn answers_entries<H: Host>(
    host: &H,
    path: Seq<char>,
    vm: VmView,
    a: Answer,
) -> bool {
    exists|said: Result<Vec<(String, FileType)>, String>| #[trigger]
        says_entries(host, path, said) && match said {
            Err(e) => a == refusal(e),
            Ok(es) => a == vm.answer_entries(entries_view(es@)),
        }
}

/// The answers about what a path is.
pub open spec fn answers_kind<H: Host>(
    host: &H,
    path: Seq<char>,
    vm: VmView,
    a: Answer,
) -> bool {
    exists|said: Result<FileType, String>| #[trigger]
        says_kind(host, path, said) && match said {
            Err(e) => a == refusal(e),
            Ok(t) => a == vm.answer_str(file_type_text(t)),
        }
}

/// The text that a host has to take for a float, where a cell of a document
/// holds one.
pub open spec fn float_digits(cell: DocCellView) -> Option<Seq<char>> {
    match cell.node {
        DocNodeView::Number(t) => if json_number(t) == JsonNumber::Real {
            Some(t)
        } else {
            None
        },
        _ => None,
    }
}

/// Whether a host may take the numbers of a document for these floats, each
/// at the position of its cell, with nothing at the others.
pub open spec fn says_floats<H: Host>(
    host: &H,
    doc: Result<Seq<DocCellView>, Seq<char>>,
    bits: Seq<u64>,
) -> bool {
    match doc {
        Err(_) => bits.len() == 0,
        Ok(cells) => bits.len() == cells.len() && forall|i: int|
            0 <= i < cells.len() ==> match float_digits(#[trigger] cells[i]) {
                Some(t) => says_number(host, t, bits[i]),
                None => bits[i] == 0,
            },
    }
}

/// Whether the machine, polled in one state, asks something and the host's
/// answer leads to another state.
pub open spec fn asked<H: Host>(host: &H, from: VmView, to: VmView) -> bool {
    match from.poll() {
        (p, Ok(step)) => exists|q: VmView, token: ResumeToken, v: Value|
            answers(host, step, p, Ok((q, v))) && step_token(step, token) && #[trigger] q.resume(
                token,
                v,
            ) == (to, Ok::<(), VmErrorView>(())),
        _ => false,
    }
}

/// Whether a step is a question under this token.
pub open spec fn step_token(s: StepView, token: ResumeToken) -> bool {
    match s {
        StepView::Done(_) => false,
        StepView::Perform { resume, .. } => resume == token,
        StepView::NeedPath { resume, .. } => resume == token,
        StepView::NeedEnv { resume, .. } => resume == token,
        StepView::NeedFloat { resume, .. } => resume == token,
        StepView::NeedNumber { resume, .. } => resume == token,
        StepView::NeedJson { resume, .. } => resume == token,
        StepView::NeedToml { resume, .. } => resume == token,
    }
}

/// The states a run goes through, from question to question.
pub open spec fn dialogue<H: Host>(host: &H, states: Seq<VmView>) -> bool {
    states.len() > 0 && forall|i: int|
        0 <= i < states.len() - 1 ==> asked(host, #[trigger] states[i], states[i + 1])
}

/// Whether a run from one state, with the answers of this host, ends with a
/// result: the value or the error of the last poll, or the error of an
/// answer that could not be given. The number of questions is bounded by the
/// machine word that counts them.
pub open spec fn ran<H: Host>(
    host: &H,
    start: VmView,
    states: Seq<VmView>,
    end: VmView,
    r: Result<Value, VmError>,
) -> bool {
    &&& dialogue(host, states)
    &&& states[0] == start
    &&& match states.last().poll() {
        (vm, Ok(StepView::Done(v))) => (end == vm && r == Ok::<Value, VmError>(v)) || (states.len()
            > u64::MAX && r is Err),
        (vm, Ok(step)) => r is Err && (answers(
            host,
            step,
            vm,
            Err::<(VmView, Value), VmErrorView>(r->Err_0@),
        ) || states.len() > u64::MAX),
        (vm, Err(e)) => r is Err && ((end == vm && r->Err_0@ == e) || states.len() > u64::MAX),
    }
}

/// The floats that the numbers of a document stand for, each at its
/// position.
fn floats_of<H: Host>(host: &H, doc: &Result<Vec<DocCell>, String>) -> (bits: Vec<u64>)
    ensures
        says_floats(host, doc_view(*doc), bits@),
{
    let mut out: Vec<u64> = Vec::new();
    if let Ok(cells) = doc {
        let mut i: usize = 0;
        while i < cells.len()
            invariant
                i <= cells.len(),
                out.len() == i,
                forall|j: int|
                    0 <= j < i ==> match float_digits(#[trigger] cells_view(cells@)[j]) {
                        Some(t) => says_number(host, t, out@[j]),
                        None => out@[j] == 0,
                    },
            decreases cells.len() - i,
        {
            let x: u64 = match &cells[i].node {
                DocNode::Number(t) => match json_number_of(&text_of(t)) {
                    JsonNumber::Real => host.number(t),
                    _ => 0,
                },
                _ => 0,
            };
            out.push(x);
            i += 1;
        }
    }
    out
}

/// Answers an import, given the file that it reads.
fn answer_import_of<H: Host>(vm: &mut Vm, host: &H, file: &String) -> (r: Result<Value, VmError>)
    ensures
        answers_import(host, file@, old(vm)@, answer_view(r, final(vm)@)),
{
    let said = host.read_file(file);
    assert(says_contents(host, file@, said));
    match said {
        Err(e) => Err(VmError::eval(e)),
        Ok(text) => vm.answer_import(file, &text),
    }
}

/// Answers a question about a path.
fn answer_path<H: Host>(vm: &mut Vm, host: &H, need: &NeedPath) -> (r: Result<Value, VmError>)
    ensures
        answers_path(host, need@, old(vm)@, answer_view(r, final(vm)@)),
{
    match need {
        NeedPath::Import(p) => {
            let file = host.resolve_import(p);
            assert(says_import(host, p@, file));
            match file {
                Err(e) => Err(VmError::eval(e)),
                Ok(file) => answer_import_of(vm, host, &file),
            }
        },
        NeedPath::Contents(p) => {
            let said = host.read_file(p);
            assert(says_contents(host, p@, said));
            match said {
                Err(e) => Err(VmError::eval(e)),
                Ok(s) => vm.answer_str(&s),
            }
        },
        NeedPath::Exists(p) => {
            let said = host.path_exists(p);
            assert(says_exists(host, p@, said));
            Ok(Value::Bool(said))
        },
        NeedPath::Kind(p) => {
            let said = host.file_type(p);
            assert(says_kind(host, p@, said));
            match said {
                Err(e) => Err(VmError::eval(e)),
                Ok(t) => vm.answer_str(t.as_str()),
            }
        },
        NeedPath::Entries(p) => {
            let said = host.read_dir(p);
            assert(says_entries(host, p@, said));
            match said {
                Err(e) => Err(VmError::eval(e)),
                Ok(entries) => vm.answer_entries(&entries),
            }
        },
    }
}

/// Answers whatever a step asks; `None` where it asks nothing.
fn answer<H: Host>(vm: &mut Vm, host: &H, step: &Step) -> (r: Option<
    (ResumeToken, Result<Value, VmError>),
>)
    ensures
        match r {
            None => *final(vm) == *old(vm) && step is Done,
            Some((token, a)) => step_token(step@, token) && answers(
                host,
                step@,
                old(vm)@,
                answer_view(a, final(vm)@),
            ),
        },
{
    match step {
        Step::Done(_) => None,
        Step::Perform { domain, resume, .. } => Some(
            (
                *resume,
                Err(VmError::Unimplemented(quoted("effect domain '", domain, "'"))),
            ),
        ),
        Step::NeedPath { need, resume } => Some((*resume, answer_path(vm, host, need))),
        Step::NeedEnv { name, resume } => {
            let value = host.env(name);
            assert(says_env(host, name@, value));
            Some((*resume, vm.answer_str(&value)))
        },
        Step::NeedFloat { ask, resume } => {
            let a = host.float(*ask);
            assert(says_float(host, *ask, a));
            Some((*resume, vm.answer_float(a)))
        },
        Step::NeedNumber { digits, resume } => {
            let x = host.number(digits);
            assert(says_number(host, digits@, x));
            Some((*resume, Ok(Value::Float(x))))
        },
        Step::NeedJson { text, resume } => {
            let doc = read_exact_json(text);
            let bits = floats_of(host, &doc);
            assert(says_floats(host, exact_json(text@), bits@));
            Some((*resume, vm.answer_document(Source::Json, &doc, &bits)))
        },
        Step::NeedToml { text, resume } => {
            let doc = read_toml(text);
            let bits = floats_of(host, &doc);
            assert(says_floats(host, toml_document(text@), bits@));
            Some((*resume, vm.answer_document(Source::Toml, &doc, &bits)))
        },
    }
}

/// The scheduler's side of the poll loop: the machine asks, the host
/// answers, and the frames are untouched across the gap.
pub fn drive<H: Host>(vm: &mut Vm, host: &H) -> (r: Result<Value, VmError>)
    ensures
        exists|states: Seq<VmView>| #[trigger] ran(host, old(vm)@, states, final(vm)@, r),
{
    let ghost mut states: Seq<VmView> = seq![vm@];
    let mut fuel: u64 = u64::MAX;
    while fuel > 0
        invariant
            dialogue(host, states),
            states[0] == old(vm)@,
            states.last() == vm@,
            states.len() == u64::MAX - fuel + 1,
        decreases fuel,
    {
        let step = match vm.poll() {
            Err(e) => {
                let r = Err(e);
                assert(ran(host, old(vm)@, states, vm@, r));
                return r;
            },
            Ok(s) => s,
        };
        if let Step::Done(v) = step {
            let r = Ok(v);
            assert(ran(host, old(vm)@, states, vm@, r));
            return r;
        }
        let ghost polled = vm@;
        match answer(vm, host, &step) {
            None => return Err(VmError::eval("internal: nothing to answer".to_owned())),
            Some((_, Err(e))) => {
                let r: Result<Value, VmError> = Err(e);
                assert(ran(host, old(vm)@, states, vm@, r));
                return r;
            },
            Some((token, Ok(v))) => {
                let ghost answered = vm@;
                match vm.resume(token, v) {
                    Err(e) => {
                        let r: Result<Value, VmError> = Err(e);
                        assert(ran(host, old(vm)@, states, vm@, r));
                        return r;
                    },
                    Ok(_) => {
                        proof {
                            assert(answers(host, step@, polled, Ok((answered, v))));
                            assert(step_token(step@, token));
                            assert(answered.resume(token, v) == (
                                vm@,
                                Ok::<(), VmErrorView>(()),
                            ));
                            assert(asked(host, states.last(), vm@));
                            let more = states.push(vm@);
                            assert forall|i: int| 0 <= i < more.len() - 1 implies asked(
                                host,
                                #[trigger] more[i],
                                more[i + 1],
                            ) by {
                                if i < states.len() - 1 {
                                    assert(asked(host, states[i], states[i + 1]));
                                }
                            }
                            states = more;
                        }
                    },
                }
            },
        }
        fuel -= 1;
    }
    let r: Result<Value, VmError> = Err(VmError::eval("internal: out of turns".to_owned()));
    assert(ran(host, old(vm)@, states, vm@, r));
    r
}

// -- evaluation --------------------------------------------------------------

/// Whether a module evaluates to a printed value, or fails, with the
/// answers that the host gives: it runs to a value, and printing that value runs
/// to a text.
pub open spec fn evaluates<H: Host>(host: &H, m: ModuleView, r: Result<String, EvalError>) -> bool {
    exists|states: Seq<VmView>, end: VmView, v: Result<Value, VmError>| #[trigger]
        ran(host, new_vm().start_module(m), states, end, v) && match v {
            Err(e) => r is Err && r->Err_0@ == run_failure(e@),
            Ok(v) => prints(host, end, v, r),
        }
}

/// Whether printing a value runs to a text, or fails.
pub open spec fn prints<H: Host>(
    host: &H,
    vm: VmView,
    v: Value,
    r: Result<String, EvalError>,
) -> bool {
    exists|states: Seq<VmView>, end: VmView, t: Result<Value, VmError>| #[trigger]
        ran(host, vm.start_print(v), states, end, t) && match t {
            Err(e) => r is Err && r->Err_0@ == run_failure(e@),
            Ok(Value::Str(t)) => r is Ok && r->Ok_0@ == end.heap.text(t),
            Ok(_) => r is Err && r->Err_0@ == EvalErrorView::Eval(
                ErrKind::Eval,
                "internal: printer produced a non-string"@,
            ),
        }
}

/// Prints a value.
fn print_value<H: Host>(vm: &mut Vm, v: Value, host: &H) -> (r: Result<String, EvalError>)
    ensures
        prints(host, old(vm)@, v, r),
{
    vm.start_print(v);
    let ghost start = vm@;
    let out = drive(vm, host);
    let ghost end = vm@;
    let ghost states = choose|states: Seq<VmView>| #[trigger] ran(host, start, states, end, out);
    match out {
        Err(e) => {
            let r = Err(map_vm_err(e));
            assert(ran(host, start, states, end, out));
            r
        },
        Ok(Value::Str(t)) => {
            assert(ran(host, start, states, end, out));
            Ok(string_of(&vm.heap.text(t)))
        },
        Ok(_) => {
            assert(ran(host, start, states, end, out));
            Err(
                EvalError::Eval(
                    ErrKind::Eval,
                    "internal: printer produced a non-string".to_owned(),
                ),
            )
        },
    }
}

/// Evaluates a compiled module and prints its value.
pub fn eval_module<H: Host>(module: Module, host: &H) -> (r: Result<String, EvalError>)
    ensures
        evaluates(host, module@, r),
{
    let mut vm = Vm::new();
    vm.start_module(module);
    let ghost start = vm@;
    let out = drive(&mut vm, host);
    let ghost end = vm@;
    let ghost states = choose|states: Seq<VmView>| #[trigger] ran(host, start, states, end, out);
    assert(ran(host, start, states, end, out));
    match out {
        Err(e) => Err(map_vm_err(e)),
        Ok(v) => print_value(&mut vm, v, host),
    }
}

/// Evaluates a source text and prints its value. Relative path literals are
/// taken from `base_dir`.
pub fn eval_str_at<H: Host>(src: &str, base_dir: &str, host: &H) -> (r: Result<String, EvalError>)
    ensures
        match compiled(parsed(src@), base_dir@) {
            Err(e) => r is Err && r->Err_0@ == compile_failure(e),
            Ok(m) => evaluates(host, m, r),
        },
{
    match compile_source(src, base_dir) {
        Err(e) => Err(map_compile_err(e)),
        Ok(m) => eval_module(m, host),
    }
}

/// Evaluates a source text and prints its value. Relative path literals are
/// taken from the current directory.
pub fn eval_str<H: Host>(src: &str, host: &H) -> (r: Result<String, EvalError>)
    ensures
        match compiled(parsed(src@), "."@) {
            Err(e) => r is Err && r->Err_0@ == compile_failure(e),
            Ok(m) => evaluates(host, m, r),
        },
{
    eval_str_at(src, ".", host)
}

// -- the embedding contract --------------------------------------------------

/// A value was produced.
pub const IXE_OK: i32 = 0;

/// An evaluation error.
pub const IXE_ERR_EVAL: i32 = 1;

/// A construct without an implementation.
pub const IXE_ERR_UNIMPLEMENTED: i32 = 2;

/// A parse error.
pub const IXE_ERR_PARSE: i32 = 3;

/// A call that makes no sense.
pub const IXE_ERR_BADCALL: i32 = 4;

/// `builtins.throw`.
pub const IXE_ERR_THROWN: i32 = 5;

/// A failed assertion.
pub const IXE_ERR_ASSERT: i32 = 6;

/// What an embedder is told: a status, and the value or the message with
/// null characters made visible.
pub fn outcome(r: Result<String, EvalError>) -> (o: (i32, String))
    ensures
        match r {
            Ok(v) => o.0 == IXE_OK && o.1@ == nul_visible(v@),
            Err(EvalError::Unimplemented(w)) => o.0 == IXE_ERR_UNIMPLEMENTED && o.1@
                == nul_visible(w@),
            Err(EvalError::Eval(ErrKind::Eval, m)) => o.0 == IXE_ERR_EVAL && o.1@ == nul_visible(
                m@,
            ),
            Err(EvalError::Eval(ErrKind::Thrown, m)) => o.0 == IXE_ERR_THROWN && o.1@
                == nul_visible(m@),
            Err(EvalError::Eval(ErrKind::Assertion, m)) => o.0 == IXE_ERR_ASSERT && o.1@
                == nul_visible(m@),
            Err(EvalError::Parse(m)) => o.0 == IXE_ERR_PARSE && o.1@ == nul_visible(m@),
        },
{
    match r {
        Ok(v) => (IXE_OK, show_nul(&v)),
        Err(EvalError::Unimplemented(w)) => (IXE_ERR_UNIMPLEMENTED, show_nul(&w)),
        Err(EvalError::Eval(kind, m)) => (
            match kind {
                ErrKind::Eval => IXE_ERR_EVAL,
                ErrKind::Thrown => IXE_ERR_THROWN,
                ErrKind::Assertion => IXE_ERR_ASSERT,
            },
            show_nul(&m),
        ),
        Err(EvalError::Parse(m)) => (IXE_ERR_PARSE, show_nul(&m)),
    }
}

/// A text with its null characters made visible.
fn show_nul(s: &String) -> (r: String)
    ensures
        r@ == nul_visible(s@),
{
    let t = text_of(s);
    let mut out: Text = Vec::new();
    let mut i: usize = 0;
    while i < t.len()
        invariant
            i <= t.len(),
            out@ == nul_visible(t@).take(i as int),
        decreases t.len() - i,
    {
        out.push(
            if t[i] == '\0' {
                '\u{2400}'
            } else {
                t[i]
            },
        );
        i += 1;
        assert(nul_visible(t@).take(i as int) =~= nul_visible(t@).take(i - 1).push(
            nul_visible(t@)[i - 1],
        ));
    }
    assert(nul_visible(t@).take(i as int) =~= nul_visible(t@));
    string_of(&out)
}

} // verus!
