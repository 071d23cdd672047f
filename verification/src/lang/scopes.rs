//! The compiler's state: the module under construction, the static scopes,
//! and the attribute sets being assembled from their entries.
use crate::lang::builtins::{bare, bare_of, builtin_index, builtin_index_of, is_global, is_global_text};
use crate::lang::heap::{contents, find_text, position, same_text};
use crate::lang::ir::{CodeUnit, CodeUnitView, Const, ConstView, Module, ModuleView, Op, Param, ParamView};
use crate::lang::strings::is_text;
use crate::text::{append_all, append_str, copy_of, string_of, text_of, Text};
use vstd::prelude::*;

verus! {

/// Why a source text does not compile.
#[derive(Debug)]
pub enum CompileError {
    Unimplemented(String),
    UndefinedVariable(String),
    Parse(String),
}

/// The model of [`CompileError`].
pub enum CompileErrorView {
    Unimplemented(Seq<char>),
    UndefinedVariable(Seq<char>),
    Parse(Seq<char>),
}

impl View for CompileError {
    type V = CompileErrorView;

    open spec fn view(&self) -> CompileErrorView {
        match self {
            CompileError::Unimplemented(w) => CompileErrorView::Unimplemented(w@),
            CompileError::UndefinedVariable(n) => CompileErrorView::UndefinedVariable(n@),
            CompileError::Parse(m) => CompileErrorView::Parse(m@),
        }
    }
}

pub open spec fn parse_error<T>(msg: Seq<char>) -> Result<T, CompileErrorView> {
    Err(CompileErrorView::Parse(msg))
}

pub open spec fn no_support<T>(what: Seq<char>) -> Result<T, CompileErrorView> {
    Err(CompileErrorView::Unimplemented(what))
}

/// A refusal of the source text.
pub fn bad_source(msg: &str) -> (e: CompileError)
    ensures
        e@ == CompileErrorView::Parse(msg@),
{
    CompileError::Parse(msg.to_owned())
}

/// A refusal of the source text that quotes a piece of it.
pub fn bad_name(lead: &str, name: &Text, end: &str) -> (e: CompileError)
    ensures
        e@ == CompileErrorView::Parse(lead@ + name@ + end@),
{
    let mut msg = text_of(lead);
    append_all(&mut msg, name);
    append_str(&mut msg, end);
    CompileError::Parse(string_of(&msg))
}

pub fn unsupported(what: &str) -> (e: CompileError)
    ensures
        e@ == CompileErrorView::Unimplemented(what@),
{
    CompileError::Unimplemented(what.to_owned())
}

/// One static scope: binding names in slot order, or a `with`.
pub enum Scope {
    Bindings(Vec<Text>),
    With,
}

/// The model of [`Scope`].
pub enum ScopeView {
    Bindings(Seq<Seq<char>>),
    With,
}

impl View for Scope {
    type V = ScopeView;

    open spec fn view(&self) -> ScopeView {
        match self {
            Scope::Bindings(names) => ScopeView::Bindings(contents(names@)),
            Scope::With => ScopeView::With,
        }
    }
}

pub open spec fn scopes_view(v: Seq<Scope>) -> Seq<ScopeView> {
    Seq::new(v.len(), |i: int| v[i]@)
}

/// What one binding name is bound to: an expression, or a set under
/// construction.
#[derive(Debug, Clone, Copy, PartialEq, Eq, Structural)]
pub enum Bind {
    Leaf(usize),
    Node(usize),
}

/// An attribute set being assembled from one or more sources.
pub struct SetBuild {
    /// From the first literal to occupy this name.
    pub rec: bool,
    pub names: Vec<Text>,
    pub binds: Vec<Bind>,
    /// Names known only at run time, and their values.
    pub dynamic: Vec<(usize, usize)>,
    pub inherits: Vec<usize>,
}

/// The model of [`SetBuild`].
#[verifier::ext_equal]
pub struct SetView {
    pub rec: bool,
    pub names: Seq<Seq<char>>,
    pub binds: Seq<Bind>,
    pub dynamic: Seq<(usize, usize)>,
    pub inherits: Seq<usize>,
}

impl View for SetBuild {
    type V = SetView;

    open spec fn view(&self) -> SetView {
        SetView {
            rec: self.rec,
            names: contents(self.names@),
            binds: self.binds@,
            dynamic: self.dynamic@,
            inherits: self.inherits@,
        }
    }
}

/// A set without entries.
pub open spec fn empty_set(rec: bool) -> SetView {
    SetView {
        rec,
        names: Seq::empty(),
        binds: Seq::empty(),
        dynamic: Seq::empty(),
        inherits: Seq::empty(),
    }
}

/// A compiler at work on one source text.
pub struct Compiler {
    pub consts: Vec<Const>,
    pub symbols: Vec<Text>,
    pub units: Vec<CodeUnit>,
    pub scopes: Vec<Scope>,
    pub sets: Vec<SetBuild>,
    /// Base directory for relative path literals.
    pub base: Text,
}

/// The model of [`Compiler`].
#[verifier::ext_equal]
pub struct CompilerView {
    pub consts: Seq<ConstView>,
    pub symbols: Seq<Seq<char>>,
    pub units: Seq<CodeUnitView>,
    pub scopes: Seq<ScopeView>,
    pub sets: Seq<SetView>,
    pub base: Seq<char>,
}

pub open spec fn param_view(p: Option<Param>) -> Option<ParamView> {
    match p {
        Some(p) => Some(p@),
        None => None,
    }
}

impl View for Compiler {
    type V = CompilerView;

    open spec fn view(&self) -> CompilerView {
        CompilerView {
            consts: Seq::new(self.consts@.len(), |i: int| self.consts@[i]@),
            symbols: contents(self.symbols@),
            units: Seq::new(self.units@.len(), |i: int| self.units@[i]@),
            scopes: scopes_view(self.scopes@),
            sets: Seq::new(self.sets@.len(), |i: int| self.sets@[i]@),
            base: self.base@,
        }
    }
}

/// What a compilation step reports: the compiler and the instructions after
/// it, or an error.
pub type Emitted = Result<(CompilerView, Seq<Op>), CompileErrorView>;

/// The outcome of a step that appends instructions, as its model.
pub open spec fn emitted(r: Result<(), CompileError>, c: CompilerView, ops: Seq<Op>) -> Emitted {
    match r {
        Ok(_) => Ok((c, ops)),
        Err(e) => Err(e@),
    }
}

/// The outcome of a step with a plain result, as its model.
pub open spec fn yielded<T>(r: Result<T, CompileError>, c: CompilerView) -> Result<
    (CompilerView, T),
    CompileErrorView,
> {
    match r {
        Ok(x) => Ok((c, x)),
        Err(e) => Err(e@),
    }
}

/// The first position from `i` on of a constant.
pub open spec fn const_position(consts: Seq<ConstView>, c: ConstView, i: int) -> int
    decreases consts.len() - i,
{
    if i >= consts.len() || consts[i] == c {
        i
    } else {
        const_position(consts, c, i + 1)
    }
}

/// Where a variable is found among the innermost `n` scopes left to search.
pub enum Found {
    Local { depth: u16, slot: u16 },
    /// Not among the bindings; whether a `with` was crossed.
    Nowhere(bool),
}

pub open spec fn found(
    scopes: Seq<ScopeView>,
    name: Seq<char>,
    n: int,
    depth: u16,
    crossed: bool,
) -> Found
    decreases n,
{
    if n <= 0 {
        Found::Nowhere(crossed)
    } else {
        match scopes[n - 1] {
            ScopeView::Bindings(names) => {
                let at = position(names, name, 0);
                if at < names.len() {
                    Found::Local { depth, slot: at as u16 }
                } else {
                    found(scopes, name, n - 1, depth.wrapping_add(1), crossed)
                }
            },
            ScopeView::With => found(scopes, name, n - 1, depth.wrapping_add(1), true),
        }
    }
}

impl CompilerView {
    pub open spec fn push_unit(self, ops: Seq<Op>, param: Option<ParamView>) -> (CompilerView, u32) {
        (
            CompilerView { units: self.units.push(CodeUnitView { ops, param }), ..self },
            self.units.len() as u32,
        )
    }

    /// The index of a symbol, which is new or known.
    pub open spec fn intern(self, name: Seq<char>) -> (CompilerView, u32) {
        let at = position(self.symbols, name, 0);
        if at < self.symbols.len() {
            (self, at as u32)
        } else {
            (
                CompilerView { symbols: self.symbols.push(name), ..self },
                self.symbols.len() as u32,
            )
        }
    }

    /// The index of a constant, which is new or known.
    pub open spec fn konst(self, c: ConstView) -> (CompilerView, u32) {
        let at = const_position(self.consts, c, 0);
        if at < self.consts.len() {
            (self, at as u32)
        } else {
            (CompilerView { consts: self.consts.push(c), ..self }, self.consts.len() as u32)
        }
    }

    pub open spec fn emit_const(self, c: ConstView, ops: Seq<Op>) -> Emitted {
        let (c, idx) = self.konst(c);
        Ok((c, ops.push(Op::Const(idx))))
    }

    pub open spec fn push_scope(self, s: ScopeView) -> CompilerView {
        CompilerView { scopes: self.scopes.push(s), ..self }
    }

    pub open spec fn pop_scope(self) -> CompilerView {
        CompilerView {
            scopes: if self.scopes.len() > 0 {
                self.scopes.drop_last()
            } else {
                self.scopes
            },
            ..self
        }
    }

    pub open spec fn set(self, b: usize) -> SetView {
        if b < self.sets.len() {
            self.sets[b as int]
        } else {
            empty_set(false)
        }
    }

    pub open spec fn set_put(self, b: usize, s: SetView) -> CompilerView {
        if b < self.sets.len() {
            CompilerView { sets: self.sets.update(b as int, s), ..self }
        } else {
            self
        }
    }

    pub open spec fn new_set(self, rec: bool) -> (CompilerView, usize) {
        (
            CompilerView { sets: self.sets.push(empty_set(rec)), ..self },
            self.sets.len() as usize,
        )
    }

    /// A variable: a local of the innermost scope that binds it, then the
    /// builtin scope, then, where a `with` is open, a run-time search.
    pub open spec fn compile_var(self, name: Seq<char>, ops: Seq<Op>) -> Emitted {
        match found(self.scopes, name, self.scopes.len() as int, 0, false) {
            Found::Local { depth, slot } => Ok((self, ops.push(Op::GetLocal { depth, slot }))),
            Found::Nowhere(crossed) => if name == "true"@ {
                self.emit_const(ConstView::Bool(true), ops)
            } else if name == "false"@ {
                self.emit_const(ConstView::Bool(false), ops)
            } else if name == "null"@ {
                self.emit_const(ConstView::Null, ops)
            } else if name == "builtins"@ {
                Ok((self, ops.push(Op::BuiltinsSet)))
            } else if is_global(name) {
                match builtin_index(bare(name)) {
                    Some(idx) => Ok((self, ops.push(Op::Builtin { idx }))),
                    None => {
                        let (c, sym) = self.intern(name);
                        Ok((c, ops.push(Op::UnimplementedGlobal { sym })))
                    },
                }
            } else if crossed {
                let (c, sym) = self.intern(name);
                Ok((c, ops.push(Op::ResolveWith { sym })))
            } else {
                Err(CompileErrorView::UndefinedVariable(name))
            },
        }
    }

    /// The compiled module with an entry unit.
    pub open spec fn module(self, entry: u32) -> ModuleView {
        ModuleView {
            consts: self.consts,
            symbols: self.symbols,
            units: self.units,
            entry,
        }
    }
}

fn same_const(a: &Const, b: &Const) -> (r: bool)
    ensures
        r == (a@ == b@),
{
    match (a, b) {
        (Const::Int(x), Const::Int(y)) => *x == *y,
        (Const::Float(x), Const::Float(y)) => *x == *y,
        (Const::Digits(x), Const::Digits(y)) => same_text(x, y),
        (Const::Bool(x), Const::Bool(y)) => *x == *y,
        (Const::Null, Const::Null) => true,
        (Const::Str(x), Const::Str(y)) => same_text(x, y),
        (Const::Path(x), Const::Path(y)) => same_text(x, y),
        _ => false,
    }
}

impl Compiler {
    pub fn push_unit(&mut self, ops: Vec<Op>, param: Option<Param>) -> (r: u32)
        ensures
            old(self)@.push_unit(ops@, param_view(param)) == (final(self)@, r),
    {
        let id = self.units.len();
        let ghost unit = CodeUnitView { ops: ops@, param: param_view(param) };
        self.units.push(CodeUnit { ops, param });
        assert(self@.units =~= old(self)@.units.push(unit));
        id as u32
    }

    pub fn intern(&mut self, name: &Text) -> (r: u32)
        ensures
            old(self)@.intern(name@) == (final(self)@, r),
    {
        let at = find_text(&self.symbols, name);
        if at < self.symbols.len() {
            return at as u32;
        }
        self.symbols.push(copy_of(name));
        assert(self@.symbols =~= old(self)@.symbols.push(name@));
        at as u32
    }

    pub fn konst(&mut self, c: Const) -> (r: u32)
        ensures
            old(self)@.konst(c@) == (final(self)@, r),
    {
        let mut i: usize = 0;
        while i < self.consts.len() && !same_const(&self.consts[i], &c)
            invariant
                i <= self.consts.len(),
                self@ == old(self)@,
                const_position(self@.consts, c@, i as int) == const_position(self@.consts, c@, 0),
            decreases self.consts.len() - i,
        {
            i += 1;
        }
        if i < self.consts.len() {
            return i as u32;
        }
        let ghost view = c@;
        self.consts.push(c);
        assert(self@.consts =~= old(self)@.consts.push(view));
        i as u32
    }

    pub fn emit_const(&mut self, c: Const, ops: &mut Vec<Op>)
        ensures
            old(self)@.emit_const(c@, old(ops)@) == Ok::<
                (CompilerView, Seq<Op>),
                CompileErrorView,
            >((final(self)@, final(ops)@)),
    {
        let idx = self.konst(c);
        ops.push(Op::Const(idx));
    }

    pub fn push_scope(&mut self, s: Scope)
        ensures
            final(self)@ == old(self)@.push_scope(s@),
    {
        let ghost view = s@;
        self.scopes.push(s);
        assert(self@.scopes =~= old(self)@.scopes.push(view));
    }

    pub fn pop_scope(&mut self)
        ensures
            final(self)@ == old(self)@.pop_scope(),
    {
        let _ = self.scopes.pop();
        assert(self@.scopes =~= old(self)@.pop_scope().scopes);
    }

    pub fn new_set(&mut self, rec: bool) -> (r: usize)
        ensures
            old(self)@.new_set(rec) == (final(self)@, r),
    {
        let id = self.sets.len();
        self.sets.push(
            SetBuild {
                rec,
                names: Vec::new(),
                binds: Vec::new(),
                dynamic: Vec::new(),
                inherits: Vec::new(),
            },
        );
        assert(self.sets@.last()@ =~= empty_set(rec));
        assert(self@.sets =~= old(self)@.sets.push(empty_set(rec)));
        id
    }

    fn find(&self, name: &Text) -> (r: Found)
        ensures
            r == found(self@.scopes, name@, self@.scopes.len() as int, 0, false),
    {
        let mut n: usize = self.scopes.len();
        let mut depth: u16 = 0;
        let mut crossed: bool = false;
        while n > 0
            invariant
                n <= self.scopes.len(),
                found(self@.scopes, name@, n as int, depth, crossed) == found(
                    self@.scopes,
                    name@,
                    self@.scopes.len() as int,
                    0,
                    false,
                ),
            decreases n,
        {
            assert(self@.scopes[n - 1] == self.scopes@[n - 1]@);
            match &self.scopes[n - 1] {
                Scope::Bindings(names) => {
                    let at = find_text(names, name);
                    if at < names.len() {
                        return Found::Local { depth, slot: at as u16 };
                    }
                },
                Scope::With => {
                    crossed = true;
                },
            }
            depth = depth.wrapping_add(1);
            n -= 1;
        }
        Found::Nowhere(crossed)
    }

    pub fn compile_var(&mut self, name: &Text, ops: &mut Vec<Op>) -> (r: Result<(), CompileError>)
        ensures
            final(self)@.scopes == old(self)@.scopes,
            old(self)@.compile_var(name@, old(ops)@) == emitted(r, final(self)@, final(ops)@),
    {
        let crossed = match self.find(name) {
            Found::Local { depth, slot } => {
                ops.push(Op::GetLocal { depth, slot });
                return Ok(());
            },
            Found::Nowhere(crossed) => crossed,
        };
        if is_text(name, "true") {
            self.emit_const(Const::Bool(true), ops);
        } else if is_text(name, "false") {
            self.emit_const(Const::Bool(false), ops);
        } else if is_text(name, "null") {
            self.emit_const(Const::Null, ops);
        } else if is_text(name, "builtins") {
            ops.push(Op::BuiltinsSet);
        } else if is_global_text(name) {
            match builtin_index_of(&bare_of(name)) {
                Some(idx) => ops.push(Op::Builtin { idx }),
                None => {
                    let sym = self.intern(name);
                    ops.push(Op::UnimplementedGlobal { sym });
                },
            }
        } else if crossed {
            let sym = self.intern(name);
            ops.push(Op::ResolveWith { sym });
        } else {
            return Err(CompileError::UndefinedVariable(string_of(name)));
        }
        Ok(())
    }

    /// The module with an entry unit.
    pub fn finish(self, entry: u32) -> (m: Module)
        ensures
            m@ == self@.module(entry),
    {
        let Compiler { consts, symbols, units, .. } = self;
        let m = Module { consts, symbols, units, entry };
        assert(m@.symbols =~= self@.module(entry).symbols);
        m
    }
}

} // verus!
