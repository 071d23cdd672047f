//! The bytecode: index-based, no pointers. A `Module` is one compiled source
//! file; a `CodeUnit` is one lambda body, one deferred expression, or the
//! top-level expression.
use crate::text::Text;
use vstd::prelude::*;

verus! {

/// One instruction. Operands index the const pool, the symbol table, the
/// unit list, or the locals of the current frame, per op.
#[derive(Debug, Clone, Copy, PartialEq, Eq, Structural)]
pub enum Op {
    /// Push const pool entry.
    Const(u32),
    /// Push the value of the local at (depth, slot), forcing it.
    GetLocal { depth: u16, slot: u16 },
    /// Push the local's slot without forcing it.
    GetLocalLazy { depth: u16, slot: u16 },
    /// Push builtin `idx` as a value (unapplied).
    Builtin { idx: u16 },
    /// Push the `builtins` attrset.
    BuiltinsSet,
    /// A known global without an implementation: errors when executed.
    UnimplementedGlobal { sym: u32 },
    /// Push a thunk over unit `unit`, capturing the current environment.
    Thunk { unit: u32 },
    /// Push a closure over unit `unit`, capturing the environment.
    Closure { unit: u32 },
    /// Call: pop argument, pop callee, push result.
    Apply,
    /// Pop `n` values into a fresh environment frame, lazily.
    PushEnv { n: u16 },
    PopEnv,
    /// Pop scrutinee; if false jump forward by `target` ops.
    JumpIfFalse { target: u32 },
    /// Unconditional forward jump.
    Jump { target: u32 },
    /// Arithmetic, comparison and logic on the top stack values.
    Add,
    Sub,
    Mul,
    Div,
    Eq,
    Neq,
    Lt,
    Leq,
    Gt,
    Geq,
    Not,
    Negate,
    /// String concatenation of the top `n` values (interpolation).
    ConcatStrings { n: u16 },
    /// List of the top `n` values (in push order).
    MkList { n: u16 },
    /// List concatenation of the top two lists.
    ConcatLists,
    /// Attrset from the top 2*n stack entries: n (name, value) pairs.
    MkAttrs { n: u16, rec: bool },
    /// Attrset update.
    Update,
    /// Pop attrset, push value of attr `sym`, or throw.
    Select { sym: u32 },
    /// Select that pushes a miss marker instead of throwing.
    SelectSoft { sym: u32 },
    SelectSoftDyn,
    /// Pop default thunk, then value-or-miss: pushes the default on miss,
    /// the value otherwise.
    OrDefault,
    /// Pop set-or-miss, push bool: has attribute (miss reads as false).
    HasAttr { sym: u32 },
    /// Dynamic select: pop name string, then set.
    SelectDyn,
    HasAttrDyn,
    /// Enter a `with` scope: pop the (lazy) subject onto the env chain.
    PushWith,
    /// Resolve an identifier that static scoping could not.
    ResolveWith { sym: u32 },
    /// Call builtin by table index with the single argument on the stack.
    CallBuiltin { idx: u16 },
    /// Assert: pop condition; throw if false.
    Assert,
    Ret,
}

/// Pure literals only. A float is held as its IEEE 754 bit pattern.
pub enum Const {
    Int(i64),
    Float(u64),
    /// A float literal as written.
    Digits(Text),
    Bool(bool),
    Null,
    Str(Text),
    /// Path literal, already made absolute against the module's base
    /// directory.
    Path(Text),
}

/// The model of [`Const`].
pub enum ConstView {
    Int(i64),
    Float(u64),
    Digits(Seq<char>),
    Bool(bool),
    Null,
    Str(Seq<char>),
    Path(Seq<char>),
}

impl View for Const {
    type V = ConstView;

    open spec fn view(&self) -> ConstView {
        match self {
            Const::Int(n) => ConstView::Int(*n),
            Const::Float(x) => ConstView::Float(*x),
            Const::Digits(t) => ConstView::Digits(t@),
            Const::Bool(b) => ConstView::Bool(*b),
            Const::Null => ConstView::Null,
            Const::Str(s) => ConstView::Str(s@),
            Const::Path(p) => ConstView::Path(p@),
        }
    }
}

/// Formal parameter shape for lambda units.
pub enum Param {
    /// `x: body`; the argument binds one local slot.
    Ident(u32),
    /// `{ a, b ? d, ... } @ bind: body`: field symbols with optional default
    /// units, ellipsis flag, optional @-binding symbol.
    Formals { fields: Vec<(u32, Option<u32>)>, ellipsis: bool, bind: Option<u32> },
}

/// The model of [`Param`].
pub enum ParamView {
    Ident(u32),
    Formals { fields: Seq<(u32, Option<u32>)>, ellipsis: bool, bind: Option<u32> },
}

impl View for Param {
    type V = ParamView;

    open spec fn view(&self) -> ParamView {
        match self {
            Param::Ident(sym) => ParamView::Ident(*sym),
            Param::Formals { fields, ellipsis, bind } => ParamView::Formals {
                fields: fields@,
                ellipsis: *ellipsis,
                bind: *bind,
            },
        }
    }
}

/// One compiled body.
pub struct CodeUnit {
    pub ops: Vec<Op>,
    pub param: Option<Param>,
}

/// The model of [`CodeUnit`].
pub struct CodeUnitView {
    pub ops: Seq<Op>,
    pub param: Option<ParamView>,
}

impl View for CodeUnit {
    type V = CodeUnitView;

    open spec fn view(&self) -> CodeUnitView {
        CodeUnitView {
            ops: self.ops@,
            param: match self.param {
                Some(p) => Some(p@),
                None => None,
            },
        }
    }
}

/// A compiled source file. Symbols are module-local.
pub struct Module {
    pub consts: Vec<Const>,
    pub symbols: Vec<Text>,
    pub units: Vec<CodeUnit>,
    /// Index of the entry unit (the file's top-level expression).
    pub entry: u32,
}

/// The model of [`Module`].
#[verifier::ext_equal]
pub struct ModuleView {
    pub consts: Seq<ConstView>,
    pub symbols: Seq<Seq<char>>,
    pub units: Seq<CodeUnitView>,
    pub entry: u32,
}

impl View for Module {
    type V = ModuleView;

    open spec fn view(&self) -> ModuleView {
        ModuleView {
            consts: Seq::new(self.consts@.len(), |i: int| self.consts@[i]@),
            symbols: Seq::new(self.symbols@.len(), |i: int| self.symbols@[i]@),
            units: Seq::new(self.units@.len(), |i: int| self.units@[i]@),
            entry: self.entry,
        }
    }
}

} // verus!
