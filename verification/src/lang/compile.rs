//! Source text to bytecode. Scope resolution happens here: every identifier
//! compiles to a local access, a builtin reference, a constant, or, when a
//! `with` is in scope, a run-time search.
//!
//! `rec` sets, `let` and `inherit` all come down to one shape: a frame of
//! mutually visible thunk slots. The machine never sees recursion as a
//! special case.
use crate::lang::entries::{
    deep, has_rec, static_attr, static_attr_of, static_names, static_names_of, texts_result,
    too_deep, NESTING,
};
use crate::lang::heap::contents;
use crate::lang::ir::{CodeUnitView, Const, ConstView, Module, ModuleView, Op, Param, ParamView};
use crate::lang::scopes::{
    bad_source, emitted, no_support, parse_error, unsupported, yielded, Bind, CompileError,
    CompileErrorView, Compiler, CompilerView, Emitted, Scope, ScopeView, SetBuild,
};
use crate::lang::strings::{digit, digits_value, is_digit, is_text, normal_path, normal_path_of};
use crate::lang::syntax::{
    literal_parts, no_tree, opt_view, parse_source, parsed, string_parts, Class, walk_view, Event,
    EventView, Kind, Tree, TreeView,
};
use crate::text::{append_all, append_str, copy_of, string_of, text_of, Text};
use vstd::prelude::*;

verus! {

// -- literals ----------------------------------------------------------------

/// The integer a decimal literal stands for, or what is wrong with it.
pub open spec fn integer_of(t: Seq<char>) -> Result<i64, Seq<char>> {
    if t.len() == 0 {
        Err("cannot parse integer from empty string"@)
    } else if exists|i: int| 0 <= i < t.len() && !is_digit(#[trigger] t[i]) {
        Err("invalid digit found in string"@)
    } else if digits_value(t) > i64::MAX {
        Err("number too large to fit in target type"@)
    } else {
        Ok(digits_value(t) as i64)
    }
}

fn read_integer(t: &Text) -> (r: Result<i64, Text>)
    ensures
        match r {
            Ok(n) => integer_of(t@) == Ok::<i64, Seq<char>>(n),
            Err(m) => integer_of(t@) == Err::<i64, Seq<char>>(m@),
        },
{
    if t.len() == 0 {
        return Err(text_of("cannot parse integer from empty string"));
    }
    let mut v: u128 = 0;
    let mut over: bool = false;
    let mut i: usize = 0;
    while i < t.len()
        invariant
            i <= t.len(),
            t.len() > 0,
            forall|j: int| 0 <= j < i ==> is_digit(#[trigger] t@[j]),
            over ==> digits_value(t@.take(i as int)) > i64::MAX,
            !over ==> v == digits_value(t@.take(i as int)) && v <= i64::MAX,
        decreases t.len() - i,
    {
        let c = t[i];
        if !digit(c) {
            assert(!is_digit(t@[i as int]));
            return Err(text_of("invalid digit found in string"));
        }
        let d = c as u32 as u128 - 48;
        proof {
            assert(t@.take(i + 1).drop_last() =~= t@.take(i as int));
            assert(t@.take(i + 1).last() == c);
        }
        if !over {
            v = v * 10 + d;
            if v > i64::MAX as u128 {
                over = true;
            }
        }
        i += 1;
    }
    assert(t@.take(i as int) =~= t@);
    if over {
        return Err(text_of("number too large to fit in target type"));
    }
    Ok(v as i64)
}

/// The operator an operator token stands for, where it has one instruction.
pub open spec fn strict_op(k: Kind) -> Option<Op> {
    match k {
        Kind::Add => Some(Op::Add),
        Kind::Sub => Some(Op::Sub),
        Kind::Mul => Some(Op::Mul),
        Kind::Div => Some(Op::Div),
        Kind::Equal => Some(Op::Eq),
        Kind::NotEqual => Some(Op::Neq),
        Kind::Less => Some(Op::Lt),
        Kind::LessOrEq => Some(Op::Leq),
        Kind::More => Some(Op::Gt),
        Kind::MoreOrEq => Some(Op::Geq),
        Kind::Concat => Some(Op::ConcatLists),
        Kind::Update => Some(Op::Update),
        _ => None,
    }
}

fn strict_op_of(k: Kind) -> (r: Option<Op>)
    ensures
        r == strict_op(k),
{
    match k {
        Kind::Add => Some(Op::Add),
        Kind::Sub => Some(Op::Sub),
        Kind::Mul => Some(Op::Mul),
        Kind::Div => Some(Op::Div),
        Kind::Equal => Some(Op::Eq),
        Kind::NotEqual => Some(Op::Neq),
        Kind::Less => Some(Op::Lt),
        Kind::LessOrEq => Some(Op::Leq),
        Kind::More => Some(Op::Gt),
        Kind::MoreOrEq => Some(Op::Geq),
        Kind::Concat => Some(Op::ConcatLists),
        Kind::Update => Some(Op::Update),
        _ => None,
    }
}

/// What an operator without an instruction is called.
pub open spec fn operator_text(k: Kind) -> Seq<char> {
    if k == Kind::PipeRight {
        "operator PipeRight"@
    } else {
        "operator PipeLeft"@
    }
}

/// Instructions with the jump at `at` made to land at `dest`.
pub open spec fn patched(ops: Seq<Op>, at: int, dest: int) -> Seq<Op> {
    let target = (dest - at - 1) as u32;
    if at < dest && at < ops.len() {
        match ops[at] {
            Op::JumpIfFalse { .. } => ops.update(at, Op::JumpIfFalse { target }),
            Op::Jump { .. } => ops.update(at, Op::Jump { target }),
            _ => ops,
        }
    } else {
        ops
    }
}

fn patch(ops: &mut Vec<Op>, at: usize, dest: usize)
    ensures
        final(ops)@ == patched(old(ops)@, at as int, dest as int),
{
    if at < dest && at < ops.len() {
        let target = (dest - at - 1) as u32;
        match ops[at] {
            Op::JumpIfFalse { .. } => ops.set(at, Op::JumpIfFalse { target }),
            Op::Jump { .. } => ops.set(at, Op::Jump { target }),
            _ => {},
        }
    }
}

/// Local accesses from one frame further in.
pub open spec fn deeper(ops: Seq<Op>) -> Seq<Op> {
    Seq::new(
        ops.len(),
        |i: int|
            match ops[i] {
                Op::GetLocal { depth, slot } => Op::GetLocal {
                    depth: depth.wrapping_add(1),
                    slot,
                },
                op => op,
            },
    )
}

fn deeper_of(ops: &Vec<Op>) -> (r: Vec<Op>)
    ensures
        r@ == deeper(ops@),
{
    let mut out: Vec<Op> = Vec::new();
    let mut i: usize = 0;
    while i < ops.len()
        invariant
            i <= ops.len(),
            out@ == deeper(ops@).take(i as int),
        decreases ops.len() - i,
    {
        out.push(
            match ops[i] {
                Op::GetLocal { depth, slot } => Op::GetLocal {
                    depth: depth.wrapping_add(1),
                    slot,
                },
                op => op,
            },
        );
        i += 1;
        assert(deeper(ops@).take(i as int) =~= deeper(ops@).take(i - 1).push(
            deeper(ops@)[i - 1],
        ));
    }
    assert(deeper(ops@).take(i as int) =~= deeper(ops@));
    out
}

/// Whether a text begins with another.
pub open spec fn starts(t: Seq<char>, p: Seq<char>) -> bool {
    t.len() >= p.len() && t.take(p.len() as int) == p
}

fn starts_with(t: &Text, prefix: &str) -> (r: bool)
    ensures
        r == starts(t@, prefix@),
{
    let p = text_of(prefix);
    if t.len() < p.len() {
        return false;
    }
    let mut i: usize = 0;
    while i < p.len()
        invariant
            i <= p.len(),
            p@ == prefix@,
            p.len() <= t.len(),
            forall|j: int| 0 <= j < i ==> t@[j] == p@[j],
        decreases p.len() - i,
    {
        if t[i] != p[i] {
            assert(t@.take(p@.len() as int)[i as int] != p@[i as int]);
            return false;
        }
        i += 1;
    }
    assert(t@.take(p@.len() as int) =~= p@);
    true
}

// -- the model ---------------------------------------------------------------

/// What a value-producing step reports.
pub type OneOp = Result<(CompilerView, Op), CompileErrorView>;

/// The names that a set binds: inherited ones first.
pub open spec fn inherited(t: TreeView, inherits: Seq<usize>, i: int, out: Seq<Seq<char>>) -> Result<
    Seq<Seq<char>>,
    CompileErrorView,
>
    decreases inherits.len() - i,
{
    if i >= inherits.len() {
        Ok(out)
    } else {
        match static_names(t, t.children(inherits[i], Class::Attrs), 0, out) {
            Err(e) => Err(e),
            Ok(out) => inherited(t, inherits, i + 1, out),
        }
    }
}

/// The names of the fields of a pattern.
pub open spec fn field_names(t: TreeView, entries: Seq<usize>, i: int, out: Seq<Seq<char>>) -> Result<
    Seq<Seq<char>>,
    CompileErrorView,
>
    decreases entries.len() - i,
{
    if i >= entries.len() {
        Ok(out)
    } else {
        match t.name_under(entries[i]) {
            None => parse_error("pattern field without name"@),
            Some(n) => field_names(t, entries, i + 1, out.push(n)),
        }
    }
}

impl CompilerView {
    pub open spec fn compile_literal(self, t: TreeView, e: usize, ops: Seq<Op>) -> Emitted {
        match t.nth(e, Class::Only(Kind::FloatToken), 0) {
            Some(k) => self.emit_const(ConstView::Digits(t.own_text(k)), ops),
            None => match t.nth(e, Class::Only(Kind::IntegerToken), 0) {
                Some(k) => match integer_of(t.own_text(k)) {
                    Ok(n) => self.emit_const(ConstView::Int(n), ops),
                    Err(m) => parse_error("bad integer literal: "@ + m),
                },
                None => match t.nth(e, Class::Only(Kind::UriToken), 0) {
                    Some(k) => self.emit_const(ConstView::Str(t.own_text(k)), ops),
                    None => no_support("literal"@),
                },
            },
        }
    }

    pub open spec fn compile_path(self, t: TreeView, e: usize, ops: Seq<Op>) -> Emitted {
        let text = t.text(e);
        if t.nth(e, Class::Only(Kind::Interpol), 0) is Some {
            no_support("path interpolation"@)
        } else if starts(text, "<"@) {
            no_support("search path lookup"@)
        } else if starts(text, "/"@) {
            self.emit_const(ConstView::Path(normal_path(text)), ops)
        } else if starts(text, "~/"@) {
            no_support("home path "@ + text)
        } else {
            self.emit_const(ConstView::Path(normal_path(self.base + "/"@ + text)), ops)
        }
    }

    /// The parts of a string from position `i` on, with `h` interpolations
    /// before them.
    pub open spec fn string_from(
        self,
        t: TreeView,
        s: usize,
        i: int,
        h: int,
        ops: Seq<Op>,
        n: u16,
        fuel: nat,
    ) -> Result<(CompilerView, Seq<Op>, u16), CompileErrorView>
        decreases fuel, 1int, string_parts(t.text(s)).len() - i,
    {
        let parts = string_parts(t.text(s));
        if i >= parts.len() {
            Ok((self, ops, n))
        } else {
            match parts[i] {
                Some(text) => {
                    let (c, idx) = self.konst(ConstView::Str(text));
                    c.string_from(
                        t,
                        s,
                        i + 1,
                        h,
                        ops.push(Op::Const(idx)),
                        n.wrapping_add(1),
                        fuel,
                    )
                },
                None => match t.nth(s, Class::Only(Kind::Interpol), h) {
                    None => parse_error("empty interpolation"@),
                    Some(ip) => match t.nth(ip, Class::Exprs, 0) {
                        None => parse_error("empty interpolation"@),
                        Some(e) => match self.compile(t, e, ops, fuel) {
                            Err(e) => Err(e),
                            Ok((c, ops)) => c.string_from(
                                t,
                                s,
                                i + 1,
                                h + 1,
                                ops,
                                n.wrapping_add(1),
                                fuel,
                            ),
                        },
                    },
                },
            }
        }
    }

    /// A string. Interpolation coerces even where there is a single part.
    pub open spec fn compile_str(self, t: TreeView, s: usize, ops: Seq<Op>, fuel: nat) -> Emitted
        decreases fuel, 2int, 0int,
    {
        let parts = string_parts(t.text(s));
        match self.string_from(t, s, 0, 0, ops, 0, fuel) {
            Err(e) => Err(e),
            Ok((c, ops, n)) => if n == 0 {
                c.emit_const(ConstView::Str(Seq::empty()), ops)
            } else if n > 1 || !(parts.len() > 0 && parts[0] is Some) {
                Ok((c, ops.push(Op::ConcatStrings { n })))
            } else {
                Ok((c, ops))
            },
        }
    }

    /// An expression as a fresh thunk unit capturing the current scope.
    pub open spec fn compile_thunk(self, t: TreeView, e: usize, fuel: nat) -> OneOp
        decreases fuel, 1int, 0int,
    {
        match self.compile(t, e, Seq::empty(), fuel) {
            Err(x) => Err(x),
            Ok((c, ops)) => {
                let (c, unit) = c.push_unit(ops.push(Op::Ret), None);
                Ok((c, Op::Thunk { unit }))
            },
        }
    }

    /// An expression in a lazy position. A bare variable is passed as its
    /// own cell rather than as a fresh thunk over it, so that two references
    /// to one binding are one value.
    pub open spec fn compile_lazy(self, t: TreeView, e: usize, fuel: nat) -> OneOp
        decreases fuel, 2int, 0int,
    {
        if t.kind(e) == Kind::Ident && t.name(e) is Some {
            match self.compile_var(t.name(e)->0, Seq::empty()) {
                Ok((c, probe)) => match probe[0] {
                    Op::GetLocal { depth, slot } => if probe.len() == 1 {
                        Ok((c, Op::GetLocalLazy { depth, slot }))
                    } else {
                        c.compile_thunk(t, e, fuel)
                    },
                    _ => c.compile_thunk(t, e, fuel),
                },
                Err(x) => Err(x),
            }
        } else {
            self.compile_thunk(t, e, fuel)
        }
    }

    pub open spec fn compile_unary(self, t: TreeView, e: usize, ops: Seq<Op>, fuel: nat) -> Emitted
        decreases fuel, 1int, 0int,
    {
        match t.nth(e, Class::Exprs, 0) {
            None => parse_error("unary op without operand"@),
            Some(x) => match self.compile(t, x, ops, fuel) {
                Err(x) => Err(x),
                Ok((c, ops)) => match t.nth(e, Class::Unary, 0) {
                    None => parse_error("unknown unary operator"@),
                    Some(k) => Ok(
                        (
                            c,
                            ops.push(
                                if t.kind(k) == Kind::Invert {
                                    Op::Not
                                } else {
                                    Op::Negate
                                },
                            ),
                        ),
                    ),
                },
            },
        }
    }

    /// A short-circuiting operator: the right operand runs where the left
    /// one is true, and otherwise the result is `miss`.
    pub open spec fn compile_short(
        self,
        t: TreeView,
        lhs: usize,
        rhs: usize,
        invert: bool,
        miss: bool,
        ops: Seq<Op>,
        fuel: nat,
    ) -> Emitted
        decreases fuel, 1int, 0int,
    {
        match self.compile(t, lhs, ops, fuel) {
            Err(x) => Err(x),
            Ok((c, ops)) => {
                let ops = if invert {
                    ops.push(Op::Not)
                } else {
                    ops
                };
                let at = ops.len();
                match c.compile(t, rhs, ops.push(Op::JumpIfFalse { target: 0 }), fuel) {
                    Err(x) => Err(x),
                    Ok((c, ops)) => {
                        let end = ops.len();
                        let (c, idx) = c.konst(ConstView::Bool(miss));
                        let ops = ops.push(Op::Jump { target: 1 }).push(Op::Const(idx));
                        Ok((c, patched(ops, at as int, end as int + 1)))
                    },
                }
            },
        }
    }

    pub open spec fn compile_strict(
        self,
        t: TreeView,
        lhs: usize,
        rhs: usize,
        k: Kind,
        ops: Seq<Op>,
        fuel: nat,
    ) -> Emitted
        decreases fuel, 1int, 0int,
    {
        match self.compile(t, lhs, ops, fuel) {
            Err(x) => Err(x),
            Ok((c, ops)) => match c.compile(t, rhs, ops, fuel) {
                Err(x) => Err(x),
                Ok((c, ops)) => match strict_op(k) {
                    Some(op) => Ok((c, ops.push(op))),
                    None => no_support(operator_text(k)),
                },
            },
        }
    }

    pub open spec fn compile_binop(self, t: TreeView, e: usize, ops: Seq<Op>, fuel: nat) -> Emitted
        decreases fuel, 2int, 0int,
    {
        match t.nth(e, Class::Binary, 0) {
            None => parse_error("unknown binary operator"@),
            Some(k) => match (t.nth(e, Class::Exprs, 0), t.nth(e, Class::Exprs, 1)) {
                (Some(lhs), Some(rhs)) => match t.kind(k) {
                    Kind::And => self.compile_short(t, lhs, rhs, false, false, ops, fuel),
                    Kind::Or => self.compile_short(t, lhs, rhs, true, true, ops, fuel),
                    Kind::Implication => self.compile_short(t, lhs, rhs, false, true, ops, fuel),
                    kind => self.compile_strict(t, lhs, rhs, kind, ops, fuel),
                },
                _ => parse_error("binary op missing operand"@),
            },
        }
    }

    pub open spec fn compile_if(self, t: TreeView, e: usize, ops: Seq<Op>, fuel: nat) -> Emitted
        decreases fuel, 1int, 0int,
    {
        match t.nth(e, Class::Exprs, 0) {
            None => parse_error("if without condition"@),
            Some(cond) => match t.nth(e, Class::Exprs, 1) {
                None => parse_error("if without then"@),
                Some(yes) => match t.nth(e, Class::Exprs, 2) {
                    None => parse_error("if without else"@),
                    Some(no) => match self.compile(t, cond, ops, fuel) {
                        Err(x) => Err(x),
                        Ok((c, ops)) => {
                            let jf = ops.len();
                            match c.compile(t, yes, ops.push(Op::JumpIfFalse { target: 0 }), fuel) {
                                Err(x) => Err(x),
                                Ok((c, ops)) => {
                                    let j = ops.len();
                                    match c.compile(
                                        t,
                                        no,
                                        ops.push(Op::Jump { target: 0 }),
                                        fuel,
                                    ) {
                                        Err(x) => Err(x),
                                        Ok((c, ops)) => Ok(
                                            (
                                                c,
                                                patched(
                                                    patched(ops, jf as int, j as int + 1),
                                                    j as int,
                                                    ops.len() as int,
                                                ),
                                            ),
                                        ),
                                    }
                                },
                            }
                        },
                    },
                },
            },
        }
    }

    pub open spec fn list_from(
        self,
        t: TreeView,
        items: Seq<usize>,
        i: int,
        ops: Seq<Op>,
        n: u16,
        fuel: nat,
    ) -> Emitted
        decreases fuel, 3int, items.len() - i,
    {
        if i >= items.len() {
            Ok((self, ops.push(Op::MkList { n })))
        } else {
            match self.compile_lazy(t, items[i], fuel) {
                Err(x) => Err(x),
                Ok((c, op)) => c.list_from(
                    t,
                    items,
                    i + 1,
                    ops.push(op),
                    n.wrapping_add(1),
                    fuel,
                ),
            }
        }
    }

    pub open spec fn compile_apply(self, t: TreeView, e: usize, ops: Seq<Op>, fuel: nat) -> Emitted
        decreases fuel, 3int, 0int,
    {
        match t.nth(e, Class::Exprs, 0) {
            None => parse_error("apply without function"@),
            Some(f) => match t.nth(e, Class::Exprs, 1) {
                None => parse_error("apply without argument"@),
                Some(arg) => if t.kind(f) == Kind::Literal && t.kind(arg) == Kind::Ident && t.end(
                    f,
                ) == arg && starts(t.text(arg), "_"@) {
                    no_support("underscore digit separators in numeric literals"@)
                } else {
                    match self.compile(t, f, ops, fuel) {
                        Err(x) => Err(x),
                        Ok((c, ops)) => match c.compile_lazy(t, arg, fuel) {
                            Err(x) => Err(x),
                            Ok((c, op)) => Ok((c, ops.push(op).push(Op::Apply))),
                        },
                    }
                },
            },
        }
    }

    /// A name known only at run time.
    pub open spec fn attr_dynamic(self, t: TreeView, attr: usize, ops: Seq<Op>, fuel: nat) -> Emitted
        decreases fuel, 3int, 0int,
    {
        match t.kind(attr) {
            Kind::Dynamic => match t.nth(attr, Class::Exprs, 0) {
                None => parse_error("empty dynamic attr"@),
                Some(e) => self.compile(t, e, ops, fuel),
            },
            Kind::Str => self.compile_str(t, attr, ops, fuel),
            _ => parse_error("internal: static attr"@),
        }
    }

    /// The steps of a selection from position `i` on. With a default, a miss
    /// at any depth is left as a marker; without one it throws.
    pub open spec fn select_from(
        self,
        t: TreeView,
        attrs: Seq<usize>,
        i: int,
        soft: bool,
        ops: Seq<Op>,
        fuel: nat,
    ) -> Emitted
        decreases fuel, 4int, attrs.len() - i,
    {
        if i >= attrs.len() {
            Ok((self, ops))
        } else {
            match static_attr(t, attrs[i]) {
                Ok(name) => {
                    let (c, sym) = self.intern(name);
                    c.select_from(
                        t,
                        attrs,
                        i + 1,
                        soft,
                        ops.push(
                            if soft {
                                Op::SelectSoft { sym }
                            } else {
                                Op::Select { sym }
                            },
                        ),
                        fuel,
                    )
                },
                Err(_) => match self.attr_dynamic(t, attrs[i], ops, fuel) {
                    Err(x) => Err(x),
                    Ok((c, ops)) => c.select_from(
                        t,
                        attrs,
                        i + 1,
                        soft,
                        ops.push(
                            if soft {
                                Op::SelectSoftDyn
                            } else {
                                Op::SelectDyn
                            },
                        ),
                        fuel,
                    ),
                },
            }
        }
    }

    pub open spec fn compile_select(self, t: TreeView, e: usize, ops: Seq<Op>, fuel: nat) -> Emitted
        decreases fuel, 5int, 0int,
    {
        match t.nth(e, Class::Exprs, 0) {
            None => parse_error("select without base"@),
            Some(base) => match t.nth(e, Class::Only(Kind::Attrpath), 0) {
                None => parse_error("select without attrpath"@),
                Some(path) => match self.compile(t, base, ops, fuel) {
                    Err(x) => Err(x),
                    Ok((c, ops)) => {
                        let default = t.nth(e, Class::Exprs, 1);
                        match c.select_from(
                            t,
                            t.children(path, Class::Attrs),
                            0,
                            default is Some,
                            ops,
                            fuel,
                        ) {
                            Err(x) => Err(x),
                            Ok((c, ops)) => match default {
                                None => Ok((c, ops)),
                                Some(d) => match c.compile_thunk(t, d, fuel) {
                                    Err(x) => Err(x),
                                    Ok((c, op)) => Ok((c, ops.push(op).push(Op::OrDefault))),
                                },
                            },
                        }
                    },
                },
            },
        }
    }

    /// The steps of an existence check from position `i` on: the last one
    /// asks, the ones before select softly.
    pub open spec fn hasattr_from(
        self,
        t: TreeView,
        attrs: Seq<usize>,
        i: int,
        ops: Seq<Op>,
        fuel: nat,
    ) -> Emitted
        decreases fuel, 4int, attrs.len() - i,
    {
        if i >= attrs.len() {
            Ok((self, ops))
        } else {
            let last = i + 1 == attrs.len();
            match static_attr(t, attrs[i]) {
                Ok(name) => {
                    let (c, sym) = self.intern(name);
                    c.hasattr_from(
                        t,
                        attrs,
                        i + 1,
                        ops.push(
                            if last {
                                Op::HasAttr { sym }
                            } else {
                                Op::SelectSoft { sym }
                            },
                        ),
                        fuel,
                    )
                },
                Err(_) => match self.attr_dynamic(t, attrs[i], ops, fuel) {
                    Err(x) => Err(x),
                    Ok((c, ops)) => c.hasattr_from(
                        t,
                        attrs,
                        i + 1,
                        ops.push(
                            if last {
                                Op::HasAttrDyn
                            } else {
                                Op::SelectSoftDyn
                            },
                        ),
                        fuel,
                    ),
                },
            }
        }
    }

    pub open spec fn compile_hasattr(self, t: TreeView, e: usize, ops: Seq<Op>, fuel: nat) -> Emitted
        decreases fuel, 5int, 0int,
    {
        match t.nth(e, Class::Exprs, 0) {
            None => parse_error("? without base"@),
            Some(base) => match t.nth(e, Class::Only(Kind::Attrpath), 0) {
                None => parse_error("? without attrpath"@),
                Some(path) => match self.compile(t, base, ops, fuel) {
                    Err(x) => Err(x),
                    Ok((c, ops)) => c.hasattr_from(
                        t,
                        t.children(path, Class::Attrs),
                        0,
                        ops,
                        fuel,
                    ),
                },
            },
        }
    }

    pub open spec fn compile_with(self, t: TreeView, e: usize, ops: Seq<Op>, fuel: nat) -> Emitted
        decreases fuel, 2int, 0int,
    {
        match t.nth(e, Class::Exprs, 0) {
            None => parse_error("with without namespace"@),
            Some(ns) => match t.nth(e, Class::Exprs, 1) {
                None => parse_error("with without body"@),
                Some(body) => match self.compile_thunk(t, ns, fuel) {
                    Err(x) => Err(x),
                    Ok((c, op)) => match c.push_scope(ScopeView::With).compile(
                        t,
                        body,
                        ops.push(op).push(Op::PushWith),
                        fuel,
                    ) {
                        Err(x) => Err(x),
                        Ok((c, ops)) => Ok((c.pop_scope(), ops.push(Op::PopEnv))),
                    },
                },
            },
        }
    }

    pub open spec fn compile_assert(self, t: TreeView, e: usize, ops: Seq<Op>, fuel: nat) -> Emitted
        decreases fuel, 1int, 0int,
    {
        match t.nth(e, Class::Exprs, 0) {
            None => parse_error("assert without condition"@),
            Some(cond) => match t.nth(e, Class::Exprs, 1) {
                None => parse_error("assert without body"@),
                Some(body) => match self.compile(t, cond, ops, fuel) {
                    Err(x) => Err(x),
                    Ok((c, ops)) => c.compile(t, body, ops.push(Op::Assert), fuel),
                },
            },
        }
    }

    /// The lazy value of each name of an inherit group from position `i` on.
    pub open spec fn inherit_from(
        self,
        t: TreeView,
        inh: usize,
        i: int,
        fill: Seq<Op>,
        fuel: nat,
    ) -> Emitted
        decreases fuel, 2int, t.children(inh, Class::Attrs).len() - i,
    {
        let attrs = t.children(inh, Class::Attrs);
        if i >= attrs.len() {
            Ok((self, fill))
        } else {
            match static_attr(t, attrs[i]) {
                Err(x) => Err(x),
                Ok(name) => {
                    let (c, sym) = self.intern(name);
                    match c.inherit_one(t, inh, name, sym, fuel) {
                        Err(x) => Err(x),
                        Ok((c, ops)) => {
                            let (c, unit) = c.push_unit(ops.push(Op::Ret), None);
                            c.inherit_from(t, inh, i + 1, fill.push(Op::Thunk { unit }), fuel)
                        },
                    }
                },
            }
        }
    }

    /// One inherited name: selected from the subject, or the variable.
    pub open spec fn inherit_one(
        self,
        t: TreeView,
        inh: usize,
        name: Seq<char>,
        sym: u32,
        fuel: nat,
    ) -> Emitted
        decreases fuel, 1int, 0int,
    {
        match t.nth(inh, Class::Only(Kind::InheritFrom), 0) {
            Some(f) => match t.nth(f, Class::Exprs, 0) {
                None => parse_error("inherit (…) missing"@),
                Some(e) => match self.compile(t, e, Seq::empty(), fuel) {
                    Err(x) => Err(x),
                    Ok((c, ops)) => Ok((c, ops.push(Op::Select { sym }))),
                },
            },
            None => self.compile_var(name, Seq::empty()),
        }
    }

    /// Thunks compiled one frame out, from position `i` on, moved one frame
    /// in.
    pub open spec fn moved_in(self, outer: Seq<Op>, i: int, fill: Seq<Op>) -> (CompilerView, Seq<Op>)
        decreases outer.len() - i,
    {
        if i >= outer.len() {
            (self, fill)
        } else {
            let c = match outer[i] {
                Op::Thunk { unit } => if unit < self.units.len() {
                    let u = self.units[unit as int];
                    CompilerView {
                        units: self.units.update(
                            unit as int,
                            CodeUnitView { ops: deeper(u.ops), ..u },
                        ),
                        ..self
                    }
                } else {
                    self
                },
                _ => self,
            };
            c.moved_in(outer, i + 1, fill.push(outer[i]))
        }
    }

    /// `inherit x;` inside a rec scope resolves x in the enclosing scope.
    /// Compiled with the new frame popped, then moved one frame in: the
    /// thunk runs after it has been repointed into that frame.
    pub open spec fn rec_inherit(self, t: TreeView, inh: usize, fill: Seq<Op>, fuel: nat) -> Emitted
        decreases fuel, 3int, 0int,
    {
        if t.nth(inh, Class::Only(Kind::InheritFrom), 0) is Some {
            self.inherit_from(t, inh, 0, fill, fuel)
        } else if self.scopes.len() == 0 {
            parse_error("internal: scope underflow"@)
        } else {
            match self.pop_scope().inherit_from(t, inh, 0, Seq::empty(), fuel) {
                Err(x) => Err(x),
                Ok((c, outer)) => Ok(c.push_scope(self.scopes.last()).moved_in(outer, 0, fill)),
            }
        }
    }

    pub open spec fn rec_inherits(
        self,
        t: TreeView,
        inherits: Seq<usize>,
        i: int,
        fill: Seq<Op>,
        fuel: nat,
    ) -> Emitted
        decreases fuel, 4int, inherits.len() - i,
    {
        if i >= inherits.len() {
            Ok((self, fill))
        } else {
            match self.rec_inherit(t, inherits[i], fill, fuel) {
                Err(x) => Err(x),
                Ok((c, fill)) => c.rec_inherits(t, inherits, i + 1, fill, fuel),
            }
        }
    }

    /// (name, value) pairs from position `i` on, each value the op at its
    /// position.
    pub open spec fn named_from(
        self,
        t: TreeView,
        attrs: Seq<usize>,
        fill: Seq<Op>,
        i: int,
        ops: Seq<Op>,
        n: u16,
    ) -> Result<(CompilerView, Seq<Op>, u16), CompileErrorView>
        decreases attrs.len() - i,
    {
        if i >= attrs.len() || i >= fill.len() {
            Ok((self, ops, n))
        } else {
            match static_attr(t, attrs[i]) {
                Err(x) => Err(x),
                Ok(name) => {
                    let (c, k) = self.konst(ConstView::Str(name));
                    c.named_from(
                        t,
                        attrs,
                        fill,
                        i + 1,
                        ops.push(Op::Const(k)).push(fill[i]),
                        n.wrapping_add(1),
                    )
                },
            }
        }
    }

    /// The inherit groups of a plain set, as (name, value) pairs.
    pub open spec fn groups_from(
        self,
        t: TreeView,
        inherits: Seq<usize>,
        i: int,
        ops: Seq<Op>,
        n: u16,
        fuel: nat,
    ) -> Result<(CompilerView, Seq<Op>, u16), CompileErrorView>
        decreases fuel, 3int, inherits.len() - i,
    {
        if i >= inherits.len() {
            Ok((self, ops, n))
        } else {
            match self.inherit_from(t, inherits[i], 0, Seq::empty(), fuel) {
                Err(x) => Err(x),
                Ok((c, fill)) => match c.named_from(
                    t,
                    t.children(inherits[i], Class::Attrs),
                    fill,
                    0,
                    ops,
                    0,
                ) {
                    Err(x) => Err(x),
                    Ok((c, ops, m)) => c.groups_from(
                        t,
                        inherits,
                        i + 1,
                        ops,
                        n.wrapping_add(m),
                        fuel,
                    ),
                },
            }
        }
    }

    /// One binding's value, in a position whose environment matches its
    /// compilation.
    pub open spec fn bind_lazy(self, t: TreeView, v: Bind, fuel: nat) -> OneOp
        decreases fuel, 5int, 0int,
    {
        match v {
            Bind::Leaf(e) => self.compile_lazy(t, e, fuel),
            Bind::Node(b) => self.set_unit(t, b, fuel),
        }
    }

    /// One binding's value, in a position one frame out from its scope.
    pub open spec fn bind_thunk(self, t: TreeView, v: Bind, fuel: nat) -> OneOp
        decreases fuel, 5int, 0int,
    {
        match v {
            Bind::Leaf(e) => self.compile_thunk(t, e, fuel),
            Bind::Node(b) => self.set_unit(t, b, fuel),
        }
    }

    /// A thunk that builds one assembled set.
    pub open spec fn set_unit(self, t: TreeView, b: usize, fuel: nat) -> OneOp
        decreases fuel, 4int, 0int,
    {
        if fuel == 0 {
            too_deep()
        } else {
            match self.emit_set(t, b, Seq::empty(), (fuel - 1) as nat) {
                Err(x) => Err(x),
                Ok((c, ops)) => {
                    let (c, unit) = c.push_unit(ops.push(Op::Ret), None);
                    Ok((c, Op::Thunk { unit }))
                },
            }
        }
    }

    /// The bindings of a plain set from position `i` on.
    pub open spec fn kids_from(
        self,
        t: TreeView,
        names: Seq<Seq<char>>,
        binds: Seq<Bind>,
        i: int,
        ops: Seq<Op>,
        n: u16,
        fuel: nat,
    ) -> Result<(CompilerView, Seq<Op>, u16), CompileErrorView>
        decreases fuel, 6int, binds.len() - i,
    {
        if i >= binds.len() || i >= names.len() {
            Ok((self, ops, n))
        } else {
            let (c, k) = self.konst(ConstView::Str(names[i]));
            match c.bind_lazy(t, binds[i], fuel) {
                Err(x) => Err(x),
                Ok((c, op)) => c.kids_from(
                    t,
                    names,
                    binds,
                    i + 1,
                    ops.push(Op::Const(k)).push(op),
                    n.wrapping_add(1),
                    fuel,
                ),
            }
        }
    }

    /// The bindings with run-time names from position `i` on.
    pub open spec fn dynamic_from(
        self,
        t: TreeView,
        dynamic: Seq<(usize, usize)>,
        i: int,
        ops: Seq<Op>,
        n: u16,
        fuel: nat,
    ) -> Result<(CompilerView, Seq<Op>, u16), CompileErrorView>
        decreases fuel, 4int, dynamic.len() - i,
    {
        if i >= dynamic.len() {
            Ok((self, ops, n))
        } else {
            match self.attr_dynamic(t, dynamic[i].0, ops, fuel) {
                Err(x) => Err(x),
                Ok((c, ops)) => match c.compile_lazy(t, dynamic[i].1, fuel) {
                    Err(x) => Err(x),
                    Ok((c, op)) => c.dynamic_from(
                        t,
                        dynamic,
                        i + 1,
                        ops.push(op),
                        n.wrapping_add(1),
                        fuel,
                    ),
                },
            }
        }
    }

    /// The instructions that leave one assembled set on the stack.
    pub open spec fn emit_set(self, t: TreeView, b: usize, ops: Seq<Op>, fuel: nat) -> Emitted
        decreases fuel, 9int, 0int,
    {
        let s = self.set(b);
        if s.rec {
            self.emit_rec_set(t, b, ops, fuel)
        } else {
            match self.groups_from(t, s.inherits, 0, ops, 0, fuel) {
                Err(x) => Err(x),
                Ok((c, ops, n)) => match c.kids_from(t, s.names, s.binds, 0, ops, n, fuel) {
                    Err(x) => Err(x),
                    Ok((c, ops, n)) => match c.dynamic_from(t, s.dynamic, 0, ops, n, fuel) {
                        Err(x) => Err(x),
                        Ok((c, ops, n)) => Ok((c, ops.push(Op::MkAttrs { n, rec: false }))),
                    },
                },
            }
        }
    }

    /// The thunks that fill a frame, from binding `i` on.
    pub open spec fn fill_from(
        self,
        t: TreeView,
        binds: Seq<Bind>,
        i: int,
        fill: Seq<Op>,
        fuel: nat,
    ) -> Emitted
        decreases fuel, 6int, binds.len() - i,
    {
        if i >= binds.len() {
            Ok((self, fill))
        } else {
            match self.bind_thunk(t, binds[i], fuel) {
                Err(x) => Err(x),
                Ok((c, op)) => c.fill_from(t, binds, i + 1, fill.push(op), fuel),
            }
        }
    }

    /// The frame of mutually visible slots that a set opens: its names in
    /// scope, its slots filled and pushed.
    pub open spec fn open_frame(
        self,
        t: TreeView,
        b: usize,
        names: Seq<Seq<char>>,
        ops: Seq<Op>,
        fuel: nat,
    ) -> Emitted
        decreases fuel, 7int, 0int,
    {
        let s = self.set(b);
        match self.push_scope(ScopeView::Bindings(names)).rec_inherits(
            t,
            s.inherits,
            0,
            Seq::empty(),
            fuel,
        ) {
            Err(x) => Err(x),
            Ok((c, fill)) => match c.fill_from(t, s.binds, 0, fill, fuel) {
                Err(x) => Err(x),
                Ok((c, fill)) => Ok(
                    (c, (ops + fill).push(Op::PushEnv { n: fill.len() as u16 })),
                ),
            },
        }
    }

    /// The pairs of a frame's names and slots, from slot `i` on.
    pub open spec fn slots_from(self, names: Seq<Seq<char>>, i: int, ops: Seq<Op>, n: u16) -> (
        CompilerView,
        Seq<Op>,
        u16,
    )
        decreases names.len() - i,
    {
        if i >= names.len() {
            (self, ops, n)
        } else {
            let (c, k) = self.konst(ConstView::Str(names[i]));
            c.slots_from(
                names,
                i + 1,
                ops.push(Op::Const(k)).push(Op::GetLocalLazy { depth: 0, slot: i as u16 }),
                n.wrapping_add(1),
            )
        }
    }

    /// The rec shape: a frame of mutually visible slots, then a set built
    /// out of it. Run-time names are evaluated inside the frame but do not
    /// join the scope.
    pub open spec fn emit_rec_set(self, t: TreeView, b: usize, ops: Seq<Op>, fuel: nat) -> Emitted
        decreases fuel, 8int, 0int,
    {
        let s = self.set(b);
        match inherited(t, s.inherits, 0, Seq::empty()) {
            Err(x) => Err(x),
            Ok(first) => {
                let names = first + s.names;
                if names.contains("__overrides"@) {
                    no_support("rec attrset __overrides"@)
                } else {
                    match self.open_frame(t, b, names, ops, fuel) {
                        Err(x) => Err(x),
                        Ok((c, ops)) => {
                            let (c, ops, n) = c.slots_from(names, 0, ops, 0);
                            match c.dynamic_from(t, s.dynamic, 0, ops, n, fuel) {
                                Err(x) => Err(x),
                                Ok((c, ops, n)) => Ok(
                                    (
                                        c.pop_scope(),
                                        ops.push(Op::MkAttrs { n, rec: false }).push(Op::PopEnv),
                                    ),
                                ),
                            }
                        },
                    }
                }
            },
        }
    }

    pub open spec fn compile_let(self, t: TreeView, e: usize, ops: Seq<Op>, fuel: nat) -> Emitted
        decreases fuel, 9int, 0int,
    {
        match self.build_entries(t, e, true, fuel) {
            Err(x) => Err(x),
            Ok((c, b)) => {
                let s = c.set(b);
                match inherited(t, s.inherits, 0, Seq::empty()) {
                    Err(x) => Err(x),
                    Ok(first) => if s.dynamic.len() > 0 {
                        parse_error("dynamic attributes not allowed in let"@)
                    } else {
                        match c.open_frame(t, b, first + s.names, ops, fuel) {
                            Err(x) => Err(x),
                            Ok((c, ops)) => match t.nth(e, Class::Exprs, 0) {
                                None => parse_error("let without body"@),
                                Some(body) => match c.compile(t, body, ops, fuel) {
                                    Err(x) => Err(x),
                                    Ok((c, ops)) => Ok((c.pop_scope(), ops.push(Op::PopEnv))),
                                },
                            },
                        }
                    },
                }
            },
        }
    }

    /// `let { body = e; ... }`: the `body` attribute of the equivalent rec
    /// set.
    pub open spec fn compile_legacy_let(self, t: TreeView, e: usize, ops: Seq<Op>, fuel: nat) -> Emitted
        decreases fuel, 10int, 0int,
    {
        match self.build_entries(t, e, true, fuel) {
            Err(x) => Err(x),
            Ok((c, b)) => match c.emit_set(t, b, ops, fuel) {
                Err(x) => Err(x),
                Ok((c, ops)) => {
                    let (c, sym) = c.intern("body"@);
                    Ok((c, ops.push(Op::Select { sym })))
                },
            },
        }
    }

    pub open spec fn compile_attrset(self, t: TreeView, e: usize, ops: Seq<Op>, fuel: nat) -> Emitted
        decreases fuel, 10int, 0int,
    {
        match self.build_entries(t, e, has_rec(t, e), fuel) {
            Err(x) => Err(x),
            Ok((c, b)) => c.emit_set(t, b, ops, fuel),
        }
    }

    /// The fields of a pattern from position `i` on, with the units of their
    /// defaults.
    pub open spec fn defaults_from(
        self,
        t: TreeView,
        entries: Seq<usize>,
        i: int,
        fields: Seq<(u32, Option<u32>)>,
        fuel: nat,
    ) -> Result<(CompilerView, Seq<(u32, Option<u32>)>), CompileErrorView>
        decreases fuel, 1int, entries.len() - i,
    {
        if i >= entries.len() {
            Ok((self, fields))
        } else {
            let name = match t.name_under(entries[i]) {
                Some(n) => n,
                None => Seq::empty(),
            };
            let (c, sym) = self.intern(name);
            match t.nth(entries[i], Class::Exprs, 1) {
                None => c.defaults_from(t, entries, i + 1, fields.push((sym, None)), fuel),
                Some(d) => match c.compile(t, d, Seq::empty(), fuel) {
                    Err(x) => Err(x),
                    Ok((c, ops)) => {
                        let (c, unit) = c.push_unit(ops.push(Op::Ret), None);
                        c.defaults_from(t, entries, i + 1, fields.push((sym, Some(unit))), fuel)
                    },
                },
            }
        }
    }

    /// A pattern: the names it binds and its shape. Defaults see all fields
    /// and the @-binding.
    pub open spec fn compile_pattern(self, t: TreeView, pat: usize, fuel: nat) -> Result<
        (CompilerView, ParamView, Seq<Seq<char>>),
        CompileErrorView,
    >
        decreases fuel, 2int, 0int,
    {
        let entries = t.children(pat, Class::Only(Kind::PatEntry));
        match field_names(t, entries, 0, Seq::empty()) {
            Err(x) => Err(x),
            Ok(names) => {
                let at = t.nth(pat, Class::Only(Kind::PatBind), 0);
                let bound = match at {
                    Some(b) => t.name_under(b),
                    None => None,
                };
                if at is Some && bound is None {
                    parse_error("@ without name"@)
                } else {
                    let (c, bind, names) = match bound {
                        Some(n) => {
                            let (c, sym) = self.intern(n);
                            (c, Some(sym), names.push(n))
                        },
                        None => (self, None, names),
                    };
                    match c.push_scope(ScopeView::Bindings(names)).defaults_from(
                        t,
                        entries,
                        0,
                        Seq::empty(),
                        fuel,
                    ) {
                        Err(x) => Err(x),
                        Ok((c, fields)) => Ok(
                            (
                                c.pop_scope(),
                                ParamView::Formals {
                                    fields,
                                    ellipsis: t.nth(
                                        pat,
                                        Class::Only(Kind::EllipsisToken),
                                        0,
                                    ) is Some,
                                    bind,
                                },
                                names,
                            ),
                        ),
                    }
                }
            },
        }
    }

    /// A function's parameter: its shape and the names it binds.
    pub open spec fn compile_param(self, t: TreeView, param: usize, fuel: nat) -> Result<
        (CompilerView, ParamView, Seq<Seq<char>>),
        CompileErrorView,
    >
        decreases fuel, 3int, 0int,
    {
        if t.kind(param) == Kind::IdentParam {
            match t.name_under(param) {
                None => parse_error("lambda param without name"@),
                Some(n) => {
                    let (c, sym) = self.intern(n);
                    Ok((c, ParamView::Ident(sym), seq![n]))
                },
            }
        } else {
            self.compile_pattern(t, param, fuel)
        }
    }

    pub open spec fn compile_lambda(self, t: TreeView, e: usize, ops: Seq<Op>, fuel: nat) -> Emitted
        decreases fuel, 4int, 0int,
    {
        match t.nth(e, Class::Params, 0) {
            None => parse_error("lambda without parameter"@),
            Some(param) => match t.nth(e, Class::Exprs, 0) {
                None => parse_error("lambda without body"@),
                Some(body) => match self.compile_param(t, param, fuel) {
                    Err(x) => Err(x),
                    Ok((c, shape, names)) => match c.push_scope(
                        ScopeView::Bindings(names),
                    ).compile(t, body, Seq::empty(), fuel) {
                        Err(x) => Err(x),
                        Ok((c, code)) => {
                            let (c, unit) = c.push_unit(code.push(Op::Ret), Some(shape));
                            Ok((c.pop_scope(), ops.push(Op::Closure { unit })))
                        },
                    },
                },
            },
        }
    }

    /// Appends the instructions of an expression; its value ends on the
    /// stack.
    pub open spec fn compile(self, t: TreeView, e: usize, ops: Seq<Op>, fuel: nat) -> Emitted
        decreases fuel, 0int, 0int,
    {
        if fuel == 0 {
            too_deep()
        } else {
            let fuel = (fuel - 1) as nat;
            match t.kind(e) {
                Kind::Literal => self.compile_literal(t, e, ops),
                Kind::Str => self.compile_str(t, e, ops, fuel),
                Kind::Path => self.compile_path(t, e, ops),
                Kind::Ident => match t.name(e) {
                    None => parse_error("identifier without token"@),
                    Some(n) => self.compile_var(n, ops),
                },
                Kind::Paren => match t.nth(e, Class::Exprs, 0) {
                    None => parse_error("empty parens"@),
                    Some(x) => self.compile(t, x, ops, fuel),
                },
                Kind::UnaryOp => self.compile_unary(t, e, ops, fuel),
                Kind::BinOp => self.compile_binop(t, e, ops, fuel),
                Kind::IfElse => self.compile_if(t, e, ops, fuel),
                Kind::List => self.list_from(t, t.children(e, Class::Exprs), 0, ops, 0, fuel),
                Kind::LetIn => self.compile_let(t, e, ops, fuel),
                Kind::Lambda => self.compile_lambda(t, e, ops, fuel),
                Kind::Apply => self.compile_apply(t, e, ops, fuel),
                Kind::AttrSet => self.compile_attrset(t, e, ops, fuel),
                Kind::Select => self.compile_select(t, e, ops, fuel),
                Kind::HasAttr => self.compile_hasattr(t, e, ops, fuel),
                Kind::With => self.compile_with(t, e, ops, fuel),
                Kind::Assert => self.compile_assert(t, e, ops, fuel),
                Kind::LegacyLet => self.compile_legacy_let(t, e, ops, fuel),
                Kind::Root => no_support("root"@),
                _ => no_support("parse error node"@),
            }
        }
    }
}

/// A compiler with nothing compiled yet.
pub open spec fn fresh(base: Seq<char>) -> CompilerView {
    CompilerView {
        consts: Seq::empty(),
        symbols: Seq::empty(),
        units: Seq::empty(),
        scopes: Seq::empty(),
        sets: Seq::empty(),
        base,
    }
}

/// The module of a syntax tree.
pub open spec fn compiled_tree(t: TreeView, base: Seq<char>) -> Result<
    ModuleView,
    CompileErrorView,
> {
    match t.nth(0, Class::Exprs, 0) {
        None => parse_error("empty expression"@),
        Some(e) => match fresh(base).compile(t, e, Seq::empty(), NESTING as nat) {
            Err(x) => Err(x),
            Ok((c, ops)) => {
                let (c, entry) = c.push_unit(ops.push(Op::Ret), None);
                Ok(c.module(entry))
            },
        },
    }
}

/// The module of what the parser reports.
pub open spec fn compiled(p: Result<Seq<EventView>, Seq<char>>, base: Seq<char>) -> Result<
    ModuleView,
    CompileErrorView,
> {
    match p {
        Err(m) => parse_error(m),
        Ok(walk) => compiled_tree(no_tree().grown(walk, 0, Seq::empty()), base),
    }
}

// -- the compiler ------------------------------------------------------------

/// A module or an error, as its model.
pub open spec fn module_result(r: Result<Module, CompileError>) -> Result<
    ModuleView,
    CompileErrorView,
> {
    match r {
        Ok(m) => Ok(m@),
        Err(e) => Err(e@),
    }
}

/// The outcome of a step that appends instructions and counts, as its model.
pub open spec fn counted(r: Result<u16, CompileError>, c: CompilerView, ops: Seq<Op>) -> Result<
    (CompilerView, Seq<Op>, u16),
    CompileErrorView,
> {
    match r {
        Ok(n) => Ok((c, ops, n)),
        Err(e) => Err(e@),
    }
}

/// The outcome of a step that hands its instructions back, as its model.
pub open spec fn ops_result(r: Result<Vec<Op>, CompileError>, c: CompilerView) -> Emitted {
    match r {
        Ok(v) => Ok((c, v@)),
        Err(e) => Err(e@),
    }
}

/// The outcome of a step that yields a parameter and its names, as its
/// model.
pub open spec fn shape_result(r: Result<(Param, Vec<Text>), CompileError>, c: CompilerView) -> Result<
    (CompilerView, ParamView, Seq<Seq<char>>),
    CompileErrorView,
> {
    match r {
        Ok((p, names)) => Ok((c, p@, contents(names@))),
        Err(e) => Err(e@),
    }
}

fn append_texts(v: &mut Vec<Text>, more: &Vec<Text>)
    ensures
        contents(final(v)@) == contents(old(v)@) + contents(more@),
{
    let mut i: usize = 0;
    assert(contents(v@) =~= contents(old(v)@) + contents(more@).take(0));
    while i < more.len()
        invariant
            i <= more.len(),
            contents(v@) == contents(old(v)@) + contents(more@).take(i as int),
        decreases more.len() - i,
    {
        let ghost before = contents(v@);
        v.push(copy_of(&more[i]));
        i += 1;
        assert(contents(v@) =~= contents(old(v)@) + contents(more@).take(i as int)) by {
            assert(contents(v@) =~= before.push(more@[i - 1]@));
        }
    }
    assert(contents(more@).take(i as int) =~= contents(more@));
}

fn copy_texts(v: &Vec<Text>) -> (r: Vec<Text>)
    ensures
        contents(r@) == contents(v@),
{
    let mut r: Vec<Text> = Vec::new();
    append_texts(&mut r, v);
    assert(contents(r@) =~= contents(v@));
    r
}

fn has_text(v: &Vec<Text>, t: &str) -> (r: bool)
    ensures
        r == contents(v@).contains(t@),
{
    let mut i: usize = 0;
    while i < v.len()
        invariant
            i <= v.len(),
            forall|j: int| 0 <= j < i ==> contents(v@)[j] != t@,
        decreases v.len() - i,
    {
        if is_text(&v[i], t) {
            assert(contents(v@)[i as int] == t@);
            return true;
        }
        i += 1;
    }
    false
}

fn inherited_of(t: &Tree, inherits: &Vec<usize>) -> (r: Result<Vec<Text>, CompileError>)
    ensures
        texts_result(r) == inherited(t@, inherits@, 0, Seq::empty()),
{
    let mut out: Vec<Text> = Vec::new();
    let mut i: usize = 0;
    assert(contents(out@) =~= Seq::empty());
    while i < inherits.len()
        invariant
            i <= inherits.len(),
            inherited(t@, inherits@, i as int, contents(out@)) == inherited(
                t@,
                inherits@,
                0,
                Seq::empty(),
            ),
        decreases inherits.len() - i,
    {
        let attrs = t.children(inherits[i], Class::Attrs);
        match static_names_of(t, &attrs, out) {
            Err(x) => return Err(x),
            Ok(more) => {
                out = more;
            },
        }
        i += 1;
    }
    Ok(out)
}

fn field_names_of(t: &Tree, entries: &Vec<usize>) -> (r: Result<Vec<Text>, CompileError>)
    ensures
        texts_result(r) == field_names(t@, entries@, 0, Seq::empty()),
{
    let mut out: Vec<Text> = Vec::new();
    let mut i: usize = 0;
    assert(contents(out@) =~= Seq::empty());
    while i < entries.len()
        invariant
            i <= entries.len(),
            field_names(t@, entries@, i as int, contents(out@)) == field_names(
                t@,
                entries@,
                0,
                Seq::empty(),
            ),
        decreases entries.len() - i,
    {
        match t.name_under(entries[i]) {
            None => return Err(bad_source("pattern field without name")),
            Some(n) => {
                let ghost before = contents(out@);
                let ghost name = n@;
                out.push(n);
                assert(contents(out@) =~= before.push(name));
            },
        }
        i += 1;
    }
    Ok(out)
}

impl Compiler {
    fn compile_literal(&mut self, t: &Tree, e: usize, ops: &mut Vec<Op>) -> (r: Result<(), CompileError>)
        ensures
            final(self)@.scopes == old(self)@.scopes,
            emitted(r, final(self)@, final(ops)@) == old(self)@.compile_literal(t@, e, old(ops)@),
    {
        if let Some(k) = t.nth(e, Class::Only(Kind::FloatToken), 0) {
            self.emit_const(Const::Digits(t.own_text(k)), ops);
            return Ok(());
        }
        if let Some(k) = t.nth(e, Class::Only(Kind::IntegerToken), 0) {
            return match read_integer(&t.own_text(k)) {
                Ok(n) => {
                    self.emit_const(Const::Int(n), ops);
                    Ok(())
                },
                Err(m) => {
                    let mut msg = text_of("bad integer literal: ");
                    append_all(&mut msg, &m);
                    Err(CompileError::Parse(string_of(&msg)))
                },
            };
        }
        match t.nth(e, Class::Only(Kind::UriToken), 0) {
            Some(k) => {
                self.emit_const(Const::Str(t.own_text(k)), ops);
                Ok(())
            },
            None => Err(unsupported("literal")),
        }
    }

    fn compile_path(&mut self, t: &Tree, e: usize, ops: &mut Vec<Op>) -> (r: Result<(), CompileError>)
        ensures
            final(self)@.scopes == old(self)@.scopes,
            emitted(r, final(self)@, final(ops)@) == old(self)@.compile_path(t@, e, old(ops)@),
    {
        let text = t.text(e);
        if t.nth(e, Class::Only(Kind::Interpol), 0).is_some() {
            return Err(unsupported("path interpolation"));
        }
        if starts_with(&text, "<") {
            return Err(unsupported("search path lookup"));
        }
        if starts_with(&text, "/") {
            self.emit_const(Const::Path(normal_path_of(&text)), ops);
            return Ok(());
        }
        if starts_with(&text, "~/") {
            let mut what = text_of("home path ");
            append_all(&mut what, &text);
            return Err(CompileError::Unimplemented(string_of(&what)));
        }
        let mut path = copy_of(&self.base);
        append_str(&mut path, "/");
        append_all(&mut path, &text);
        self.emit_const(Const::Path(normal_path_of(&path)), ops);
        Ok(())
    }

    fn string_from(&mut self, t: &Tree, s: usize, parts: &Vec<Option<Text>>, ops: &mut Vec<Op>, fuel: usize) -> (r: Result<u16, CompileError>)
        requires
            parts.len() == string_parts(t@.text(s)).len(),
            forall|j: int|
                0 <= j < parts.len() ==> opt_view(#[trigger] parts@[j]) == string_parts(
                    t@.text(s),
                )[j],
        ensures
            final(self)@.scopes == old(self)@.scopes,
            counted(r, final(self)@, final(ops)@) == old(self)@.string_from(t@, s, 0, 0, old(ops)@, 0, fuel as nat),
        decreases fuel, 1int, 0int,
    {
        let mut i: usize = 0;
        let mut h: usize = 0;
        let mut n: u16 = 0;
        while i < parts.len()
            invariant
                self@.scopes == old(self)@.scopes,
                i <= parts.len(),
                h <= i,
                parts.len() == string_parts(t@.text(s)).len(),
                forall|j: int|
                    0 <= j < parts.len() ==> opt_view(#[trigger] parts@[j]) == string_parts(
                        t@.text(s),
                    )[j],
                self@.string_from(t@, s, i as int, h as int, ops@, n, fuel as nat)
                    == old(self)@.string_from(t@, s, 0, 0, old(ops)@, 0, fuel as nat),
            decreases parts.len() - i,
        {
            assert(opt_view(parts@[i as int]) == string_parts(t@.text(s))[i as int]);
            match &parts[i] {
                Some(text) => {
                    let idx = self.konst(Const::Str(copy_of(text)));
                    ops.push(Op::Const(idx));
                },
                None => {
                    let ip = match t.nth(s, Class::Only(Kind::Interpol), h) {
                        None => return Err(bad_source("empty interpolation")),
                        Some(ip) => ip,
                    };
                    let e = match t.nth(ip, Class::Exprs, 0) {
                        None => return Err(bad_source("empty interpolation")),
                        Some(e) => e,
                    };
                    match self.compile(t, e, ops, fuel) {
                        Err(x) => return Err(x),
                        Ok(_) => {},
                    }
                    h += 1;
                },
            }
            n = n.wrapping_add(1);
            i += 1;
        }
        Ok(n)
    }

    fn compile_str(&mut self, t: &Tree, s: usize, ops: &mut Vec<Op>, fuel: usize) -> (r: Result<(), CompileError>)
        ensures
            final(self)@.scopes == old(self)@.scopes,
            emitted(r, final(self)@, final(ops)@) == old(self)@.compile_str(t@, s, old(ops)@, fuel as nat),
        decreases fuel, 2int, 0int,
    {
        let parts = literal_parts(&t.text(s));
        let n = match self.string_from(t, s, &parts, ops, fuel) {
            Err(x) => return Err(x),
            Ok(v) => v,
        };
        let plain = if parts.len() > 0 {
            assert(opt_view(parts@[0]) == string_parts(t@.text(s))[0]);
            parts[0].is_some()
        } else {
            false
        };
        if n == 0 {
            self.emit_const(Const::Str(Vec::new()), ops);
        } else if n > 1 || !plain {
            ops.push(Op::ConcatStrings { n });
        }
        Ok(())
    }

    fn compile_thunk(&mut self, t: &Tree, e: usize, fuel: usize) -> (r: Result<Op, CompileError>)
        ensures
            final(self)@.scopes == old(self)@.scopes,
            yielded(r, final(self)@) == old(self)@.compile_thunk(t@, e, fuel as nat),
        decreases fuel, 1int, 0int,
    {
        let mut ops: Vec<Op> = Vec::new();
        match self.compile(t, e, &mut ops, fuel) {
            Err(x) => return Err(x),
            Ok(_) => {},
        }
        ops.push(Op::Ret);
        let unit = self.push_unit(ops, None);
        Ok(Op::Thunk { unit })
    }

    fn compile_lazy(&mut self, t: &Tree, e: usize, fuel: usize) -> (r: Result<Op, CompileError>)
        ensures
            final(self)@.scopes == old(self)@.scopes,
            yielded(r, final(self)@) == old(self)@.compile_lazy(t@, e, fuel as nat),
        decreases fuel, 2int, 0int,
    {
        if t.kind(e) == Kind::Ident {
            if let Some(name) = t.name(e) {
                let mut probe: Vec<Op> = Vec::new();
                match self.compile_var(&name, &mut probe) {
                    Ok(_) => {
                        if probe.len() == 1 {
                            if let Op::GetLocal { depth, slot } = probe[0] {
                                return Ok(Op::GetLocalLazy { depth, slot });
                            }
                        }
                    },
                    Err(x) => return Err(x),
                }
            }
        }
        self.compile_thunk(t, e, fuel)
    }

    fn compile_unary(&mut self, t: &Tree, e: usize, ops: &mut Vec<Op>, fuel: usize) -> (r: Result<(), CompileError>)
        ensures
            final(self)@.scopes == old(self)@.scopes,
            emitted(r, final(self)@, final(ops)@) == old(self)@.compile_unary(t@, e, old(ops)@, fuel as nat),
        decreases fuel, 1int, 0int,
    {
        let operand = match t.nth(e, Class::Exprs, 0) {
            None => return Err(bad_source("unary op without operand")),
            Some(x) => x,
        };
        match self.compile(t, operand, ops, fuel) {
            Err(x) => return Err(x),
            Ok(_) => {},
        }
        let k = match t.nth(e, Class::Unary, 0) {
            None => return Err(bad_source("unknown unary operator")),
            Some(x) => x,
        };
        ops.push(
            if t.kind(k) == Kind::Invert {
                Op::Not
            } else {
                Op::Negate
            },
        );
        Ok(())
    }

    fn compile_short(&mut self, t: &Tree, lhs: usize, rhs: usize, invert: bool, miss: bool, ops: &mut Vec<Op>, fuel: usize) -> (r: Result<(), CompileError>)
        ensures
            final(self)@.scopes == old(self)@.scopes,
            emitted(r, final(self)@, final(ops)@) == old(self)@.compile_short(t@, lhs, rhs, invert, miss, old(ops)@, fuel as nat),
        decreases fuel, 1int, 0int,
    {
        match self.compile(t, lhs, ops, fuel) {
            Err(x) => return Err(x),
            Ok(_) => {},
        }
        if invert {
            ops.push(Op::Not);
        }
        let at = ops.len();
        ops.push(Op::JumpIfFalse { target: 0 });
        match self.compile(t, rhs, ops, fuel) {
            Err(x) => return Err(x),
            Ok(_) => {},
        }
        ops.push(Op::Jump { target: 1 });
        let dest = ops.len();
        let idx = self.konst(Const::Bool(miss));
        ops.push(Op::Const(idx));
        patch(ops, at, dest);
        Ok(())
    }

    fn compile_strict(&mut self, t: &Tree, lhs: usize, rhs: usize, k: Kind, ops: &mut Vec<Op>, fuel: usize) -> (r: Result<(), CompileError>)
        ensures
            final(self)@.scopes == old(self)@.scopes,
            emitted(r, final(self)@, final(ops)@) == old(self)@.compile_strict(t@, lhs, rhs, k, old(ops)@, fuel as nat),
        decreases fuel, 1int, 0int,
    {
        match self.compile(t, lhs, ops, fuel) {
            Err(x) => return Err(x),
            Ok(_) => {},
        }
        match self.compile(t, rhs, ops, fuel) {
            Err(x) => return Err(x),
            Ok(_) => {},
        }
        match strict_op_of(k) {
            Some(op) => {
                ops.push(op);
                Ok(())
            },
            None => if k == Kind::PipeRight {
                Err(unsupported("operator PipeRight"))
            } else {
                Err(unsupported("operator PipeLeft"))
            },
        }
    }

    fn compile_binop(&mut self, t: &Tree, e: usize, ops: &mut Vec<Op>, fuel: usize) -> (r: Result<(), CompileError>)
        ensures
            final(self)@.scopes == old(self)@.scopes,
            emitted(r, final(self)@, final(ops)@) == old(self)@.compile_binop(t@, e, old(ops)@, fuel as nat),
        decreases fuel, 2int, 0int,
    {
        let k = match t.nth(e, Class::Binary, 0) {
            None => return Err(bad_source("unknown binary operator")),
            Some(x) => x,
        };
        let lhs = match t.nth(e, Class::Exprs, 0) {
            None => return Err(bad_source("binary op missing operand")),
            Some(x) => x,
        };
        let rhs = match t.nth(e, Class::Exprs, 1) {
            None => return Err(bad_source("binary op missing operand")),
            Some(x) => x,
        };
        match t.kind(k) {
            Kind::And => self.compile_short(t, lhs, rhs, false, false, ops, fuel),
            Kind::Or => self.compile_short(t, lhs, rhs, true, true, ops, fuel),
            Kind::Implication => self.compile_short(t, lhs, rhs, false, true, ops, fuel),
            kind => self.compile_strict(t, lhs, rhs, kind, ops, fuel),
        }
    }

    fn compile_if(&mut self, t: &Tree, e: usize, ops: &mut Vec<Op>, fuel: usize) -> (r: Result<(), CompileError>)
        ensures
            final(self)@.scopes == old(self)@.scopes,
            emitted(r, final(self)@, final(ops)@) == old(self)@.compile_if(t@, e, old(ops)@, fuel as nat),
        decreases fuel, 1int, 0int,
    {
        let cond = match t.nth(e, Class::Exprs, 0) {
            None => return Err(bad_source("if without condition")),
            Some(x) => x,
        };
        let yes = match t.nth(e, Class::Exprs, 1) {
            None => return Err(bad_source("if without then")),
            Some(x) => x,
        };
        let no = match t.nth(e, Class::Exprs, 2) {
            None => return Err(bad_source("if without else")),
            Some(x) => x,
        };
        match self.compile(t, cond, ops, fuel) {
            Err(x) => return Err(x),
            Ok(_) => {},
        }
        let jf = ops.len();
        ops.push(Op::JumpIfFalse { target: 0 });
        match self.compile(t, yes, ops, fuel) {
            Err(x) => return Err(x),
            Ok(_) => {},
        }
        let j = ops.len();
        ops.push(Op::Jump { target: 0 });
        let start = ops.len();
        match self.compile(t, no, ops, fuel) {
            Err(x) => return Err(x),
            Ok(_) => {},
        }
        let end = ops.len();
        patch(ops, jf, start);
        patch(ops, j, end);
        Ok(())
    }

    fn list_from(&mut self, t: &Tree, items: &Vec<usize>, ops: &mut Vec<Op>, fuel: usize) -> (r: Result<(), CompileError>)
        ensures
            final(self)@.scopes == old(self)@.scopes,
            emitted(r, final(self)@, final(ops)@) == old(self)@.list_from(t@, items@, 0, old(ops)@, 0, fuel as nat),
        decreases fuel, 3int, 0int,
    {
        let mut i: usize = 0;
        let mut n: u16 = 0;
        while i < items.len()
            invariant
                self@.scopes == old(self)@.scopes,
                i <= items.len(),
                self@.list_from(t@, items@, i as int, ops@, n, fuel as nat)
                    == old(self)@.list_from(t@, items@, 0, old(ops)@, 0, fuel as nat),
            decreases items.len() - i,
        {
            match self.compile_lazy(t, items[i], fuel) {
                Err(x) => return Err(x),
                Ok(op) => ops.push(op),
            }
            n = n.wrapping_add(1);
            i += 1;
        }
        ops.push(Op::MkList { n });
        Ok(())
    }

    fn compile_apply(&mut self, t: &Tree, e: usize, ops: &mut Vec<Op>, fuel: usize) -> (r: Result<(), CompileError>)
        ensures
            final(self)@.scopes == old(self)@.scopes,
            emitted(r, final(self)@, final(ops)@) == old(self)@.compile_apply(t@, e, old(ops)@, fuel as nat),
        decreases fuel, 3int, 0int,
    {
        let f = match t.nth(e, Class::Exprs, 0) {
            None => return Err(bad_source("apply without function")),
            Some(x) => x,
        };
        let arg = match t.nth(e, Class::Exprs, 1) {
            None => return Err(bad_source("apply without argument")),
            Some(x) => x,
        };
        if t.kind(f) == Kind::Literal && t.kind(arg) == Kind::Ident && t.end(f) == arg
            && starts_with(&t.text(arg), "_") {
            return Err(unsupported("underscore digit separators in numeric literals"));
        }
        match self.compile(t, f, ops, fuel) {
            Err(x) => return Err(x),
            Ok(_) => {},
        }
        match self.compile_lazy(t, arg, fuel) {
            Err(x) => return Err(x),
            Ok(op) => ops.push(op),
        }
        ops.push(Op::Apply);
        Ok(())
    }

    fn attr_dynamic(&mut self, t: &Tree, attr: usize, ops: &mut Vec<Op>, fuel: usize) -> (r: Result<(), CompileError>)
        ensures
            final(self)@.scopes == old(self)@.scopes,
            emitted(r, final(self)@, final(ops)@) == old(self)@.attr_dynamic(t@, attr, old(ops)@, fuel as nat),
        decreases fuel, 3int, 0int,
    {
        match t.kind(attr) {
            Kind::Dynamic => match t.nth(attr, Class::Exprs, 0) {
                None => Err(bad_source("empty dynamic attr")),
                Some(e) => self.compile(t, e, ops, fuel),
            },
            Kind::Str => self.compile_str(t, attr, ops, fuel),
            _ => Err(bad_source("internal: static attr")),
        }
    }

    fn select_from(&mut self, t: &Tree, attrs: &Vec<usize>, soft: bool, ops: &mut Vec<Op>, fuel: usize) -> (r: Result<(), CompileError>)
        ensures
            final(self)@.scopes == old(self)@.scopes,
            emitted(r, final(self)@, final(ops)@) == old(self)@.select_from(t@, attrs@, 0, soft, old(ops)@, fuel as nat),
        decreases fuel, 4int, 0int,
    {
        let mut i: usize = 0;
        while i < attrs.len()
            invariant
                self@.scopes == old(self)@.scopes,
                i <= attrs.len(),
                self@.select_from(t@, attrs@, i as int, soft, ops@, fuel as nat)
                    == old(self)@.select_from(t@, attrs@, 0, soft, old(ops)@, fuel as nat),
            decreases attrs.len() - i,
        {
            match static_attr_of(t, attrs[i]) {
                Ok(name) => {
                    let sym = self.intern(&name);
                    ops.push(
                        if soft {
                            Op::SelectSoft { sym }
                        } else {
                            Op::Select { sym }
                        },
                    );
                },
                Err(_) => {
                    match self.attr_dynamic(t, attrs[i], ops, fuel) {
                        Err(x) => return Err(x),
                        Ok(_) => {},
                    }
                    ops.push(
                        if soft {
                            Op::SelectSoftDyn
                        } else {
                            Op::SelectDyn
                        },
                    );
                },
            }
            i += 1;
        }
        Ok(())
    }

    fn compile_select(&mut self, t: &Tree, e: usize, ops: &mut Vec<Op>, fuel: usize) -> (r: Result<(), CompileError>)
        ensures
            final(self)@.scopes == old(self)@.scopes,
            emitted(r, final(self)@, final(ops)@) == old(self)@.compile_select(t@, e, old(ops)@, fuel as nat),
        decreases fuel, 5int, 0int,
    {
        let base = match t.nth(e, Class::Exprs, 0) {
            None => return Err(bad_source("select without base")),
            Some(x) => x,
        };
        let path = match t.nth(e, Class::Only(Kind::Attrpath), 0) {
            None => return Err(bad_source("select without attrpath")),
            Some(x) => x,
        };
        match self.compile(t, base, ops, fuel) {
            Err(x) => return Err(x),
            Ok(_) => {},
        }
        let default = t.nth(e, Class::Exprs, 1);
        let attrs = t.children(path, Class::Attrs);
        match self.select_from(t, &attrs, default.is_some(), ops, fuel) {
            Err(x) => return Err(x),
            Ok(_) => {},
        }
        if let Some(d) = default {
            match self.compile_thunk(t, d, fuel) {
                Err(x) => return Err(x),
                Ok(op) => ops.push(op),
            }
            ops.push(Op::OrDefault);
        }
        Ok(())
    }

    fn hasattr_from(&mut self, t: &Tree, attrs: &Vec<usize>, ops: &mut Vec<Op>, fuel: usize) -> (r: Result<(), CompileError>)
        ensures
            final(self)@.scopes == old(self)@.scopes,
            emitted(r, final(self)@, final(ops)@) == old(self)@.hasattr_from(t@, attrs@, 0, old(ops)@, fuel as nat),
        decreases fuel, 4int, 0int,
    {
        let mut i: usize = 0;
        while i < attrs.len()
            invariant
                self@.scopes == old(self)@.scopes,
                i <= attrs.len(),
                self@.hasattr_from(t@, attrs@, i as int, ops@, fuel as nat)
                    == old(self)@.hasattr_from(t@, attrs@, 0, old(ops)@, fuel as nat),
            decreases attrs.len() - i,
        {
            let last = i + 1 == attrs.len();
            match static_attr_of(t, attrs[i]) {
                Ok(name) => {
                    let sym = self.intern(&name);
                    ops.push(
                        if last {
                            Op::HasAttr { sym }
                        } else {
                            Op::SelectSoft { sym }
                        },
                    );
                },
                Err(_) => {
                    match self.attr_dynamic(t, attrs[i], ops, fuel) {
                        Err(x) => return Err(x),
                        Ok(_) => {},
                    }
                    ops.push(
                        if last {
                            Op::HasAttrDyn
                        } else {
                            Op::SelectSoftDyn
                        },
                    );
                },
            }
            i += 1;
        }
        Ok(())
    }

    fn compile_hasattr(&mut self, t: &Tree, e: usize, ops: &mut Vec<Op>, fuel: usize) -> (r: Result<(), CompileError>)
        ensures
            final(self)@.scopes == old(self)@.scopes,
            emitted(r, final(self)@, final(ops)@) == old(self)@.compile_hasattr(t@, e, old(ops)@, fuel as nat),
        decreases fuel, 5int, 0int,
    {
        let base = match t.nth(e, Class::Exprs, 0) {
            None => return Err(bad_source("? without base")),
            Some(x) => x,
        };
        let path = match t.nth(e, Class::Only(Kind::Attrpath), 0) {
            None => return Err(bad_source("? without attrpath")),
            Some(x) => x,
        };
        match self.compile(t, base, ops, fuel) {
            Err(x) => return Err(x),
            Ok(_) => {},
        }
        let attrs = t.children(path, Class::Attrs);
        self.hasattr_from(t, &attrs, ops, fuel)
    }

    fn compile_with(&mut self, t: &Tree, e: usize, ops: &mut Vec<Op>, fuel: usize) -> (r: Result<(), CompileError>)
        ensures
            final(self)@.scopes == old(self)@.scopes,
            emitted(r, final(self)@, final(ops)@) == old(self)@.compile_with(t@, e, old(ops)@, fuel as nat),
        decreases fuel, 2int, 0int,
    {
        let ns = match t.nth(e, Class::Exprs, 0) {
            None => return Err(bad_source("with without namespace")),
            Some(x) => x,
        };
        let body = match t.nth(e, Class::Exprs, 1) {
            None => return Err(bad_source("with without body")),
            Some(x) => x,
        };
        match self.compile_thunk(t, ns, fuel) {
            Err(x) => return Err(x),
            Ok(op) => ops.push(op),
        }
        ops.push(Op::PushWith);
        self.push_scope(Scope::With);
        let r = self.compile(t, body, ops, fuel);
        self.pop_scope();
        assert(self@.scopes =~= old(self)@.scopes);
        match r {
            Err(x) => return Err(x),
            Ok(_) => {},
        }
        ops.push(Op::PopEnv);
        Ok(())
    }

    fn compile_assert(&mut self, t: &Tree, e: usize, ops: &mut Vec<Op>, fuel: usize) -> (r: Result<(), CompileError>)
        ensures
            final(self)@.scopes == old(self)@.scopes,
            emitted(r, final(self)@, final(ops)@) == old(self)@.compile_assert(t@, e, old(ops)@, fuel as nat),
        decreases fuel, 1int, 0int,
    {
        let cond = match t.nth(e, Class::Exprs, 0) {
            None => return Err(bad_source("assert without condition")),
            Some(x) => x,
        };
        let body = match t.nth(e, Class::Exprs, 1) {
            None => return Err(bad_source("assert without body")),
            Some(x) => x,
        };
        match self.compile(t, cond, ops, fuel) {
            Err(x) => return Err(x),
            Ok(_) => {},
        }
        ops.push(Op::Assert);
        self.compile(t, body, ops, fuel)
    }

    fn inherit_one(&mut self, t: &Tree, inh: usize, name: &Text, sym: u32, fuel: usize) -> (r: Result<Vec<Op>, CompileError>)
        ensures
            final(self)@.scopes == old(self)@.scopes,
            ops_result(r, final(self)@) == old(self)@.inherit_one(t@, inh, name@, sym, fuel as nat),
        decreases fuel, 1int, 0int,
    {
        let mut ops: Vec<Op> = Vec::new();
        match t.nth(inh, Class::Only(Kind::InheritFrom), 0) {
            Some(f) => {
                let e = match t.nth(f, Class::Exprs, 0) {
                    None => return Err(bad_source("inherit (…) missing")),
                    Some(e) => e,
                };
                match self.compile(t, e, &mut ops, fuel) {
                    Err(x) => return Err(x),
                    Ok(_) => {},
                }
                ops.push(Op::Select { sym });
            },
            None => match self.compile_var(name, &mut ops) {
                Err(x) => return Err(x),
                Ok(_) => {},
            },
        }
        Ok(ops)
    }

    fn inherit_from(&mut self, t: &Tree, inh: usize, fill: &mut Vec<Op>, fuel: usize) -> (r: Result<(), CompileError>)
        ensures
            final(self)@.scopes == old(self)@.scopes,
            emitted(r, final(self)@, final(fill)@) == old(self)@.inherit_from(t@, inh, 0, old(fill)@, fuel as nat),
        decreases fuel, 2int, 0int,
    {
        let attrs = t.children(inh, Class::Attrs);
        let mut i: usize = 0;
        while i < attrs.len()
            invariant
                self@.scopes == old(self)@.scopes,
                i <= attrs.len(),
                attrs@ == t@.children(inh, Class::Attrs),
                self@.inherit_from(t@, inh, i as int, fill@, fuel as nat)
                    == old(self)@.inherit_from(t@, inh, 0, old(fill)@, fuel as nat),
            decreases attrs.len() - i,
        {
            let name = match static_attr_of(t, attrs[i]) {
                Err(x) => return Err(x),
                Ok(n) => n,
            };
            let sym = self.intern(&name);
            match self.inherit_one(t, inh, &name, sym, fuel) {
                Err(x) => return Err(x),
                Ok(mut ops) => {
                    ops.push(Op::Ret);
                    let unit = self.push_unit(ops, None);
                    fill.push(Op::Thunk { unit });
                },
            }
            i += 1;
        }
        Ok(())
    }

    fn move_in(&mut self, unit: u32)
        ensures
            final(self)@ == (if unit < old(self)@.units.len() {
                let u = old(self)@.units[unit as int];
                CompilerView {
                    units: old(self)@.units.update(
                        unit as int,
                        CodeUnitView { ops: deeper(u.ops), ..u },
                    ),
                    ..old(self)@
                }
            } else {
                old(self)@
            }),
    {
        let at = unit as usize;
        if at < self.units.len() {
            let ops = deeper_of(&self.units[at].ops);
            self.units[at].ops = ops;
            proof {
                let u = old(self)@.units[unit as int];
                assert(self@.units =~= old(self)@.units.update(
                    unit as int,
                    CodeUnitView { ops: deeper(u.ops), ..u },
                ));
            }
        }
    }

    fn moved_in(&mut self, outer: &Vec<Op>, fill: &mut Vec<Op>)
        ensures
            final(self)@.scopes == old(self)@.scopes,
            old(self)@.moved_in(outer@, 0, old(fill)@) == (final(self)@, final(fill)@),
    {
        let mut i: usize = 0;
        while i < outer.len()
            invariant
                self@.scopes == old(self)@.scopes,
                i <= outer.len(),
                self@.moved_in(outer@, i as int, fill@) == old(self)@.moved_in(
                    outer@,
                    0,
                    old(fill)@,
                ),
            decreases outer.len() - i,
        {
            if let Op::Thunk { unit } = outer[i] {
                self.move_in(unit);
            }
            fill.push(outer[i]);
            i += 1;
        }
    }

    fn rec_inherit(&mut self, t: &Tree, inh: usize, fill: &mut Vec<Op>, fuel: usize) -> (r: Result<(), CompileError>)
        ensures
            final(self)@.scopes == old(self)@.scopes,
            emitted(r, final(self)@, final(fill)@) == old(self)@.rec_inherit(t@, inh, old(fill)@, fuel as nat),
        decreases fuel, 3int, 0int,
    {
        if t.nth(inh, Class::Only(Kind::InheritFrom), 0).is_some() {
            return self.inherit_from(t, inh, fill, fuel);
        }
        let frame = match self.scopes.pop() {
            None => return Err(bad_source("internal: scope underflow")),
            Some(frame) => frame,
        };
        assert(self@ =~= old(self)@.pop_scope());
        assert(old(self)@.scopes.last() == frame@);
        let mut outer: Vec<Op> = Vec::new();
        let r = self.inherit_from(t, inh, &mut outer, fuel);
        self.push_scope(frame);
        assert(self@.scopes =~= old(self)@.scopes);
        match r {
            Err(x) => return Err(x),
            Ok(_) => {},
        }
        self.moved_in(&outer, fill);
        Ok(())
    }

    fn rec_inherits(&mut self, t: &Tree, inherits: &Vec<usize>, fill: &mut Vec<Op>, fuel: usize) -> (r: Result<(), CompileError>)
        ensures
            final(self)@.scopes == old(self)@.scopes,
            emitted(r, final(self)@, final(fill)@) == old(self)@.rec_inherits(t@, inherits@, 0, old(fill)@, fuel as nat),
        decreases fuel, 4int, 0int,
    {
        let mut i: usize = 0;
        while i < inherits.len()
            invariant
                self@.scopes == old(self)@.scopes,
                i <= inherits.len(),
                self@.rec_inherits(t@, inherits@, i as int, fill@, fuel as nat)
                    == old(self)@.rec_inherits(t@, inherits@, 0, old(fill)@, fuel as nat),
            decreases inherits.len() - i,
        {
            match self.rec_inherit(t, inherits[i], fill, fuel) {
                Err(x) => return Err(x),
                Ok(_) => {},
            }
            i += 1;
        }
        Ok(())
    }

    fn named_from(&mut self, t: &Tree, attrs: &Vec<usize>, fill: &Vec<Op>, ops: &mut Vec<Op>) -> (r: Result<u16, CompileError>)
        ensures
            final(self)@.scopes == old(self)@.scopes,
            counted(r, final(self)@, final(ops)@) == old(self)@.named_from(t@, attrs@, fill@, 0, old(ops)@, 0),
    {
        let mut i: usize = 0;
        let mut n: u16 = 0;
        while i < attrs.len() && i < fill.len()
            invariant
                self@.scopes == old(self)@.scopes,
                i <= attrs.len(),
                self@.named_from(t@, attrs@, fill@, i as int, ops@, n)
                    == old(self)@.named_from(t@, attrs@, fill@, 0, old(ops)@, 0),
            decreases attrs.len() - i,
        {
            let name = match static_attr_of(t, attrs[i]) {
                Err(x) => return Err(x),
                Ok(n) => n,
            };
            let k = self.konst(Const::Str(name));
            ops.push(Op::Const(k));
            ops.push(fill[i]);
            n = n.wrapping_add(1);
            i += 1;
        }
        Ok(n)
    }

    fn groups_from(&mut self, t: &Tree, inherits: &Vec<usize>, ops: &mut Vec<Op>, fuel: usize) -> (r: Result<u16, CompileError>)
        ensures
            final(self)@.scopes == old(self)@.scopes,
            counted(r, final(self)@, final(ops)@) == old(self)@.groups_from(t@, inherits@, 0, old(ops)@, 0, fuel as nat),
        decreases fuel, 3int, 0int,
    {
        let mut i: usize = 0;
        let mut n: u16 = 0;
        while i < inherits.len()
            invariant
                self@.scopes == old(self)@.scopes,
                i <= inherits.len(),
                self@.groups_from(t@, inherits@, i as int, ops@, n, fuel as nat)
                    == old(self)@.groups_from(t@, inherits@, 0, old(ops)@, 0, fuel as nat),
            decreases inherits.len() - i,
        {
            let mut fill: Vec<Op> = Vec::new();
            match self.inherit_from(t, inherits[i], &mut fill, fuel) {
                Err(x) => return Err(x),
                Ok(_) => {},
            }
            let attrs = t.children(inherits[i], Class::Attrs);
            match self.named_from(t, &attrs, &fill, ops) {
                Err(x) => return Err(x),
                Ok(m) => {
                    n = n.wrapping_add(m);
                },
            }
            i += 1;
        }
        Ok(n)
    }

    fn bind_lazy(&mut self, t: &Tree, v: Bind, fuel: usize) -> (r: Result<Op, CompileError>)
        ensures
            final(self)@.scopes == old(self)@.scopes,
            yielded(r, final(self)@) == old(self)@.bind_lazy(t@, v, fuel as nat),
        decreases fuel, 5int, 0int,
    {
        match v {
            Bind::Leaf(e) => self.compile_lazy(t, e, fuel),
            Bind::Node(b) => self.set_unit(t, b, fuel),
        }
    }

    fn bind_thunk(&mut self, t: &Tree, v: Bind, fuel: usize) -> (r: Result<Op, CompileError>)
        ensures
            final(self)@.scopes == old(self)@.scopes,
            yielded(r, final(self)@) == old(self)@.bind_thunk(t@, v, fuel as nat),
        decreases fuel, 5int, 0int,
    {
        match v {
            Bind::Leaf(e) => self.compile_thunk(t, e, fuel),
            Bind::Node(b) => self.set_unit(t, b, fuel),
        }
    }

    fn set_unit(&mut self, t: &Tree, b: usize, fuel: usize) -> (r: Result<Op, CompileError>)
        ensures
            final(self)@.scopes == old(self)@.scopes,
            yielded(r, final(self)@) == old(self)@.set_unit(t@, b, fuel as nat),
        decreases fuel, 4int, 0int,
    {
        if fuel == 0 {
            return Err(deep());
        }
        let mut ops: Vec<Op> = Vec::new();
        match self.emit_set(t, b, &mut ops, fuel - 1) {
            Err(x) => return Err(x),
            Ok(_) => {},
        }
        ops.push(Op::Ret);
        let unit = self.push_unit(ops, None);
        Ok(Op::Thunk { unit })
    }

    fn kids_from(&mut self, t: &Tree, names: &Vec<Text>, binds: &Vec<Bind>, had: u16, ops: &mut Vec<Op>, fuel: usize) -> (r: Result<u16, CompileError>)
        ensures
            final(self)@.scopes == old(self)@.scopes,
            counted(r, final(self)@, final(ops)@) == old(self)@.kids_from(t@, contents(names@), binds@, 0, old(ops)@, had, fuel as nat),
        decreases fuel, 6int, 0int,
    {
        let mut i: usize = 0;
        let mut n: u16 = had;
        while i < binds.len() && i < names.len()
            invariant
                self@.scopes == old(self)@.scopes,
                i <= binds.len(),
                self@.kids_from(t@, contents(names@), binds@, i as int, ops@, n, fuel as nat)
                    == old(self)@.kids_from(
                    t@,
                    contents(names@),
                    binds@,
                    0,
                    old(ops)@,
                    had,
                    fuel as nat,
                ),
            decreases binds.len() - i,
        {
            let k = self.konst(Const::Str(copy_of(&names[i])));
            match self.bind_lazy(t, binds[i], fuel) {
                Err(x) => return Err(x),
                Ok(op) => {
                    ops.push(Op::Const(k));
                    ops.push(op);
                },
            }
            n = n.wrapping_add(1);
            i += 1;
        }
        Ok(n)
    }

    fn dynamic_from(&mut self, t: &Tree, dynamic: &Vec<(usize, usize)>, had: u16, ops: &mut Vec<Op>, fuel: usize) -> (r: Result<u16, CompileError>)
        ensures
            final(self)@.scopes == old(self)@.scopes,
            counted(r, final(self)@, final(ops)@) == old(self)@.dynamic_from(t@, dynamic@, 0, old(ops)@, had, fuel as nat),
        decreases fuel, 4int, 0int,
    {
        let mut i: usize = 0;
        let mut n: u16 = had;
        while i < dynamic.len()
            invariant
                self@.scopes == old(self)@.scopes,
                i <= dynamic.len(),
                self@.dynamic_from(t@, dynamic@, i as int, ops@, n, fuel as nat)
                    == old(self)@.dynamic_from(t@, dynamic@, 0, old(ops)@, had, fuel as nat),
            decreases dynamic.len() - i,
        {
            match self.attr_dynamic(t, dynamic[i].0, ops, fuel) {
                Err(x) => return Err(x),
                Ok(_) => {},
            }
            match self.compile_lazy(t, dynamic[i].1, fuel) {
                Err(x) => return Err(x),
                Ok(op) => ops.push(op),
            }
            n = n.wrapping_add(1);
            i += 1;
        }
        Ok(n)
    }

    /// A copy of a set under construction.
    fn set_copy(&self, b: usize) -> (s: SetBuild)
        ensures
            s@ == self@.set(b),
    {
        if b < self.sets.len() {
            let s = &self.sets[b];
            let r = SetBuild {
                rec: s.rec,
                names: copy_texts(&s.names),
                binds: copy_of(&s.binds),
                dynamic: copy_of(&s.dynamic),
                inherits: copy_of(&s.inherits),
            };
            assert(r@ =~= self@.set(b));
            r
        } else {
            let r = SetBuild {
                rec: false,
                names: Vec::new(),
                binds: Vec::new(),
                dynamic: Vec::new(),
                inherits: Vec::new(),
            };
            assert(r@ =~= self@.set(b));
            r
        }
    }

    fn emit_set(&mut self, t: &Tree, b: usize, ops: &mut Vec<Op>, fuel: usize) -> (r: Result<(), CompileError>)
        ensures
            final(self)@.scopes == old(self)@.scopes,
            emitted(r, final(self)@, final(ops)@) == old(self)@.emit_set(t@, b, old(ops)@, fuel as nat),
        decreases fuel, 9int, 0int,
    {
        let s = self.set_copy(b);
        if s.rec {
            return self.emit_rec_set(t, b, ops, fuel);
        }
        let n = match self.groups_from(t, &s.inherits, ops, fuel) {
            Err(x) => return Err(x),
            Ok(v) => v,
        };
        let n = match self.kids_from(t, &s.names, &s.binds, n, ops, fuel) {
            Err(x) => return Err(x),
            Ok(v) => v,
        };
        let n = match self.dynamic_from(t, &s.dynamic, n, ops, fuel) {
            Err(x) => return Err(x),
            Ok(v) => v,
        };
        ops.push(Op::MkAttrs { n, rec: false });
        Ok(())
    }

    fn fill_from(&mut self, t: &Tree, binds: &Vec<Bind>, fill: &mut Vec<Op>, fuel: usize) -> (r: Result<(), CompileError>)
        ensures
            final(self)@.scopes == old(self)@.scopes,
            emitted(r, final(self)@, final(fill)@) == old(self)@.fill_from(t@, binds@, 0, old(fill)@, fuel as nat),
        decreases fuel, 6int, 0int,
    {
        let mut i: usize = 0;
        while i < binds.len()
            invariant
                self@.scopes == old(self)@.scopes,
                i <= binds.len(),
                self@.fill_from(t@, binds@, i as int, fill@, fuel as nat)
                    == old(self)@.fill_from(t@, binds@, 0, old(fill)@, fuel as nat),
            decreases binds.len() - i,
        {
            match self.bind_thunk(t, binds[i], fuel) {
                Err(x) => return Err(x),
                Ok(op) => fill.push(op),
            }
            i += 1;
        }
        Ok(())
    }

    fn open_frame(&mut self, t: &Tree, b: usize, names: Vec<Text>, ops: &mut Vec<Op>, fuel: usize) -> (r: Result<(), CompileError>)
        ensures
            emitted(r, final(self)@, final(ops)@) == old(self)@.open_frame(t@, b, contents(names@), old(ops)@, fuel as nat),
            r is Ok ==> final(self)@.scopes == old(self)@.scopes.push(
                ScopeView::Bindings(contents(names@)),
            ),
            r is Err ==> final(self)@.scopes == old(self)@.scopes && final(ops)@ == old(ops)@,
        decreases fuel, 7int, 0int,
    {
        let s = self.set_copy(b);
        self.push_scope(Scope::Bindings(names));
        let mut fill: Vec<Op> = Vec::new();
        match self.rec_inherits(t, &s.inherits, &mut fill, fuel) {
            Err(x) => {
                self.pop_scope();
                assert(self@.scopes =~= old(self)@.scopes);
                return Err(x);
            },
            Ok(_) => {},
        }
        match self.fill_from(t, &s.binds, &mut fill, fuel) {
            Err(x) => {
                self.pop_scope();
                assert(self@.scopes =~= old(self)@.scopes);
                return Err(x);
            },
            Ok(_) => {},
        }
        append_all(ops, &fill);
        ops.push(Op::PushEnv { n: fill.len() as u16 });
        Ok(())
    }

    fn slots_from(&mut self, names: &Vec<Text>, ops: &mut Vec<Op>) -> (n: u16)
        ensures
            final(self)@.scopes == old(self)@.scopes,
            old(self)@.slots_from(contents(names@), 0, old(ops)@, 0) == (
                final(self)@,
                final(ops)@,
                n,
            ),
    {
        let mut i: usize = 0;
        let mut n: u16 = 0;
        while i < names.len()
            invariant
                self@.scopes == old(self)@.scopes,
                i <= names.len(),
                self@.slots_from(contents(names@), i as int, ops@, n) == old(self)@.slots_from(
                    contents(names@),
                    0,
                    old(ops)@,
                    0,
                ),
            decreases names.len() - i,
        {
            let k = self.konst(Const::Str(copy_of(&names[i])));
            ops.push(Op::Const(k));
            ops.push(Op::GetLocalLazy { depth: 0, slot: i as u16 });
            n = n.wrapping_add(1);
            i += 1;
        }
        n
    }

    fn emit_rec_set(&mut self, t: &Tree, b: usize, ops: &mut Vec<Op>, fuel: usize) -> (r: Result<(), CompileError>)
        ensures
            final(self)@.scopes == old(self)@.scopes,
            emitted(r, final(self)@, final(ops)@) == old(self)@.emit_rec_set(t@, b, old(ops)@, fuel as nat),
        decreases fuel, 8int, 0int,
    {
        let s = self.set_copy(b);
        let mut names = match inherited_of(t, &s.inherits) {
            Err(x) => return Err(x),
            Ok(v) => v,
        };
        append_texts(&mut names, &s.names);
        if has_text(&names, "__overrides") {
            return Err(unsupported("rec attrset __overrides"));
        }
        match self.open_frame(t, b, copy_texts(&names), ops, fuel) {
            Err(x) => return Err(x),
            Ok(_) => {},
        }
        let n = self.slots_from(&names, ops);
        let r = self.dynamic_from(t, &s.dynamic, n, ops, fuel);
        self.pop_scope();
        assert(self@.scopes =~= old(self)@.scopes);
        let n = match r {
            Err(x) => return Err(x),
            Ok(v) => v,
        };
        ops.push(Op::MkAttrs { n, rec: false });
        ops.push(Op::PopEnv);
        Ok(())
    }

    fn compile_let(&mut self, t: &Tree, e: usize, ops: &mut Vec<Op>, fuel: usize) -> (r: Result<(), CompileError>)
        ensures
            final(self)@.scopes == old(self)@.scopes,
            emitted(r, final(self)@, final(ops)@) == old(self)@.compile_let(t@, e, old(ops)@, fuel as nat),
        decreases fuel, 9int, 0int,
    {
        let b = match self.build_entries(t, e, true, fuel) {
            Err(x) => return Err(x),
            Ok(v) => v,
        };
        let s = self.set_copy(b);
        let mut names = match inherited_of(t, &s.inherits) {
            Err(x) => return Err(x),
            Ok(v) => v,
        };
        append_texts(&mut names, &s.names);
        if s.dynamic.len() > 0 {
            return Err(bad_source("dynamic attributes not allowed in let"));
        }
        match self.open_frame(t, b, names, ops, fuel) {
            Err(x) => return Err(x),
            Ok(_) => {},
        }
        let r = match t.nth(e, Class::Exprs, 0) {
            None => Err(bad_source("let without body")),
            Some(body) => self.compile(t, body, ops, fuel),
        };
        self.pop_scope();
        assert(self@.scopes =~= old(self)@.scopes);
        match r {
            Err(x) => return Err(x),
            Ok(_) => {},
        }
        ops.push(Op::PopEnv);
        Ok(())
    }

    fn compile_legacy_let(&mut self, t: &Tree, e: usize, ops: &mut Vec<Op>, fuel: usize) -> (r: Result<(), CompileError>)
        ensures
            final(self)@.scopes == old(self)@.scopes,
            emitted(r, final(self)@, final(ops)@) == old(self)@.compile_legacy_let(t@, e, old(ops)@, fuel as nat),
        decreases fuel, 10int, 0int,
    {
        let b = match self.build_entries(t, e, true, fuel) {
            Err(x) => return Err(x),
            Ok(v) => v,
        };
        match self.emit_set(t, b, ops, fuel) {
            Err(x) => return Err(x),
            Ok(_) => {},
        }
        let sym = self.intern(&text_of("body"));
        ops.push(Op::Select { sym });
        Ok(())
    }

    fn compile_attrset(&mut self, t: &Tree, e: usize, ops: &mut Vec<Op>, fuel: usize) -> (r: Result<(), CompileError>)
        ensures
            final(self)@.scopes == old(self)@.scopes,
            emitted(r, final(self)@, final(ops)@) == old(self)@.compile_attrset(t@, e, old(ops)@, fuel as nat),
        decreases fuel, 10int, 0int,
    {
        let rec = t.nth(e, Class::Only(Kind::RecToken), 0).is_some();
        let b = match self.build_entries(t, e, rec, fuel) {
            Err(x) => return Err(x),
            Ok(v) => v,
        };
        self.emit_set(t, b, ops, fuel)
    }

    fn defaults_from(&mut self, t: &Tree, entries: &Vec<usize>, fuel: usize) -> (r: Result<
        Vec<(u32, Option<u32>)>,
        CompileError,
    >)
        ensures
            final(self)@.scopes == old(self)@.scopes,
            old(self)@.defaults_from(t@, entries@, 0, Seq::empty(), fuel as nat) == (match r {
                Ok(v) => Ok::<(CompilerView, Seq<(u32, Option<u32>)>), CompileErrorView>(
                    (final(self)@, v@),
                ),
                Err(e) => Err::<(CompilerView, Seq<(u32, Option<u32>)>), CompileErrorView>(e@),
            }),
        decreases fuel, 1int, 0int,
    {
        let mut fields: Vec<(u32, Option<u32>)> = Vec::new();
        let mut i: usize = 0;
        while i < entries.len()
            invariant
                self@.scopes == old(self)@.scopes,
                i <= entries.len(),
                self@.defaults_from(t@, entries@, i as int, fields@, fuel as nat)
                    == old(self)@.defaults_from(t@, entries@, 0, Seq::empty(), fuel as nat),
            decreases entries.len() - i,
        {
            let name = match t.name_under(entries[i]) {
                Some(n) => n,
                None => Vec::new(),
            };
            assert(t@.name_under(entries@[i as int]) is None ==> name@ =~= Seq::empty());
            let sym = self.intern(&name);
            match t.nth(entries[i], Class::Exprs, 1) {
                None => fields.push((sym, None)),
                Some(d) => {
                    let mut ops: Vec<Op> = Vec::new();
                    match self.compile(t, d, &mut ops, fuel) {
                        Err(x) => return Err(x),
                        Ok(_) => {},
                    }
                    ops.push(Op::Ret);
                    let unit = self.push_unit(ops, None);
                    fields.push((sym, Some(unit)));
                },
            }
            i += 1;
        }
        Ok(fields)
    }

    fn compile_pattern(&mut self, t: &Tree, pat: usize, fuel: usize) -> (r: Result<
        (Param, Vec<Text>),
        CompileError,
    >)
        ensures
            final(self)@.scopes == old(self)@.scopes,
            shape_result(r, final(self)@) == old(self)@.compile_pattern(t@, pat, fuel as nat),
        decreases fuel, 2int, 0int,
    {
        let entries = t.children(pat, Class::Only(Kind::PatEntry));
        let mut names = match field_names_of(t, &entries) {
            Err(x) => return Err(x),
            Ok(n) => n,
        };
        let mut bind: Option<u32> = None;
        if let Some(b) = t.nth(pat, Class::Only(Kind::PatBind), 0) {
            match t.name_under(b) {
                None => return Err(bad_source("@ without name")),
                Some(n) => {
                    bind = Some(self.intern(&n));
                    let ghost before = contents(names@);
                    let ghost name = n@;
                    names.push(n);
                    assert(contents(names@) =~= before.push(name));
                },
            }
        }
        self.push_scope(Scope::Bindings(copy_texts(&names)));
        let r = self.defaults_from(t, &entries, fuel);
        self.pop_scope();
        assert(self@.scopes =~= old(self)@.scopes);
        let fields = match r {
            Err(x) => return Err(x),
            Ok(f) => f,
        };
        let ellipsis = t.nth(pat, Class::Only(Kind::EllipsisToken), 0).is_some();
        Ok((Param::Formals { fields, ellipsis, bind }, names))
    }

    fn compile_param(&mut self, t: &Tree, param: usize, fuel: usize) -> (r: Result<
        (Param, Vec<Text>),
        CompileError,
    >)
        ensures
            final(self)@.scopes == old(self)@.scopes,
            shape_result(r, final(self)@) == old(self)@.compile_param(t@, param, fuel as nat),
        decreases fuel, 3int, 0int,
    {
        if t.kind(param) != Kind::IdentParam {
            return self.compile_pattern(t, param, fuel);
        }
        match t.name_under(param) {
            None => Err(bad_source("lambda param without name")),
            Some(n) => {
                let sym = self.intern(&n);
                let ghost name = n@;
                let mut names: Vec<Text> = Vec::new();
                names.push(n);
                assert(contents(names@) =~= seq![name]);
                Ok((Param::Ident(sym), names))
            },
        }
    }

    fn compile_lambda(&mut self, t: &Tree, e: usize, ops: &mut Vec<Op>, fuel: usize) -> (r: Result<(), CompileError>)
        ensures
            final(self)@.scopes == old(self)@.scopes,
            emitted(r, final(self)@, final(ops)@) == old(self)@.compile_lambda(t@, e, old(ops)@, fuel as nat),
            match r {
                Ok(_) => {
                    let unit = (final(self)@.units.len() - 1) as u32;
                    &&& final(ops)@ == old(ops)@.push(Op::Closure { unit })
                    &&& final(self)@.units.len() > 0
                    &&& final(self)@.units.last().param is Some
                },
                Err(_) => final(ops)@ == old(ops)@,
            },
        decreases fuel, 4int, 0int,
    {
        let param = match t.nth(e, Class::Params, 0) {
            None => return Err(bad_source("lambda without parameter")),
            Some(x) => x,
        };
        let body = match t.nth(e, Class::Exprs, 0) {
            None => return Err(bad_source("lambda without body")),
            Some(x) => x,
        };
        let (shape, names) = match self.compile_param(t, param, fuel) {
            Err(x) => return Err(x),
            Ok(v) => v,
        };
        self.push_scope(Scope::Bindings(names));
        let mut code: Vec<Op> = Vec::new();
        let r = self.compile(t, body, &mut code, fuel);
        self.pop_scope();
        assert(self@.scopes =~= old(self)@.scopes);
        match r {
            Err(x) => return Err(x),
            Ok(_) => {},
        }
        code.push(Op::Ret);
        let unit = self.push_unit(code, Some(shape));
        ops.push(Op::Closure { unit });
        Ok(())
    }

    fn compile(&mut self, t: &Tree, e: usize, ops: &mut Vec<Op>, depth: usize) -> (r: Result<(), CompileError>)
        ensures
            final(self)@.scopes == old(self)@.scopes,
            emitted(r, final(self)@, final(ops)@) == old(self)@.compile(t@, e, old(ops)@, depth as nat),
        decreases depth, 0int, 0int,
    {
        if depth == 0 {
            return Err(deep());
        }
        let fuel = depth - 1;
        match t.kind(e) {
            Kind::Literal => self.compile_literal(t, e, ops),
            Kind::Str => self.compile_str(t, e, ops, fuel),
            Kind::Path => self.compile_path(t, e, ops),
            Kind::Ident => match t.name(e) {
                None => Err(bad_source("identifier without token")),
                Some(n) => self.compile_var(&n, ops),
            },
            Kind::Paren => match t.nth(e, Class::Exprs, 0) {
                None => Err(bad_source("empty parens")),
                Some(x) => self.compile(t, x, ops, fuel),
            },
            Kind::UnaryOp => self.compile_unary(t, e, ops, fuel),
            Kind::BinOp => self.compile_binop(t, e, ops, fuel),
            Kind::IfElse => self.compile_if(t, e, ops, fuel),
            Kind::List => {
                let items = t.children(e, Class::Exprs);
                self.list_from(t, &items, ops, fuel)
            },
            Kind::LetIn => self.compile_let(t, e, ops, fuel),
            Kind::Lambda => self.compile_lambda(t, e, ops, fuel),
            Kind::Apply => self.compile_apply(t, e, ops, fuel),
            Kind::AttrSet => self.compile_attrset(t, e, ops, fuel),
            Kind::Select => self.compile_select(t, e, ops, fuel),
            Kind::HasAttr => self.compile_hasattr(t, e, ops, fuel),
            Kind::With => self.compile_with(t, e, ops, fuel),
            Kind::Assert => self.compile_assert(t, e, ops, fuel),
            Kind::LegacyLet => self.compile_legacy_let(t, e, ops, fuel),
            Kind::Root => Err(unsupported("root")),
            _ => Err(unsupported("parse error node")),
        }
    }
}

/// The module of what the parser reports.
pub fn compile_walk(p: Result<Vec<Event>, String>, base_dir: &str) -> (r: Result<
    Module,
    CompileError,
>)
    ensures
        module_result(r) == compiled(walk_view(p), base_dir@),
{
    let walk = match p {
        Err(m) => return Err(CompileError::Parse(m)),
        Ok(walk) => walk,
    };
    let t = Tree::grow(&walk);
    let e = match t.nth(0, Class::Exprs, 0) {
        None => return Err(bad_source("empty expression")),
        Some(e) => e,
    };
    let mut c = Compiler {
        consts: Vec::new(),
        symbols: Vec::new(),
        units: Vec::new(),
        scopes: Vec::new(),
        sets: Vec::new(),
        base: text_of(base_dir),
    };
    assert(c@ =~= fresh(base_dir@));
    let mut ops: Vec<Op> = Vec::new();
    match c.compile(&t, e, &mut ops, NESTING) {
        Err(x) => return Err(x),
        Ok(_) => {},
    }
    ops.push(Op::Ret);
    let entry = c.push_unit(ops, None);
    Ok(c.finish(entry))
}

/// Compiles a source text. Relative path literals are taken from `base_dir`.
pub fn compile_source(src: &str, base_dir: &str) -> (r: Result<Module, CompileError>)
    ensures
        module_result(r) == compiled(parsed(src@), base_dir@),
{
    compile_walk(parse_source(src), base_dir)
}

} // verus!
