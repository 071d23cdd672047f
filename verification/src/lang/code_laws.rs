//! What compiling keeps: the code of an expression is put behind what is
//! there, and nothing that is there changes.
use crate::lang::compile::{inherited, patched};
use crate::lang::entries::{has_rec, static_attr};
use crate::lang::ir::{ConstView, Op};
use crate::lang::scopes::{Bind, CompileErrorView, CompilerView, Emitted, ScopeView};
use crate::lang::syntax::{string_parts, Class, Kind, TreeView};
use vstd::prelude::*;

verus! {

/// Whether code begins with other code.
pub open spec fn keeps(ops: Seq<Op>, out: Seq<Op>) -> bool {
    &&& ops.len() <= out.len()
    &&& forall|i: int| 0 <= i < ops.len() ==> #[trigger] out[i] == ops[i]
}

/// Whether a step that succeeds leaves the code that was there.
pub open spec fn extends(ops: Seq<Op>, r: Emitted) -> bool {
    r matches Ok((_, out)) ==> keeps(ops, out)
}

/// The same of a step that counts.
pub open spec fn extends_by(
    ops: Seq<Op>,
    r: Result<(CompilerView, Seq<Op>, u16), CompileErrorView>,
) -> bool {
    r matches Ok((_, out, _)) ==> keeps(ops, out)
}

proof fn lemma_patched(ops: Seq<Op>, code: Seq<Op>, at: int, dest: int)
    requires
        keeps(ops, code),
        at >= ops.len(),
    ensures
        keeps(ops, patched(code, at, dest)),
        patched(code, at, dest).len() == code.len(),
{
}

proof fn lemma_string_from(
    c: CompilerView,
    t: TreeView,
    s: usize,
    i: int,
    h: int,
    ops: Seq<Op>,
    n: u16,
    fuel: nat,
)
    ensures
        extends_by(ops, c.string_from(t, s, i, h, ops, n, fuel)),
    decreases fuel, 1int, string_parts(t.text(s)).len() - i,
{
    let parts = string_parts(t.text(s));
    if i < parts.len() {
        match parts[i] {
            Some(text) => {
                let (d, idx) = c.konst(ConstView::Str(text));
                lemma_string_from(
                    d,
                    t,
                    s,
                    i + 1,
                    h,
                    ops.push(Op::Const(idx)),
                    n.wrapping_add(1),
                    fuel,
                );
            },
            None => if let Some(ip) = t.nth(s, Class::Only(Kind::Interpol), h) {
                if let Some(e) = t.nth(ip, Class::Exprs, 0) {
                    lemma_compile(c, t, e, ops, fuel);
                    if let Ok((d, more)) = c.compile(t, e, ops, fuel) {
                        lemma_string_from(d, t, s, i + 1, h + 1, more, n.wrapping_add(1), fuel);
                    }
                }
            },
        }
    }
}

proof fn lemma_str(c: CompilerView, t: TreeView, s: usize, ops: Seq<Op>, fuel: nat)
    ensures
        extends(ops, c.compile_str(t, s, ops, fuel)),
    decreases fuel, 2int, 0int,
{
    lemma_string_from(c, t, s, 0, 0, ops, 0, fuel);
}

proof fn lemma_unary(c: CompilerView, t: TreeView, e: usize, ops: Seq<Op>, fuel: nat)
    ensures
        extends(ops, c.compile_unary(t, e, ops, fuel)),
    decreases fuel, 1int, 0int,
{
    if let Some(x) = t.nth(e, Class::Exprs, 0) {
        lemma_compile(c, t, x, ops, fuel);
    }
}

proof fn lemma_short(
    c: CompilerView,
    t: TreeView,
    lhs: usize,
    rhs: usize,
    invert: bool,
    miss: bool,
    ops: Seq<Op>,
    fuel: nat,
)
    ensures
        extends(ops, c.compile_short(t, lhs, rhs, invert, miss, ops, fuel)),
    decreases fuel, 1int, 0int,
{
    lemma_compile(c, t, lhs, ops, fuel);
    if let Ok((d, left)) = c.compile(t, lhs, ops, fuel) {
        let mid = if invert {
            left.push(Op::Not)
        } else {
            left
        };
        let jump = mid.push(Op::JumpIfFalse { target: 0 });
        lemma_compile(d, t, rhs, jump, fuel);
        if let Ok((f, right)) = d.compile(t, rhs, jump, fuel) {
            let (_, idx) = f.konst(ConstView::Bool(miss));
            let all = right.push(Op::Jump { target: 1 }).push(Op::Const(idx));
            assert(keeps(ops, all));
            lemma_patched(ops, all, mid.len() as int, right.len() as int + 1);
        }
    }
}

proof fn lemma_strict(
    c: CompilerView,
    t: TreeView,
    lhs: usize,
    rhs: usize,
    k: Kind,
    ops: Seq<Op>,
    fuel: nat,
)
    ensures
        extends(ops, c.compile_strict(t, lhs, rhs, k, ops, fuel)),
    decreases fuel, 1int, 0int,
{
    lemma_compile(c, t, lhs, ops, fuel);
    if let Ok((d, left)) = c.compile(t, lhs, ops, fuel) {
        lemma_compile(d, t, rhs, left, fuel);
    }
}

proof fn lemma_binop(c: CompilerView, t: TreeView, e: usize, ops: Seq<Op>, fuel: nat)
    ensures
        extends(ops, c.compile_binop(t, e, ops, fuel)),
    decreases fuel, 2int, 0int,
{
    if let Some(k) = t.nth(e, Class::Binary, 0) {
        if let (Some(lhs), Some(rhs)) = (t.nth(e, Class::Exprs, 0), t.nth(e, Class::Exprs, 1)) {
            lemma_short(c, t, lhs, rhs, false, false, ops, fuel);
            lemma_short(c, t, lhs, rhs, true, true, ops, fuel);
            lemma_short(c, t, lhs, rhs, false, true, ops, fuel);
            lemma_strict(c, t, lhs, rhs, t.kind(k), ops, fuel);
        }
    }
}

proof fn lemma_if(c: CompilerView, t: TreeView, e: usize, ops: Seq<Op>, fuel: nat)
    ensures
        extends(ops, c.compile_if(t, e, ops, fuel)),
    decreases fuel, 1int, 0int,
{
    if let (Some(cond), Some(yes), Some(no)) = (
        t.nth(e, Class::Exprs, 0),
        t.nth(e, Class::Exprs, 1),
        t.nth(e, Class::Exprs, 2),
    ) {
        lemma_compile(c, t, cond, ops, fuel);
        if let Ok((d, one)) = c.compile(t, cond, ops, fuel) {
            let jump = one.push(Op::JumpIfFalse { target: 0 });
            lemma_compile(d, t, yes, jump, fuel);
            if let Ok((f, two)) = d.compile(t, yes, jump, fuel) {
                let over = two.push(Op::Jump { target: 0 });
                lemma_compile(f, t, no, over, fuel);
                if let Ok((_, all)) = f.compile(t, no, over, fuel) {
                    let half = patched(all, one.len() as int, two.len() as int + 1);
                    lemma_patched(ops, all, one.len() as int, two.len() as int + 1);
                    lemma_patched(ops, half, two.len() as int, all.len() as int);
                }
            }
        }
    }
}

proof fn lemma_list_from(
    c: CompilerView,
    t: TreeView,
    items: Seq<usize>,
    i: int,
    ops: Seq<Op>,
    n: u16,
    fuel: nat,
)
    ensures
        extends(ops, c.list_from(t, items, i, ops, n, fuel)),
    decreases fuel, 3int, items.len() - i,
{
    if i < items.len() {
        if let Ok((d, op)) = c.compile_lazy(t, items[i], fuel) {
            lemma_list_from(d, t, items, i + 1, ops.push(op), n.wrapping_add(1), fuel);
        }
    }
}

proof fn lemma_apply(c: CompilerView, t: TreeView, e: usize, ops: Seq<Op>, fuel: nat)
    ensures
        extends(ops, c.compile_apply(t, e, ops, fuel)),
    decreases fuel, 3int, 0int,
{
    if let Some(f) = t.nth(e, Class::Exprs, 0) {
        lemma_compile(c, t, f, ops, fuel);
    }
}

proof fn lemma_dynamic(c: CompilerView, t: TreeView, attr: usize, ops: Seq<Op>, fuel: nat)
    ensures
        extends(ops, c.attr_dynamic(t, attr, ops, fuel)),
    decreases fuel, 3int, 0int,
{
    if let Some(e) = t.nth(attr, Class::Exprs, 0) {
        lemma_compile(c, t, e, ops, fuel);
    }
    lemma_str(c, t, attr, ops, fuel);
}

proof fn lemma_select_from(
    c: CompilerView,
    t: TreeView,
    attrs: Seq<usize>,
    i: int,
    soft: bool,
    ops: Seq<Op>,
    fuel: nat,
)
    ensures
        extends(ops, c.select_from(t, attrs, i, soft, ops, fuel)),
    decreases fuel, 4int, attrs.len() - i,
{
    if i < attrs.len() {
        match static_attr(t, attrs[i]) {
            Ok(name) => {
                let (d, sym) = c.intern(name);
                let op = if soft {
                    Op::SelectSoft { sym }
                } else {
                    Op::Select { sym }
                };
                lemma_select_from(d, t, attrs, i + 1, soft, ops.push(op), fuel);
            },
            Err(_) => {
                lemma_dynamic(c, t, attrs[i], ops, fuel);
                if let Ok((d, more)) = c.attr_dynamic(t, attrs[i], ops, fuel) {
                    let op = if soft {
                        Op::SelectSoftDyn
                    } else {
                        Op::SelectDyn
                    };
                    lemma_select_from(d, t, attrs, i + 1, soft, more.push(op), fuel);
                }
            },
        }
    }
}

proof fn lemma_select(c: CompilerView, t: TreeView, e: usize, ops: Seq<Op>, fuel: nat)
    ensures
        extends(ops, c.compile_select(t, e, ops, fuel)),
    decreases fuel, 5int, 0int,
{
    if let (Some(base), Some(path)) = (
        t.nth(e, Class::Exprs, 0),
        t.nth(e, Class::Only(Kind::Attrpath), 0),
    ) {
        lemma_compile(c, t, base, ops, fuel);
        if let Ok((d, more)) = c.compile(t, base, ops, fuel) {
            lemma_select_from(
                d,
                t,
                t.children(path, Class::Attrs),
                0,
                t.nth(e, Class::Exprs, 1) is Some,
                more,
                fuel,
            );
        }
    }
}

proof fn lemma_hasattr_from(
    c: CompilerView,
    t: TreeView,
    attrs: Seq<usize>,
    i: int,
    ops: Seq<Op>,
    fuel: nat,
)
    ensures
        extends(ops, c.hasattr_from(t, attrs, i, ops, fuel)),
    decreases fuel, 4int, attrs.len() - i,
{
    if i < attrs.len() {
        let last = i + 1 == attrs.len();
        match static_attr(t, attrs[i]) {
            Ok(name) => {
                let (d, sym) = c.intern(name);
                let op = if last {
                    Op::HasAttr { sym }
                } else {
                    Op::SelectSoft { sym }
                };
                lemma_hasattr_from(d, t, attrs, i + 1, ops.push(op), fuel);
            },
            Err(_) => {
                lemma_dynamic(c, t, attrs[i], ops, fuel);
                if let Ok((d, more)) = c.attr_dynamic(t, attrs[i], ops, fuel) {
                    let op = if last {
                        Op::HasAttrDyn
                    } else {
                        Op::SelectSoftDyn
                    };
                    lemma_hasattr_from(d, t, attrs, i + 1, more.push(op), fuel);
                }
            },
        }
    }
}

proof fn lemma_hasattr(c: CompilerView, t: TreeView, e: usize, ops: Seq<Op>, fuel: nat)
    ensures
        extends(ops, c.compile_hasattr(t, e, ops, fuel)),
    decreases fuel, 5int, 0int,
{
    if let (Some(base), Some(path)) = (
        t.nth(e, Class::Exprs, 0),
        t.nth(e, Class::Only(Kind::Attrpath), 0),
    ) {
        lemma_compile(c, t, base, ops, fuel);
        if let Ok((d, more)) = c.compile(t, base, ops, fuel) {
            lemma_hasattr_from(d, t, t.children(path, Class::Attrs), 0, more, fuel);
        }
    }
}

proof fn lemma_with(c: CompilerView, t: TreeView, e: usize, ops: Seq<Op>, fuel: nat)
    ensures
        extends(ops, c.compile_with(t, e, ops, fuel)),
    decreases fuel, 2int, 0int,
{
    if let (Some(ns), Some(body)) = (t.nth(e, Class::Exprs, 0), t.nth(e, Class::Exprs, 1)) {
        if let Ok((d, op)) = c.compile_thunk(t, ns, fuel) {
            lemma_compile(
                d.push_scope(ScopeView::With),
                t,
                body,
                ops.push(op).push(Op::PushWith),
                fuel,
            );
        }
    }
}

proof fn lemma_assert(c: CompilerView, t: TreeView, e: usize, ops: Seq<Op>, fuel: nat)
    ensures
        extends(ops, c.compile_assert(t, e, ops, fuel)),
    decreases fuel, 1int, 0int,
{
    if let (Some(cond), Some(body)) = (t.nth(e, Class::Exprs, 0), t.nth(e, Class::Exprs, 1)) {
        lemma_compile(c, t, cond, ops, fuel);
        if let Ok((d, more)) = c.compile(t, cond, ops, fuel) {
            lemma_compile(d, t, body, more.push(Op::Assert), fuel);
        }
    }
}

proof fn lemma_named_from(
    c: CompilerView,
    t: TreeView,
    attrs: Seq<usize>,
    fill: Seq<Op>,
    i: int,
    ops: Seq<Op>,
    n: u16,
)
    ensures
        extends_by(ops, c.named_from(t, attrs, fill, i, ops, n)),
    decreases attrs.len() - i,
{
    if i < attrs.len() && i < fill.len() {
        if let Ok(name) = static_attr(t, attrs[i]) {
            let (d, k) = c.konst(ConstView::Str(name));
            lemma_named_from(
                d,
                t,
                attrs,
                fill,
                i + 1,
                ops.push(Op::Const(k)).push(fill[i]),
                n.wrapping_add(1),
            );
        }
    }
}

proof fn lemma_groups_from(
    c: CompilerView,
    t: TreeView,
    inherits: Seq<usize>,
    i: int,
    ops: Seq<Op>,
    n: u16,
    fuel: nat,
)
    ensures
        extends_by(ops, c.groups_from(t, inherits, i, ops, n, fuel)),
    decreases inherits.len() - i,
{
    if i < inherits.len() {
        if let Ok((d, fill)) = c.inherit_from(t, inherits[i], 0, Seq::empty(), fuel) {
            let attrs = t.children(inherits[i], Class::Attrs);
            lemma_named_from(d, t, attrs, fill, 0, ops, 0);
            if let Ok((f, more, m)) = d.named_from(t, attrs, fill, 0, ops, 0) {
                lemma_groups_from(f, t, inherits, i + 1, more, n.wrapping_add(m), fuel);
            }
        }
    }
}

proof fn lemma_kids_from(
    c: CompilerView,
    t: TreeView,
    names: Seq<Seq<char>>,
    binds: Seq<Bind>,
    i: int,
    ops: Seq<Op>,
    n: u16,
    fuel: nat,
)
    ensures
        extends_by(ops, c.kids_from(t, names, binds, i, ops, n, fuel)),
    decreases binds.len() - i,
{
    if i < binds.len() && i < names.len() {
        let (d, k) = c.konst(ConstView::Str(names[i]));
        if let Ok((f, op)) = d.bind_lazy(t, binds[i], fuel) {
            lemma_kids_from(
                f,
                t,
                names,
                binds,
                i + 1,
                ops.push(Op::Const(k)).push(op),
                n.wrapping_add(1),
                fuel,
            );
        }
    }
}

proof fn lemma_dynamic_from(
    c: CompilerView,
    t: TreeView,
    dynamic: Seq<(usize, usize)>,
    i: int,
    ops: Seq<Op>,
    n: u16,
    fuel: nat,
)
    ensures
        extends_by(ops, c.dynamic_from(t, dynamic, i, ops, n, fuel)),
    decreases fuel, 4int, dynamic.len() - i,
{
    if i < dynamic.len() {
        lemma_dynamic(c, t, dynamic[i].0, ops, fuel);
        if let Ok((d, more)) = c.attr_dynamic(t, dynamic[i].0, ops, fuel) {
            if let Ok((f, op)) = d.compile_lazy(t, dynamic[i].1, fuel) {
                lemma_dynamic_from(
                    f,
                    t,
                    dynamic,
                    i + 1,
                    more.push(op),
                    n.wrapping_add(1),
                    fuel,
                );
            }
        }
    }
}

proof fn lemma_set(c: CompilerView, t: TreeView, b: usize, ops: Seq<Op>, fuel: nat)
    ensures
        extends(ops, c.emit_set(t, b, ops, fuel)),
    decreases fuel, 9int, 0int,
{
    let s = c.set(b);
    if s.rec {
        lemma_rec_set(c, t, b, ops, fuel);
    } else {
        lemma_groups_from(c, t, s.inherits, 0, ops, 0, fuel);
        if let Ok((d, one, n)) = c.groups_from(t, s.inherits, 0, ops, 0, fuel) {
            lemma_kids_from(d, t, s.names, s.binds, 0, one, n, fuel);
            if let Ok((f, two, m)) = d.kids_from(t, s.names, s.binds, 0, one, n, fuel) {
                lemma_dynamic_from(f, t, s.dynamic, 0, two, m, fuel);
            }
        }
    }
}

proof fn lemma_frame(
    c: CompilerView,
    t: TreeView,
    b: usize,
    names: Seq<Seq<char>>,
    ops: Seq<Op>,
    fuel: nat,
)
    ensures
        extends(ops, c.open_frame(t, b, names, ops, fuel)),
{
}

proof fn lemma_slots_from(c: CompilerView, names: Seq<Seq<char>>, i: int, ops: Seq<Op>, n: u16)
    ensures
        keeps(ops, c.slots_from(names, i, ops, n).1),
    decreases names.len() - i,
{
    if i < names.len() {
        let (d, k) = c.konst(ConstView::Str(names[i]));
        lemma_slots_from(
            d,
            names,
            i + 1,
            ops.push(Op::Const(k)).push(Op::GetLocalLazy { depth: 0, slot: i as u16 }),
            n.wrapping_add(1),
        );
    }
}

proof fn lemma_rec_set(c: CompilerView, t: TreeView, b: usize, ops: Seq<Op>, fuel: nat)
    ensures
        extends(ops, c.emit_rec_set(t, b, ops, fuel)),
    decreases fuel, 8int, 0int,
{
    let s = c.set(b);
    if let Ok(first) = inherited(t, s.inherits, 0, Seq::empty()) {
        let names = first + s.names;
        lemma_frame(c, t, b, names, ops, fuel);
        if let Ok((d, one)) = c.open_frame(t, b, names, ops, fuel) {
            lemma_slots_from(d, names, 0, one, 0);
            let (f, two, n) = d.slots_from(names, 0, one, 0);
            lemma_dynamic_from(f, t, s.dynamic, 0, two, n, fuel);
        }
    }
}

proof fn lemma_let(c: CompilerView, t: TreeView, e: usize, ops: Seq<Op>, fuel: nat)
    ensures
        extends(ops, c.compile_let(t, e, ops, fuel)),
    decreases fuel, 9int, 0int,
{
    if let Ok((d, b)) = c.build_entries(t, e, true, fuel) {
        let s = d.set(b);
        if let Ok(first) = inherited(t, s.inherits, 0, Seq::empty()) {
            let names = first + s.names;
            lemma_frame(d, t, b, names, ops, fuel);
            if let Ok((f, one)) = d.open_frame(t, b, names, ops, fuel) {
                if let Some(body) = t.nth(e, Class::Exprs, 0) {
                    lemma_compile(f, t, body, one, fuel);
                }
            }
        }
    }
}

proof fn lemma_legacy_let(c: CompilerView, t: TreeView, e: usize, ops: Seq<Op>, fuel: nat)
    ensures
        extends(ops, c.compile_legacy_let(t, e, ops, fuel)),
    decreases fuel, 10int, 0int,
{
    if let Ok((d, b)) = c.build_entries(t, e, true, fuel) {
        lemma_set(d, t, b, ops, fuel);
    }
}

proof fn lemma_attrset(c: CompilerView, t: TreeView, e: usize, ops: Seq<Op>, fuel: nat)
    ensures
        extends(ops, c.compile_attrset(t, e, ops, fuel)),
    decreases fuel, 10int, 0int,
{
    if let Ok((d, b)) = c.build_entries(t, e, has_rec(t, e), fuel) {
        lemma_set(d, t, b, ops, fuel);
    }
}

proof fn lemma_leaf(c: CompilerView, t: TreeView, e: usize, name: Seq<char>, ops: Seq<Op>)
    ensures
        extends(ops, c.compile_literal(t, e, ops)),
        extends(ops, c.compile_path(t, e, ops)),
        extends(ops, c.compile_var(name, ops)),
{
}

proof fn lemma_lambda(c: CompilerView, t: TreeView, e: usize, ops: Seq<Op>, fuel: nat)
    ensures
        extends(ops, c.compile_lambda(t, e, ops, fuel)),
{
}

/// What compiling a node comes to, by its kind.
proof fn lemma_cases(c: CompilerView, t: TreeView, e: usize, ops: Seq<Op>, fuel: nat)
    requires
        fuel > 0,
    ensures
        ({
            let less = (fuel - 1) as nat;
            let r = c.compile(t, e, ops, fuel);
            match t.kind(e) {
                Kind::Literal => r == c.compile_literal(t, e, ops),
                Kind::Str => r == c.compile_str(t, e, ops, less),
                Kind::Path => r == c.compile_path(t, e, ops),
                Kind::Ident => r is Err || r == c.compile_var(t.name(e)->0, ops),
                Kind::Paren => r is Err || r == c.compile(
                    t,
                    t.nth(e, Class::Exprs, 0)->0,
                    ops,
                    less,
                ),
                Kind::UnaryOp => r == c.compile_unary(t, e, ops, less),
                Kind::BinOp => r == c.compile_binop(t, e, ops, less),
                Kind::IfElse => r == c.compile_if(t, e, ops, less),
                Kind::List => r == c.list_from(t, t.children(e, Class::Exprs), 0, ops, 0, less),
                Kind::LetIn => r == c.compile_let(t, e, ops, less),
                Kind::Lambda => r == c.compile_lambda(t, e, ops, less),
                Kind::Apply => r == c.compile_apply(t, e, ops, less),
                Kind::AttrSet => r == c.compile_attrset(t, e, ops, less),
                Kind::Select => r == c.compile_select(t, e, ops, less),
                Kind::HasAttr => r == c.compile_hasattr(t, e, ops, less),
                Kind::With => r == c.compile_with(t, e, ops, less),
                Kind::Assert => r == c.compile_assert(t, e, ops, less),
                Kind::LegacyLet => r == c.compile_legacy_let(t, e, ops, less),
                _ => r is Err,
            }
        }),
{
}

/// Compiling an expression puts its code behind what is there.
#[verifier::rlimit(60)]
#[verifier::spinoff_prover]
pub proof fn lemma_compile(c: CompilerView, t: TreeView, e: usize, ops: Seq<Op>, fuel: nat)
    ensures
        extends(ops, c.compile(t, e, ops, fuel)),
    decreases fuel, 0int, 0int,
{
    if fuel > 0 {
        let less = (fuel - 1) as nat;
        lemma_cases(c, t, e, ops, fuel);
        match t.kind(e) {
            Kind::Literal => lemma_leaf(c, t, e, Seq::empty(), ops),
            Kind::Path => lemma_leaf(c, t, e, Seq::empty(), ops),
            Kind::Ident => lemma_leaf(c, t, e, t.name(e)->0, ops),
            Kind::Lambda => lemma_lambda(c, t, e, ops, less),
            Kind::Str => lemma_str(c, t, e, ops, less),
            Kind::Paren => if let Some(x) = t.nth(e, Class::Exprs, 0) {
                lemma_compile(c, t, x, ops, less);
            },
            Kind::UnaryOp => lemma_unary(c, t, e, ops, less),
            Kind::BinOp => lemma_binop(c, t, e, ops, less),
            Kind::IfElse => lemma_if(c, t, e, ops, less),
            Kind::List => lemma_list_from(c, t, t.children(e, Class::Exprs), 0, ops, 0, less),
            Kind::LetIn => lemma_let(c, t, e, ops, less),
            Kind::Apply => lemma_apply(c, t, e, ops, less),
            Kind::AttrSet => lemma_attrset(c, t, e, ops, less),
            Kind::Select => lemma_select(c, t, e, ops, less),
            Kind::HasAttr => lemma_hasattr(c, t, e, ops, less),
            Kind::With => lemma_with(c, t, e, ops, less),
            Kind::Assert => lemma_assert(c, t, e, ops, less),
            Kind::LegacyLet => lemma_legacy_let(c, t, e, ops, less),
            _ => {},
        }
    }
}

/// Compiling an expression puts its code behind the code that is there, and
/// changes none of it.
pub proof fn law_compiling_appends(c: CompilerView, t: TreeView, e: usize, ops: Seq<Op>, fuel: nat)
    ensures
        c.compile(t, e, ops, fuel) matches Ok((_, out)) ==> ops.is_prefix_of(out),
{
    lemma_compile(c, t, e, ops, fuel);
    if let Ok((_, out)) = c.compile(t, e, ops, fuel) {
        assert(out.take(ops.len() as int) =~= ops);
    }
}

} // verus!
