//! What a name stands for: the innermost binding around it, then what is built
//! in, then what a `with` around it has.
use crate::lang::builtin_laws::lemma_position;
use crate::lang::builtins::{bare, builtin_index, is_global};
use crate::lang::frames::{Search, Task, Yield};
use crate::lang::heap::{position, EnvNode, Fault, HeapView, Slot, Sym};
use crate::lang::ir::{ConstView, Op};
use crate::lang::scopes::{found, CompileErrorView, CompilerView, Found, ScopeView};
use vstd::prelude::*;

verus! {

/// Whether a scope binds a name.
pub open spec fn scope_binds(s: ScopeView, name: Seq<char>) -> bool {
    s matches ScopeView::Bindings(names) && names.contains(name)
}

proof fn lemma_found(scopes: Seq<ScopeView>, name: Seq<char>, n: int, k: int, depth: u16, crossed: bool)
    requires
        0 <= k < n <= scopes.len(),
        scope_binds(scopes[k], name),
        forall|j: int| k < j < n ==> !scope_binds(#[trigger] scopes[j], name),
        depth + n < u16::MAX,
    ensures
        found(scopes, name, n, depth, crossed) == (Found::Local {
            depth: (depth + n - 1 - k) as u16,
            slot: position(scopes[k]->Bindings_0, name, 0) as u16,
        }),
    decreases n,
{
    match scopes[n - 1] {
        ScopeView::Bindings(names) => {
            lemma_position(names, name, 0);
            if n - 1 == k {
                let i = choose|i: int| 0 <= i < names.len() && names[i] == name;
                assert(position(names, name, 0) <= i);
            } else {
                assert(!scope_binds(scopes[n - 1], name));
                let p = position(names, name, 0);
                if p < names.len() {
                    assert(names[p] == name);
                    assert(names.contains(name));
                }
                lemma_found(scopes, name, n - 1, k, (depth + 1) as u16, crossed);
            }
        },
        ScopeView::With => lemma_found(scopes, name, n - 1, k, (depth + 1) as u16, true),
    }
}

proof fn lemma_not_found(scopes: Seq<ScopeView>, name: Seq<char>, n: int, depth: u16, crossed: bool)
    requires
        0 <= n <= scopes.len(),
        forall|j: int| 0 <= j < n ==> !scope_binds(#[trigger] scopes[j], name),
    ensures
        found(scopes, name, n, depth, crossed) == Found::Nowhere(
            crossed || exists|j: int| 0 <= j < n && (#[trigger] scopes[j]) is With,
        ),
    decreases n,
{
    if n > 0 {
        assert(!scope_binds(scopes[n - 1], name));
        match scopes[n - 1] {
            ScopeView::Bindings(names) => {
                lemma_position(names, name, 0);
                let p = position(names, name, 0);
                if p < names.len() {
                    assert(names[p] == name);
                    assert(names.contains(name));
                }
                lemma_not_found(scopes, name, n - 1, depth.wrapping_add(1), crossed);
            },
            ScopeView::With => {
                lemma_not_found(scopes, name, n - 1, depth.wrapping_add(1), true);
                assert(scopes[n - 1] is With);
            },
        }
    }
}

/// A name that is bound around it stands for the innermost of its bindings: as
/// many scopes out as that one is, in its place there. A `with` in between does
/// not matter.
pub proof fn law_innermost_binding_is_meant(
    c: CompilerView,
    name: Seq<char>,
    ops: Seq<Op>,
    k: int,
)
    requires
        0 <= k < c.scopes.len() < u16::MAX,
        scope_binds(c.scopes[k], name),
        forall|j: int| k < j < c.scopes.len() ==> !scope_binds(#[trigger] c.scopes[j], name),
        c.scopes[k]->Bindings_0.len() < u16::MAX,
    ensures
        exists|slot: u16|
            slot < c.scopes[k]->Bindings_0.len() && c.scopes[k]->Bindings_0[slot as int] == name
                && c.compile_var(name, ops) == Ok::<(CompilerView, Seq<Op>), CompileErrorView>(
                (
                    c,
                    ops.push(
                        #[trigger] local_at((c.scopes.len() - 1 - k) as u16, slot),
                    ),
                ),
            ),
{
    lemma_found(c.scopes, name, c.scopes.len() as int, k, 0, false);
    let names = c.scopes[k]->Bindings_0;
    lemma_position(names, name, 0);
    let i = choose|i: int| 0 <= i < names.len() && names[i] == name;
    let slot = position(names, name, 0) as u16;
    assert(position(names, name, 0) <= i);
    let depth = (c.scopes.len() - 1 - k) as u16;
    assert(slot < names.len() && names[slot as int] == name);
    assert(c.compile_var(name, ops) == Ok::<(CompilerView, Seq<Op>), CompileErrorView>(
        (c, ops.push(local_at(depth, slot))),
    ));
}

/// The instruction that reads a local.
pub open spec fn local_at(depth: u16, slot: u16) -> Op {
    Op::GetLocal { depth, slot }
}

/// A name that nothing around it binds is one of the constants, `builtins`, a
/// builtin, or else looked for in what a `with` around it has; where there is
/// none, it is an error.
pub proof fn law_unbound_name_is_built_in_or_looked_for(
    c: CompilerView,
    name: Seq<char>,
    ops: Seq<Op>,
)
    requires
        forall|j: int| 0 <= j < c.scopes.len() ==> !scope_binds(#[trigger] c.scopes[j], name),
    ensures
        ({
            let out = c.compile_var(name, ops);
            let plain = name != "true"@ && name != "false"@ && name != "null"@ && name
                != "builtins"@;
            let looked = exists|j: int| 0 <= j < c.scopes.len() && (#[trigger] c.scopes[j]) is With;
            &&& name == "true"@ ==> out == c.emit_const(ConstView::Bool(true), ops)
            &&& name == "false"@ ==> out == c.emit_const(ConstView::Bool(false), ops)
            &&& name == "null"@ ==> out == c.emit_const(ConstView::Null, ops)
            &&& plain && is_global(name) ==> (builtin_index(bare(name)) matches Some(idx) ==> out
                == Ok::<(CompilerView, Seq<Op>), CompileErrorView>(
                (c, ops.push(Op::Builtin { idx })),
            ))
            &&& plain && !is_global(name) && looked ==> out == Ok::<
                (CompilerView, Seq<Op>),
                CompileErrorView,
            >((c.intern(name).0, ops.push(Op::ResolveWith { sym: c.intern(name).1 })))
            &&& plain && !is_global(name) && !looked ==> out == Err::<
                (CompilerView, Seq<Op>),
                CompileErrorView,
            >(CompileErrorView::UndefinedVariable(name))
        }),
{
    lemma_not_found(c.scopes, name, c.scopes.len() as int, 0, false);
    reveal_strlit("true");
    reveal_strlit("false");
    reveal_strlit("null");
    reveal_strlit("builtins");
    assert("true"@.len() == 4 && "false"@.len() == 5 && "null"@.len() == 4 && "builtins"@.len()
        == 8);
    assert("true"@[0] == 't' && "null"@[0] == 'n');
}

// -- at run time -------------------------------------------------------------

/// The environment so many scopes out.
pub open spec fn outward(h: HeapView, env: usize, depth: nat) -> usize
    decreases depth,
{
    if depth == 0 {
        env
    } else {
        match h.env(env) {
            EnvNode::Frame { up, .. } => outward(h, up, (depth - 1) as nat),
            EnvNode::With { up, .. } => outward(h, up, (depth - 1) as nat),
            EnvNode::Root => env,
        }
    }
}

/// A local is what the frame so many scopes out holds in its place.
pub proof fn law_local_is_in_its_frame(h: HeapView, env: usize, depth: u16, slot: u16)
    requires
        h.env(outward(h, env, depth as nat)) is Frame,
        slot < h.list(h.env(outward(h, env, depth as nat))->Frame_slots).len(),
    ensures
        h.local(env, depth, slot) == (
            h,
            Ok::<Slot, Fault>(
                h.list(h.env(outward(h, env, depth as nat))->Frame_slots)[slot as int],
            ),
        ),
    decreases depth,
{
    if depth > 0 {
        match h.env(env) {
            EnvNode::Frame { up, .. } => law_local_is_in_its_frame(h, up, (depth - 1) as u16, slot),
            EnvNode::With { up, .. } => law_local_is_in_its_frame(h, up, (depth - 1) as u16, slot),
            EnvNode::Root => {
                assert(outward(h, env, depth as nat) == env);
            },
        }
    }
}

/// Whether `with` is the nearest one outward from an environment.
pub open spec fn is_nearest_with(h: HeapView, env: usize, depth: nat) -> bool {
    &&& h.env(outward(h, env, depth)) is With
    &&& forall|d: nat| d < depth ==> h.env(#[trigger] outward(h, env, d)) is Frame
    &&& forall|d: nat| d < depth ==> outward(h, env, d + 1) < #[trigger] outward(h, env, d)
}

/// A name that is looked for is looked for in the nearest `with` first: its
/// subject is forced, and the search goes on outward from there.
pub proof fn law_nearest_with_is_asked_first(h: HeapView, env: usize, sym: Sym, depth: nat)
    requires
        is_nearest_with(h, env, depth),
    ensures
        ({
            let w = h.env(outward(h, env, depth));
            h.walk_with(env, sym) == (
                h,
                (
                    Task::ResolveWith { node: w->With_up, sym, search: Search::AwaitSubject },
                    Ok::<Yield, Fault>(Yield::Force(w->subject)),
                ),
            )
        }),
    decreases depth,
{
    if depth > 0 {
        assert(outward(h, env, 0) == env);
        assert(h.env(outward(h, env, 0)) is Frame);
        let up = h.env(env)->Frame_up;
        assert(outward(h, env, 1) == outward(h, up, 0));
        assert(outward(h, env, 0 + 1) < outward(h, env, 0));
        assert forall|d: nat| d < depth - 1 implies h.env(#[trigger] outward(h, up, d)) is Frame
            && outward(h, up, d + 1) < outward(h, up, d) by {
            assert(outward(h, env, d + 1) == outward(h, up, d));
            assert(outward(h, env, d + 2) == outward(h, up, d + 1));
            assert(outward(h, env, (d + 1) + 1) < outward(h, env, d + 1));
        }
        assert(outward(h, env, depth) == outward(h, up, (depth - 1) as nat));
        law_nearest_with_is_asked_first(h, up, sym, (depth - 1) as nat);
    }
}

} // verus!
