//! What attribute sets and names keep, and that every builtin has its name.
use crate::lang::builtins::{bare, extra_member_text, primop_text, EXTRA_MEMBERS, PRIMOPS};
use crate::lang::heap::{bind, lookup, place, position, unbind, HeapView, Slot, Sym, Value};
use vstd::prelude::*;

verus! {

// -- sets and names ----------------------------------------------------------

/// Whether the names of a set are in order and occur once.
pub open spec fn in_order(set: Seq<(Sym, Slot)>) -> bool {
    forall|i: int, j: int| 0 <= i < j < set.len() ==> (#[trigger] set[i]).0 < (#[trigger] set[j]).0
}

proof fn lemma_place(set: Seq<(Sym, Slot)>, k: Sym, i: int)
    requires
        0 <= i <= set.len(),
        forall|j: int| 0 <= j < i ==> (#[trigger] set[j]).0 < k,
    ensures
        i <= place(set, k, i) <= set.len(),
        forall|j: int| 0 <= j < place(set, k, i) ==> (#[trigger] set[j]).0 < k,
        place(set, k, i) < set.len() ==> set[place(set, k, i)].0 >= k,
    decreases set.len() - i,
{
    if i < set.len() && set[i].0 < k {
        lemma_place(set, k, i + 1);
    }
}

/// Where the entry of a name that is in order is found.
proof fn lemma_placed(set: Seq<(Sym, Slot)>, k: Sym, at: int)
    requires
        in_order(set),
        0 <= at < set.len(),
        set[at].0 == k,
    ensures
        place(set, k, 0) == at,
        lookup(set, k) == Some(set[at].1),
{
    lemma_place(set, k, 0);
    let p = place(set, k, 0);
    if p < at {
        assert(set[p].0 < set[at].0);
    } else if at < p {
        assert(set[at].0 < k);
    }
}

/// Binding a name keeps a set in order, and from then on the name stands for
/// the slot it was bound to; every other name stands for what it stood for.
pub proof fn law_bound_name_is_found(set: Seq<(Sym, Slot)>, k: Sym, s: Slot, other: Sym)
    requires
        in_order(set),
    ensures
        in_order(bind(set, k, s)),
        lookup(bind(set, k, s), k) == Some(s),
        other != k ==> lookup(bind(set, k, s), other) == lookup(set, other),
{
    lemma_place(set, k, 0);
    let p = place(set, k, 0);
    let b = bind(set, k, s);
    assert forall|i: int, j: int| 0 <= i < j < b.len() implies (#[trigger] b[i]).0
        < (#[trigger] b[j]).0 by {
        if b.len() == set.len() {
            assert(set[i].0 < set[j].0);
        } else {
            let x = if i < p {
                i
            } else {
                i - 1
            };
            let y = if j < p {
                j
            } else {
                j - 1
            };
            if i != p && j != p {
                assert(set[x].0 < set[y].0);
            } else if i == p && p < set.len() {
                assert(set[p].0 >= k);
                if y > p {
                    assert(set[p].0 < set[y].0);
                }
            } else if j == p {
                assert(set[i].0 < k);
            }
        }
    }
    assert(b[p] == (k, s));
    lemma_placed(b, k, p);
    if other != k {
        lemma_place(set, other, 0);
        let q = place(set, other, 0);
        if q < set.len() && set[q].0 == other {
            let at = if b.len() == set.len() || q < p {
                q
            } else {
                q + 1
            };
            assert(b[at] == set[q]);
            lemma_placed(b, other, at);
        } else {
            lemma_place(b, other, 0);
            let z = place(b, other, 0);
            if z < b.len() && b[z].0 == other {
                let at = if b.len() == set.len() || z < p {
                    z
                } else {
                    z - 1
                };
                assert(set[at] == b[z]);
                lemma_placed(set, other, at);
            }
        }
    }
}

/// Removing a name keeps a set in order, and the name is gone; every other
/// name stands for what it stood for.
pub proof fn law_unbound_name_is_gone(set: Seq<(Sym, Slot)>, k: Sym, other: Sym)
    requires
        in_order(set),
    ensures
        in_order(unbind(set, k)),
        lookup(unbind(set, k), k) is None,
        other != k ==> lookup(unbind(set, k), other) == lookup(set, other),
{
    lemma_place(set, k, 0);
    let p = place(set, k, 0);
    let b = unbind(set, k);
    if b.len() != set.len() {
        assert forall|i: int, j: int| 0 <= i < j < b.len() implies (#[trigger] b[i]).0
            < (#[trigger] b[j]).0 by {
            let x = if i < p {
                i
            } else {
                i + 1
            };
            let y = if j < p {
                j
            } else {
                j + 1
            };
            assert(set[x].0 < set[y].0);
        }
    }
    lemma_place(b, k, 0);
    let z = place(b, k, 0);
    if z < b.len() && b[z].0 == k {
        let at = if b.len() == set.len() || z < p {
            z
        } else {
            z + 1
        };
        assert(set[at] == b[z]);
        lemma_placed(set, k, at);
    }
    if other != k {
        lemma_place(set, other, 0);
        let q = place(set, other, 0);
        if q < set.len() && set[q].0 == other {
            let at = if b.len() == set.len() || q < p {
                q
            } else {
                q - 1
            };
            assert(b[at] == set[q]);
            lemma_placed(b, other, at);
        } else {
            lemma_place(b, other, 0);
            let y = place(b, other, 0);
            if y < b.len() && b[y].0 == other {
                let at = if b.len() == set.len() || y < p {
                    y
                } else {
                    y + 1
                };
                assert(set[at] == b[y]);
                lemma_placed(set, other, at);
            }
        }
    }
}

proof fn lemma_position(texts: Seq<Seq<char>>, t: Seq<char>, i: int)
    requires
        0 <= i <= texts.len(),
    ensures
        i <= position(texts, t, i) <= texts.len(),
        position(texts, t, i) < texts.len() ==> texts[position(texts, t, i)] == t,
        forall|j: int| i <= j < position(texts, t, i) ==> #[trigger] texts[j] != t,
    decreases texts.len() - i,
{
    if i < texts.len() && texts[i] != t {
        lemma_position(texts, t, i + 1);
    }
}

/// A text is found where it is, once it is known not to be earlier.
proof fn lemma_positioned(texts: Seq<Seq<char>>, t: Seq<char>, i: int, at: int)
    requires
        0 <= i <= at < texts.len(),
        texts[at] == t,
        forall|j: int| i <= j < at ==> #[trigger] texts[j] != t,
    ensures
        position(texts, t, i) == at,
    decreases at - i,
{
    if i < at {
        lemma_positioned(texts, t, i + 1, at);
    }
}

/// A name has one symbol: interning it again gives the same one and changes
/// nothing, and the symbol stands for the name. No other name loses its own.
pub proof fn law_a_name_has_one_symbol(h: HeapView, name: Seq<char>, other: Seq<char>)
    requires
        h.symbols.len() < u32::MAX,
    ensures
        ({
            let (after, sym) = h.intern(name);
            &&& after.intern(name) == (after, sym)
            &&& after.sym_name(sym) == name
            &&& position(h.symbols, other, 0) < h.symbols.len() ==> after.intern(other) == (
                after,
                h.intern(other).1,
            )
        }),
{
    lemma_position(h.symbols, name, 0);
    let (after, sym) = h.intern(name);
    let i = position(h.symbols, name, 0);
    assert forall|j: int| 0 <= j < i implies #[trigger] after.symbols[j] != name by {
        assert(h.symbols[j] != name);
    }
    lemma_positioned(after.symbols, name, 0, i);
    lemma_position(h.symbols, other, 0);
    let k = position(h.symbols, other, 0);
    if k < h.symbols.len() {
        assert forall|j: int| 0 <= j < k implies #[trigger] after.symbols[j] != other by {
            assert(h.symbols[j] != other);
        }
        lemma_positioned(after.symbols, other, 0, k);
    }
}

// -- the builtins set --------------------------------------------------------

/// Whether a name has a symbol that a set binds.
pub open spec fn is_member(h: HeapView, set: Seq<(Sym, Slot)>, name: Seq<char>) -> bool {
    let i = position(h.symbols, name, 0);
    i < h.symbols.len() && lookup(set, i as u32) is Some
}

/// Binding a name makes it a member and keeps every member one.
proof fn lemma_member_added(
    h: HeapView,
    name: Seq<char>,
    more: HeapView,
    set: Seq<(Sym, Slot)>,
    s: Slot,
    other: Seq<char>,
)
    requires
        h.symbols.len() < u32::MAX,
        in_order(set),
        more.symbols == h.intern(name).0.symbols,
    ensures
        in_order(bind(set, h.intern(name).1, s)),
        is_member(more, bind(set, h.intern(name).1, s), name),
        is_member(h, set, other) ==> is_member(more, bind(set, h.intern(name).1, s), other),
        more.symbols.len() <= h.symbols.len() + 1,
{
    let (after, sym) = h.intern(name);
    law_a_name_has_one_symbol(h, name, other);
    lemma_position(h.symbols, name, 0);
    lemma_position(after.symbols, name, 0);
    lemma_position(h.symbols, other, 0);
    lemma_position(after.symbols, other, 0);
    let i = position(h.symbols, other, 0);
    law_bound_name_is_found(set, sym, s, i as u32);
    if is_member(h, set, other) {
        assert(after.intern(other).1 == h.intern(other).1);
        assert(position(after.symbols, other, 0) == i) by {
            assert forall|j: int| 0 <= j < i implies #[trigger] after.symbols[j] != other by {
                assert(h.symbols[j] != other);
            }
            lemma_positioned(after.symbols, other, 0, i);
        }
    }
}

/// What adding the primitive operations from position `i` on keeps and adds.
proof fn lemma_primops_added(h: HeapView, i: usize, set: Seq<(Sym, Slot)>, name: Seq<char>)
    requires
        i <= PRIMOPS,
        h.symbols.len() + (PRIMOPS - i) < u32::MAX,
        in_order(set),
        is_member(h, set, name) || exists|j: usize|
            i <= j < PRIMOPS && bare(#[trigger] primop_text(j)) == name,
    ensures
        ({
            let (after, all) = h.add_primops(i, set);
            &&& in_order(all)
            &&& is_member(after, all, name)
            &&& after.symbols.len() <= h.symbols.len() + (PRIMOPS - i)
            &&& after.sets == h.sets
        }),
    decreases PRIMOPS - i,
{
    if i < PRIMOPS {
        let here = bare(primop_text(i));
        let (mid, sym) = h.intern(here);
        let (more, s) = mid.member_slot(here);
        lemma_member_added(h, here, more, set, s, name);
        if !is_member(h, set, name) {
            let j = choose|j: usize| i <= j < PRIMOPS && bare(#[trigger] primop_text(j)) == name;
            assert(j == i || i + 1 <= j);
        }
        lemma_primops_added(more, (i + 1) as usize, bind(set, sym, s), name);
    }
}

/// What adding the other members from position `i` on keeps and adds.
proof fn lemma_extras_added(h: HeapView, i: usize, set: Seq<(Sym, Slot)>, name: Seq<char>)
    requires
        i <= EXTRA_MEMBERS,
        h.symbols.len() + (EXTRA_MEMBERS - i) < u32::MAX,
        in_order(set),
        is_member(h, set, name) || exists|j: usize|
            i <= j < EXTRA_MEMBERS && #[trigger] extra_member_text(j) == name,
    ensures
        ({
            let (after, all) = h.add_extras(i, set);
            &&& in_order(all)
            &&& is_member(after, all, name)
            &&& after.symbols.len() <= h.symbols.len() + (EXTRA_MEMBERS - i)
            &&& after.sets == h.sets
        }),
    decreases EXTRA_MEMBERS - i,
{
    if i < EXTRA_MEMBERS {
        let here = extra_member_text(i);
        let (mid, sym) = h.intern(here);
        let (more, s) = mid.member_slot(here);
        lemma_member_added(h, here, more, set, s, name);
        if !is_member(h, set, name) {
            let j = choose|j: usize| i <= j < EXTRA_MEMBERS && #[trigger] extra_member_text(j)
                == name;
            assert(j == i || i + 1 <= j);
        }
        lemma_extras_added(more, (i + 1) as usize, bind(set, sym, s), name);
    }
}

/// Whether a name is that of a builtin, implemented or not.
pub open spec fn is_builtin_name(name: Seq<char>) -> bool {
    ||| exists|j: usize| j < PRIMOPS && bare(#[trigger] primop_text(j)) == name
    ||| exists|j: usize| j < EXTRA_MEMBERS && #[trigger] extra_member_text(j) == name
}

/// Every builtin's name is a member of the `builtins` set, whether it is
/// implemented or not, so that none of them is ever reported as missing.
pub proof fn law_every_builtin_is_a_member(h: HeapView, name: Seq<char>)
    requires
        is_builtin_name(name),
        h.symbols.len() + PRIMOPS + EXTRA_MEMBERS + 4 < u32::MAX,
        h.sets.len() < usize::MAX - 1,
    ensures
        ({
            let (after, v) = h.builtins_set();
            v matches Value::Attrs(id) && is_member(after, after.set(id), name)
        }),
{
    let none = Seq::<(Sym, Slot)>::empty();
    let first = bare(primop_text(0));
    let early = if exists|j: usize| j < PRIMOPS && bare(#[trigger] primop_text(j)) == name {
        name
    } else {
        first
    };
    assert(bare(primop_text(0)) == first);
    lemma_primops_added(h, 0, none, early);
    let (h1, s1) = h.add_primops(0, none);
    if early != name {
        assert(exists|j: usize| j < EXTRA_MEMBERS && #[trigger] extra_member_text(j) == name);
    }
    lemma_extras_added(h1, 0, s1, name);
    let (h2, s2) = h1.add_extras(0, s1);
    let (h3, s3) = h2.add_value("true"@, Value::Bool(true), s2);
    lemma_member_added(h2, "true"@, h3, s2, h2.intern("true"@).0.value_slot(Value::Bool(true)).1, name);
    let (h4, s4) = h3.add_value("false"@, Value::Bool(false), s3);
    lemma_member_added(h3, "false"@, h4, s3, h3.intern("false"@).0.value_slot(Value::Bool(false)).1, name);
    let (h5, s5) = h4.add_value("null"@, Value::Null, s4);
    lemma_member_added(h4, "null"@, h5, s4, h4.intern("null"@).0.value_slot(Value::Null).1, name);
    let (h6, b) = h5.attrs_value(none);
    let (h7, s7) = h6.add_value("builtins"@, b, s5);
    lemma_member_added(h6, "builtins"@, h7, s5, h6.intern("builtins"@).0.value_slot(b).1, name);
}

} // verus!
