//! What the builtins that answer at once come to, each by its name.
use crate::lang::builtins::builtin_index;
use crate::lang::frames::{Cont, Need, Yield};
use crate::lang::heap::{
    bind, lookup, place, position, ErrKind, Fault, HeapView, Slot, SlotState, Sym, Value,
};
use crate::lang::list_laws::{argument, driven, lemma_named, Called, Turn};
use crate::lang::operator_laws::is_quotient;
use crate::lang::quote::{bytes_upto, char_index};
use crate::lang::set_laws::{in_order, law_bound_name_is_found};
use crate::text::int_text;
use vstd::prelude::*;

verus! {

/// A call of the builtin with this name, about to run its body.
pub open spec fn is_call(name: Seq<char>, c: Called, t: Turn) -> bool {
    &&& builtin_index(name) == Some(c.idx)
    &&& t.cont == Cont::Start
    &&& t.heap.lists.len() + 4 < usize::MAX
    &&& t.heap.texts.len() + 4 < usize::MAX
    &&& t.heap.sets.len() + 4 < usize::MAX
    &&& t.heap.slots.len() + 4 < usize::MAX
}

/// Whether the call is answered with this value, and nothing else happens.
pub open spec fn answers(c: Called, t: Turn, v: Value) -> bool {
    driven(c, t).0 == t.heap && driven(c, t).1.1 == Ok::<Yield, Fault>(Yield::Done(v))
}

/// Whether the call is answered with whatever a slot holds once it is forced.
pub open spec fn answers_with(c: Called, t: Turn, s: Slot) -> bool {
    &&& driven(c, t).1 == (Cont::Result, Ok::<Yield, Fault>(Yield::Force(s)))
    &&& forall|h: HeapView, v: Value| #[trigger] driven(
        c,
        (Turn { heap: h, cont: Cont::Result, incoming: Some(v) }),
    ) == (h, (Cont::Result, Ok::<Yield, Fault>(Yield::Done(v))))
}

/// Whether the call fails with this message, as an error of the program.
pub open spec fn complains(c: Called, t: Turn, message: Seq<char>) -> bool {
    let (g, (_, y)) = driven(c, t);
    &&& y matches Err(Fault::Throw { kind, text, tail })
    &&& kind == ErrKind::Eval
    &&& tail is None
    &&& g.text(text) == message
}

/// Whether the call is answered with a list of these slots.
pub open spec fn answers_list(c: Called, t: Turn, items: Seq<usize>) -> bool {
    let (g, (_, y)) = driven(c, t);
    y matches Ok(Yield::Done(v)) && v is List && g.list(v->List_0) == items
}

/// Whether the call is answered with a string of this text.
pub open spec fn answers_text(c: Called, t: Turn, text: Seq<char>) -> bool {
    let (g, (_, y)) = driven(c, t);
    y matches Ok(Yield::Done(v)) && v is Str && g.text(v->Str_0) == text
}

/// `length` of a list is the number of its elements.
pub proof fn law_length_counts(c: Called, t: Turn, l: usize)
    requires
        is_call("length"@, c, t),
        argument(t.heap, c, 0) == Some(Value::List(l)),
        t.heap.list(l).len() <= i64::MAX,
    ensures
        answers(c, t, Value::Int(t.heap.list(l).len() as i64)),
{
    reveal(driven);
    reveal_strlit("length");
    lemma_named("length"@, 7, c.idx);
}

/// `head` is the first element, and there is none of an empty list.
pub proof fn law_head_is_the_first(c: Called, t: Turn, l: usize)
    requires
        is_call("head"@, c, t),
        argument(t.heap, c, 0) == Some(Value::List(l)),
        t.heap.list(l).len() <= i64::MAX,
    ensures
        t.heap.list(l).len() > 0 ==> answers_with(c, t, t.heap.list(l)[0]),
        t.heap.list(l).len() == 0 ==> complains(c, t, "list index 0 is out of bounds"@),
{
    reveal(driven);
    reveal_strlit("head");
    lemma_named("head"@, 8, c.idx);
}

/// `tail` is everything behind the first element.
pub proof fn law_tail_is_the_rest(c: Called, t: Turn, l: usize)
    requires
        is_call("tail"@, c, t),
        argument(t.heap, c, 0) == Some(Value::List(l)),
        t.heap.list(l).len() <= i64::MAX,
    ensures
        t.heap.list(l).len() > 0 ==> answers_list(
            c,
            t,
            Seq::new((t.heap.list(l).len() - 1) as nat, |i: int| t.heap.list(l)[i + 1]),
        ),
        t.heap.list(l).len() == 0 ==> complains(c, t, "'tail' called on an empty list"@),
{
    reveal(driven);
    reveal_strlit("tail");
    lemma_named("tail"@, 9, c.idx);
    if t.heap.list(l).len() > 0 {
        assert(t.heap.list(l).drop_first() =~= Seq::new(
            (t.heap.list(l).len() - 1) as nat,
            |i: int| t.heap.list(l)[i + 1],
        ));
    }
}

/// `elemAt` is the element at a place, counted from zero; every other place is out of
/// bounds.
pub proof fn law_elem_at_is_that_element(c: Called, t: Turn, l: usize, i: i64)
    requires
        is_call("elemAt"@, c, t),
        argument(t.heap, c, 0) == Some(Value::List(l)),
        t.heap.list(l).len() <= i64::MAX,
        argument(t.heap, c, 1) == Some(Value::Int(i)),
    ensures
        0 <= i < t.heap.list(l).len() ==> answers_with(c, t, t.heap.list(l)[i as int]),
        !(0 <= i < t.heap.list(l).len()) ==> complains(
            c,
            t,
            "list index "@ + int_text(i as int) + " is out of bounds"@,
        ),
{
    reveal(driven);
    reveal_strlit("elemAt");
    lemma_named("elemAt"@, 10, c.idx);
}

/// `isNull` tells whether a value is null.
pub proof fn law_is_null(c: Called, t: Turn, v: Value)
    requires
        is_call("isNull"@, c, t),
        argument(t.heap, c, 0) == Some(v),
    ensures
        answers(c, t, Value::Bool(v is Null)),
{
    reveal(driven);
    reveal_strlit("isNull");
    lemma_named("isNull"@, 4, c.idx);
}

/// `isInt` tells whether a value is an integer.
pub proof fn law_is_int(c: Called, t: Turn, v: Value)
    requires
        is_call("isInt"@, c, t),
        argument(t.heap, c, 0) == Some(v),
    ensures
        answers(c, t, Value::Bool(v is Int)),
{
    reveal(driven);
    reveal_strlit("isInt");
    lemma_named("isInt"@, 41, c.idx);
}

/// `isFloat` tells whether a value is a float.
pub proof fn law_is_float(c: Called, t: Turn, v: Value)
    requires
        is_call("isFloat"@, c, t),
        argument(t.heap, c, 0) == Some(v),
    ensures
        answers(c, t, Value::Bool(v is Float)),
{
    reveal(driven);
    reveal_strlit("isFloat");
    lemma_named("isFloat"@, 42, c.idx);
}

/// `isBool` tells whether a value is a Boolean.
pub proof fn law_is_bool(c: Called, t: Turn, v: Value)
    requires
        is_call("isBool"@, c, t),
        argument(t.heap, c, 0) == Some(v),
    ensures
        answers(c, t, Value::Bool(v is Bool)),
{
    reveal(driven);
    reveal_strlit("isBool");
    lemma_named("isBool"@, 43, c.idx);
}

/// `isString` tells whether a value is a string.
pub proof fn law_is_string(c: Called, t: Turn, v: Value)
    requires
        is_call("isString"@, c, t),
        argument(t.heap, c, 0) == Some(v),
    ensures
        answers(c, t, Value::Bool(v is Str)),
{
    reveal(driven);
    reveal_strlit("isString");
    lemma_named("isString"@, 44, c.idx);
}

/// `isPath` tells whether a value is a path.
pub proof fn law_is_path(c: Called, t: Turn, v: Value)
    requires
        is_call("isPath"@, c, t),
        argument(t.heap, c, 0) == Some(v),
    ensures
        answers(c, t, Value::Bool(v is Path)),
{
    reveal(driven);
    reveal_strlit("isPath");
    lemma_named("isPath"@, 45, c.idx);
}

/// `isList` tells whether a value is a list.
pub proof fn law_is_list(c: Called, t: Turn, v: Value)
    requires
        is_call("isList"@, c, t),
        argument(t.heap, c, 0) == Some(v),
    ensures
        answers(c, t, Value::Bool(v is List)),
{
    reveal(driven);
    reveal_strlit("isList");
    lemma_named("isList"@, 46, c.idx);
}

/// `isAttrs` tells whether a value is a set.
pub proof fn law_is_attrs(c: Called, t: Turn, v: Value)
    requires
        is_call("isAttrs"@, c, t),
        argument(t.heap, c, 0) == Some(v),
    ensures
        answers(c, t, Value::Bool(v is Attrs)),
{
    reveal(driven);
    reveal_strlit("isAttrs");
    lemma_named("isAttrs"@, 47, c.idx);
}

/// `isFunction` tells whether a value is a function, written or built in.
pub proof fn law_is_function(c: Called, t: Turn, v: Value)
    requires
        is_call("isFunction"@, c, t),
        argument(t.heap, c, 0) == Some(v),
    ensures
        answers(c, t, Value::Bool(v is Closure || v is Builtin)),
{
    reveal(driven);
    reveal_strlit("isFunction");
    lemma_named("isFunction"@, 48, c.idx);
}

/// `add` of two integers is their sum, where it fits.
pub proof fn law_add(c: Called, t: Turn, a: i64, b: i64)
    requires
        is_call("add"@, c, t),
        argument(t.heap, c, 0) == Some(Value::Int(a)),
        argument(t.heap, c, 1) == Some(Value::Int(b)),
    ensures
        i64::MIN <= a + b <= i64::MAX ==> answers(c, t, Value::Int((a + b) as i64)),
        !(i64::MIN <= a + b <= i64::MAX) ==> complains(c, t, "integer overflow"@),
{
    reveal(driven);
    reveal_strlit("add");
    lemma_named("add"@, 49, c.idx);
}

/// `sub` of two integers is their difference, where it fits.
pub proof fn law_sub(c: Called, t: Turn, a: i64, b: i64)
    requires
        is_call("sub"@, c, t),
        argument(t.heap, c, 0) == Some(Value::Int(a)),
        argument(t.heap, c, 1) == Some(Value::Int(b)),
    ensures
        i64::MIN <= a - b <= i64::MAX ==> answers(c, t, Value::Int((a - b) as i64)),
        !(i64::MIN <= a - b <= i64::MAX) ==> complains(c, t, "integer overflow"@),
{
    reveal(driven);
    reveal_strlit("sub");
    lemma_named("sub"@, 50, c.idx);
}

/// `mul` of two integers is their product, where it fits.
pub proof fn law_mul(c: Called, t: Turn, a: i64, b: i64)
    requires
        is_call("mul"@, c, t),
        argument(t.heap, c, 0) == Some(Value::Int(a)),
        argument(t.heap, c, 1) == Some(Value::Int(b)),
    ensures
        i64::MIN <= a * b <= i64::MAX ==> answers(c, t, Value::Int((a * b) as i64)),
        !(i64::MIN <= a * b <= i64::MAX) ==> complains(c, t, "integer overflow"@),
{
    reveal(driven);
    reveal_strlit("mul");
    lemma_named("mul"@, 51, c.idx);
}

/// `div` of two integers is their quotient, rounded toward zero, where there is one.
pub proof fn law_div(c: Called, t: Turn, a: i64, b: i64)
    requires
        is_call("div"@, c, t),
        argument(t.heap, c, 0) == Some(Value::Int(a)),
        argument(t.heap, c, 1) == Some(Value::Int(b)),
    ensures
        b == 0 ==> complains(c, t, "division by zero"@),
        a == i64::MIN && b == -1 ==> complains(c, t, "integer overflow"@),
        b != 0 && !(a == i64::MIN && b == -1) ==> exists|q: i64| #[trigger]
            answers(c, t, Value::Int(q)) && is_quotient(a as int, b as int, q as int),
{
    reveal(driven);
    reveal_strlit("div");
    lemma_named("div"@, 52, c.idx);
    if b != 0 {
        crate::lang::operator_laws::lemma_quotient(a, b);
        if a.checked_div(b) is Some {
            assert(answers(c, t, Value::Int(a.checked_div(b)->0)));
        }
    }
}

/// `bitAnd` of two integers has the bits that are set in both.
pub proof fn law_bit_and(c: Called, t: Turn, a: i64, b: i64)
    requires
        is_call("bitAnd"@, c, t),
        argument(t.heap, c, 0) == Some(Value::Int(a)),
        argument(t.heap, c, 1) == Some(Value::Int(b)),
    ensures
        answers(c, t, Value::Int(a & b)),
{
    reveal(driven);
    reveal_strlit("bitAnd");
    lemma_named("bitAnd"@, 54, c.idx);
}

/// `bitOr` of two integers has the bits that are set in either.
pub proof fn law_bit_or(c: Called, t: Turn, a: i64, b: i64)
    requires
        is_call("bitOr"@, c, t),
        argument(t.heap, c, 0) == Some(Value::Int(a)),
        argument(t.heap, c, 1) == Some(Value::Int(b)),
    ensures
        answers(c, t, Value::Int(a | b)),
{
    reveal(driven);
    reveal_strlit("bitOr");
    lemma_named("bitOr"@, 55, c.idx);
}

/// `bitXor` of two integers has the bits that are set in one of them.
pub proof fn law_bit_xor(c: Called, t: Turn, a: i64, b: i64)
    requires
        is_call("bitXor"@, c, t),
        argument(t.heap, c, 0) == Some(Value::Int(a)),
        argument(t.heap, c, 1) == Some(Value::Int(b)),
    ensures
        answers(c, t, Value::Int(a ^ b)),
{
    reveal(driven);
    reveal_strlit("bitXor");
    lemma_named("bitXor"@, 56, c.idx);
}

/// `seq` is its second argument, the first having been forced.
pub proof fn law_seq_is_the_second(c: Called, t: Turn, a: Value, b: Value)
    requires
        is_call("seq"@, c, t),
        argument(t.heap, c, 0) == Some(a),
        argument(t.heap, c, 1) == Some(b),
    ensures
        answers(c, t, b),
{
    reveal(driven);
    reveal_strlit("seq");
    lemma_named("seq"@, 36, c.idx);
}

/// `throw` fails with its text, in the way that can be caught.
pub proof fn law_throw_can_be_caught(c: Called, t: Turn, s: usize)
    requires
        is_call("throw"@, c, t),
        argument(t.heap, c, 0) == Some(Value::Str(s)),
    ensures
        driven(c, t).1.1 == Err::<Yield, Fault>(
            Fault::Throw { kind: ErrKind::Thrown, text: s, tail: None },
        ),
        driven(c, t).0 == t.heap,
{
    reveal(driven);
    reveal_strlit("throw");
    lemma_named("throw"@, 0, c.idx);
}

/// `abort` fails in the way that cannot be caught, and says its text.
pub proof fn law_abort_cannot_be_caught(c: Called, t: Turn, s: usize)
    requires
        is_call("abort"@, c, t),
        argument(t.heap, c, 0) == Some(Value::Str(s)),
    ensures
        complains(
            c,
            t,
            "evaluation aborted with the following error message: '"@ + t.heap.text(s) + "'"@,
        ),
{
    reveal(driven);
    reveal_strlit("abort");
    lemma_named("abort"@, 1, c.idx);
}

/// Whether a set binds a name.
pub open spec fn binds(h: HeapView, set: Seq<(Sym, Slot)>, name: Seq<char>, s: Slot) -> bool {
    exists|i: int| 0 <= i < set.len() && h.sym_name((#[trigger] set[i]).0) == name && set[i].1 == s
}

/// Whether the names of a set are known, no two symbols have one name, and
/// the set is in order.
pub open spec fn is_set(h: HeapView, set: Seq<(Sym, Slot)>) -> bool {
    &&& in_order(set)
    &&& forall|i: int| 0 <= i < set.len() ==> (#[trigger] set[i]).0 < h.symbols.len()
    &&& h.symbols.no_duplicates()
    &&& h.symbols.len() <= u32::MAX
}

pub proof fn lemma_position(texts: Seq<Seq<char>>, t: Seq<char>, i: int)
    requires
        0 <= i <= texts.len(),
    ensures
        i <= position(texts, t, i) <= texts.len(),
        position(texts, t, i) < texts.len() ==> texts[position(texts, t, i)] == t,
        forall|j: int| i <= j < position(texts, t, i) ==> #[trigger] texts[j] != t,
    decreases texts.len() - i,
{
    if i < texts.len() && texts[i] != t {
        lemma_position(texts, t, i + 1);
    }
}

pub proof fn lemma_place(set: Seq<(Sym, Slot)>, k: Sym, i: int)
    requires
        0 <= i <= set.len(),
        in_order(set),
        forall|j: int| 0 <= j < i ==> (#[trigger] set[j]).0 < k,
    ensures
        lookup(set, k) is Some ==> exists|j: int|
            0 <= j < set.len() && (#[trigger] set[j]).0 == k && lookup(set, k) == Some(set[j].1),
        forall|j: int|
            0 <= j < set.len() && (#[trigger] set[j]).0 == k ==> lookup(set, k) == Some(set[j].1),
        i <= place(set, k, i) <= set.len(),
        forall|j: int| 0 <= j < place(set, k, i) ==> (#[trigger] set[j]).0 < k,
        place(set, k, i) < set.len() ==> set[place(set, k, i)].0 >= k,
    decreases set.len() - i,
{
    if i < set.len() && set[i].0 < k {
        lemma_place(set, k, i + 1);
    } else if i == 0 {
        assert forall|j: int| 0 <= j < set.len() && (#[trigger] set[j]).0 == k implies lookup(
            set,
            k,
        ) == Some(set[j].1) by {
            if j > 0 {
                assert(set[0].0 < set[j].0);
            }
        }
    } else {
        lemma_place_at(set, k, 0, i);
        assert forall|j: int| 0 <= j < set.len() && (#[trigger] set[j]).0 == k implies lookup(
            set,
            k,
        ) == Some(set[j].1) by {
            if j > i {
                assert(set[i].0 < set[j].0);
            }
        }
    }
}

proof fn lemma_place_at(set: Seq<(Sym, Slot)>, k: Sym, from: int, i: int)
    requires
        0 <= from <= i <= set.len(),
        forall|j: int| 0 <= j < i ==> (#[trigger] set[j]).0 < k,
        i < set.len() ==> set[i].0 >= k,
    ensures
        place(set, k, from) == i,
    decreases i - from,
{
    if from < i {
        lemma_place_at(set, k, from + 1, i);
    }
}

/// Looking a name up by its symbol finds what the set binds it to.
pub proof fn lemma_looked_up(h: HeapView, set: Seq<(Sym, Slot)>, name: Seq<char>)
    requires
        is_set(h, set),
    ensures
        ({
            let got = lookup(set, h.intern(name).1);
            &&& got matches Some(s) ==> binds(h, set, name, s)
            &&& forall|s: Slot| #[trigger] binds(h, set, name, s) ==> got == Some(s)
        }),
{
    let k = h.intern(name).1;
    lemma_position(h.symbols, name, 0);
    lemma_place(set, k, 0);
    let p = position(h.symbols, name, 0);
    if lookup(set, k) is Some {
        let j = choose|j: int|
            0 <= j < set.len() && (#[trigger] set[j]).0 == k && lookup(set, k) == Some(set[j].1);
        assert(h.sym_name(set[j].0) == name);
    }
    assert forall|s: Slot| #[trigger] binds(h, set, name, s) implies lookup(set, k) == Some(s) by {
        let i = choose|i: int|
            0 <= i < set.len() && h.sym_name((#[trigger] set[i]).0) == name && set[i].1 == s;
        let q = set[i].0 as int;
        assert(h.symbols[q] == name);
        assert(p <= q);
        assert(p == q) by {
            if p < q {
                assert(h.symbols[p] != h.symbols[q]);
            }
        }
        assert(set[i].0 == k);
    }
}

/// `getAttr` is what a set binds a name to, and fails where it does not.
pub proof fn law_get_attr_is_what_is_bound(c: Called, t: Turn, n: usize, m: usize)
    requires
        is_call("getAttr"@, c, t),
        argument(t.heap, c, 0) == Some(Value::Str(n)),
        argument(t.heap, c, 1) == Some(Value::Attrs(m)),
        is_set(t.heap, t.heap.set(m)),
    ensures
        forall|s: Slot| #[trigger]
            binds(t.heap, t.heap.set(m), t.heap.text(n), s) ==> answers_with(c, t, s),
        (forall|s: Slot| !#[trigger] binds(t.heap, t.heap.set(m), t.heap.text(n), s)) ==> complains(
            c,
            t,
            "attribute '"@ + t.heap.text(n) + "' missing"@,
        ),
{
    reveal(driven);
    reveal_strlit("getAttr");
    lemma_named("getAttr"@, 22, c.idx);
    lemma_looked_up(t.heap, t.heap.set(m), t.heap.text(n));
}

/// `hasAttr` tells whether a set binds a name.
pub proof fn law_has_attr_tells_what_is_bound(c: Called, t: Turn, n: usize, m: usize)
    requires
        is_call("hasAttr"@, c, t),
        argument(t.heap, c, 0) == Some(Value::Str(n)),
        argument(t.heap, c, 1) == Some(Value::Attrs(m)),
        is_set(t.heap, t.heap.set(m)),
    ensures
        driven(c, t).1.1 == Ok::<Yield, Fault>(
            Yield::Done(
                Value::Bool(
                    exists|s: Slot| #[trigger] binds(t.heap, t.heap.set(m), t.heap.text(n), s),
                ),
            ),
        ),
{
    reveal(driven);
    reveal_strlit("hasAttr");
    lemma_named("hasAttr"@, 23, c.idx);
    lemma_looked_up(t.heap, t.heap.set(m), t.heap.text(n));
}

/// `stringLength` is the number of bytes, which for ASCII is that of the characters.
pub proof fn law_string_length_counts_bytes(c: Called, t: Turn, s: usize)
    requires
        is_call("stringLength"@, c, t),
        argument(t.heap, c, 0) == Some(Value::Str(s)),
        is_ascii(t.heap.text(s)),
        t.heap.text(s).len() <= i64::MAX,
    ensures
        answers(c, t, Value::Int(t.heap.text(s).len() as i64)),
{
    reveal(driven);
    reveal_strlit("stringLength");
    lemma_named("stringLength"@, 31, c.idx);
    lemma_ascii(t.heap.text(s), t.heap.text(s).len() as int);
}

/// Whether every character is an ASCII one.
pub open spec fn is_ascii(t: Seq<char>) -> bool {
    forall|i: int| 0 <= i < t.len() ==> (#[trigger] t[i] as int) < 128
}

proof fn lemma_ascii(t: Seq<char>, n: int)
    requires
        is_ascii(t),
        0 <= n <= t.len(),
    ensures
        bytes_upto(t, n) == n,
    decreases n,
{
    if n > 0 {
        lemma_ascii(t, n - 1);
        assert((t[n - 1] as int) < 128);
    }
}

// -- what is asked for -------------------------------------------------------

/// Whether the call asks for this and is answered with whatever the answer is.
pub open spec fn asks_for(c: Called, t: Turn, need: Need) -> bool {
    let after = Cont::Ask { asked: true, need };
    &&& driven(c, t) == (t.heap, (after, Ok::<Yield, Fault>(Yield::Need(need))))
    &&& forall|h: HeapView, v: Value| #[trigger] driven(
        c,
        (Turn { heap: h, cont: after, incoming: Some(v) }),
    ) == (h, (after, Ok::<Yield, Fault>(Yield::Done(v))))
}

/// `readFile` is the contents of the file that its argument names.
pub proof fn law_read_file_asks_for_contents(c: Called, t: Turn, p: usize)
    requires
        is_call("readFile"@, c, t),
        argument(t.heap, c, 0) == Some(Value::Str(p)) || argument(t.heap, c, 0) == Some(
            Value::Path(p),
        ),
    ensures
        asks_for(c, t, Need::Contents(p)),
{
    reveal(driven);
    reveal_strlit("readFile");
    lemma_named("readFile"@, 61, c.idx);
}

/// `pathExists` is whether there is what its argument names.
pub proof fn law_path_exists_asks_whether(c: Called, t: Turn, p: usize)
    requires
        is_call("pathExists"@, c, t),
        argument(t.heap, c, 0) == Some(Value::Str(p)) || argument(t.heap, c, 0) == Some(
            Value::Path(p),
        ),
    ensures
        asks_for(c, t, Need::Exists(p)),
{
    reveal(driven);
    reveal_strlit("pathExists");
    lemma_named("pathExists"@, 62, c.idx);
}

/// `readDir` is the entries of the directory that its argument names.
pub proof fn law_read_dir_asks_for_entries(c: Called, t: Turn, p: usize)
    requires
        is_call("readDir"@, c, t),
        argument(t.heap, c, 0) == Some(Value::Str(p)) || argument(t.heap, c, 0) == Some(
            Value::Path(p),
        ),
    ensures
        asks_for(c, t, Need::Entries(p)),
{
    reveal(driven);
    reveal_strlit("readDir");
    lemma_named("readDir"@, 63, c.idx);
}

/// `readFileType` is the kind of what its argument names.
pub proof fn law_read_file_type_asks_for_the_kind(c: Called, t: Turn, p: usize)
    requires
        is_call("readFileType"@, c, t),
        argument(t.heap, c, 0) == Some(Value::Str(p)) || argument(t.heap, c, 0) == Some(
            Value::Path(p),
        ),
    ensures
        asks_for(c, t, Need::Kind(p)),
{
    reveal(driven);
    reveal_strlit("readFileType");
    lemma_named("readFileType"@, 64, c.idx);
}

/// `getEnv` is the variable that its argument names.
pub proof fn law_get_env_asks_for_the_variable(c: Called, t: Turn, p: usize)
    requires
        is_call("getEnv"@, c, t),
        argument(t.heap, c, 0) == Some(Value::Str(p)),
    ensures
        asks_for(c, t, Need::Env(p)),
{
    reveal(driven);
    reveal_strlit("getEnv");
    lemma_named("getEnv"@, 66, c.idx);
}

/// `fromJSON` is the value of its argument, read as JSON.
pub proof fn law_from_json_asks_for_json(c: Called, t: Turn, p: usize)
    requires
        is_call("fromJSON"@, c, t),
        argument(t.heap, c, 0) == Some(Value::Str(p)),
    ensures
        asks_for(c, t, Need::Json(p)),
{
    reveal(driven);
    reveal_strlit("fromJSON");
    lemma_named("fromJSON"@, 71, c.idx);
}

/// `fromTOML` is the value of its argument, read as TOML.
pub proof fn law_from_toml_asks_for_toml(c: Called, t: Turn, p: usize)
    requires
        is_call("fromTOML"@, c, t),
        argument(t.heap, c, 0) == Some(Value::Str(p)),
    ensures
        asks_for(c, t, Need::Toml(p)),
{
    reveal(driven);
    reveal_strlit("fromTOML");
    lemma_named("fromTOML"@, 72, c.idx);
}

// -- substring ---------------------------------------------------------------

proof fn lemma_char_index(t: Seq<char>, b: int, i: int)
    requires
        is_ascii(t),
        0 <= i <= b <= t.len(),
    ensures
        char_index(t, b, i) == Some(b),
    decreases b - i,
{
    lemma_ascii(t, i);
    if i < b {
        lemma_char_index(t, b, i + 1);
    }
}

/// `substring` of an ASCII text is as many characters as are asked for, from
/// the place that is asked for, as far as there are any; a negative number
/// asks for all that follow, and a negative place is refused.
pub proof fn law_substring_is_that_part(c: Called, t: Turn, start: i64, len: i64, s: usize)
    requires
        is_call("substring"@, c, t),
        argument(t.heap, c, 0) == Some(Value::Int(start)),
        argument(t.heap, c, 1) == Some(Value::Int(len)),
        argument(t.heap, c, 2) == Some(Value::Str(s)),
        is_ascii(t.heap.text(s)),
    ensures
        ({
            let all = t.heap.text(s);
            let n = all.len() as int;
            &&& start < 0 ==> complains(c, t, "negative start position in 'substring'"@)
            &&& start >= n ==> answers_text(c, t, Seq::empty())
            &&& 0 <= start < n && (len < 0 || start + len > n) ==> answers_text(
                c,
                t,
                all.skip(start as int),
            )
            &&& 0 <= start < n && 0 <= len && start + len <= n ==> answers_text(
                c,
                t,
                all.subrange(start as int, start + len),
            )
        }),
{
    reveal(driven);
    reveal_strlit("substring");
    lemma_named("substring"@, 32, c.idx);
    let all = t.heap.text(s);
    let n = all.len() as int;
    lemma_ascii(all, n);
    if 0 <= start < n {
        lemma_char_index(all, start as int, 0);
        lemma_char_index(all, n, 0);
        assert(all.subrange(start as int, n) =~= all.skip(start as int));
        if 0 <= len && start + len <= n {
            lemma_char_index(all, start + len, 0);
        }
    }
}

// -- toString and tryEval ----------------------------------------------------

/// `toString` of a string or a path is its text, of an integer its digits, of
/// true `1`, and of false and null nothing; sets and functions have none.
pub proof fn law_to_string_of_scalars(c: Called, t: Turn, v: Value)
    requires
        is_call("toString"@, c, t),
        argument(t.heap, c, 0) == Some(v),
    ensures
        v matches Value::Str(s) ==> answers_text(c, t, t.heap.text(s)),
        v matches Value::Path(s) ==> answers_text(c, t, t.heap.text(s)),
        v matches Value::Int(n) ==> answers_text(c, t, int_text(n as int)),
        v == Value::Bool(true) ==> answers_text(c, t, seq!['1']),
        v == Value::Bool(false) || v == Value::Null ==> answers_text(c, t, seq![]),
        v is Attrs || v is Closure || v is Builtin ==> driven(c, t).1.1 is Err,
{
    reveal(driven);
    reveal_strlit("toString");
    reveal_strlit("1");
    reveal_strlit("");
    lemma_named("toString"@, 2, c.idx);
    assert("1"@ =~= seq!['1']);
    assert(""@ =~= seq![]);
}

proof fn lemma_position_end(texts: Seq<Seq<char>>, t: Seq<char>, i: int)
    requires
        0 <= i <= texts.len(),
        position(texts, t, i) == texts.len(),
    ensures
        position(texts.push(t), t, i) == texts.len(),
    decreases texts.len() - i,
{
    if i < texts.len() {
        assert(texts.push(t)[i] == texts[i]);
        lemma_position_end(texts, t, i + 1);
    }
}

proof fn lemma_position_stays(texts: Seq<Seq<char>>, more: Seq<char>, t: Seq<char>, i: int)
    requires
        0 <= i <= texts.len(),
        position(texts, t, i) < texts.len(),
    ensures
        position(texts.push(more), t, i) == position(texts, t, i),
    decreases texts.len() - i,
{
    assert(texts.push(more)[i] == texts[i]);
    if texts[i] != t {
        lemma_position_stays(texts, more, t, i + 1);
    }
}

/// What a set binds a name to.
pub open spec fn member(g: HeapView, set: usize, name: Seq<char>) -> Option<SlotState> {
    match lookup(g.set(set), g.intern(name).1) {
        Some(s) => Some(g.slot(s)),
        None => None,
    }
}

/// What `tryEval` answers: a set that says whether the expression had a value,
/// and which.
pub proof fn law_try_eval_says_how_it_went(h: HeapView, success: bool, v: Value)
    requires
        h.symbols.len() + 4 < u32::MAX,
        h.slots.len() + 4 < usize::MAX,
        h.sets.len() + 4 < usize::MAX,
    ensures
        ({
            let (g, r) = h.try_eval_result(success, v);
            &&& r is Attrs
            &&& member(g, r->Attrs_0, "success"@) == Some(SlotState::Value(Value::Bool(success)))
            &&& member(g, r->Attrs_0, "value"@) == Some(SlotState::Value(v))
            &&& g.set(r->Attrs_0).len() == 2
        }),
{
    reveal_strlit("success");
    reveal_strlit("value");
    let a = "success"@;
    let b = "value"@;
    assert(a.len() != b.len());
    let (h1, s) = h.intern(a);
    let (h2, ss) = h1.value_slot(Value::Bool(success));
    let (h3, k) = h2.intern(b);
    let (h4, vs) = h3.value_slot(v);
    let none = Seq::<(Sym, Slot)>::empty();
    let one = bind(none, s, ss);
    let two = bind(one, k, vs);
    let (g, r) = h4.attrs_value(two);
    lemma_position(h.symbols, a, 0);
    lemma_position(h1.symbols, a, 0);
    lemma_position(h1.symbols, b, 0);
    if position(h.symbols, a, 0) == h.symbols.len() {
        lemma_position_end(h.symbols, a, 0);
    }
    assert(position(h1.symbols, a, 0) == s as int && s < h1.symbols.len());
    if position(h1.symbols, b, 0) == h1.symbols.len() {
        lemma_position_end(h1.symbols, b, 0);
        lemma_position_stays(h1.symbols, b, a, 0);
    }
    assert(g.intern(a).1 == s);
    assert(g.intern(b).1 == k);
    assert(s != k) by {
        if s == k {
            assert(h3.symbols[s as int] == a);
            assert(h3.symbols[k as int] == b);
        }
    }
    assert(in_order(none));
    law_bound_name_is_found(none, s, ss, k);
    law_bound_name_is_found(one, k, vs, s);
    assert(one =~= seq![(s, ss)]);
    assert(two.len() == 2) by {
        lemma_place(one, k, 0);
    }
}

/// `tryEval` forces its argument, and where that gives a value says so.
pub proof fn law_try_eval_forces_its_argument(c: Called, t: Turn, h: HeapView, v: Value)
    requires
        is_call("tryEval"@, c, t),
        t.heap.list(c.args).len() > 0,
    ensures
        driven(c, t) == (
            t.heap,
            (
                Cont::TryEval { started: true },
                Ok::<Yield, Fault>(Yield::Force(t.heap.list(c.args)[0])),
            ),
        ),
        ({
            let (g, (_, y)) = driven(
                c,
                (Turn { heap: h, cont: Cont::TryEval { started: true }, incoming: Some(v) }),
            );
            y == Ok::<Yield, Fault>(Yield::Done(h.try_eval_result(true, v).1)) && g
                == h.try_eval_result(true, v).0
        }),
{
    reveal(driven);
    reveal_strlit("tryEval");
    lemma_named("tryEval"@, 38, c.idx);
}

} // verus!
