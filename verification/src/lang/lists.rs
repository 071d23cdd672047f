//! Builtins over lists, and the arithmetic and type-test builtins.
use crate::lang::frames::{Begin, Cont, Finish, FloatAsk, Num};
use crate::lang::heap::{Fault, Heap, HeapView, Value};
use crate::lang::ops::type_text;
use crate::lang::walks::{float_task, new_float_task};
use crate::text::{append_int, int_text, text_of, Text};
use vstd::prelude::*;

verus! {

/// What a builtin body leaves: the heap and how to go on.
pub type Started = (HeapView, Result<Begin, Fault>);

/// The four arithmetic operations.
#[derive(Debug, Clone, Copy, PartialEq, Eq, Structural)]
pub enum Arith {
    Add,
    Sub,
    Mul,
    Div,
}

/// Integer arithmetic, where the result fits. Division truncates.
pub open spec fn int_arith(op: Arith, a: i64, b: i64) -> Option<i64> {
    match op {
        Arith::Add => a.checked_add(b),
        Arith::Sub => a.checked_sub(b),
        Arith::Mul => a.checked_mul(b),
        Arith::Div => a.checked_div(b),
    }
}

pub fn int_arith_of(op: Arith, a: i64, b: i64) -> (r: Option<i64>)
    ensures
        r == int_arith(op, a, b),
{
    match op {
        Arith::Add => a.checked_add(b),
        Arith::Sub => a.checked_sub(b),
        Arith::Mul => a.checked_mul(b),
        Arith::Div => a.checked_div(b),
    }
}

/// The floating-point question for an arithmetic operation.
pub open spec fn float_arith(op: Arith, a: Num, b: Num) -> FloatAsk {
    match op {
        Arith::Add => FloatAsk::Add(a, b),
        Arith::Sub => FloatAsk::Sub(a, b),
        Arith::Mul => FloatAsk::Mul(a, b),
        Arith::Div => FloatAsk::Div(a, b),
    }
}

pub fn float_arith_of(op: Arith, a: Num, b: Num) -> (r: FloatAsk)
    ensures
        r == float_arith(op, a, b),
{
    match op {
        Arith::Add => FloatAsk::Add(a, b),
        Arith::Sub => FloatAsk::Sub(a, b),
        Arith::Mul => FloatAsk::Mul(a, b),
        Arith::Div => FloatAsk::Div(a, b),
    }
}

/// What `typeOf` calls a value.
pub open spec fn type_word(v: Value) -> Seq<char> {
    match v {
        Value::Int(_) => "int"@,
        Value::Float(_) => "float"@,
        Value::Bool(_) => "bool"@,
        Value::Null => "null"@,
        Value::Str(_) => "string"@,
        Value::Path(_) => "path"@,
        Value::List(_) => "list"@,
        Value::Attrs(_) => "set"@,
        Value::Closure { .. } => "lambda"@,
        Value::Builtin { .. } => "lambda"@,
    }
}

/// The type tests.
#[derive(Debug, Clone, Copy, PartialEq, Eq, Structural)]
pub enum Test {
    Null,
    Int,
    Float,
    Bool,
    Str,
    Path,
    List,
    Attrs,
    Function,
}

pub open spec fn passes(t: Test, v: Value) -> bool {
    match t {
        Test::Null => v is Null,
        Test::Int => v is Int,
        Test::Float => v is Float,
        Test::Bool => v is Bool,
        Test::Str => v is Str,
        Test::Path => v is Path,
        Test::List => v is List,
        Test::Attrs => v is Attrs,
        Test::Function => v is Closure || v is Builtin,
    }
}

fn test_passes(t: Test, v: Value) -> (r: bool)
    ensures
        r == passes(t, v),
{
    match (t, v) {
        (Test::Null, Value::Null) => true,
        (Test::Int, Value::Int(_)) => true,
        (Test::Float, Value::Float(_)) => true,
        (Test::Bool, Value::Bool(_)) => true,
        (Test::Str, Value::Str(_)) => true,
        (Test::Path, Value::Path(_)) => true,
        (Test::List, Value::List(_)) => true,
        (Test::Attrs, Value::Attrs(_)) => true,
        (Test::Function, Value::Closure { .. }) => true,
        (Test::Function, Value::Builtin { .. }) => true,
        _ => false,
    }
}

/// The bitwise operations.
#[derive(Debug, Clone, Copy, PartialEq, Eq, Structural)]
pub enum Bits {
    And,
    Or,
    Xor,
}

pub open spec fn bits(op: Bits, a: i64, b: i64) -> i64 {
    match op {
        Bits::And => a & b,
        Bits::Or => a | b,
        Bits::Xor => a ^ b,
    }
}

impl HeapView {
    pub open spec fn want_num(self, v: Value) -> (HeapView, Result<Num, Fault>) {
        match v {
            Value::Int(n) => (self, Ok(Num::Int(n))),
            Value::Float(x) => (self, Ok(Num::Float(x))),
            _ => self.fail("expected an integer or float but found "@ + type_text(v)),
        }
    }

    pub open spec fn bi_length(self, args: usize) -> Started {
        match self.arg_list(args, 0) {
            (h, Err(e)) => (h, Err(e)),
            (h, Ok(l)) => (h, Ok(Begin::Done(Value::Int(h.list(l).len() as i64)))),
        }
    }

    pub open spec fn bi_head(self, args: usize) -> Started {
        match self.arg_list(args, 0) {
            (h, Err(e)) => (h, Err(e)),
            (h, Ok(l)) => if h.list(l).len() == 0 {
                h.fail("list index 0 is out of bounds"@)
            } else {
                (h, Ok(Begin::Force(h.list(l)[0])))
            },
        }
    }

    pub open spec fn bi_tail(self, args: usize) -> Started {
        match self.arg_list(args, 0) {
            (h, Err(e)) => (h, Err(e)),
            (h, Ok(l)) => if h.list(l).len() == 0 {
                h.fail("'tail' called on an empty list"@)
            } else {
                let (h, v) = h.list_value(h.list(l).drop_first());
                (h, Ok(Begin::Done(v)))
            },
        }
    }

    pub open spec fn bi_elem_at(self, args: usize) -> Started {
        match self.arg_list(args, 0) {
            (h, Err(e)) => (h, Err(e)),
            (h, Ok(l)) => match h.arg_int(args, 1) {
                (h, Err(e)) => (h, Err(e)),
                (h, Ok(i)) => if 0 <= i < h.list(l).len() {
                    (h, Ok(Begin::Force(h.list(l)[i as int])))
                } else {
                    h.fail("list index "@ + int_text(i as int) + " is out of bounds"@)
                },
            },
        }
    }

    pub open spec fn bi_elem(self, args: usize) -> Started {
        match self.arg_list(args, 1) {
            (h, Err(e)) => (h, Err(e)),
            (h, Ok(items)) => match h.arg(args, 0) {
                (h, Err(e)) => (h, Err(e)),
                (h, Ok(x)) => (h, Ok(Begin::Cont(Cont::Elem { x, items, i: 0 }))),
            },
        }
    }

    /// One unperformed application of `f` per element.
    pub open spec fn map_pending(self, f: Value, items: Seq<usize>, i: int, out: Seq<usize>) -> (
        HeapView,
        Seq<usize>,
    )
        decreases items.len() - i,
    {
        if i >= items.len() {
            (self, out)
        } else {
            let (h, s) = self.pending_slot(f, seq![items[i]]);
            h.map_pending(f, items, i + 1, out.push(s))
        }
    }

    /// A function argument and a list argument.
    pub open spec fn fun_and_list(self, args: usize) -> (HeapView, Result<(Value, usize), Fault>) {
        match self.argv(args, 0) {
            (h, Err(e)) => (h, Err(e)),
            (h, Ok(f)) => match h.arg_list(args, 1) {
                (h, Err(e)) => (h, Err(e)),
                (h, Ok(l)) => (h, Ok((f, l))),
            },
        }
    }

    pub open spec fn bi_map(self, args: usize) -> Started {
        match self.fun_and_list(args) {
            (h, Err(e)) => (h, Err(e)),
            (h, Ok((f, l))) => {
                let (h, out) = h.map_pending(f, h.list(l), 0, Seq::empty());
                let (h, v) = h.list_value(out);
                (h, Ok(Begin::Done(v)))
            },
        }
    }

    pub open spec fn bi_filter(self, args: usize) -> Started {
        match self.fun_and_list(args) {
            (h, Err(e)) => (h, Err(e)),
            (h, Ok((f, items))) => {
                let (h, out) = h.new_list(Seq::empty());
                (h, Ok(Begin::Cont(Cont::Filter { f, items, i: 0, out })))
            },
        }
    }

    pub open spec fn any_all(self, args: usize, want: bool) -> Started {
        match self.fun_and_list(args) {
            (h, Err(e)) => (h, Err(e)),
            (h, Ok((f, items))) => (h, Ok(Begin::Cont(Cont::AnyAll { f, items, i: 0, want }))),
        }
    }

    /// Force every element of a list argument, then finish.
    pub open spec fn force_each(self, items: usize, finish: Finish) -> Started {
        let (h, vals) = self.new_work(Seq::empty());
        (h, Ok(Begin::Cont(Cont::ForceEach { items, i: 0, vals, finish })))
    }

    pub open spec fn bi_concat_lists(self, args: usize) -> Started {
        match self.arg_list(args, 0) {
            (h, Err(e)) => (h, Err(e)),
            (h, Ok(items)) => h.force_each(items, Finish::ConcatLists),
        }
    }

    pub open spec fn bi_concat_map(self, args: usize) -> Started {
        match self.fun_and_list(args) {
            (h, Err(e)) => (h, Err(e)),
            (h, Ok((f, items))) => {
                let (h, out) = h.new_list(Seq::empty());
                (h, Ok(Begin::Cont(Cont::ConcatMap { f, items, i: 0, out })))
            },
        }
    }

    /// Unperformed applications of `f` to the numbers from `i` to `n`.
    pub open spec fn gen_pending(self, f: Value, n: int, i: int, out: Seq<usize>) -> (
        HeapView,
        Seq<usize>,
    )
        decreases n - i,
    {
        if i >= n {
            (self, out)
        } else {
            let (h, num) = self.value_slot(Value::Int(i as i64));
            let (h, s) = h.pending_slot(f, seq![num]);
            h.gen_pending(f, n, i + 1, out.push(s))
        }
    }

    pub open spec fn bi_gen_list(self, args: usize) -> Started {
        match self.argv(args, 0) {
            (h, Err(e)) => (h, Err(e)),
            (h, Ok(f)) => match h.arg_int(args, 1) {
                (h, Err(e)) => (h, Err(e)),
                (h, Ok(n)) => if n < 0 {
                    h.fail("cannot create list of size "@ + int_text(n as int))
                } else {
                    let (h, out) = h.gen_pending(f, n as int, 0, Seq::empty());
                    let (h, v) = h.list_value(out);
                    (h, Ok(Begin::Done(v)))
                },
            },
        }
    }

    pub open spec fn bi_foldl_strict(self, args: usize) -> Started {
        match self.argv(args, 0) {
            (h, Err(e)) => (h, Err(e)),
            (h, Ok(f)) => match h.arg(args, 1) {
                (h, Err(e)) => (h, Err(e)),
                (h, Ok(acc)) => match h.arg_list(args, 2) {
                    (h, Err(e)) => (h, Err(e)),
                    (h, Ok(items)) => (
                        h,
                        Ok(
                            Begin::Cont(
                                Cont::Foldl {
                                    f,
                                    items,
                                    i: 0,
                                    acc,
                                    half: false,
                                    finishing: false,
                                },
                            ),
                        ),
                    ),
                },
            },
        }
    }

    pub open spec fn bi_sort(self, args: usize) -> Started {
        match self.fun_and_list(args) {
            (h, Err(e)) => (h, Err(e)),
            (h, Ok((f, items))) => {
                let (h, sorted) = h.new_list(Seq::empty());
                (
                    h,
                    Ok(Begin::Cont(Cont::Sort { f, items, next: 0, sorted, probe: 0, half: false })),
                )
            },
        }
    }

    pub open spec fn bi_partition(self, args: usize) -> Started {
        match self.fun_and_list(args) {
            (h, Err(e)) => (h, Err(e)),
            (h, Ok((f, items))) => {
                let (h, right) = h.new_list(Seq::empty());
                let (h, wrong) = h.new_list(Seq::empty());
                (h, Ok(Begin::Cont(Cont::Partition { f, items, i: 0, right, wrong })))
            },
        }
    }

    pub open spec fn bi_group_by(self, args: usize) -> Started {
        match self.fun_and_list(args) {
            (h, Err(e)) => (h, Err(e)),
            (h, Ok((f, items))) => {
                let (h, out) = h.new_set(Seq::empty());
                (h, Ok(Begin::Cont(Cont::GroupBy { f, items, i: 0, out })))
            },
        }
    }

    pub open spec fn bi_type_of(self, args: usize) -> Started {
        match self.argv(args, 0) {
            (h, Err(e)) => (h, Err(e)),
            (h, Ok(v)) => {
                let (h, s) = h.str_value(type_word(v));
                (h, Ok(Begin::Done(s)))
            },
        }
    }

    pub open spec fn bi_is(self, args: usize, t: Test) -> Started {
        match self.argv(args, 0) {
            (h, Err(e)) => (h, Err(e)),
            (h, Ok(v)) => (h, Ok(Begin::Done(Value::Bool(passes(t, v))))),
        }
    }

    /// Two number arguments, integer where both are.
    pub open spec fn num_op(self, args: usize, op: Arith) -> Started {
        match self.argv(args, 0) {
            (h, Err(e)) => (h, Err(e)),
            (h, Ok(a)) => match h.argv(args, 1) {
                (h, Err(e)) => (h, Err(e)),
                (h, Ok(b)) => if op == Arith::Div && b == Value::Int(0) {
                    h.fail("division by zero"@)
                } else {
                    match (a, b) {
                        (Value::Int(x), Value::Int(y)) => match int_arith(op, x, y) {
                            Some(n) => (h, Ok(Begin::Done(Value::Int(n)))),
                            None => h.fail("integer overflow"@),
                        },
                        _ => match h.want_num(a) {
                            (h, Err(e)) => (h, Err(e)),
                            (h, Ok(x)) => match h.want_num(b) {
                                (h, Err(e)) => (h, Err(e)),
                                (h, Ok(y)) => (
                                    h,
                                    Ok(Begin::Sub(float_task(float_arith(op, x, y)))),
                                ),
                            },
                        },
                    }
                },
            },
        }
    }

    pub open spec fn bi_less_than(self, args: usize) -> Started {
        match self.argv(args, 0) {
            (h, Err(e)) => (h, Err(e)),
            (h, Ok(a)) => match h.argv(args, 1) {
                (h, Err(e)) => (h, Err(e)),
                (h, Ok(b)) => {
                    let (h, t) = h.compare(a, b, false);
                    (h, Ok(Begin::Sub(t)))
                },
            },
        }
    }

    pub open spec fn bit_op(self, args: usize, op: Bits) -> Started {
        match self.arg_int(args, 0) {
            (h, Err(e)) => (h, Err(e)),
            (h, Ok(a)) => match h.arg_int(args, 1) {
                (h, Err(e)) => (h, Err(e)),
                (h, Ok(b)) => (h, Ok(Begin::Done(Value::Int(bits(op, a, b))))),
            },
        }
    }

    pub open spec fn bi_round(self, args: usize, up: bool) -> Started {
        match self.argv(args, 0) {
            (h, Err(e)) => (h, Err(e)),
            (h, Ok(v)) => match h.want_num(v) {
                (h, Err(e)) => (h, Err(e)),
                (h, Ok(x)) => (
                    h,
                    Ok(
                        Begin::Sub(
                            float_task(
                                if up {
                                    FloatAsk::Ceil(x)
                                } else {
                                    FloatAsk::Floor(x)
                                },
                            ),
                        ),
                    ),
                ),
            },
        }
    }
}

/// A vector of one element.
pub fn one(x: usize) -> (v: Vec<usize>)
    ensures
        v@ == seq![x],
{
    let mut v: Vec<usize> = Vec::new();
    v.push(x);
    assert(v@ =~= seq![x]);
    v
}

/// A vector of two elements.
pub fn two(x: usize, y: usize) -> (v: Vec<usize>)
    ensures
        v@ == seq![x, y],
{
    let mut v: Vec<usize> = Vec::new();
    v.push(x);
    v.push(y);
    assert(v@ =~= seq![x, y]);
    v
}

impl Heap {
    pub fn want_num(&mut self, v: Value) -> (r: Result<Num, Fault>)
        ensures
            old(self)@.want_num(v) == (final(self)@, r),
    {
        match v {
            Value::Int(n) => Ok(Num::Int(n)),
            Value::Float(x) => Ok(Num::Float(x)),
            _ => self.fail_type("expected an integer or float but found ", v),
        }
    }

    pub fn bi_length(&mut self, args: usize) -> (r: Result<Begin, Fault>)
        ensures
            old(self)@.bi_length(args) == (final(self)@, r),
    {
        match self.arg_list(args, 0) {
            Err(e) => Err(e),
            Ok(l) => Ok(Begin::Done(Value::Int(self.list_len(l) as i64))),
        }
    }

    pub fn bi_head(&mut self, args: usize) -> (r: Result<Begin, Fault>)
        ensures
            old(self)@.bi_head(args) == (final(self)@, r),
    {
        match self.arg_list(args, 0) {
            Err(e) => Err(e),
            Ok(l) => match self.list_get(l, 0) {
                Some(s) => Ok(Begin::Force(s)),
                None => self.fail_str("list index 0 is out of bounds"),
            },
        }
    }

    pub fn bi_tail(&mut self, args: usize) -> (r: Result<Begin, Fault>)
        ensures
            old(self)@.bi_tail(args) == (final(self)@, r),
    {
        match self.arg_list(args, 0) {
            Err(e) => Err(e),
            Ok(l) => {
                let mut items = self.list(l);
                if items.len() == 0 {
                    return self.fail_str("'tail' called on an empty list");
                }
                let ghost all = items@;
                let _ = items.remove(0);
                assert(items@ =~= all.drop_first());
                Ok(Begin::Done(self.list_value(items)))
            },
        }
    }

    pub fn bi_elem_at(&mut self, args: usize) -> (r: Result<Begin, Fault>)
        ensures
            old(self)@.bi_elem_at(args) == (final(self)@, r),
    {
        match self.arg_list(args, 0) {
            Err(e) => Err(e),
            Ok(l) => match self.arg_int(args, 1) {
                Err(e) => Err(e),
                Ok(i) => {
                    let n = self.list_len(l);
                    if 0 <= i && (i as u64) < n as u64 {
                        match self.list_get(l, i as usize) {
                            Some(s) => {
                                return Ok(Begin::Force(s));
                            },
                            None => {},
                        }
                    }
                    let mut t: Text = Vec::new();
                    append_int(&mut t, i as i128);
                    assert(t@ =~= int_text(i as int));
                    self.fail_with("list index ", &t, " is out of bounds")
                },
            },
        }
    }

    pub fn bi_elem(&mut self, args: usize) -> (r: Result<Begin, Fault>)
        ensures
            old(self)@.bi_elem(args) == (final(self)@, r),
    {
        match self.arg_list(args, 1) {
            Err(e) => Err(e),
            Ok(items) => match self.arg(args, 0) {
                Err(e) => Err(e),
                Ok(x) => Ok(Begin::Cont(Cont::Elem { x, items, i: 0 })),
            },
        }
    }

    fn fun_and_list(&mut self, args: usize) -> (r: Result<(Value, usize), Fault>)
        ensures
            old(self)@.fun_and_list(args) == (final(self)@, r),
    {
        match self.argv(args, 0) {
            Err(e) => Err(e),
            Ok(f) => match self.arg_list(args, 1) {
                Err(e) => Err(e),
                Ok(l) => Ok((f, l)),
            },
        }
    }

    pub fn bi_map(&mut self, args: usize) -> (r: Result<Begin, Fault>)
        ensures
            old(self)@.bi_map(args) == (final(self)@, r),
    {
        match self.fun_and_list(args) {
            Err(e) => Err(e),
            Ok((f, l)) => {
                let items = self.list(l);
                let ghost h0 = self@;
                let mut out: Vec<usize> = Vec::new();
                let mut i: usize = 0;
                while i < items.len()
                    invariant
                        i <= items.len(),
                        self@.map_pending(f, items@, i as int, out@) == h0.map_pending(
                            f,
                            items@,
                            0,
                            Seq::empty(),
                        ),
                    decreases items.len() - i,
                {
                    let s = self.pending_slot(f, one(items[i]));
                    out.push(s);
                    i += 1;
                }
                Ok(Begin::Done(self.list_value(out)))
            },
        }
    }

    pub fn bi_filter(&mut self, args: usize) -> (r: Result<Begin, Fault>)
        ensures
            old(self)@.bi_filter(args) == (final(self)@, r),
    {
        match self.fun_and_list(args) {
            Err(e) => Err(e),
            Ok((f, items)) => {
                let out = self.new_list(Vec::new());
                Ok(Begin::Cont(Cont::Filter { f, items, i: 0, out }))
            },
        }
    }

    pub fn any_all(&mut self, args: usize, want: bool) -> (r: Result<Begin, Fault>)
        ensures
            old(self)@.any_all(args, want) == (final(self)@, r),
    {
        match self.fun_and_list(args) {
            Err(e) => Err(e),
            Ok((f, items)) => Ok(Begin::Cont(Cont::AnyAll { f, items, i: 0, want })),
        }
    }

    pub fn force_each(&mut self, items: usize, finish: Finish) -> (r: Result<Begin, Fault>)
        ensures
            old(self)@.force_each(items, finish) == (final(self)@, r),
    {
        let vals = self.new_work(Vec::new());
        Ok(Begin::Cont(Cont::ForceEach { items, i: 0, vals, finish }))
    }

    pub fn bi_concat_lists(&mut self, args: usize) -> (r: Result<Begin, Fault>)
        ensures
            old(self)@.bi_concat_lists(args) == (final(self)@, r),
    {
        match self.arg_list(args, 0) {
            Err(e) => Err(e),
            Ok(items) => self.force_each(items, Finish::ConcatLists),
        }
    }

    pub fn bi_concat_map(&mut self, args: usize) -> (r: Result<Begin, Fault>)
        ensures
            old(self)@.bi_concat_map(args) == (final(self)@, r),
    {
        match self.fun_and_list(args) {
            Err(e) => Err(e),
            Ok((f, items)) => {
                let out = self.new_list(Vec::new());
                Ok(Begin::Cont(Cont::ConcatMap { f, items, i: 0, out }))
            },
        }
    }

    pub fn bi_gen_list(&mut self, args: usize) -> (r: Result<Begin, Fault>)
        ensures
            old(self)@.bi_gen_list(args) == (final(self)@, r),
    {
        match self.argv(args, 0) {
            Err(e) => Err(e),
            Ok(f) => match self.arg_int(args, 1) {
                Err(e) => Err(e),
                Ok(n) => {
                    if n < 0 {
                        let mut t: Text = Vec::new();
                        append_int(&mut t, n as i128);
                        let r = self.fail_with("cannot create list of size ", &t, "");
                        proof {
                            assert(""@ =~= Seq::<char>::empty()) by {
                                reveal_strlit("");
                            }
                            assert("cannot create list of size "@ + t@ + ""@
                                =~= "cannot create list of size "@ + int_text(n as int));
                        }
                        return r;
                    }
                    let ghost h0 = self@;
                    let mut out: Vec<usize> = Vec::new();
                    let mut i: i64 = 0;
                    while i < n
                        invariant
                            0 <= i <= n,
                            self@.gen_pending(f, n as int, i as int, out@) == h0.gen_pending(
                                f,
                                n as int,
                                0,
                                Seq::empty(),
                            ),
                        decreases n - i,
                    {
                        let num = self.value_slot(Value::Int(i));
                        let s = self.pending_slot(f, one(num));
                        out.push(s);
                        i += 1;
                    }
                    Ok(Begin::Done(self.list_value(out)))
                },
            },
        }
    }

    pub fn bi_foldl_strict(&mut self, args: usize) -> (r: Result<Begin, Fault>)
        ensures
            old(self)@.bi_foldl_strict(args) == (final(self)@, r),
    {
        match self.argv(args, 0) {
            Err(e) => Err(e),
            Ok(f) => match self.arg(args, 1) {
                Err(e) => Err(e),
                Ok(acc) => match self.arg_list(args, 2) {
                    Err(e) => Err(e),
                    Ok(items) => Ok(
                        Begin::Cont(
                            Cont::Foldl { f, items, i: 0, acc, half: false, finishing: false },
                        ),
                    ),
                },
            },
        }
    }

    pub fn bi_sort(&mut self, args: usize) -> (r: Result<Begin, Fault>)
        ensures
            old(self)@.bi_sort(args) == (final(self)@, r),
    {
        match self.fun_and_list(args) {
            Err(e) => Err(e),
            Ok((f, items)) => {
                let sorted = self.new_list(Vec::new());
                Ok(Begin::Cont(Cont::Sort { f, items, next: 0, sorted, probe: 0, half: false }))
            },
        }
    }

    pub fn bi_partition(&mut self, args: usize) -> (r: Result<Begin, Fault>)
        ensures
            old(self)@.bi_partition(args) == (final(self)@, r),
    {
        match self.fun_and_list(args) {
            Err(e) => Err(e),
            Ok((f, items)) => {
                let right = self.new_list(Vec::new());
                let wrong = self.new_list(Vec::new());
                Ok(Begin::Cont(Cont::Partition { f, items, i: 0, right, wrong }))
            },
        }
    }

    pub fn bi_group_by(&mut self, args: usize) -> (r: Result<Begin, Fault>)
        ensures
            old(self)@.bi_group_by(args) == (final(self)@, r),
    {
        match self.fun_and_list(args) {
            Err(e) => Err(e),
            Ok((f, items)) => {
                let out = self.new_set(Vec::new());
                Ok(Begin::Cont(Cont::GroupBy { f, items, i: 0, out }))
            },
        }
    }

    pub fn bi_type_of(&mut self, args: usize) -> (r: Result<Begin, Fault>)
        ensures
            old(self)@.bi_type_of(args) == (final(self)@, r),
    {
        match self.argv(args, 0) {
            Err(e) => Err(e),
            Ok(v) => {
                let word = match v {
                    Value::Int(_) => "int",
                    Value::Float(_) => "float",
                    Value::Bool(_) => "bool",
                    Value::Null => "null",
                    Value::Str(_) => "string",
                    Value::Path(_) => "path",
                    Value::List(_) => "list",
                    Value::Attrs(_) => "set",
                    Value::Closure { .. } => "lambda",
                    Value::Builtin { .. } => "lambda",
                };
                Ok(Begin::Done(self.str_value(text_of(word))))
            },
        }
    }

    pub fn bi_is(&mut self, args: usize, t: Test) -> (r: Result<Begin, Fault>)
        ensures
            old(self)@.bi_is(args, t) == (final(self)@, r),
    {
        match self.argv(args, 0) {
            Err(e) => Err(e),
            Ok(v) => Ok(Begin::Done(Value::Bool(test_passes(t, v)))),
        }
    }

    pub fn num_op(&mut self, args: usize, op: Arith) -> (r: Result<Begin, Fault>)
        ensures
            old(self)@.num_op(args, op) == (final(self)@, r),
    {
        let a = match self.argv(args, 0) {
            Ok(v) => v,
            Err(e) => {
                return Err(e);
            },
        };
        let b = match self.argv(args, 1) {
            Ok(v) => v,
            Err(e) => {
                return Err(e);
            },
        };
        if op == Arith::Div && b == Value::Int(0) {
            return self.fail_str("division by zero");
        }
        match (a, b) {
            (Value::Int(x), Value::Int(y)) => match int_arith_of(op, x, y) {
                Some(n) => Ok(Begin::Done(Value::Int(n))),
                None => self.fail_str("integer overflow"),
            },
            _ => match self.want_num(a) {
                Err(e) => Err(e),
                Ok(x) => match self.want_num(b) {
                    Err(e) => Err(e),
                    Ok(y) => Ok(Begin::Sub(new_float_task(float_arith_of(op, x, y)))),
                },
            },
        }
    }

    pub fn bi_less_than(&mut self, args: usize) -> (r: Result<Begin, Fault>)
        ensures
            old(self)@.bi_less_than(args) == (final(self)@, r),
    {
        match self.argv(args, 0) {
            Err(e) => Err(e),
            Ok(a) => match self.argv(args, 1) {
                Err(e) => Err(e),
                Ok(b) => Ok(Begin::Sub(self.compare(a, b, false))),
            },
        }
    }

    pub fn bit_op(&mut self, args: usize, op: Bits) -> (r: Result<Begin, Fault>)
        ensures
            old(self)@.bit_op(args, op) == (final(self)@, r),
    {
        match self.arg_int(args, 0) {
            Err(e) => Err(e),
            Ok(a) => match self.arg_int(args, 1) {
                Err(e) => Err(e),
                Ok(b) => {
                    let n = match op {
                        Bits::And => a & b,
                        Bits::Or => a | b,
                        Bits::Xor => a ^ b,
                    };
                    Ok(Begin::Done(Value::Int(n)))
                },
            },
        }
    }

    pub fn bi_round(&mut self, args: usize, up: bool) -> (r: Result<Begin, Fault>)
        ensures
            old(self)@.bi_round(args, up) == (final(self)@, r),
    {
        match self.argv(args, 0) {
            Err(e) => Err(e),
            Ok(v) => match self.want_num(v) {
                Err(e) => Err(e),
                Ok(x) => Ok(
                    Begin::Sub(
                        new_float_task(
                            if up {
                                FloatAsk::Ceil(x)
                            } else {
                                FloatAsk::Floor(x)
                            },
                        ),
                    ),
                ),
            },
        }
    }
}

} // verus!
